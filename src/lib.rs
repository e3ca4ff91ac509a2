pub mod backend;
pub mod log;
pub mod util;
pub mod db;
pub mod update;
pub mod relational;
