use vstd::prelude::*;

use crate::backend::class::{Duplicate, SnapshotedUpdate, State};
use serde_json::Value;

verus! {

/// A JSON value, as serde_json gives it: carried through, never inspected.
#[verifier::external_type_specification]
#[verifier::external_body]
pub struct ExValue(serde_json::Value);

/// A serde_json failure, carried through as the cause of a codec error.
#[verifier::external_type_specification]
#[verifier::external_body]
pub struct ExJsonError(serde_json::Error);

/// The tag that marks a snapshot entry. No update may use it.
pub const SNAPSHOT_TAG: &'static str = "snapshot";

/// A tag that no variant of the update type has.
#[derive(Debug, PartialEq, Eq, PartialOrd, Ord, Hash, Clone)]
pub struct UnknownUpdateTag(pub String);

impl UnknownUpdateTag {
    /// Human readable description of the error.
    pub fn message(&self) -> (r: String)
        ensures
            r@ == "Given UpdateTag '"@ + self.0@ + "' is unknown"@,
    {
        let mut m = "Given UpdateTag '".to_owned();
        m.append(self.0.as_str());
        m.append("' is unknown");
        m
    }
}

/// Why a stored body could not be decoded, or a value not encoded.
#[derive(Debug)]
pub enum UpdateBodyError {
    /// The tag is not one of the update type's variants.
    UnknownTag(UnknownUpdateTag),
    /// The body does not match the shape of this version and tag:
    /// version, tag, cause and the raw body.
    Deserialize(u16, String, serde_json::Error, Value),
    /// Encoding the value failed: tag and cause.
    Serialize(String, serde_json::Error),
    /// No known upgrade path from this version.
    UnexpectedVersion(u16),
    /// An update carries the tag reserved for snapshots.
    ReservedTag(String),
}

/// An update type that names each value with a tag and a version, and
/// encodes its payload without them.
pub trait HasUpdateTag: Sized {
    /// What decoding `body` under `tag` and `version` gives.
    spec fn decoded(tag: String, version: u16, body: Value) -> Result<Self, UpdateBodyError>;

    /// The tag of the value's variant.
    spec fn tag_spec(&self) -> String;

    /// The schema version of the value's payload.
    spec fn version_spec(&self) -> u16;

    /// What encoding the payload gives.
    spec fn encoded(&self) -> Result<Value, UpdateBodyError>;

    /// Decode a body according to its tag and version.
    fn deserialize_by_tag(tag: &String, version: u16, value: Value) -> (r: Result<
        Self,
        UpdateBodyError,
    >)
        ensures
            r == Self::decoded(*tag, version, value),
    ;

    /// The tag of the value. It must not be the snapshot tag.
    fn get_tag(&self) -> (r: String)
        ensures
            r == self.tag_spec(),
    ;

    /// The current version of the value.
    fn get_version(&self) -> (r: u16)
        ensures
            r == self.version_spec(),
    ;

    /// Encode the payload alone: for an enum variant `A(x)`, the encoding of `x`.
    fn serialize_untagged(&self) -> (r: Result<Value, UpdateBodyError>)
        ensures
            r == self.encoded(),
    ;
}

/// A state type that encodes itself for snapshots, keyed by its version.
pub trait VersionedState: Sized {
    /// What decoding a snapshot body of `version` gives.
    spec fn decoded_state(version: u16, body: Value) -> Result<Self, UpdateBodyError>;

    /// The schema version of the state.
    spec fn state_version(&self) -> u16;

    /// What encoding the state gives.
    spec fn encoded_state(&self) -> Result<Value, UpdateBodyError>;

    /// Decode a snapshot body of the given version.
    fn deserialize_with_version(version: u16, value: Value) -> (r: Result<Self, UpdateBodyError>)
        ensures
            r == Self::decoded_state(version, value),
    ;

    /// The current version of the state.
    fn get_version(&self) -> (r: u16)
        ensures
            r == self.state_version(),
    ;

    /// Encode the state with its current version in mind.
    fn serialize(&self) -> (r: Result<Value, UpdateBodyError>)
        ensures
            r == self.encoded_state(),
    ;
}

impl<Upd: HasUpdateTag + Duplicate, St: State<Update = Upd> + VersionedState> SnapshotedUpdate<St> {
    /// `tag` is a tag that `get_tag` gives for this entry.
    pub open spec fn tag_is(&self, tag: String) -> bool {
        match self {
            SnapshotedUpdate::Snapshot(_) => tag@ == SNAPSHOT_TAG@,
            SnapshotedUpdate::Incremental(u) => tag == u.tag_spec(),
        }
    }

    /// The version stored with the entry.
    pub open spec fn version_of(&self) -> u16 {
        match self {
            SnapshotedUpdate::Snapshot(s) => s.state_version(),
            SnapshotedUpdate::Incremental(u) => u.version_spec(),
        }
    }

    /// The stored body of the entry; an update with the snapshot tag is refused.
    pub open spec fn encoded(&self) -> Result<Value, UpdateBodyError> {
        match self {
            SnapshotedUpdate::Snapshot(s) => s.encoded_state(),
            SnapshotedUpdate::Incremental(u) => if u.tag_spec()@ == SNAPSHOT_TAG@ {
                Err(UpdateBodyError::ReservedTag(u.tag_spec()))
            } else {
                u.encoded()
            },
        }
    }

    /// The entry a stored record decodes to: the snapshot tag goes to the
    /// state's decoder, every other tag to the update's.
    pub open spec fn decoded(tag: String, version: u16, body: Value) -> Result<
        Self,
        UpdateBodyError,
    > {
        if tag@ == SNAPSHOT_TAG@ {
            match St::decoded_state(version, body) {
                Ok(s) => Ok(SnapshotedUpdate::Snapshot(s)),
                Err(e) => Err(e),
            }
        } else {
            match Upd::decoded(tag, version, body) {
                Ok(u) => Ok(SnapshotedUpdate::Incremental(u)),
                Err(e) => Err(e),
            }
        }
    }

    /// Decode a stored record into a log entry.
    pub fn deserialize_by_tag(tag: &String, version: u16, value: Value) -> (r: Result<
        Self,
        UpdateBodyError,
    >)
        ensures
            r == Self::decoded(*tag, version, value),
    {
        let snapshot = SNAPSHOT_TAG.to_owned();
        if *tag == snapshot {
            match St::deserialize_with_version(version, value) {
                Ok(s) => Ok(SnapshotedUpdate::Snapshot(s)),
                Err(e) => Err(e),
            }
        } else {
            match Upd::deserialize_by_tag(tag, version, value) {
                Ok(u) => Ok(SnapshotedUpdate::Incremental(u)),
                Err(e) => Err(e),
            }
        }
    }

    /// The tag stored with the entry.
    pub fn get_tag(&self) -> (r: String)
        ensures
            self.tag_is(r),
    {
        match self {
            SnapshotedUpdate::Snapshot(_) => SNAPSHOT_TAG.to_owned(),
            SnapshotedUpdate::Incremental(u) => u.get_tag(),
        }
    }

    /// The version stored with the entry.
    pub fn get_version(&self) -> (r: u16)
        ensures
            r == self.version_of(),
    {
        match self {
            SnapshotedUpdate::Snapshot(s) => VersionedState::get_version(s),
            SnapshotedUpdate::Incremental(u) => HasUpdateTag::get_version(u),
        }
    }

    /// The body stored with the entry.
    pub fn serialize_untagged(&self) -> (r: Result<Value, UpdateBodyError>)
        ensures
            r == self.encoded(),
    {
        match self {
            SnapshotedUpdate::Snapshot(s) => s.serialize(),
            SnapshotedUpdate::Incremental(u) => {
                let tag = u.get_tag();
                let snapshot = SNAPSHOT_TAG.to_owned();
                if tag == snapshot {
                    Err(UpdateBodyError::ReservedTag(tag))
                } else {
                    u.serialize_untagged()
                }
            },
        }
    }
}

/// The codec of log entries inverts itself: decoding what an entry encodes
/// to, under the tag and the version that it names, gives the entry back.
/// This holds wherever the update's or the state's own codec inverts itself
/// on the value inside, and the snapshot tag routes no update to the state.
pub proof fn lemma_round_trip<Upd: HasUpdateTag + Duplicate, St: State<Update = Upd> + VersionedState>(
    e: SnapshotedUpdate<St>,
    tag: String,
    body: Value,
)
    requires
        e.tag_is(tag),
        e.encoded() == Ok::<Value, UpdateBodyError>(body),
        match e {
            SnapshotedUpdate::Snapshot(s) => St::decoded_state(s.state_version(), body) == Ok::<
                St,
                UpdateBodyError,
            >(s),
            SnapshotedUpdate::Incremental(u) => Upd::decoded(u.tag_spec(), u.version_spec(), body)
                == Ok::<Upd, UpdateBodyError>(u),
        },
    ensures
        SnapshotedUpdate::<St>::decoded(tag, e.version_of(), body) == Ok::<
            SnapshotedUpdate<St>,
            UpdateBodyError,
        >(e),
{
}

} // verus!
