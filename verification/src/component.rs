//! Building blocks shared by every aggregate: identities, the envelope that
//! wraps a domain event with its versions and timestamp, and the small marker
//! traits of the domain model.

use vstd::prelude::*;

verus! {

/// Marker trait for value objects: immutable values compared by content.
pub trait ValueObject: PartialEq + Clone {

}

/// An entity is identified by an id that is unique in its context.
pub trait Entity {
    type Id;

    /// The identity of this entity.
    fn id(&self) -> Self::Id;
}

/// Marker trait for the messages that ask an aggregate to change.
pub trait Command {

}

/// Marker trait for the facts an aggregate emits when it has changed.
pub trait DomainEvent {

}

/// The version every persisted event payload currently carries.
pub const DOMAIN_EVENT_VERSION: i32 = 1;

/// Identity of an aggregate: a process-generated random 128-bit value,
/// assigned once at creation and never reused.
#[derive(Debug, Clone, Copy, PartialEq, Eq, Structural)]
pub struct AggregateID(u128);

impl View for AggregateID {
    type V = u128;

    closed spec fn view(&self) -> u128 {
        self.0
    }
}

impl AggregateID {
    /// Draw a fresh random identity.
    ///
    /// Relies on uuid::Uuid::new_v4 for the 128 random bits; nothing is
    /// assumed of the value drawn. Like allocation, the draw aborts the
    /// process if the operating system's randomness source fails.
    #[verifier::external_body]
    pub fn new() -> Self {
        AggregateID(uuid::Uuid::new_v4().as_u128())
    }

    /// Rebuild an identity from its raw value, as read back from storage.
    pub fn from_u128(value: u128) -> (r: Self)
        ensures
            r@ == value,
    {
        AggregateID(value)
    }

    /// The raw value, as written to storage.
    pub fn to_u128(&self) -> (r: u128)
        ensures
            r == self@,
    {
        self.0
    }
}

impl Default for AggregateID {
    fn default() -> Self {
        Self::new()
    }
}

impl ValueObject for AggregateID {

}

/// What an envelope holds, seen from specifications.
#[verifier::ext_equal]
pub ghost struct EnvelopeView<EV> {
    pub event: EV,
    pub aggregate_version: int,
    pub event_version: int,
    pub occurred_on: int,
}

/// Wraps a domain event with the aggregate version it was recorded at (the
/// version *before* it was applied), the schema version of its payload, and
/// the moment it happened (seconds since the Unix epoch). Immutable once made.
#[derive(Debug, Clone, PartialEq, Eq)]
pub struct DomainEventEnvelope<E: DomainEvent> {
    event: E,
    aggregate_version: i32,
    event_version: i32,
    occurred_on: i64,
}

impl<E: DomainEvent + View> View for DomainEventEnvelope<E> {
    type V = EnvelopeView<<E as View>::V>;

    closed spec fn view(&self) -> EnvelopeView<<E as View>::V> {
        EnvelopeView {
            event: self.event@,
            aggregate_version: self.aggregate_version as int,
            event_version: self.event_version as int,
            occurred_on: self.occurred_on as int,
        }
    }
}

/// The current time in seconds since the Unix epoch.
///
/// Relies on chrono::Utc::now; the clock's reading is not constrained.
#[verifier::external_body]
fn now_seconds() -> i64 {
    chrono::Utc::now().timestamp()
}

impl<E: DomainEvent + View> DomainEventEnvelope<E> {
    /// Wrap `event`, stamping it with the current time; whatever the clock
    /// read, the stamp sits within its 64-bit column.
    pub fn new(event: E, aggregate_version: i32, event_version: i32) -> (r: Self)
        ensures
            r@.event == event@,
            r@.aggregate_version == aggregate_version as int,
            r@.event_version == event_version as int,
            i64::MIN <= r@.occurred_on <= i64::MAX,
    {
        Self { event, aggregate_version, event_version, occurred_on: now_seconds() }
    }

    /// Rebuild an envelope read back from storage, timestamp included.
    pub fn from_parts(event: E, aggregate_version: i32, event_version: i32, occurred_on: i64) -> (r:
        Self)
        ensures
            r@ == (EnvelopeView {
                event: event@,
                aggregate_version: aggregate_version as int,
                event_version: event_version as int,
                occurred_on: occurred_on as int,
            }),
    {
        Self { event, aggregate_version, event_version, occurred_on }
    }

    /// The wrapped event.
    pub fn event(&self) -> (r: &E)
        ensures
            r@ == self@.event,
    {
        &self.event
    }

    /// The aggregate version this event was recorded at.
    pub fn aggregate_version(&self) -> (r: i32)
        ensures
            r as int == self@.aggregate_version,
    {
        self.aggregate_version
    }

    /// The schema version of the event payload.
    pub fn event_version(&self) -> (r: i32)
        ensures
            r as int == self@.event_version,
    {
        self.event_version
    }

    /// When the event happened, in seconds since the Unix epoch.
    pub fn occurred_on(&self) -> (r: i64)
        ensures
            r as int == self@.occurred_on,
    {
        self.occurred_on
    }
}

} // verus!
