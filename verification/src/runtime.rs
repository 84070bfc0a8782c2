//! Shared runtime state: the revision clock, its latest-value watch, and
//! the bounded event bus.

use vstd::prelude::*;
use crate::key::{fnv1a, Key, QueryKindId};
use crate::revision::Revision;

verus! {

/// Notifications emitted by a [`Runtime`].
#[derive(Clone, Debug)]
pub enum RuntimeEvent {
    /// The global revision counter was bumped.
    RevisionBumped {
        /// New revision value.
        revision: Revision,
    },
    /// The global revision counter was set directly, usually by a cache load.
    RevisionSet {
        /// New revision value.
        revision: Revision,
    },
    /// An input value was set.
    InputSet {
        /// Revision at which the input was set.
        revision: Revision,
        /// Kind id of the input ingredient.
        kind: QueryKindId,
        /// Stable hash of the encoded key bytes, for diagnostics.
        key_hash: u64,
        /// The encoded key bytes.
        key: Key,
    },
    /// An input value was removed.
    InputRemoved {
        /// Revision at which the input was removed.
        revision: Revision,
        /// Kind id of the input ingredient.
        kind: QueryKindId,
        /// Stable hash of the encoded key bytes, for diagnostics.
        key_hash: u64,
        /// The encoded key bytes.
        key: Key,
    },
}

#[verifier::external_type_specification]
#[verifier::external_body]
#[verifier::reject_recursive_types(T)]
pub struct ExWatchSender<T>(tokio::sync::watch::Sender<T>);

#[verifier::external_type_specification]
#[verifier::external_body]
#[verifier::reject_recursive_types(T)]
pub struct ExWatchReceiver<T>(tokio::sync::watch::Receiver<T>);

#[verifier::external_type_specification]
#[verifier::external_body]
#[verifier::reject_recursive_types(T)]
pub struct ExBroadcastSender<T>(tokio::sync::broadcast::Sender<T>);

#[verifier::external_type_specification]
#[verifier::external_body]
#[verifier::reject_recursive_types(T)]
pub struct ExBroadcastReceiver<T>(tokio::sync::broadcast::Receiver<T>);

/// Relies on `tokio::sync::watch::channel`: makes a watch holding
/// `initial` and hands back its send side.
#[verifier::external_body]
fn new_revision_watch(initial: Revision) -> tokio::sync::watch::Sender<Revision> {
    tokio::sync::watch::channel(initial).0
}

/// Relies on `watch::Sender::send_replace`: publishes `value` as the
/// watch's latest value, whether or not anyone is subscribed.
#[verifier::external_body]
fn watch_publish(tx: &tokio::sync::watch::Sender<Revision>, value: Revision) {
    tx.send_replace(value);
}

/// Relies on `watch::Sender::subscribe`: a new receiver seeded with the
/// latest published value.
#[verifier::external_body]
fn watch_subscribe(
    tx: &tokio::sync::watch::Sender<Revision>,
) -> tokio::sync::watch::Receiver<Revision> {
    tx.subscribe()
}

/// Relies on `tokio::sync::broadcast::channel`: makes a bus that keeps up
/// to `capacity` events for each receiver, dropping the oldest on lag.
/// The call panics on a capacity of zero or above `usize::MAX / 2`.
#[verifier::external_body]
fn new_event_channel(capacity: usize) -> tokio::sync::broadcast::Sender<RuntimeEvent>
    requires
        1 <= capacity <= usize::MAX / 2,
{
    tokio::sync::broadcast::channel(capacity).0
}

/// Relies on `broadcast::Sender::send`: delivers `event` to current
/// receivers; the error for an unobserved bus is deliberately dropped, so
/// the producer never blocks.
#[verifier::external_body]
fn event_publish(tx: &tokio::sync::broadcast::Sender<RuntimeEvent>, event: RuntimeEvent) {
    let _ = tx.send(event);
}

/// Relies on `broadcast::Sender::subscribe`: a new receiver that sees
/// events published from now on.
#[verifier::external_body]
fn event_subscribe(
    tx: &tokio::sync::broadcast::Sender<RuntimeEvent>,
) -> tokio::sync::broadcast::Receiver<RuntimeEvent> {
    tx.subscribe()
}

/// How many events the bus keeps for a lagging receiver.
const EVENT_CHANNEL_CAPACITY: usize = 1024;

/// Shared runtime state for a database: primarily the current revision.
#[derive(Debug)]
pub struct Runtime {
    current: u64,
    revision_tx: tokio::sync::watch::Sender<Revision>,
    events_tx: tokio::sync::broadcast::Sender<RuntimeEvent>,
}

impl Runtime {
    /// The current revision as a number.
    pub closed spec fn rev(self) -> u64 {
        self.current
    }

    /// Create a new runtime starting at revision 0.
    pub fn new() -> (r: Runtime)
        ensures
            r.rev() == 0,
    {
        Runtime {
            current: 0,
            revision_tx: new_revision_watch(Revision(0)),
            events_tx: new_event_channel(EVENT_CHANNEL_CAPACITY),
        }
    }

    /// Read the current revision.
    pub fn current_revision(&self) -> (r: Revision)
        ensures
            r.0 == self.rev(),
    {
        Revision(self.current)
    }

    /// Subscribe to revision changes; intermediate values may coalesce.
    pub fn subscribe_revisions(&self) -> tokio::sync::watch::Receiver<Revision> {
        watch_subscribe(&self.revision_tx)
    }

    /// Subscribe to runtime events; a lagging receiver drops the oldest.
    pub fn subscribe_events(&self) -> tokio::sync::broadcast::Receiver<RuntimeEvent> {
        event_subscribe(&self.events_tx)
    }

    /// Bump the current revision by one, publish it, and return it.
    pub fn bump_revision(&mut self) -> (r: Revision)
        requires
            old(self).rev() < u64::MAX,
        ensures
            final(self).rev() == old(self).rev() + 1,
            r.0 == final(self).rev(),
    {
        let next = self.current + 1;
        self.current = next;
        let rev = Revision(next);
        watch_publish(&self.revision_tx, rev);
        event_publish(&self.events_tx, RuntimeEvent::RevisionBumped { revision: rev });
        rev
    }

    /// Set the current revision directly and publish it; used by cache
    /// loading.
    pub fn set_current_revision(&mut self, revision: Revision)
        ensures
            final(self).rev() == revision.0,
    {
        self.current = revision.0;
        watch_publish(&self.revision_tx, revision);
        event_publish(&self.events_tx, RuntimeEvent::RevisionSet { revision });
    }

    /// Emit an input change event carrying the key and its stable hash.
    pub fn notify_input_set(&self, revision: Revision, kind: QueryKindId, key: Key) {
        let key_hash = key.hash();
        event_publish(
            &self.events_tx,
            RuntimeEvent::InputSet { revision, kind, key_hash, key },
        );
    }

    /// Emit an input removal event carrying the key and its stable hash.
    pub fn notify_input_removed(&self, revision: Revision, kind: QueryKindId, key: Key) {
        let key_hash = key.hash();
        event_publish(
            &self.events_tx,
            RuntimeEvent::InputRemoved { revision, kind, key_hash, key },
        );
    }
}

impl Default for Runtime {
    /// A runtime starting at revision 0.
    fn default() -> (r: Runtime)
        ensures
            r.rev() == 0,
    {
        Runtime::new()
    }
}

/// Database types that expose a [`Runtime`].
pub trait HasRuntime {
    /// Access the database runtime.
    fn runtime(&self) -> &Runtime;
}

} // verus!
