//! The notification service: sole owner of the retained list.
//!
//! Domain events mutate the list through [`NotificationService::update`];
//! the close command is the same idempotent removal. Signal emission and
//! the bus connection live with the host, which owns a handle to this
//! state.

use crate::notification::{Notification, NotificationEvent, Urgency};
use vstd::prelude::*;

verus! {

/// The retained notification list, newest first, bounded by
/// `max_notifications`. `default_timeout` is the expiry the daemon applies
/// when a caller leaves the choice to the server.
#[derive(Debug)]
pub struct NotificationService {
    pub notifications: Vec<Notification>,
    pub max_notifications: usize,
    pub default_timeout: i32,
}

/// The service's lifecycle as its consumer sees it: a handle once the
/// connection stands, then a stream of domain events; an error is terminal
/// for the run.
#[derive(Debug)]
pub enum ServiceEvent {
    Init(NotificationService),
    Update(NotificationEvent),
    Error,
}

/// Where the service's connection stands: still being set up, relaying
/// events, or failed for this run.
#[derive(Debug, Clone, Copy, PartialEq, Eq, Structural)]
pub enum ConnectionState {
    Init,
    Active,
    Error,
}

/// What the transport reports: the setup finished (bus reached, object
/// registered, name acquired) or failed, or the event channel closed.
#[derive(Debug, Clone, Copy, PartialEq, Eq, Structural)]
pub enum ConnectionOutcome {
    SetupSucceeded,
    SetupFailed,
    ChannelClosed,
}

/// The connection lifecycle: setup moves `Init` to `Active` on success and
/// to `Error` on failure, a closed channel ends `Active`, and `Error` is
/// terminal for the run — nothing retries within one instantiation.
pub open spec fn spec_connection_step(
    state: ConnectionState,
    outcome: ConnectionOutcome,
) -> ConnectionState {
    match state {
        ConnectionState::Init => match outcome {
            ConnectionOutcome::SetupSucceeded => ConnectionState::Active,
            _ => ConnectionState::Error,
        },
        ConnectionState::Active => match outcome {
            ConnectionOutcome::ChannelClosed => ConnectionState::Error,
            _ => ConnectionState::Active,
        },
        ConnectionState::Error => ConnectionState::Error,
    }
}

/// Advance the connection lifecycle by one transport outcome. The error
/// state is terminal: no outcome leaves it.
pub fn connection_step(state: ConnectionState, outcome: ConnectionOutcome) -> (next:
    ConnectionState)
    ensures
        next == spec_connection_step(state, outcome),
        state == ConnectionState::Error ==> next == ConnectionState::Error,
{
    match state {
        ConnectionState::Init => match outcome {
            ConnectionOutcome::SetupSucceeded => ConnectionState::Active,
            _ => ConnectionState::Error,
        },
        ConnectionState::Active => match outcome {
            ConnectionOutcome::ChannelClosed => ConnectionState::Error,
            _ => ConnectionState::Active,
        },
        ConnectionState::Error => ConnectionState::Error,
    }
}

/// Whether some notification in the list carries the id.
pub open spec fn contains_notification_id(s: Seq<Notification>, id: u32) -> bool {
    exists|i: int| 0 <= i < s.len() && (#[trigger] s[i]).id == id
}

/// The list without the entries that carry the given id.
pub open spec fn remove_notification_id(s: Seq<Notification>, id: u32) -> Seq<Notification>
    decreases s.len(),
{
    if s.len() == 0 {
        s
    } else {
        let rest = remove_notification_id(s.drop_last(), id);
        if s.last().id == id {
            rest
        } else {
            rest.push(s.last())
        }
    }
}

/// Whether a notification is display-only: transient and not critical.
/// Such a record never enters the retained list.
pub open spec fn is_display_only(n: Notification) -> bool {
    n.transient && n.urgency != Urgency::Critical
}

/// What one domain event does to the list. A notify first drops any entry
/// with the same id (replacement), then — unless the record is
/// display-only — inserts the new record at the head and trims the tail to
/// the bound. A close drops the id if present and is otherwise a no-op.
pub open spec fn spec_apply_event(
    s: Seq<Notification>,
    event: NotificationEvent,
    max: int,
) -> Seq<Notification> {
    match event {
        NotificationEvent::Notify(n) => {
            let without = remove_notification_id(s, n.id);
            if is_display_only(n) {
                without
            } else {
                let inserted = seq![n] + without;
                if inserted.len() > max {
                    inserted.take(max)
                } else {
                    inserted
                }
            }
        },
        NotificationEvent::Closed(id, _reason) => remove_notification_id(s, id),
    }
}

/// At most one entry per id.
pub open spec fn ids_unique(s: Seq<Notification>) -> bool {
    forall|i: int, j: int| 0 <= i < j < s.len() ==> s[i].id != s[j].id
}

// ---------------------------------------------------------------------
// Removal lemmas.
// ---------------------------------------------------------------------

/// Removal over a one-longer prefix keeps or drops exactly the new
/// element.
proof fn lemma_remove_notification_id_take_step(s: Seq<Notification>, id: u32, j: int)
    requires
        0 <= j < s.len(),
    ensures
        remove_notification_id(s.take(j + 1), id) =~= (if s[j].id == id {
            remove_notification_id(s.take(j), id)
        } else {
            remove_notification_id(s.take(j), id).push(s[j])
        }),
{
    assert(s.take(j + 1).drop_last() =~= s.take(j));
    assert(s.take(j + 1).last() == s[j]);
}

/// Nothing that survives removal carries the removed id, everything that
/// survives was already in the list, and the list does not grow.
pub proof fn lemma_remove_notification_id_clean(s: Seq<Notification>, id: u32)
    ensures
        forall|m: int|
            0 <= m < remove_notification_id(s, id).len() ==> (#[trigger] remove_notification_id(
                s,
                id,
            )[m]).id != id,
        remove_notification_id(s, id).len() <= s.len(),
        forall|m: int|
            0 <= m < remove_notification_id(s, id).len() ==> s.contains(
                #[trigger] remove_notification_id(s, id)[m],
            ),
    decreases s.len(),
{
    if s.len() > 0 {
        lemma_remove_notification_id_clean(s.drop_last(), id);
        assert forall|m: int| 0 <= m < remove_notification_id(s.drop_last(), id).len() implies
            s.contains(#[trigger] remove_notification_id(s.drop_last(), id)[m]) by {
            let x = remove_notification_id(s.drop_last(), id)[m];
            let w = choose|w: int| 0 <= w < s.drop_last().len() && s.drop_last()[w] == x;
            assert(s[w] == x);
        }
        if s.last().id != id {
            assert(s[s.len() - 1] == s.last());
        }
    }
}

/// Removing an id that no entry carries changes nothing.
pub proof fn lemma_remove_notification_id_absent(s: Seq<Notification>, id: u32)
    requires
        forall|m: int| 0 <= m < s.len() ==> (#[trigger] s[m]).id != id,
    ensures
        remove_notification_id(s, id) =~= s,
    decreases s.len(),
{
    if s.len() > 0 {
        assert(forall|m: int| 0 <= m < s.drop_last().len() ==> s.drop_last()[m] == s[m]);
        lemma_remove_notification_id_absent(s.drop_last(), id);
    }
}

/// Removal keeps ids unique.
proof fn lemma_remove_notification_id_unique(s: Seq<Notification>, id: u32)
    requires
        ids_unique(s),
    ensures
        ids_unique(remove_notification_id(s, id)),
    decreases s.len(),
{
    if s.len() > 0 {
        assert(forall|m: int| 0 <= m < s.drop_last().len() ==> s.drop_last()[m] == s[m]);
        lemma_remove_notification_id_unique(s.drop_last(), id);
        lemma_remove_notification_id_clean(s.drop_last(), id);
        if s.last().id != id {
            let r = remove_notification_id(s.drop_last(), id);
            assert forall|m: int| 0 <= m < r.len() implies r[m].id != s.last().id by {
                let x = r[m];
                assert(s.drop_last().contains(x));
                let w = choose|w: int| 0 <= w < s.drop_last().len() && s.drop_last()[w] == x;
                assert(s[w] == x && s[s.len() - 1] == s.last());
            }
        }
    }
}

// ---------------------------------------------------------------------
// The service.
// ---------------------------------------------------------------------

impl NotificationService {
    /// A fresh service with an empty list.
    pub fn new(max_notifications: usize, default_timeout: i32) -> (s: Self)
        ensures
            s.notifications@ == Seq::<Notification>::empty(),
            s.max_notifications == max_notifications,
            s.default_timeout == default_timeout,
    {
        NotificationService { notifications: Vec::new(), max_notifications, default_timeout }
    }

    /// Drop every notification with this id, keeping order.
    fn remove_with_id(&mut self, id: u32)
        ensures
            final(self).notifications@ == remove_notification_id(old(self).notifications@, id),
            final(self).max_notifications == old(self).max_notifications,
            final(self).default_timeout == old(self).default_timeout,
    {
        let ghost orig = self.notifications@;
        let mut i: usize = 0;
        let ghost j: int = 0;
        proof {
            assert(orig.take(0) =~= Seq::<Notification>::empty());
            assert(orig.skip(0) =~= orig);
            assert(self.notifications@ =~= remove_notification_id(orig.take(0), id) + orig.skip(
                0,
            ));
        }
        while i < self.notifications.len()
            invariant
                0 <= j <= orig.len(),
                self.notifications@ =~= remove_notification_id(orig.take(j), id) + orig.skip(j),
                i == remove_notification_id(orig.take(j), id).len(),
                self.max_notifications == old(self).max_notifications,
                self.default_timeout == old(self).default_timeout,
            decreases orig.len() - j,
        {
            proof {
                lemma_remove_notification_id_take_step(orig, id, j);
                assert(orig.skip(j).len() > 0);
                assert(self.notifications@[i as int] == orig.skip(j)[0]);
                assert(orig.skip(j)[0] == orig[j]);
                assert(orig.skip(j).skip(1) =~= orig.skip(j + 1));
            }
            if self.notifications[i].id == id {
                self.notifications.remove(i);
                proof {
                    assert(self.notifications@ =~= remove_notification_id(orig.take(j + 1), id)
                        + orig.skip(j + 1));
                }
            } else {
                i = i + 1;
                proof {
                    assert(self.notifications@ =~= remove_notification_id(orig.take(j + 1), id)
                        + orig.skip(j + 1));
                }
            }
            proof {
                j = j + 1;
            }
        }
        proof {
            assert(orig.take(j) =~= orig);
            assert(orig.skip(j) =~= Seq::<Notification>::empty());
            assert(remove_notification_id(orig, id) + Seq::<Notification>::empty()
                =~= remove_notification_id(orig, id));
        }
    }

    /// Apply one domain event to the list: replacement-aware insert at the
    /// head with tail trimming for a notify, idempotent removal for a
    /// close. A transient, non-critical notification is never stored.
    pub fn update(&mut self, event: NotificationEvent)
        ensures
            final(self).notifications@ == spec_apply_event(
                old(self).notifications@,
                event,
                old(self).max_notifications as int,
            ),
            final(self).max_notifications == old(self).max_notifications,
            final(self).default_timeout == old(self).default_timeout,
    {
        match event {
            NotificationEvent::Notify(n) => {
                let ghost n_ghost = n;
                self.remove_with_id(n.id);
                let display_only = n.transient && !matches!(n.urgency, Urgency::Critical);
                if display_only {
                    return ;
                }
                let ghost without = self.notifications@;
                self.notifications.insert(0, n);
                proof {
                    assert(self.notifications@ =~= seq![n_ghost] + without);
                }
                if self.notifications.len() > self.max_notifications {
                    self.notifications.truncate(self.max_notifications);
                }
            },
            NotificationEvent::Closed(id, _reason) => {
                self.remove_with_id(id);
            },
        }
    }

    /// The close command: drop the id if present; unknown ids are a no-op.
    /// Emitting the matching signal is the caller's business, so the
    /// reason can be attributed there.
    pub fn close(&mut self, id: u32)
        ensures
            final(self).notifications@ == remove_notification_id(old(self).notifications@, id),
            final(self).max_notifications == old(self).max_notifications,
            final(self).default_timeout == old(self).default_timeout,
    {
        self.remove_with_id(id);
    }
}

// ---------------------------------------------------------------------
// Laws of the list.
// ---------------------------------------------------------------------

/// Replacement: after a stored notify there is exactly one entry with the
/// notification's id, and it stands newest, at the head. (The bound must
/// admit at least one entry, else nothing is retained at all.)
pub proof fn lemma_notify_replaces(s: Seq<Notification>, n: Notification, max: int)
    requires
        !is_display_only(n),
        max >= 1,
    ensures
        spec_apply_event(s, NotificationEvent::Notify(n), max).len() >= 1,
        spec_apply_event(s, NotificationEvent::Notify(n), max)[0] == n,
        forall|m: int|
            1 <= m < spec_apply_event(s, NotificationEvent::Notify(n), max).len() ==> (
            #[trigger] spec_apply_event(s, NotificationEvent::Notify(n), max)[m]).id != n.id,
{
    lemma_remove_notification_id_clean(s, n.id);
}

/// The bound holds: if the list is within its bound, it stays within it
/// under every event, and a notify trims from the tail only — the
/// retained entries are an unbroken prefix of the head-inserted list.
pub proof fn lemma_list_bounded(s: Seq<Notification>, event: NotificationEvent, max: int)
    requires
        s.len() <= max,
    ensures
        spec_apply_event(s, event, max).len() <= max,
{
    match event {
        NotificationEvent::Notify(n) => {
            lemma_remove_notification_id_clean(s, n.id);
        },
        NotificationEvent::Closed(id, _reason) => {
            lemma_remove_notification_id_clean(s, id);
        },
    }
}

/// A transient, non-critical notification never appears in the retained
/// list, whatever its timeout: the event only removes what it replaces.
pub proof fn lemma_transient_never_stored(s: Seq<Notification>, n: Notification, max: int)
    requires
        is_display_only(n),
    ensures
        spec_apply_event(s, NotificationEvent::Notify(n), max) == remove_notification_id(
            s,
            n.id,
        ),
        forall|m: int|
            0 <= m < spec_apply_event(s, NotificationEvent::Notify(n), max).len() ==> (
            #[trigger] spec_apply_event(s, NotificationEvent::Notify(n), max)[m]).id != n.id,
{
    lemma_remove_notification_id_clean(s, n.id);
}

/// Uniqueness is an invariant: a list with at most one entry per id keeps
/// that shape under every event.
pub proof fn lemma_update_keeps_ids_unique(
    s: Seq<Notification>,
    event: NotificationEvent,
    max: int,
)
    requires
        ids_unique(s),
        max >= 0,
    ensures
        ids_unique(spec_apply_event(s, event, max)),
{
    match event {
        NotificationEvent::Notify(n) => {
            lemma_remove_notification_id_unique(s, n.id);
            lemma_remove_notification_id_clean(s, n.id);
            let without = remove_notification_id(s, n.id);
            let inserted = seq![n] + without;
            assert forall|i: int, j: int| 0 <= i < j < inserted.len() implies inserted[i].id
                != inserted[j].id by {
                assert(inserted[j] == without[j - 1]);
                if i > 0 {
                    assert(inserted[i] == without[i - 1]);
                }
            }
            if !is_display_only(n) && inserted.len() > max {
                let t = inserted.take(max);
                assert forall|i: int, j: int| 0 <= i < j < t.len() implies t[i].id != t[j].id by {
                    assert(t[i] == inserted[i]);
                    assert(t[j] == inserted[j]);
                }
            }
        },
        NotificationEvent::Closed(id, _reason) => {
            lemma_remove_notification_id_unique(s, id);
        },
    }
}

/// Closing is idempotent: removing an id a second time changes nothing.
pub proof fn lemma_close_idempotent(s: Seq<Notification>, id: u32)
    ensures
        remove_notification_id(remove_notification_id(s, id), id) == remove_notification_id(
            s,
            id,
        ),
{
    lemma_remove_notification_id_clean(s, id);
    lemma_remove_notification_id_absent(remove_notification_id(s, id), id);
}

} // verus!
