//! The protocol daemon's state and decisions: id assignment, defensive
//! hint decoding, expiry scheduling, and the static protocol replies.
//!
//! The daemon owns the id counter and the configured default timeout. The
//! transport (receiving calls, sending the reply, publishing the domain
//! event, spinning the expiry timer, emitting signals) is the host's; every
//! decision it needs comes out of [`NotificationDaemon::notify`] as plain
//! values.

use crate::notification::{
    pair_actions, spec_pair_actions, spec_transient_from_hints, spec_urgency_from_hints,
    transient_from_hints, urgency_from_hints, CloseReason, HintValue, Notification,
    NotificationEvent, Urgency,
};
use vstd::prelude::*;

verus! {

/// The inbound side of the notification protocol: a wrapping id counter
/// that never yields zero, and the server-chosen default expiry.
#[derive(Debug)]
pub struct NotificationDaemon {
    pub next_id: u32,
    pub default_timeout: i32,
}

/// Everything one notify call decides: the id returned to the caller, the
/// assembled record for the domain event, and the auto-expiry to schedule,
/// if any (in milliseconds, always positive).
#[derive(Debug)]
pub struct NotifyOutcome {
    pub id: u32,
    pub notification: Notification,
    pub expiry_ms: Option<i32>,
}

/// Id assignment: a nonzero `replaces_id` is reused and the counter stands
/// still; otherwise the counter's value is handed out and the counter
/// steps on, wrapping from the maximum back to 1 so it never yields 0.
pub open spec fn spec_assign_id(next_id: u32, replaces_id: u32) -> (u32, u32) {
    if replaces_id > 0 {
        (replaces_id, next_id)
    } else {
        (next_id, (if next_id == u32::MAX {
            1u32
        } else {
            (next_id + 1) as u32
        }))
    }
}

/// The expiry a notify call schedules: none for critical notifications; a
/// negative caller timeout means the server default, zero means never, and
/// a timer runs only for a positive effective timeout.
pub open spec fn spec_expiry_ms(
    urgency: Urgency,
    expire_timeout: i32,
    default_timeout: i32,
) -> Option<i32> {
    if urgency == Urgency::Critical {
        None
    } else {
        let effective = if expire_timeout < 0 {
            default_timeout
        } else {
            expire_timeout
        };
        if effective > 0 {
            Some(effective)
        } else {
            None
        }
    }
}

/// Relies on `chrono::Local::now` and `chrono::DateTime::timestamp_millis`
/// for the capture time as milliseconds since the Unix epoch. The result
/// depends on the clock, so nothing is promised of it.
#[verifier::external_body]
fn local_now_millis() -> i64 {
    chrono::Local::now().timestamp_millis()
}

/// The auto-expiry decision as an executable step.
pub fn expiry_timeout_ms(urgency: Urgency, expire_timeout: i32, default_timeout: i32) -> (r:
    Option<i32>)
    ensures
        r == spec_expiry_ms(urgency, expire_timeout, default_timeout),
        r is Some ==> r->0 > 0,
{
    if matches!(urgency, Urgency::Critical) {
        None
    } else {
        let effective = if expire_timeout < 0 {
            default_timeout
        } else {
            expire_timeout
        };
        if effective > 0 {
            Some(effective)
        } else {
            None
        }
    }
}

impl NotificationDaemon {
    /// A fresh daemon; the first server-assigned id is 1.
    pub fn new(default_timeout: i32) -> (d: Self)
        ensures
            d.next_id == 1,
            d.default_timeout == default_timeout,
    {
        NotificationDaemon { next_id: 1, default_timeout }
    }

    /// What the server can do, as the protocol's capability strings.
    pub fn get_capabilities(&self) -> (caps: Vec<String>)
        ensures
            caps@.len() == 3,
            caps@[0]@ == "body"@,
            caps@[1]@ == "body-markup"@,
            caps@[2]@ == "actions"@,
    {
        let mut caps: Vec<String> = Vec::new();
        caps.push(String::from_str("body"));
        caps.push(String::from_str("body-markup"));
        caps.push(String::from_str("actions"));
        caps
    }

    /// The static server identity: name, vendor, version, protocol
    /// version.
    pub fn get_server_information(&self) -> (info: (String, String, String, String))
        ensures
            info.0@ == "ashell"@,
            info.1@ == "ashell"@,
            info.2@ == "0.1.0"@,
            info.3@ == "1.2"@,
    {
        (
            String::from_str("ashell"),
            String::from_str("ashell"),
            String::from_str("0.1.0"),
            String::from_str("1.2"),
        )
    }

    /// Assign the id for one notify call and step the counter. Starting
    /// from a counter of at least 1, a server-assigned id is never 0 and
    /// the counter stays at least 1.
    pub fn allocate_id(&mut self, replaces_id: u32) -> (id: u32)
        ensures
            (id, final(self).next_id) == spec_assign_id(old(self).next_id, replaces_id),
            final(self).default_timeout == old(self).default_timeout,
            old(self).next_id >= 1 ==> id >= 1,
            old(self).next_id >= 1 ==> final(self).next_id >= 1,
    {
        if replaces_id > 0 {
            replaces_id
        } else {
            let id = self.next_id;
            self.next_id = if self.next_id == u32::MAX {
                1
            } else {
                self.next_id + 1
            };
            id
        }
    }

    /// The whole decision of one notify call, with the capture time
    /// supplied: the id (reused or freshly assigned), the record built
    /// from the arguments with hints decoded defensively and the flat
    /// action list paired up, and the expiry to schedule.
    pub fn notify_at(
        &mut self,
        app_name: &str,
        replaces_id: u32,
        app_icon: &str,
        summary: &str,
        body: &str,
        actions: &Vec<String>,
        hints: &Vec<(String, HintValue)>,
        expire_timeout: i32,
        timestamp: i64,
    ) -> (r: NotifyOutcome)
        ensures
            (r.id, final(self).next_id) == spec_assign_id(old(self).next_id, replaces_id),
            final(self).default_timeout == old(self).default_timeout,
            r.notification.id == r.id,
            r.notification.app_name@ == app_name@,
            r.notification.app_icon@ == app_icon@,
            r.notification.summary@ == summary@,
            r.notification.body@ == body@,
            r.notification.actions@ == spec_pair_actions(actions@),
            r.notification.urgency == spec_urgency_from_hints(hints@),
            r.notification.transient == spec_transient_from_hints(hints@),
            r.notification.expire_timeout == expire_timeout,
            r.notification.timestamp == timestamp,
            r.expiry_ms == spec_expiry_ms(
                spec_urgency_from_hints(hints@),
                expire_timeout,
                old(self).default_timeout,
            ),
            r.expiry_ms is Some ==> r.expiry_ms->0 > 0,
    {
        let id = self.allocate_id(replaces_id);
        let urgency = urgency_from_hints(hints);
        let transient = transient_from_hints(hints);
        let parsed_actions = pair_actions(actions);
        let notification = Notification {
            id,
            app_name: app_name.to_owned(),
            app_icon: app_icon.to_owned(),
            summary: summary.to_owned(),
            body: body.to_owned(),
            actions: parsed_actions,
            urgency,
            expire_timeout,
            timestamp,
            transient,
        };
        let expiry_ms = expiry_timeout_ms(urgency, expire_timeout, self.default_timeout);
        NotifyOutcome { id, notification, expiry_ms }
    }

    /// One notify call with the capture time read from the local clock.
    /// Everything but the timestamp is pinned down; the timestamp is
    /// whatever the clock said.
    pub fn notify(
        &mut self,
        app_name: &str,
        replaces_id: u32,
        app_icon: &str,
        summary: &str,
        body: &str,
        actions: &Vec<String>,
        hints: &Vec<(String, HintValue)>,
        expire_timeout: i32,
    ) -> (r: NotifyOutcome)
        ensures
            (r.id, final(self).next_id) == spec_assign_id(old(self).next_id, replaces_id),
            final(self).default_timeout == old(self).default_timeout,
            r.notification.id == r.id,
            r.notification.app_name@ == app_name@,
            r.notification.app_icon@ == app_icon@,
            r.notification.summary@ == summary@,
            r.notification.body@ == body@,
            r.notification.actions@ == spec_pair_actions(actions@),
            r.notification.urgency == spec_urgency_from_hints(hints@),
            r.notification.transient == spec_transient_from_hints(hints@),
            r.notification.expire_timeout == expire_timeout,
            r.expiry_ms == spec_expiry_ms(
                spec_urgency_from_hints(hints@),
                expire_timeout,
                old(self).default_timeout,
            ),
            r.expiry_ms is Some ==> r.expiry_ms->0 > 0,
    {
        let timestamp = local_now_millis();
        self.notify_at(
            app_name,
            replaces_id,
            app_icon,
            summary,
            body,
            actions,
            hints,
            expire_timeout,
            timestamp,
        )
    }

    /// The close call: the domain event it publishes. The matching signal
    /// carries the api reason code.
    pub fn close_notification(&self, id: u32) -> (e: NotificationEvent)
        ensures
            e == NotificationEvent::Closed(id, CloseReason::ByApi),
    {
        NotificationEvent::Closed(id, CloseReason::ByApi)
    }
}

/// Server-assigned ids: from any counter state of at least 1, an
/// allocation never returns 0, and two back-to-back allocations return
/// distinct ids — increasing ones while the counter has not wrapped.
pub proof fn lemma_fresh_ids_distinct(next_id: u32)
    requires
        next_id >= 1,
    ensures
        spec_assign_id(next_id, 0).0 != 0,
        spec_assign_id(spec_assign_id(next_id, 0).1, 0).0 != spec_assign_id(next_id, 0).0,
        next_id < u32::MAX ==> spec_assign_id(spec_assign_id(next_id, 0).1, 0).0 > spec_assign_id(
            next_id,
            0,
        ).0,
{
}

} // verus!
