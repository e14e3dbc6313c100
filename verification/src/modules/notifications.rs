//! The notification indicator: the consumer-side state over the service.
//!
//! It tracks the unread count, applies service events to the owned list,
//! and answers every user action with a plain description of what the host
//! should do: emit which signals, or show which popup. Rendering and the
//! actual signal emission stay with the host.

use crate::config::NotificationsModuleConfig;
use crate::notification::{CloseReason, Notification, NotificationEvent};
use crate::service::{
    contains_notification_id, remove_notification_id, spec_apply_event, NotificationService,
    ServiceEvent,
};
use vstd::prelude::*;

verus! {

/// What reaches the indicator: service lifecycle events and user actions.
#[derive(Debug)]
pub enum Message {
    Event(ServiceEvent),
    Dismiss(u32),
    DismissSignalSent,
    InvokeAction(u32, String),
    ActionSignalSent,
    ClearAll,
    ClearAllSignalsSent,
    MenuOpened,
}

/// The signals the host should emit on the bus, fire-and-forget.
#[derive(Debug)]
pub enum SignalRequest {
    /// One closed signal for this id, with this reason.
    Closed(u32, CloseReason),
    /// An action-invoked signal for this id and key, then a closed signal
    /// with the dismissed reason.
    ActionInvokedThenClosed(u32, String),
    /// One closed signal per id, each with the dismissed reason.
    ClosedMany(Vec<u32>),
}

/// What the indicator asks of its host after a message.
#[derive(Debug)]
pub enum Action {
    Nothing,
    EmitSignal(SignalRequest),
    ShowPopup(Notification),
}

/// The indicator's state: its configuration, the service handle once the
/// subscription delivered one, and how many notifications arrived since
/// the menu was last opened.
#[derive(Debug)]
pub struct Notifications {
    pub config: NotificationsModuleConfig,
    pub service: Option<NotificationService>,
    pub unread_count: usize,
}

/// The ids of a notification list, in order.
pub open spec fn ids_of(s: Seq<Notification>) -> Seq<u32> {
    s.map_values(|n: Notification| n.id)
}

/// What one message does to the indicator: how the service list, the
/// unread count and the requested host action relate to the state before.
pub open spec fn spec_module_update(
    pre: Notifications,
    message: Message,
    post: Notifications,
    action: Action,
) -> bool {
    post.config == pre.config && match message {
        Message::Event(ServiceEvent::Init(svc)) => post.service == Some(svc)
            && post.unread_count == pre.unread_count && action == Action::Nothing,
        Message::Event(ServiceEvent::Error) => post == pre && action == Action::Nothing,
        Message::Event(ServiceEvent::Update(event)) => match pre.service {
            None => post == pre && action == Action::Nothing,
            Some(svc) => {
                &&& match post.service {
                    Some(new_svc) => {
                        &&& new_svc.notifications@ == spec_apply_event(
                            svc.notifications@,
                            event,
                            svc.max_notifications as int,
                        )
                        &&& new_svc.max_notifications == svc.max_notifications
                        &&& new_svc.default_timeout == svc.default_timeout
                    },
                    None => false,
                }
                &&& match event {
                    NotificationEvent::Notify(n) => {
                        &&& post.unread_count == (if !contains_notification_id(
                            svc.notifications@,
                            n.id,
                        ) && pre.unread_count < usize::MAX {
                            pre.unread_count + 1
                        } else {
                            pre.unread_count as int
                        })
                        &&& match action {
                            Action::ShowPopup(p) => p@ == n@,
                            _ => false,
                        }
                    },
                    NotificationEvent::Closed(_id, _reason) => post.unread_count
                        == pre.unread_count && action == Action::Nothing,
                }
            },
        },
        Message::Dismiss(id) => match pre.service {
            None => post == pre && action == Action::Nothing,
            Some(svc) => {
                &&& match post.service {
                    Some(new_svc) => {
                        &&& new_svc.notifications@ == remove_notification_id(
                            svc.notifications@,
                            id,
                        )
                        &&& new_svc.max_notifications == svc.max_notifications
                        &&& new_svc.default_timeout == svc.default_timeout
                    },
                    None => false,
                }
                &&& post.unread_count == pre.unread_count
                &&& action == Action::EmitSignal(
                    SignalRequest::Closed(id, CloseReason::Dismissed),
                )
            },
        },
        Message::InvokeAction(id, key) => match pre.service {
            None => post == pre && action == Action::Nothing,
            Some(svc) => {
                &&& match post.service {
                    Some(new_svc) => {
                        &&& new_svc.notifications@ == remove_notification_id(
                            svc.notifications@,
                            id,
                        )
                        &&& new_svc.max_notifications == svc.max_notifications
                        &&& new_svc.default_timeout == svc.default_timeout
                    },
                    None => false,
                }
                &&& post.unread_count == pre.unread_count
                &&& action == Action::EmitSignal(
                    SignalRequest::ActionInvokedThenClosed(id, key),
                )
            },
        },
        Message::ClearAll => {
            &&& post.unread_count == 0
            &&& match pre.service {
                None => post.service == pre.service && action == Action::Nothing,
                Some(svc) => {
                    &&& match post.service {
                        Some(new_svc) => {
                            &&& new_svc.notifications@ == Seq::<Notification>::empty()
                            &&& new_svc.max_notifications == svc.max_notifications
                            &&& new_svc.default_timeout == svc.default_timeout
                        },
                        None => false,
                    }
                    &&& match action {
                        Action::EmitSignal(SignalRequest::ClosedMany(ids)) => ids@ == ids_of(
                            svc.notifications@,
                        ),
                        _ => false,
                    }
                },
            }
        },
        Message::MenuOpened => post.service == pre.service && post.unread_count == 0 && action
            == Action::Nothing,
        Message::DismissSignalSent | Message::ActionSignalSent | Message::ClearAllSignalsSent =>
            post == pre && action == Action::Nothing,
    }
}

impl Notifications {
    /// A fresh indicator with no service and nothing unread.
    pub fn new(config: NotificationsModuleConfig) -> (m: Self)
        ensures
            m.config == config,
            m.service is None,
            m.unread_count == 0,
    {
        Notifications { config, service: None, unread_count: 0 }
    }

    /// Apply one message and say what the host should do next.
    pub fn update(&mut self, message: Message) -> (action: Action)
        ensures
            spec_module_update(*old(self), message, *final(self), action),
    {
        match message {
            Message::Event(event) => match event {
                ServiceEvent::Init(service) => {
                    self.service = Some(service);
                    Action::Nothing
                },
                ServiceEvent::Update(notification_event) => {
                    match &mut self.service {
                        Some(service) => {
                            let popup_notification: Option<Notification> = match &
                            notification_event {
                                NotificationEvent::Notify(n) => {
                                    // Only genuinely new notifications count as
                                    // unread; a replacement is not new.
                                    let is_replacement = list_contains_id(
                                        &service.notifications,
                                        n.id,
                                    );
                                    if !is_replacement && self.unread_count < usize::MAX {
                                        self.unread_count = self.unread_count + 1;
                                    }
                                    Some(n.clone())
                                },
                                NotificationEvent::Closed(_, _) => None,
                            };
                            service.update(notification_event);
                            match popup_notification {
                                Some(n) => Action::ShowPopup(n),
                                None => Action::Nothing,
                            }
                        },
                        None => Action::Nothing,
                    }
                },
                ServiceEvent::Error => Action::Nothing,
            },
            Message::Dismiss(id) => match &mut self.service {
                Some(service) => {
                    service.close(id);
                    Action::EmitSignal(SignalRequest::Closed(id, CloseReason::Dismissed))
                },
                None => Action::Nothing,
            },
            Message::InvokeAction(id, action_key) => match &mut self.service {
                Some(service) => {
                    service.close(id);
                    Action::EmitSignal(
                        SignalRequest::ActionInvokedThenClosed(id, action_key),
                    )
                },
                None => Action::Nothing,
            },
            Message::DismissSignalSent | Message::ActionSignalSent
                | Message::ClearAllSignalsSent => Action::Nothing,
            Message::ClearAll => {
                self.unread_count = 0;
                match &mut self.service {
                    Some(service) => {
                        let ids = collect_ids(&service.notifications);
                        service.notifications.clear();
                        Action::EmitSignal(SignalRequest::ClosedMany(ids))
                    },
                    None => Action::Nothing,
                }
            },
            Message::MenuOpened => {
                self.unread_count = 0;
                Action::Nothing
            },
        }
    }
}

/// Whether some notification in the list carries the id.
fn list_contains_id(v: &Vec<Notification>, id: u32) -> (r: bool)
    ensures
        r == contains_notification_id(v@, id),
{
    let mut i: usize = 0;
    while i < v.len()
        invariant
            i <= v@.len(),
            forall|m: int| 0 <= m < i ==> (#[trigger] v@[m]).id != id,
        decreases v@.len() - i,
    {
        if v[i].id == id {
            proof {
                assert(v@[i as int].id == id);
            }
            return true;
        }
        i = i + 1;
    }
    false
}

/// The ids of the list, in order.
fn collect_ids(v: &Vec<Notification>) -> (ids: Vec<u32>)
    ensures
        ids@ == ids_of(v@),
{
    let mut ids: Vec<u32> = Vec::new();
    let mut i: usize = 0;
    while i < v.len()
        invariant
            i <= v@.len(),
            ids@.len() == i,
            forall|m: int| 0 <= m < i ==> ids@[m] == v@[m].id,
        decreases v@.len() - i,
    {
        ids.push(v[i].id);
        i = i + 1;
    }
    proof {
        assert(ids@ =~= ids_of(v@));
    }
    ids
}

} // verus!
