//! The retained list and the indicator module above it.

use notifd_core::config::NotificationsModuleConfig;
use notifd_core::modules::notifications::{Action, Message, Notifications, SignalRequest};
use notifd_core::notification::{CloseReason, Notification, NotificationEvent, Urgency};
use notifd_core::service::{
    connection_step, ConnectionOutcome, ConnectionState, NotificationService, ServiceEvent,
};

fn make_notification(id: u32) -> Notification {
    Notification {
        id,
        app_name: format!("App{id}"),
        app_icon: String::new(),
        summary: format!("Title {id}"),
        body: format!("Body {id}"),
        actions: vec![],
        urgency: Urgency::Normal,
        expire_timeout: -1,
        timestamp: 0,
        transient: false,
    }
}

fn test_config() -> NotificationsModuleConfig {
    NotificationsModuleConfig {
        max_notifications: 50,
        default_timeout: 5000,
        popup_enabled: true,
        popup_max_visible: 3,
        popup_duration_ms: 5000,
        popup_animation_ms: 100,
    }
}

#[test]
fn notify_inserts_newest_first() {
    let mut service = NotificationService::new(50, 5000);
    service.update(NotificationEvent::Notify(make_notification(1)));
    service.update(NotificationEvent::Notify(make_notification(2)));
    assert_eq!(service.notifications.len(), 2);
    assert_eq!(service.notifications[0].id, 2);
    assert_eq!(service.notifications[1].id, 1);
}

#[test]
fn replacement_keeps_exactly_one_entry_at_the_head() {
    let mut service = NotificationService::new(50, 5000);
    service.update(NotificationEvent::Notify(make_notification(1)));
    service.update(NotificationEvent::Notify(make_notification(2)));
    let mut replacement = make_notification(1);
    replacement.summary = "replaced".to_string();
    service.update(NotificationEvent::Notify(replacement));

    assert_eq!(service.notifications.len(), 2);
    assert_eq!(service.notifications[0].id, 1);
    assert_eq!(service.notifications[0].summary, "replaced");
    let with_id_1 = service.notifications.iter().filter(|n| n.id == 1).count();
    assert_eq!(with_id_1, 1);
}

#[test]
fn inserting_beyond_the_bound_drops_the_tail() {
    let mut service = NotificationService::new(3, 5000);
    for id in 1..=5 {
        service.update(NotificationEvent::Notify(make_notification(id)));
    }
    assert_eq!(service.notifications.len(), 3);
    // Newest first: the oldest (1 and 2) were dropped from the tail.
    let ids: Vec<u32> = service.notifications.iter().map(|n| n.id).collect();
    assert_eq!(ids, vec![5, 4, 3]);
}

#[test]
fn transient_notifications_are_never_stored() {
    let mut service = NotificationService::new(50, 5000);
    for timeout in [-1, 0, 2000] {
        let mut n = make_notification(9);
        n.transient = true;
        n.expire_timeout = timeout;
        service.update(NotificationEvent::Notify(n));
        assert!(service.notifications.is_empty());
    }
}

#[test]
fn transient_critical_notifications_are_stored() {
    let mut service = NotificationService::new(50, 5000);
    let mut n = make_notification(9);
    n.transient = true;
    n.urgency = Urgency::Critical;
    service.update(NotificationEvent::Notify(n));
    assert_eq!(service.notifications.len(), 1);
}

#[test]
fn a_transient_replacement_still_removes_the_old_entry() {
    let mut service = NotificationService::new(50, 5000);
    service.update(NotificationEvent::Notify(make_notification(4)));
    let mut n = make_notification(4);
    n.transient = true;
    service.update(NotificationEvent::Notify(n));
    assert!(service.notifications.is_empty());
}

#[test]
fn closed_removes_the_id_and_is_idempotent() {
    let mut service = NotificationService::new(50, 5000);
    service.update(NotificationEvent::Notify(make_notification(1)));
    service.update(NotificationEvent::Notify(make_notification(2)));
    service.update(NotificationEvent::Closed(1, CloseReason::Expired));
    assert_eq!(service.notifications.len(), 1);
    assert_eq!(service.notifications[0].id, 2);
    // Closing again, or closing an unknown id, changes nothing.
    service.update(NotificationEvent::Closed(1, CloseReason::ByApi));
    service.update(NotificationEvent::Closed(42, CloseReason::Dismissed));
    assert_eq!(service.notifications.len(), 1);
}

#[test]
fn close_command_matches_the_closed_event() {
    let mut service = NotificationService::new(50, 5000);
    service.update(NotificationEvent::Notify(make_notification(1)));
    service.close(1);
    assert!(service.notifications.is_empty());
    service.close(1);
    assert!(service.notifications.is_empty());
}

// --- The indicator module ---

fn module_with_service() -> Notifications {
    let mut module = Notifications::new(test_config());
    let service = NotificationService::new(50, 5000);
    let action = module.update(Message::Event(ServiceEvent::Init(service)));
    assert!(matches!(action, Action::Nothing));
    module
}

#[test]
fn new_notifications_count_as_unread_and_ask_for_a_popup() {
    let mut module = module_with_service();
    let action = module.update(Message::Event(ServiceEvent::Update(
        NotificationEvent::Notify(make_notification(1)),
    )));
    match action {
        Action::ShowPopup(n) => assert_eq!(n.id, 1),
        _ => panic!("expected a popup request"),
    }
    assert_eq!(module.unread_count, 1);
    assert_eq!(module.service.as_ref().unwrap().notifications.len(), 1);
}

#[test]
fn replacements_do_not_count_as_unread() {
    let mut module = module_with_service();
    module.update(Message::Event(ServiceEvent::Update(NotificationEvent::Notify(
        make_notification(1),
    ))));
    module.update(Message::Event(ServiceEvent::Update(NotificationEvent::Notify(
        make_notification(1),
    ))));
    assert_eq!(module.unread_count, 1);
}

#[test]
fn dismiss_removes_and_requests_a_dismissed_signal() {
    let mut module = module_with_service();
    module.update(Message::Event(ServiceEvent::Update(NotificationEvent::Notify(
        make_notification(1),
    ))));
    let action = module.update(Message::Dismiss(1));
    match action {
        Action::EmitSignal(SignalRequest::Closed(id, reason)) => {
            assert_eq!(id, 1);
            assert_eq!(reason.code(), 2);
        },
        _ => panic!("expected a closed-signal request"),
    }
    assert!(module.service.as_ref().unwrap().notifications.is_empty());
}

#[test]
fn invoking_an_action_removes_and_requests_both_signals() {
    let mut module = module_with_service();
    module.update(Message::Event(ServiceEvent::Update(NotificationEvent::Notify(
        make_notification(1),
    ))));
    let action = module.update(Message::InvokeAction(1, "default".to_string()));
    match action {
        Action::EmitSignal(SignalRequest::ActionInvokedThenClosed(id, key)) => {
            assert_eq!(id, 1);
            assert_eq!(key, "default");
        },
        _ => panic!("expected an action-then-closed request"),
    }
    assert!(module.service.as_ref().unwrap().notifications.is_empty());
}

#[test]
fn clear_all_empties_the_list_and_names_every_id() {
    let mut module = module_with_service();
    for id in 1..=3 {
        module.update(Message::Event(ServiceEvent::Update(NotificationEvent::Notify(
            make_notification(id),
        ))));
    }
    let action = module.update(Message::ClearAll);
    match action {
        Action::EmitSignal(SignalRequest::ClosedMany(ids)) => {
            assert_eq!(ids, vec![3, 2, 1]);
        },
        _ => panic!("expected a closed-many request"),
    }
    assert!(module.service.as_ref().unwrap().notifications.is_empty());
    assert_eq!(module.unread_count, 0);
}

#[test]
fn opening_the_menu_resets_the_unread_count() {
    let mut module = module_with_service();
    module.update(Message::Event(ServiceEvent::Update(NotificationEvent::Notify(
        make_notification(1),
    ))));
    assert_eq!(module.unread_count, 1);
    let action = module.update(Message::MenuOpened);
    assert!(matches!(action, Action::Nothing));
    assert_eq!(module.unread_count, 0);
}

#[test]
fn messages_without_a_service_change_nothing() {
    let mut module = Notifications::new(test_config());
    assert!(matches!(module.update(Message::Dismiss(1)), Action::Nothing));
    assert!(matches!(
        module.update(Message::InvokeAction(1, "default".to_string())),
        Action::Nothing
    ));
    assert!(matches!(module.update(Message::ClearAll), Action::Nothing));
    assert!(module.service.is_none());
}

#[test]
fn connection_error_is_terminal_for_the_run() {
    let active = connection_step(ConnectionState::Init, ConnectionOutcome::SetupSucceeded);
    assert_eq!(active, ConnectionState::Active);
    let failed = connection_step(ConnectionState::Init, ConnectionOutcome::SetupFailed);
    assert_eq!(failed, ConnectionState::Error);
    let closed = connection_step(ConnectionState::Active, ConnectionOutcome::ChannelClosed);
    assert_eq!(closed, ConnectionState::Error);
    // No outcome leaves the error state.
    for outcome in [
        ConnectionOutcome::SetupSucceeded,
        ConnectionOutcome::SetupFailed,
        ConnectionOutcome::ChannelClosed,
    ] {
        assert_eq!(connection_step(ConnectionState::Error, outcome), ConnectionState::Error);
    }
}
