//! The protocol daemon: id assignment, hint decoding, action pairing, and
//! the auto-expiry decision.

use notifd_core::daemon::{expiry_timeout_ms, NotificationDaemon};
use notifd_core::notification::{
    pair_actions, transient_from_hints, urgency_from_hints, CloseReason, HintValue,
    NotificationEvent, Urgency,
};
use notifd_core::service::NotificationService;

fn no_hints() -> Vec<(String, HintValue)> {
    Vec::new()
}

#[test]
fn fresh_ids_are_nonzero_and_distinct() {
    let mut daemon = NotificationDaemon::new(5000);
    let mut seen: Vec<u32> = Vec::new();
    for _ in 0..5 {
        let r = daemon.notify("app", 0, "", "s", "b", &vec![], &no_hints(), -1);
        assert_ne!(r.id, 0);
        assert!(!seen.contains(&r.id));
        seen.push(r.id);
    }
}

#[test]
fn replaces_id_is_reused_and_counter_stands_still() {
    let mut daemon = NotificationDaemon::new(5000);
    let r1 = daemon.notify("app", 7, "", "s", "b", &vec![], &no_hints(), -1);
    assert_eq!(r1.id, 7);
    let r2 = daemon.notify("app", 0, "", "s", "b", &vec![], &no_hints(), -1);
    assert_eq!(r2.id, 1);
}

#[test]
fn critical_with_server_default_timeout_schedules_no_expiry() {
    // urgency=2 (critical) and expire_timeout=-1: no timer; the entry
    // stays until explicitly closed.
    let mut daemon = NotificationDaemon::new(5000);
    let hints = vec![("urgency".to_string(), HintValue::Byte(2))];
    let r = daemon.notify("app", 0, "", "s", "b", &vec![], &hints, -1);
    assert_eq!(r.notification.urgency, Urgency::Critical);
    assert_eq!(r.expiry_ms, None);
}

#[test]
fn expiry_uses_default_for_negative_and_never_for_zero() {
    assert_eq!(expiry_timeout_ms(Urgency::Normal, -1, 5000), Some(5000));
    assert_eq!(expiry_timeout_ms(Urgency::Normal, 0, 5000), None);
    assert_eq!(expiry_timeout_ms(Urgency::Normal, 250, 5000), Some(250));
    assert_eq!(expiry_timeout_ms(Urgency::Low, -7, 5000), Some(5000));
    assert_eq!(expiry_timeout_ms(Urgency::Critical, 250, 5000), None);
    // A non-positive default means a negative caller timeout never fires.
    assert_eq!(expiry_timeout_ms(Urgency::Normal, -1, 0), None);
}

#[test]
fn two_notifies_then_replacement_keeps_two_entries() {
    // Two back-to-back calls with replaces_id 0 return distinct,
    // increasing ids; a third replacing the first leaves two entries.
    let mut daemon = NotificationDaemon::new(5000);
    let mut service = NotificationService::new(50, 5000);

    let r1 = daemon.notify("app", 0, "", "one", "b", &vec![], &no_hints(), -1);
    let r2 = daemon.notify("app", 0, "", "two", "b", &vec![], &no_hints(), -1);
    assert_ne!(r1.id, r2.id);
    assert!(r2.id > r1.id);

    let first_id = r1.id;
    service.update(NotificationEvent::Notify(r1.notification));
    service.update(NotificationEvent::Notify(r2.notification));

    let r3 = daemon.notify("app", first_id, "", "one again", "b", &vec![], &no_hints(), -1);
    assert_eq!(r3.id, first_id);
    service.update(NotificationEvent::Notify(r3.notification));

    assert_eq!(service.notifications.len(), 2);
    assert_eq!(service.notifications[0].id, first_id);
    assert_eq!(service.notifications[0].summary, "one again");
}

#[test]
fn urgency_hint_is_decoded_defensively() {
    let low = vec![("urgency".to_string(), HintValue::Byte(0))];
    let normal = vec![("urgency".to_string(), HintValue::Byte(1))];
    let critical = vec![("urgency".to_string(), HintValue::Byte(2))];
    let odd = vec![("urgency".to_string(), HintValue::Byte(9))];
    let wrong_type = vec![("urgency".to_string(), HintValue::Bool(true))];
    assert_eq!(urgency_from_hints(&low), Urgency::Low);
    assert_eq!(urgency_from_hints(&normal), Urgency::Normal);
    assert_eq!(urgency_from_hints(&critical), Urgency::Critical);
    assert_eq!(urgency_from_hints(&odd), Urgency::Normal);
    assert_eq!(urgency_from_hints(&wrong_type), Urgency::Normal);
    assert_eq!(urgency_from_hints(&no_hints()), Urgency::Normal);
}

#[test]
fn transient_hint_is_decoded_defensively() {
    let on = vec![("transient".to_string(), HintValue::Bool(true))];
    let off = vec![("transient".to_string(), HintValue::Bool(false))];
    let wrong_type = vec![("transient".to_string(), HintValue::Byte(1))];
    assert!(transient_from_hints(&on));
    assert!(!transient_from_hints(&off));
    assert!(!transient_from_hints(&wrong_type));
    assert!(!transient_from_hints(&no_hints()));
}

#[test]
fn actions_pair_up_and_a_trailing_key_is_dropped() {
    let flat = vec![
        "default".to_string(),
        "Open".to_string(),
        "dismiss".to_string(),
        "Dismiss".to_string(),
        "orphan".to_string(),
    ];
    let pairs = pair_actions(&flat);
    assert_eq!(
        pairs,
        vec![
            ("default".to_string(), "Open".to_string()),
            ("dismiss".to_string(), "Dismiss".to_string()),
        ]
    );
}

#[test]
fn notify_assembles_the_record() {
    let mut daemon = NotificationDaemon::new(5000);
    let hints = vec![
        ("transient".to_string(), HintValue::Bool(true)),
        ("urgency".to_string(), HintValue::Byte(0)),
    ];
    let actions = vec!["default".to_string(), "Open".to_string()];
    let r = daemon.notify_at("mailer", 0, "mail-icon", "subject", "text", &actions, &hints, 42, 99);
    assert_eq!(r.id, 1);
    assert_eq!(r.notification.app_name, "mailer");
    assert_eq!(r.notification.app_icon, "mail-icon");
    assert_eq!(r.notification.summary, "subject");
    assert_eq!(r.notification.body, "text");
    assert_eq!(r.notification.actions.len(), 1);
    assert_eq!(r.notification.urgency, Urgency::Low);
    assert!(r.notification.transient);
    assert_eq!(r.notification.expire_timeout, 42);
    assert_eq!(r.notification.timestamp, 99);
    assert_eq!(r.expiry_ms, Some(42));
}

#[test]
fn close_notification_event_and_reason_codes() {
    let daemon = NotificationDaemon::new(5000);
    match daemon.close_notification(12) {
        NotificationEvent::Closed(id, reason) => {
            assert_eq!(id, 12);
            assert_eq!(reason.code(), 3);
        },
        _ => panic!("expected a closed event"),
    }
    assert_eq!(CloseReason::Expired.code(), 1);
    assert_eq!(CloseReason::Dismissed.code(), 2);
    assert_eq!(CloseReason::ByApi.code(), 3);
}

#[test]
fn capabilities_and_server_information() {
    let daemon = NotificationDaemon::new(5000);
    let caps = daemon.get_capabilities();
    assert_eq!(caps, vec!["body", "body-markup", "actions"]);
    let (name, vendor, _version, spec_version) = daemon.get_server_information();
    assert_eq!(name, "ashell");
    assert_eq!(vendor, "ashell");
    assert_eq!(spec_version, "1.2");
}

#[test]
fn id_counter_wraps_past_zero() {
    let mut daemon = NotificationDaemon::new(5000);
    daemon.next_id = u32::MAX;
    let r1 = daemon.notify("app", 0, "", "s", "b", &vec![], &no_hints(), -1);
    assert_eq!(r1.id, u32::MAX);
    // The counter wraps straight to 1: 0 is reserved and never assigned.
    let r2 = daemon.notify("app", 0, "", "s", "b", &vec![], &no_hints(), -1);
    assert_eq!(r2.id, 1);
}
