use prose_shell::notification::Notification;
use prose_shell::notification::NotificationResponse;
use prose_shell::notification::badge_label;
use prose_shell::notification::interaction_action;

#[test]
fn test_notification_builder() {
    let n = Notification::new()
        .title("New message")
        .subtitle("Alice: hello")
        .image("file:///tmp/avatar.png")
        .sound("Ping")
        .reply(true);
    assert_eq!(n.title.as_deref(), Some("New message"));
    assert_eq!(n.subtitle.as_deref(), Some("Alice: hello"));
    assert_eq!(n.image.as_deref(), Some("file:///tmp/avatar.png"));
    assert_eq!(n.sound.as_deref(), Some("Ping"));
    assert!(n.reply);
    assert_eq!(n.identifier, "");
}

#[test]
fn test_notification_new_is_empty() {
    let n = Notification::new();
    assert_eq!(n.title, None);
    assert_eq!(n.subtitle, None);
    assert_eq!(n.image, None);
    assert_eq!(n.sound, None);
    assert!(!n.reply);
}

#[test]
fn test_builder_keeps_other_fields() {
    let n = Notification::new().title("t").reply(true).sound("s");
    let n = n.subtitle("sub");
    assert_eq!(n.title.as_deref(), Some("t"));
    assert_eq!(n.sound.as_deref(), Some("s"));
    assert!(n.reply);
}

#[test]
fn test_from_activation() {
    let r = NotificationResponse::from_activation("actionClicked", Some("Archive".to_string()));
    assert!(matches!(r, NotificationResponse::ActionButton(v) if v == "Archive"));
    let r = NotificationResponse::from_activation("replied", Some("on my way".to_string()));
    assert!(matches!(r, NotificationResponse::Reply(v) if v == "on my way"));
    let r = NotificationResponse::from_activation("actionClicked", None);
    assert!(matches!(r, NotificationResponse::ActionButton(v) if v.is_empty()));
    let r = NotificationResponse::from_activation("contentsClicked", None);
    assert!(matches!(r, NotificationResponse::Click));
}

#[test]
fn test_badge_label() {
    assert_eq!(badge_label(0), None);
    assert_eq!(badge_label(5), Some("5".to_string()));
    assert_eq!(badge_label(120), Some("120".to_string()));
}

#[test]
fn test_interaction_action() {
    assert_eq!(interaction_action(&NotificationResponse::Click), "click");
    assert_eq!(
        interaction_action(&NotificationResponse::Reply("hi".to_string())),
        "reply"
    );
    assert_eq!(
        interaction_action(&NotificationResponse::CloseButton("x".to_string())),
        "close"
    );
    assert_eq!(
        interaction_action(&NotificationResponse::ActionButton("a".to_string())),
        "other"
    );
    assert_eq!(interaction_action(&NotificationResponse::NoInteraction), "none");
}
