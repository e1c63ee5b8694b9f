use kitsune::ports::Notification;
use kitsune::smtp::{
    DeliveryStep, SmtpConfig, SmtpSecurity, after_failed_attempt, configuration_error,
    default_timeout_seconds, escape_html, is_loopback_relay, message_id, relay_rejected, render,
    required_data, validate_config, validate_recipient, validate_sender,
};
use kitsune::DomainError;

fn test_config(port: u16) -> SmtpConfig {
    SmtpConfig {
        relay: "127.0.0.1".into(),
        port,
        security: SmtpSecurity::PlainLocal,
        username: None,
        password: None,
        from: "Kitsune <kitsune@example.test>".into(),
        timeout_seconds: 2,
    }
}

fn test_notification(display_name: &str) -> Notification {
    Notification {
        template: "auth.email_verification".into(),
        recipient: "player@example.test".into(),
        data: vec![
            ("display_name".into(), display_name.into()),
            (
                "action_url".into(),
                "https://ctf.example.test/verify-email?token=opaque".into(),
            ),
            ("expires".into(), "in 24 hours".into()),
        ],
        idempotency_key: 0x0190_0000_0000_7000_8000_0000_0000_0001,
    }
}

#[test]
fn templates_escape_untrusted_display_values() {
    let notification = test_notification("Fox <script>");
    let rendered = render(&notification).expect("render notification");
    assert!(rendered.html.contains("Fox &lt;script&gt;"));
    assert!(!rendered.html.contains("Fox <script>"));
    assert!(
        rendered
            .plain
            .contains("https://ctf.example.test/verify-email")
    );
}

#[test]
fn smtp_configuration_requires_tls_and_paired_credentials() {
    let mut config = test_config(2525);
    config.relay = "mail.example.test".into();
    assert_eq!(
        validate_config(&config),
        Err(DomainError::Validation("unencrypted SMTP is restricted to loopback relays".into()))
    );
    config.security = SmtpSecurity::StartTls;
    config.username = Some("kitsune".into());
    assert_eq!(
        validate_config(&config),
        Err(DomainError::Validation("SMTP username and password must be configured together".into()))
    );
    config.password = Some("secret".into());
    assert_eq!(validate_config(&config), Ok(()));
}

#[test]
fn configuration_bounds_relay_port_and_timeout() {
    let mut config = test_config(25);
    assert_eq!(validate_config(&config), Ok(()));
    config.timeout_seconds = 0;
    assert_eq!(
        validate_config(&config),
        Err(DomainError::Validation("SMTP timeout must be between 1 and 120 seconds".into()))
    );
    config.timeout_seconds = 121;
    assert!(validate_config(&config).is_err());
    config.timeout_seconds = 120;
    config.port = 0;
    assert_eq!(validate_config(&config), Err(DomainError::Validation("SMTP port must be positive".into())));
    config.relay = "  ".into();
    assert_eq!(validate_config(&config), Err(DomainError::Validation("SMTP relay must not be empty".into())));
    assert_eq!(default_timeout_seconds(), 10);
    assert_eq!(SmtpSecurity::default(), SmtpSecurity::StartTls);
}

#[test]
fn loopback_relays() {
    assert!(is_loopback_relay(" localhost "));
    assert!(is_loopback_relay("127.0.0.1"));
    assert!(is_loopback_relay("::1"));
    assert!(is_loopback_relay("[::1]"));
    assert!(!is_loopback_relay("127.0.0.2"));
    assert!(!is_loopback_relay("LOCALHOST"));
}

#[test]
fn html_escaping_covers_markup_characters() {
    assert_eq!(escape_html(r#"<a href="x">Tom & 'Jerry'</a>"#), "&lt;a href=&quot;x&quot;&gt;Tom &amp; &#39;Jerry&#39;&lt;/a&gt;");
    assert_eq!(escape_html("plain"), "plain");
    assert_eq!(escape_html("&amp;"), "&amp;amp;");
}

#[test]
fn rendering_needs_data_and_a_known_template() {
    let mut notification = test_notification("Fox Player");
    let rendered = render(&notification).expect("render");
    assert_eq!(rendered.subject, "Verify your Kitsune email");
    assert_eq!(
        rendered.plain,
        "Hello Fox Player,\n\nConfirm this email address for your Kitsune account:\nhttps://ctf.example.test/verify-email?token=opaque\n\nThis link expires in 24 hours. If you did not request this, you can ignore this message.\n"
    );
    assert!(rendered.html.starts_with("<!doctype html>"));
    assert!(rendered.html.contains("<a href=\"https://ctf.example.test/verify-email?token=opaque\""));
    notification.template = "auth.account_recovery".into();
    assert_eq!(render(&notification).expect("render").subject, "Recover your Kitsune account");
    notification.template = "marketing".into();
    assert_eq!(
        render(&notification).err(),
        Some(DomainError::Validation("SMTP notification template is not supported".into()))
    );
    notification.data[2].1 = String::new();
    assert_eq!(
        render(&notification).err(),
        Some(DomainError::Validation("notification data requires expires".into()))
    );
    assert_eq!(required_data(&notification, "display_name"), Ok("Fox Player"));
    assert_eq!(
        required_data(&notification, "missing"),
        Err(DomainError::Validation("notification data requires missing".into()))
    );
}

#[test]
fn delivery_retries_twice_with_doubling_delay() {
    assert_eq!(after_failed_attempt(1, 100), DeliveryStep::RetryAfter { delay_millis: 100, next_delay_millis: 200 });
    assert_eq!(after_failed_attempt(2, 200), DeliveryStep::RetryAfter { delay_millis: 200, next_delay_millis: 400 });
    assert_eq!(after_failed_attempt(3, 400), DeliveryStep::GiveUp);
    assert_eq!(
        after_failed_attempt(1, u64::MAX),
        DeliveryStep::RetryAfter { delay_millis: u64::MAX, next_delay_millis: u64::MAX }
    );
    assert_eq!(relay_rejected(), DomainError::Unavailable("SMTP relay rejected the notification".into()));
}

#[test]
fn message_ids_and_configuration_errors() {
    assert_eq!(
        message_id(0x0190_0000_0000_7000_8000_0000_0000_0001),
        "<01900000-0000-7000-8000-000000000001@notifications.kitsune>"
    );
    assert_eq!(
        configuration_error("bad mailbox"),
        DomainError::Validation("invalid SMTP configuration: bad mailbox".into())
    );
}

#[test]
fn senders_and_recipients_must_be_mailboxes() {
    assert_eq!(validate_sender("Kitsune <kitsune@example.test>"), Ok(()));
    assert_eq!(validate_recipient("player@example.test"), Ok(()));
    match validate_sender("not a mailbox") {
        Err(DomainError::Validation(message)) => assert!(message.starts_with("invalid SMTP configuration: ")),
        other => panic!("unexpected {other:?}"),
    }
    assert_eq!(
        validate_recipient("nobody"),
        Err(DomainError::Validation("notification recipient is not a mailbox".into()))
    );
}
