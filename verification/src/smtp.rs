//! Bounded, TLS-first SMTP notification policy: configuration checks,
//! template rendering with HTML escaping, message identifiers and the
//! delivery retry schedule. The transport itself lives with the adapter.

use vstd::prelude::*;

use crate::encoding::{uuid_string, uuid_text};
use crate::ports::Notification;
use crate::text::{owned, same_text, trim, trimmed};
use crate::{DomainError, DomainResult};

verus! {

/// Delivery attempts per notification.
pub const DELIVERY_ATTEMPTS: u8 = 3;

/// Pause before the first retry, in milliseconds.
pub const INITIAL_RETRY_DELAY_MILLIS: u64 = 100;

/// Pooled transport connections.
pub const MAX_CONNECTIONS: u32 = 8;

/// SMTP transport security policy.
#[derive(Debug, Clone, Copy, PartialEq, Eq, Structural)]
pub enum SmtpSecurity {
    /// SMTP over implicit TLS, normally port 465.
    ImplicitTls,
    /// Plain connection upgraded with mandatory STARTTLS, normally port 587.
    StartTls,
    /// Unencrypted local relay. Rejected for non-loopback hosts.
    PlainLocal,
}

impl Default for SmtpSecurity {
    fn default() -> (security: Self)
        ensures
            security == SmtpSecurity::StartTls,
    {
        SmtpSecurity::StartTls
    }
}

/// Explicit optional SMTP configuration.
#[derive(Clone)]
pub struct SmtpConfig {
    /// Relay hostname or loopback address.
    pub relay: String,
    /// Relay port.
    pub port: u16,
    /// Transport security policy.
    pub security: SmtpSecurity,
    /// Optional authentication username.
    pub username: Option<String>,
    /// Optional authentication password.
    pub password: Option<String>,
    /// RFC-compatible sender mailbox.
    pub from: String,
    /// Per-command timeout in seconds.
    pub timeout_seconds: u64,
}

/// The per-command timeout when the configuration names none, in seconds.
pub fn default_timeout_seconds() -> (seconds: u64)
    ensures
        seconds == 10,
{
    10
}

/// Whether a relay names the local host: `localhost`, `127.0.0.1`, `::1`
/// or `[::1]`, around surrounding whitespace.
pub open spec fn loopback_relay(relay: Seq<char>) -> bool {
    let host = trimmed(relay);
    host == "localhost"@ || host == "127.0.0.1"@ || host == "::1"@ || host == "[::1]"@
}

/// Whether a relay names the local host.
pub fn is_loopback_relay(relay: &str) -> (local: bool)
    ensures
        local == loopback_relay(relay@),
{
    let host = trim(relay);
    same_text(host, "localhost") || same_text(host, "127.0.0.1") || same_text(host, "::1") || same_text(host, "[::1]")
}

/// Why an SMTP configuration is refused, if it is; the checks run in order.
pub open spec fn config_problem(config: SmtpConfig) -> Option<Seq<char>> {
    if trimmed(config.relay@).len() == 0 {
        Some("SMTP relay must not be empty"@)
    } else if config.port == 0 {
        Some("SMTP port must be positive"@)
    } else if !(1 <= config.timeout_seconds <= 120) {
        Some("SMTP timeout must be between 1 and 120 seconds"@)
    } else if config.username.is_some() != config.password.is_some() {
        Some("SMTP username and password must be configured together"@)
    } else if config.security == SmtpSecurity::PlainLocal && !loopback_relay(config.relay@) {
        Some("unencrypted SMTP is restricted to loopback relays"@)
    } else {
        None
    }
}

/// Validates an SMTP configuration before a transport is built.
pub fn validate_config(config: &SmtpConfig) -> (r: DomainResult<()>)
    ensures
        match config_problem(*config) {
            None => r is Ok,
            Some(problem) => r matches Err(DomainError::Validation(m)) && m@ == problem,
        },
{
    if trim(config.relay.as_str()).is_empty() {
        return Err(DomainError::Validation(owned("SMTP relay must not be empty")));
    }
    if config.port == 0 {
        return Err(DomainError::Validation(owned("SMTP port must be positive")));
    }
    if config.timeout_seconds < 1 || config.timeout_seconds > 120 {
        return Err(DomainError::Validation(owned("SMTP timeout must be between 1 and 120 seconds")));
    }
    if config.username.is_some() != config.password.is_some() {
        return Err(DomainError::Validation(owned("SMTP username and password must be configured together")));
    }
    if config.security == SmtpSecurity::PlainLocal && !is_loopback_relay(config.relay.as_str()) {
        return Err(DomainError::Validation(owned("unencrypted SMTP is restricted to loopback relays")));
    }
    Ok(())
}

/// The error for a configuration that the transport refuses, carrying the
/// transport's own description.
pub fn configuration_error(description: &str) -> (error: DomainError)
    ensures
        error matches DomainError::Validation(m) && m@ == "invalid SMTP configuration: "@ + description@,
{
    DomainError::Validation(owned("invalid SMTP configuration: ").concat(description))
}

/// Whether `lettre`'s mailbox parser (`Mailbox::from_str`) accepts an
/// address such as `Name <user@example.test>` or `user@example.test`.
pub uninterp spec fn mailbox_parses(address: Seq<char>) -> bool;

/// Parses an address with `lettre::message::Mailbox::from_str`. Claimed: it
/// succeeds exactly when `mailbox_parses` holds of the address; on failure
/// the parser error's text is returned, of which nothing is claimed.
#[verifier::external_body]
fn check_mailbox(address: &str) -> (r: Result<(), String>)
    ensures
        r is Ok <==> mailbox_parses(address@),
{
    match address.parse::<lettre::message::Mailbox>() {
        Ok(_) => Ok(()),
        Err(error) => Err(error.to_string()),
    }
}

/// Checks the configured sender: it must be a mailbox. A sender that does
/// not parse is a configuration error carrying the parser's message.
pub fn validate_sender(from: &str) -> (r: DomainResult<()>)
    ensures
        mailbox_parses(from@) ==> r is Ok,
        !mailbox_parses(from@) ==> (r matches Err(DomainError::Validation(m)) && m@.len() >= 28 && m@.subrange(0, 28)
            == "invalid SMTP configuration: "@),
{
    match check_mailbox(from) {
        Ok(()) => Ok(()),
        Err(description) => {
            let error = configuration_error(description.as_str());
            proof {
                reveal_strlit("invalid SMTP configuration: ");
                assert(error->Validation_0@.subrange(0, 28) =~= "invalid SMTP configuration: "@);
            }
            Err(error)
        },
    }
}

/// Checks a notification's recipient: it must be a mailbox.
pub fn validate_recipient(recipient: &str) -> (r: DomainResult<()>)
    ensures
        mailbox_parses(recipient@) ==> r is Ok,
        !mailbox_parses(recipient@) ==> (r matches Err(DomainError::Validation(m)) && m@
            == "notification recipient is not a mailbox"@),
{
    match check_mailbox(recipient) {
        Ok(()) => Ok(()),
        Err(_) => Err(DomainError::Validation(owned("notification recipient is not a mailbox"))),
    }
}

/// The value stored under a key: that of the first entry with the key.
pub open spec fn data_value(data: Seq<(String, String)>, key: Seq<char>) -> Option<Seq<char>>
    decreases data.len(),
{
    if data.len() == 0 {
        None
    } else if data[0].0@ == key {
        Some(data[0].1@)
    } else {
        data_value(data.drop_first(), key)
    }
}

/// A required template value: present and non-empty.
pub open spec fn required_value(data: Seq<(String, String)>, key: Seq<char>) -> Option<Seq<char>> {
    match data_value(data, key) {
        Some(value) => if value.len() > 0 {
            Some(value)
        } else {
            None
        },
        None => None,
    }
}

/// Reads a required, non-empty template value of a notification.
pub fn required_data<'a>(notification: &'a Notification, key: &str) -> (r: DomainResult<&'a str>)
    ensures
        match required_value(notification.data@, key@) {
            Some(value) => r matches Ok(v) && v@ == value,
            None => r matches Err(DomainError::Validation(m)) && m@ == "notification data requires "@ + key@,
        },
{
    let data = &notification.data;
    let mut i: usize = 0;
    assert(data@.skip(0) =~= data@);
    while i < data.len()
        invariant
            i <= data@.len(),
            data@ == notification.data@,
            data_value(data@, key@) == data_value(data@.skip(i as int), key@),
        decreases data.len() - i,
    {
        let ghost rest = data@.skip(i as int);
        assert(rest[0] == data@[i as int]);
        assert(rest.drop_first() =~= data@.skip(i + 1));
        if same_text(data[i].0.as_str(), key) {
            let value = data[i].1.as_str();
            assert(data_value(rest, key@) == Some(value@));
            assert(data_value(notification.data@, key@) == Some(value@));
            if value.is_empty() {
                assert(required_value(notification.data@, key@) is None);
                return Err(DomainError::Validation(owned("notification data requires ").concat(key)));
            }
            assert(required_value(notification.data@, key@) == Some(value@));
            return Ok(value);
        }
        i = i + 1;
    }
    Err(DomainError::Validation(owned("notification data requires ").concat(key)))
}

/// The HTML-escaped form of one character.
pub open spec fn escape_char(c: char) -> Seq<char> {
    if c == '&' {
        seq!['&', 'a', 'm', 'p', ';']
    } else if c == '<' {
        seq!['&', 'l', 't', ';']
    } else if c == '>' {
        seq!['&', 'g', 't', ';']
    } else if c == '"' {
        seq!['&', 'q', 'u', 'o', 't', ';']
    } else if c == '\'' {
        seq!['&', '#', '3', '9', ';']
    } else {
        seq![c]
    }
}

/// The HTML-escaped form of a text: `&`, `<`, `>`, `"` and `'` become
/// entities, every other character stays.
pub open spec fn escaped(s: Seq<char>) -> Seq<char>
    decreases s.len(),
{
    if s.len() == 0 {
        Seq::empty()
    } else {
        escaped(s.drop_last()) + escape_char(s.last())
    }
}

/// Escapes a text for HTML element content and attribute values.
pub fn escape_html(value: &str) -> (out: String)
    ensures
        out@ == escaped(value@),
{
    proof {
        reveal_strlit("&amp;");
        reveal_strlit("&lt;");
        reveal_strlit("&gt;");
        reveal_strlit("&quot;");
        reveal_strlit("&#39;");
        assert("&amp;"@ =~= escape_char('&'));
        assert("&lt;"@ =~= escape_char('<'));
        assert("&gt;"@ =~= escape_char('>'));
        assert("&quot;"@ =~= escape_char('"'));
        assert("&#39;"@ =~= escape_char('\''));
    }
    let chars = crate::text::chars_of(value);
    let mut out = String::new();
    let mut i: usize = 0;
    while i < chars.len()
        invariant
            chars@ == value@,
            i <= chars@.len(),
            out@ == escaped(value@.take(i as int)),
            "&amp;"@ == escape_char('&'),
            "&lt;"@ == escape_char('<'),
            "&gt;"@ == escape_char('>'),
            "&quot;"@ == escape_char('"'),
            "&#39;"@ == escape_char('\''),
        decreases chars.len() - i,
    {
        let c = chars[i];
        proof {
            assert(value@.take(i + 1).drop_last() =~= value@.take(i as int));
            assert(value@.take(i + 1).last() == c);
        }
        if c == '&' {
            out.append("&amp;");
        } else if c == '<' {
            out.append("&lt;");
        } else if c == '>' {
            out.append("&gt;");
        } else if c == '"' {
            out.append("&quot;");
        } else if c == '\'' {
            out.append("&#39;");
        } else {
            out.push(c);
            assert(seq![c] =~= escape_char(c));
        }
        i = i + 1;
    }
    assert(value@.take(value@.len() as int) =~= value@);
    out
}

/// Escaped text holds no markup character: no `<`, `>`, `"` or `'`.
pub proof fn lemma_escaped_has_no_markup(s: Seq<char>)
    ensures
        forall|i: int| 0 <= i < escaped(s).len() ==> {
            let c = #[trigger] escaped(s)[i];
            c != '<' && c != '>' && c != '"' && c != '\''
        },
    decreases s.len(),
{
    if s.len() > 0 {
        lemma_escaped_has_no_markup(s.drop_last());
        let before = escaped(s.drop_last());
        let tail = escape_char(s.last());
        assert forall|i: int| 0 <= i < escaped(s).len() implies {
            let c = #[trigger] escaped(s)[i];
            c != '<' && c != '>' && c != '"' && c != '\''
        } by {
            if i < before.len() {
                assert(escaped(s)[i] == before[i]);
            } else {
                assert(escaped(s)[i] == tail[i - before.len()]);
            }
        }
    }
}

/// The subject and purpose line of a supported template.
pub open spec fn template_text(template: Seq<char>) -> Option<(Seq<char>, Seq<char>)> {
    if template == "auth.email_verification"@ {
        Some(("Verify your Kitsune email"@, "Confirm this email address for your Kitsune account"@))
    } else if template == "auth.account_recovery"@ {
        Some(("Recover your Kitsune account"@, "Choose a new password for your Kitsune account"@))
    } else {
        None
    }
}

/// The plain-text body of a notification.
pub open spec fn plain_body(name: Seq<char>, purpose: Seq<char>, url: Seq<char>, expires: Seq<char>) -> Seq<char> {
    "Hello "@ + name + ",\n\n"@ + purpose + ":\n"@ + url + "\n\nThis link expires "@ + expires
        + ". If you did not request this, you can ignore this message.\n"@
}

/// The HTML body of a notification, from already escaped values.
pub open spec fn html_body(name: Seq<char>, purpose: Seq<char>, url: Seq<char>, expires: Seq<char>) -> Seq<char> {
    "<!doctype html><html><body style=\"font-family:system-ui,sans-serif;color:#171717;line-height:1.5\"><main style=\"max-width:560px;margin:0 auto;padding:32px\"><p>Hello "@
        + name + ",</p><p>"@ + purpose + ".</p><p><a href=\""@ + url
        + "\" style=\"display:inline-block;padding:12px 18px;border-radius:10px;background:#c2410c;color:white;text-decoration:none;font-weight:700\">Continue to Kitsune</a></p><p style=\"color:#666;font-size:14px\">This link expires "@
        + expires + ". If you did not request this, you can ignore this message.</p></main></body></html>"@
}

/// A rendered notification: subject, plain-text and HTML bodies.
#[derive(Debug, Clone, PartialEq, Eq)]
pub struct RenderedNotification {
    /// Subject line.
    pub subject: &'static str,
    /// Plain-text body.
    pub plain: String,
    /// HTML body; every template value in it is escaped.
    pub html: String,
}

/// Renders a notification from its template and its required values
/// `display_name`, `action_url` and `expires`, read in that order.
pub fn render(notification: &Notification) -> (r: DomainResult<RenderedNotification>)
    ensures
        required_value(notification.data@, "display_name"@) is None ==> (r matches Err(DomainError::Validation(m))
            && m@ == "notification data requires "@ + "display_name"@),
        required_value(notification.data@, "display_name"@) is Some && required_value(notification.data@, "action_url"@)
            is None ==> (r matches Err(DomainError::Validation(m)) && m@ == "notification data requires "@
            + "action_url"@),
        required_value(notification.data@, "display_name"@) is Some && required_value(notification.data@, "action_url"@)
            is Some && required_value(notification.data@, "expires"@) is None ==> (r matches Err(
            DomainError::Validation(m),
        ) && m@ == "notification data requires "@ + "expires"@),
        ({
            let name = required_value(notification.data@, "display_name"@);
            let url = required_value(notification.data@, "action_url"@);
            let expires = required_value(notification.data@, "expires"@);
            name is Some && url is Some && expires is Some ==> match template_text(notification.template@) {
                None => r matches Err(DomainError::Validation(m)) && m@ == "SMTP notification template is not supported"@,
                Some((subject, purpose)) => r matches Ok(rendered) && rendered.subject@ == subject
                    && rendered.plain@ == plain_body(name.unwrap(), purpose, url.unwrap(), expires.unwrap())
                    && rendered.html@ == html_body(
                    escaped(name.unwrap()),
                    purpose,
                    escaped(url.unwrap()),
                    escaped(expires.unwrap()),
                ),
            }
        }),
{
    let display_name = match required_data(notification, "display_name") {
        Ok(value) => value,
        Err(error) => return Err(error),
    };
    let action_url = match required_data(notification, "action_url") {
        Ok(value) => value,
        Err(error) => return Err(error),
    };
    let expires = match required_data(notification, "expires") {
        Ok(value) => value,
        Err(error) => return Err(error),
    };
    let escaped_name = escape_html(display_name);
    let escaped_url = escape_html(action_url);
    let escaped_expires = escape_html(expires);
    let (subject, purpose): (&'static str, &'static str) = if same_text(
        notification.template.as_str(),
        "auth.email_verification",
    ) {
        ("Verify your Kitsune email", "Confirm this email address for your Kitsune account")
    } else if same_text(notification.template.as_str(), "auth.account_recovery") {
        ("Recover your Kitsune account", "Choose a new password for your Kitsune account")
    } else {
        return Err(DomainError::Validation(owned("SMTP notification template is not supported")));
    };
    let plain = owned("Hello ").concat(display_name).concat(",\n\n").concat(purpose).concat(":\n").concat(
        action_url,
    ).concat("\n\nThis link expires ").concat(expires).concat(
        ". If you did not request this, you can ignore this message.\n",
    );
    let html = owned(
        "<!doctype html><html><body style=\"font-family:system-ui,sans-serif;color:#171717;line-height:1.5\"><main style=\"max-width:560px;margin:0 auto;padding:32px\"><p>Hello ",
    ).concat(escaped_name.as_str()).concat(",</p><p>").concat(purpose).concat(".</p><p><a href=\"").concat(
        escaped_url.as_str(),
    ).concat(
        "\" style=\"display:inline-block;padding:12px 18px;border-radius:10px;background:#c2410c;color:white;text-decoration:none;font-weight:700\">Continue to Kitsune</a></p><p style=\"color:#666;font-size:14px\">This link expires ",
    ).concat(escaped_expires.as_str()).concat(
        ". If you did not request this, you can ignore this message.</p></main></body></html>",
    );
    Ok(RenderedNotification { subject, plain, html })
}

/// The `Message-ID` of a notification: `<` UUID `@notifications.kitsune>`.
pub fn message_id(idempotency_key: u128) -> (id: String)
    ensures
        id@ == "<"@ + uuid_text(idempotency_key) + "@notifications.kitsune>"@,
{
    owned("<").concat(uuid_string(idempotency_key).as_str()).concat("@notifications.kitsune>")
}

/// What follows a failed delivery attempt.
#[derive(Debug, Clone, Copy, PartialEq, Eq, Structural)]
pub enum DeliveryStep {
    /// Wait this many milliseconds, then try again; the next wait doubles.
    RetryAfter { delay_millis: u64, next_delay_millis: u64 },
    /// The retry budget is spent.
    GiveUp,
}

/// The step after failed attempt number `attempt` (from 1), waiting
/// `delay_millis` before a retry: retry while attempts remain, doubling
/// the wait (saturating), else give up.
pub fn after_failed_attempt(attempt: u8, delay_millis: u64) -> (step: DeliveryStep)
    ensures
        attempt < DELIVERY_ATTEMPTS ==> step == (DeliveryStep::RetryAfter {
            delay_millis,
            next_delay_millis: if delay_millis * 2 > u64::MAX { u64::MAX } else { (delay_millis * 2) as u64 },
        }),
        attempt >= DELIVERY_ATTEMPTS ==> step == DeliveryStep::GiveUp,
{
    if attempt < DELIVERY_ATTEMPTS {
        let next_delay_millis: u64 = if delay_millis > u64::MAX / 2 { u64::MAX } else { delay_millis * 2 };
        DeliveryStep::RetryAfter { delay_millis, next_delay_millis }
    } else {
        DeliveryStep::GiveUp
    }
}

/// The error returned when the relay rejects every attempt.
pub fn relay_rejected() -> (error: DomainError)
    ensures
        error matches DomainError::Unavailable(m) && m@ == "SMTP relay rejected the notification"@,
{
    DomainError::Unavailable(owned("SMTP relay rejected the notification"))
}

} // verus!
