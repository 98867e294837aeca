use civil_protection::email::{is_plausible_address, mail_domain};
use civil_protection::prompt::{entered_identity, is_affirmative, trim_line};
use civil_protection::{Config, Error, Failure, Identity, TransportConfig};

#[test]
fn replies_that_mean_yes() {
    for reply in ["y", "Y", "yes\n", "Yes", "YES", "y\n", "yikes", "Yo"] {
        assert!(is_affirmative(reply), "{:?}", reply);
    }
}

#[test]
fn replies_that_do_not_mean_yes() {
    for reply in ["", "\n", "n", "N", "no\n", " y", "oy", "\u{ff59}", "\u{1ef3}es"] {
        assert!(!is_affirmative(reply), "{:?}", reply);
    }
}

#[test]
fn affirmative_agrees_with_lowercasing() {
    for code in 0u32..=0x10ffff {
        if let Some(c) = char::from_u32(code) {
            let reply = format!("{}es", c);
            assert_eq!(is_affirmative(&reply), reply.to_lowercase().starts_with("y"), "{:?}", c);
        }
    }
}

#[test]
fn lines_lose_their_trailing_white_space() {
    assert_eq!(trim_line("Alice\n"), "Alice");
    assert_eq!(trim_line("Alice Liddell \t\r\n"), "Alice Liddell");
    assert_eq!(trim_line("  lead stays \n"), "  lead stays");
    assert_eq!(trim_line(""), "");
    assert_eq!(trim_line(" \n\t "), "");
    assert_eq!(trim_line("\u{3000}\u{a0}"), "");
    assert_eq!(trim_line("caf\u{e9}\u{2003}\u{85}"), "caf\u{e9}");
    assert_eq!(trim_line("tab\tinside"), "tab\tinside");
    assert_eq!(trim_line("zero width\u{200b}"), "zero width\u{200b}");
}

#[test]
fn trimming_agrees_with_std() {
    for code in 0u32..=0x10ffff {
        if let Some(c) = char::from_u32(code) {
            let line = format!("x{}", c);
            assert_eq!(trim_line(&line), line.trim_end(), "{:?}", c);
        }
    }
}

#[test]
fn identity_from_two_lines() {
    let identity = entered_identity("Alice Liddell\n", "alice@example.com\r\n");
    assert_eq!(
        identity,
        Identity { name: "Alice Liddell".to_string(), email: "alice@example.com".to_string() }
    );
    assert_eq!(identity.clone(), identity);
}

#[test]
fn plausible_addresses() {
    for good in ["a@b", "alice@example.com", "first.last+tag@sub.example.org", "\u{e9}@\u{fc}.de", "a@localhost"] {
        assert!(is_plausible_address(good), "{:?}", good);
    }
}

#[test]
fn implausible_addresses() {
    for bad in [
        "", "@", "a", "a@", "@b", "a@@b", "a@b@c", "a b@c", "a@b c", " a@b", "a@b\n", "a@b\u{7f}",
        "a\u{0}@b", "alice.example.com",
    ] {
        assert!(!is_plausible_address(bad), "{:?}", bad);
    }
}

#[test]
fn labels_and_names() {
    let alice = Identity { name: "Alice".to_string(), email: "alice@example.com".to_string() };
    assert_eq!(alice.label(), "Alice <alice@example.com>");
    assert_eq!(Identity { name: String::new(), email: String::new() }.label(), " <>");
    assert_eq!(TransportConfig::Sendmail.name(), "sendmail");
    assert_eq!(TransportConfig::Smtp { credential: "pw".to_string() }.name(), "smtp");
}

#[test]
fn report_without_squadmates() {
    let config = Config {
        identity: Identity { name: "Alice".to_string(), email: "alice@example.com".to_string() },
        transport: TransportConfig::Sendmail,
        squadmates: vec![],
    };
    assert_eq!(
        config.report(),
        vec![
            "Transport: sendmail".to_string(),
            "From Address: Alice <alice@example.com>".to_string(),
            "No squadmates! Add some with `cmacm add \"John Doe\" johndoe@example.com`".to_string(),
        ]
    );
}

#[test]
fn report_with_squadmates() {
    let config = Config {
        identity: Identity { name: "Alice".to_string(), email: "alice@example.com".to_string() },
        transport: TransportConfig::Smtp { credential: "never shown".to_string() },
        squadmates: vec![
            Identity { name: "Bob".to_string(), email: "bob@example.com".to_string() },
            Identity { name: "Carol".to_string(), email: "carol@example.com".to_string() },
        ],
    };
    assert_eq!(
        config.report(),
        vec![
            "Transport: smtp".to_string(),
            "From Address: Alice <alice@example.com>".to_string(),
            "Squadmates:".to_string(),
            "\tBob <bob@example.com>".to_string(),
            "\tCarol <carol@example.com>".to_string(),
        ]
    );
}

#[test]
fn error_messages() {
    assert_eq!(Error::NotConfigured.message(), "no configuration has been set up");
    assert_eq!(Error::AlreadyConfigured.message(), "a configuration exists already");
    assert_eq!(Error::InvalidEmail.message(), "the address is not a plausible email address");
    assert_eq!(Error::DuplicateSquadmate.message(), "a squadmate with this address is already listed");
    assert_eq!(Error::NotFound.message(), "no such entry");
    assert_eq!(Error::Corrupt.message(), "the stored configuration cannot be read");
    assert_eq!(Error::Auth("535 denied".to_string()).message(), "login failed: 535 denied");
    let failures = vec![
        Failure {
            recipient: Identity { name: "Bob".to_string(), email: "bob@example.com".to_string() },
            reason: "mailbox full".to_string(),
        },
        Failure {
            recipient: Identity { name: "Eve".to_string(), email: "eve@example.com".to_string() },
            reason: "not attempted".to_string(),
        },
    ];
    assert_eq!(
        Error::Send(failures).message(),
        "not delivered; Bob <bob@example.com> (mailbox full); Eve <eve@example.com> (not attempted)"
    );
}

#[test]
fn domain_follows_the_last_at() {
    assert_eq!(mail_domain("alice@example.com"), "example.com");
    assert_eq!(mail_domain("a@b@c.d"), "c.d");
    assert_eq!(mail_domain("no-at-sign"), "no-at-sign");
    assert_eq!(mail_domain("trailing@"), "");
    assert_eq!(mail_domain(""), "");
    assert_eq!(mail_domain("\u{e9}@\u{fc}ber.de"), "\u{fc}ber.de");
}
