use civil_protection::transport::{confirm_login, login_step, notices};
use civil_protection::{
    CivilProtection, ConfigStore, Dispatch, Envelope, Error, Failure, Identity, LoginStep, Reply,
    TransportConfig,
};

fn mate(name: &str, email: &str) -> Identity {
    Identity { name: name.to_string(), email: email.to_string() }
}

fn with_squadmates(transport: TransportConfig, emails: &[&str]) -> CivilProtection {
    let mut cp = CivilProtection::new(ConfigStore::absent());
    cp.create_config(mate("Alice", "alice@example.com"), transport).unwrap();
    for email in emails {
        cp.add_squadmate(mate("Mate", email)).unwrap();
    }
    cp
}

#[test]
fn notify_with_no_squadmates_succeeds() {
    let mut cp = with_squadmates(TransportConfig::Sendmail, &[]);
    let round = cp.notify_squadmates().unwrap();
    assert!(round.envelopes.is_empty());
    assert!(round.next().is_none());
    assert_eq!(round.finish(), Ok(()));
}

#[test]
fn notify_needs_a_configuration() {
    let mut cp = CivilProtection::new(ConfigStore::absent());
    assert!(matches!(cp.notify_squadmates(), Err(Error::NotConfigured)));
    assert_eq!(cp.login(), Err(Error::NotConfigured));
}

#[test]
fn one_message_per_squadmate_in_order() {
    let transport = TransportConfig::Smtp { credential: "pw".to_string() };
    let mut cp = with_squadmates(transport, &["b@example.com", "c@example.com"]);
    let round = cp.notify_squadmates().unwrap();
    assert!(round.replies.is_empty());
    assert_eq!(round.envelopes.len(), 2);
    let expected = Envelope {
        sender: mate("Alice", "alice@example.com"),
        transport: TransportConfig::Smtp { credential: "pw".to_string() },
        recipient: mate("Mate", "b@example.com"),
        subject: "Resistance test notification".to_string(),
        body: "This is a test notification from Resistance. If you can read it, notifications reach you."
            .to_string(),
    };
    assert_eq!(round.envelopes[0], expected);
    assert_eq!(round.envelopes[1].recipient, mate("Mate", "c@example.com"));
    assert_eq!(round.envelopes[1].subject, expected.subject);
    assert_eq!(round.envelopes[1].body, expected.body);
    assert_eq!(round.next(), Some(&expected));
}

#[test]
fn all_sent_is_success() {
    let mut cp = with_squadmates(TransportConfig::Sendmail, &["b@example.com", "c@example.com"]);
    let mut round = cp.notify_squadmates().unwrap();
    let mut seen = Vec::new();
    while let Some(envelope) = round.next() {
        seen.push(envelope.recipient.email.clone());
        assert!(round.record(Reply::Done));
    }
    assert_eq!(seen, vec!["b@example.com".to_string(), "c@example.com".to_string()]);
    assert!(!round.record(Reply::Done));
    assert!(!round.record(Reply::Failed("late".to_string())));
    assert_eq!(round.replies.len(), 2);
    assert_eq!(round.finish(), Ok(()));
}

#[test]
fn every_failure_is_reported() {
    let mut cp = with_squadmates(
        TransportConfig::Sendmail,
        &["b@example.com", "c@example.com", "d@example.com", "e@example.com"],
    );
    let mut round = cp.notify_squadmates().unwrap();
    assert!(round.record(Reply::Failed("mailbox full".to_string())));
    assert!(round.record(Reply::Done));
    assert!(round.record(Reply::Failed("no such user".to_string())));
    assert_eq!(round.next().unwrap().recipient.email, "e@example.com");
    assert!(round.record(Reply::Done));
    assert_eq!(
        round.finish(),
        Err(Error::Send(vec![
            Failure { recipient: mate("Mate", "b@example.com"), reason: "mailbox full".to_string() },
            Failure { recipient: mate("Mate", "d@example.com"), reason: "no such user".to_string() },
        ]))
    );
}

#[test]
fn unsent_messages_count_as_failures() {
    let mut cp = with_squadmates(TransportConfig::Sendmail, &["b@example.com", "c@example.com"]);
    let mut round = cp.notify_squadmates().unwrap();
    assert!(round.record(Reply::Done));
    assert_eq!(
        round.finish(),
        Err(Error::Send(vec![Failure {
            recipient: mate("Mate", "c@example.com"),
            reason: "not attempted".to_string(),
        }]))
    );
    let untouched = cp.notify_squadmates().unwrap();
    match untouched.finish() {
        Err(Error::Send(failures)) => assert_eq!(failures.len(), 2),
        other => panic!("unexpected {:?}", other),
    }
}

#[test]
fn dispatch_over_given_envelopes() {
    let sender = mate("Alice", "alice@example.com");
    let list = vec![mate("Bob", "bob@example.com")];
    let envelopes = notices(&sender, &TransportConfig::Sendmail, &list);
    assert_eq!(envelopes.len(), 1);
    assert_eq!(envelopes[0].sender, sender);
    assert_eq!(envelopes[0].recipient, list[0]);
    let mut round = Dispatch::new(envelopes);
    assert!(round.next().is_some());
    assert!(round.record(Reply::Failed("down".to_string())));
    assert!(round.next().is_none());
    assert_eq!(
        round.finish(),
        Err(Error::Send(vec![Failure { recipient: mate("Bob", "bob@example.com"), reason: "down".to_string() }]))
    );
}

#[test]
fn sendmail_needs_no_login() {
    let mut cp = with_squadmates(TransportConfig::Sendmail, &[]);
    assert_eq!(cp.login(), Ok(LoginStep::Ready));
    assert_eq!(cp.login(), Ok(LoginStep::Ready));
}

#[test]
fn smtp_login_uses_the_stored_credential() {
    let mut cp = with_squadmates(TransportConfig::Smtp { credential: "hunter2".to_string() }, &[]);
    let expected = LoginStep::Authenticate {
        address: "alice@example.com".to_string(),
        credential: "hunter2".to_string(),
    };
    assert_eq!(cp.login(), Ok(expected));
    assert_eq!(
        login_step(&mate("A", "a@b"), &TransportConfig::Smtp { credential: "x".to_string() }),
        LoginStep::Authenticate { address: "a@b".to_string(), credential: "x".to_string() }
    );
    assert_eq!(login_step(&mate("A", "a@b"), &TransportConfig::Sendmail), LoginStep::Ready);
}

#[test]
fn login_reply_decides_the_outcome() {
    assert_eq!(confirm_login(Reply::Done), Ok(()));
    assert_eq!(
        confirm_login(Reply::Failed("535 bad credentials".to_string())),
        Err(Error::Auth("535 bad credentials".to_string()))
    );
}
