//! Text for the operator: how identities, transports, configurations and
//! errors are written out.

use crate::config::{identity_views, Config, ConfigView, TransportConfig, TransportView};
use crate::email::{Identity, IdentityView};
use crate::error::{failure_views, Error, Failure, FailureView};
use vstd::prelude::*;
use vstd::string::StringExecFns;

verus! {

/// An identity as a mailbox: the name, then the address in angle brackets.
pub open spec fn label_of(identity: IdentityView) -> Seq<char> {
    identity.name + " <"@ + identity.email + ">"@
}

/// The name of a transport.
pub open spec fn transport_name(transport: TransportView) -> Seq<char> {
    match transport {
        TransportView::Smtp { credential } => "smtp"@,
        TransportView::Sendmail => "sendmail"@,
    }
}

/// One line per squadmate: a tab, then the squadmate's label.
pub open spec fn squadmate_lines(list: Seq<IdentityView>) -> Seq<Seq<char>> {
    Seq::new(list.len(), |k: int| "\t"@ + label_of(list[k]))
}

/// The lines that describe a configuration: the transport, the sender,
/// and the squadmates or a hint that there are none.
pub open spec fn report_of(config: ConfigView) -> Seq<Seq<char>> {
    let head = seq![
        "Transport: "@ + transport_name(config.transport),
        "From Address: "@ + label_of(config.identity),
    ];
    if config.squadmates.len() == 0 {
        head.push("No squadmates! Add some with `cmacm add \"John Doe\" johndoe@example.com`"@)
    } else {
        head.push("Squadmates:"@) + squadmate_lines(config.squadmates)
    }
}

/// The views of a list of lines, in order.
pub open spec fn line_views(lines: Seq<String>) -> Seq<Seq<char>> {
    lines.map_values(|line: String| line@)
}

/// One failure as text: the recipient's label, then the reason in round
/// brackets.
pub open spec fn failure_text(failure: FailureView) -> Seq<char> {
    label_of(failure.recipient) + " ("@ + failure.reason + ")"@
}

/// The failures as text, each after a semicolon.
pub open spec fn failures_text(failures: Seq<FailureView>) -> Seq<char>
    decreases failures.len(),
{
    if failures.len() == 0 {
        Seq::empty()
    } else {
        failures_text(failures.drop_last()) + "; "@ + failure_text(failures.last())
    }
}

/// What an error says to the operator.
pub open spec fn message_of(error: Error) -> Seq<char> {
    match error {
        Error::NotConfigured => "no configuration has been set up"@,
        Error::AlreadyConfigured => "a configuration exists already"@,
        Error::InvalidEmail => "the address is not a plausible email address"@,
        Error::DuplicateSquadmate => "a squadmate with this address is already listed"@,
        Error::NotFound => "no such entry"@,
        Error::Corrupt => "the stored configuration cannot be read"@,
        Error::Auth(reason) => "login failed: "@ + reason@,
        Error::Send(failures) => "not delivered"@ + failures_text(failure_views(failures@)),
    }
}

impl Identity {
    /// The identity as a mailbox.
    pub fn label(&self) -> (text: String)
        ensures
            text@ == label_of(self@),
    {
        let mut text = self.name.clone();
        text.append(" <");
        text.append(self.email.as_str());
        text.append(">");
        text
    }
}

impl TransportConfig {
    /// The name of the transport.
    pub fn name(&self) -> (text: String)
        ensures
            text@ == transport_name(self@),
    {
        match self {
            TransportConfig::Smtp { credential } => "smtp".to_owned(),
            TransportConfig::Sendmail => "sendmail".to_owned(),
        }
    }
}

impl Config {
    /// The lines that describe the configuration.
    pub fn report(&self) -> (lines: Vec<String>)
        ensures
            line_views(lines@) == report_of(self@),
    {
        let mut lines: Vec<String> = Vec::new();
        let mut transport = "Transport: ".to_owned();
        transport.append(self.transport.name().as_str());
        lines.push(transport);
        let mut sender = "From Address: ".to_owned();
        sender.append(self.identity.label().as_str());
        lines.push(sender);
        if self.squadmates.len() == 0 {
            lines.push(
                "No squadmates! Add some with `cmacm add \"John Doe\" johndoe@example.com`".to_owned(),
            );
            assert(line_views(lines@) =~= report_of(self@));
            return lines;
        }
        lines.push("Squadmates:".to_owned());
        let ghost list = self@.squadmates;
        let ghost head = line_views(lines@);
        let mut k: usize = 0;
        while k < self.squadmates.len()
            invariant
                k <= self.squadmates.len(),
                list == identity_views(self.squadmates@),
                line_views(lines@) == head + squadmate_lines(list).take(k as int),
            decreases self.squadmates.len() - k,
        {
            let mut line = "\t".to_owned();
            line.append(self.squadmates[k].label().as_str());
            let ghost before = line_views(lines@);
            lines.push(line);
            assert(line_views(lines@) =~= before.push(line@));
            assert(squadmate_lines(list).take(k + 1) =~= squadmate_lines(list).take(
                k as int,
            ).push(line@));
            k = k + 1;
        }
        assert(squadmate_lines(list).take(k as int) =~= squadmate_lines(list));
        assert(line_views(lines@) =~= report_of(self@));
        lines
    }
}

fn failures_message(failures: &Vec<Failure>) -> (text: String)
    ensures
        text@ == failures_text(failure_views(failures@)),
{
    let ghost all = failure_views(failures@);
    let mut text = String::new();
    let mut k: usize = 0;
    assert(all.take(0) =~= Seq::empty());
    while k < failures.len()
        invariant
            k <= failures.len(),
            all == failure_views(failures@),
            text@ == failures_text(all.take(k as int)),
        decreases failures.len() - k,
    {
        assert(all.take(k + 1).drop_last() =~= all.take(k as int));
        text.append("; ");
        text.append(failures[k].recipient.label().as_str());
        text.append(" (");
        text.append(failures[k].reason.as_str());
        text.append(")");
        assert(text@ =~= failures_text(all.take(k + 1)));
        k = k + 1;
    }
    assert(all.take(k as int) =~= all);
    text
}

impl Error {
    /// What the error says to the operator.
    pub fn message(&self) -> (text: String)
        ensures
            text@ == message_of(*self),
    {
        match self {
            Error::NotConfigured => "no configuration has been set up".to_owned(),
            Error::AlreadyConfigured => "a configuration exists already".to_owned(),
            Error::InvalidEmail => "the address is not a plausible email address".to_owned(),
            Error::DuplicateSquadmate => "a squadmate with this address is already listed".to_owned(),
            Error::NotFound => "no such entry".to_owned(),
            Error::Corrupt => "the stored configuration cannot be read".to_owned(),
            Error::Auth(reason) => {
                let mut text = "login failed: ".to_owned();
                text.append(reason.as_str());
                text
            },
            Error::Send(failures) => {
                let mut text = "not delivered".to_owned();
                text.append(failures_message(failures).as_str());
                text
            },
        }
    }
}

} // verus!
