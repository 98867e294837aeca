//! The boundary to the mail transport. The library decides what is to be
//! sent and what the answers amount to; the caller carries each request to
//! the transport and brings the answer back.

use crate::config::{TransportConfig, TransportView};
use crate::email::{Identity, IdentityView};
use crate::error::{failure_views, Error, Failure, FailureView};
use vstd::prelude::*;

verus! {

/// What the transport answered to one request.
#[derive(Debug, PartialEq, Eq)]
pub enum Reply {
    /// The request was carried out.
    Done,
    /// The request failed, with the transport's reason.
    Failed(String),
}

/// The mathematical value of a [`Reply`].
pub enum ReplyView {
    Done,
    Failed(Seq<char>),
}

impl View for Reply {
    type V = ReplyView;

    open spec fn view(&self) -> ReplyView {
        match self {
            Reply::Done => ReplyView::Done,
            Reply::Failed(reason) => ReplyView::Failed(reason@),
        }
    }
}

/// What a login asks of the transport.
#[derive(Debug, PartialEq, Eq)]
pub enum LoginStep {
    /// Nothing: the local mail-transfer agent needs no session.
    Ready,
    /// A session with the mail server of `address`, opened with `credential`.
    Authenticate { address: String, credential: String },
}

/// The mathematical value of a [`LoginStep`].
pub enum LoginStepView {
    Ready,
    Authenticate { address: Seq<char>, credential: Seq<char> },
}

impl View for LoginStep {
    type V = LoginStepView;

    open spec fn view(&self) -> LoginStepView {
        match self {
            LoginStep::Ready => LoginStepView::Ready,
            LoginStep::Authenticate { address, credential } => LoginStepView::Authenticate {
                address: address@,
                credential: credential@,
            },
        }
    }
}

/// The login that a sender with this transport has to make.
pub open spec fn login_step_of(sender: IdentityView, transport: TransportView) -> LoginStepView {
    match transport {
        TransportView::Sendmail => LoginStepView::Ready,
        TransportView::Smtp { credential } => LoginStepView::Authenticate {
            address: sender.email,
            credential,
        },
    }
}

/// The login that `sender` has to make over `transport`.
pub fn login_step(sender: &Identity, transport: &TransportConfig) -> (step: LoginStep)
    ensures
        step@ == login_step_of(sender@, transport@),
{
    match transport {
        TransportConfig::Sendmail => LoginStep::Ready,
        TransportConfig::Smtp { credential } => LoginStep::Authenticate {
            address: sender.email.clone(),
            credential: credential.clone(),
        },
    }
}

/// What the transport's answer to a login amounts to: success, or an
/// authentication error that carries the transport's reason.
pub fn confirm_login(reply: Reply) -> (done: Result<(), Error>)
    ensures
        match done {
            Ok(()) => reply is Done,
            Err(e) => e matches Error::Auth(reason) && reply@ == ReplyView::Failed(reason@),
        },
{
    match reply {
        Reply::Done => Ok(()),
        Reply::Failed(reason) => Err(Error::Auth(reason)),
    }
}

/// One message to hand to the transport.
#[derive(Debug, PartialEq, Eq)]
pub struct Envelope {
    pub sender: Identity,
    pub transport: TransportConfig,
    pub recipient: Identity,
    pub subject: String,
    pub body: String,
}

/// The mathematical value of an [`Envelope`].
pub struct EnvelopeView {
    pub sender: IdentityView,
    pub transport: TransportView,
    pub recipient: IdentityView,
    pub subject: Seq<char>,
    pub body: Seq<char>,
}

impl View for Envelope {
    type V = EnvelopeView;

    open spec fn view(&self) -> EnvelopeView {
        EnvelopeView {
            sender: self.sender@,
            transport: self.transport@,
            recipient: self.recipient@,
            subject: self.subject@,
            body: self.body@,
        }
    }
}

/// The subject line of the test notification.
pub open spec fn notice_subject() -> Seq<char> {
    "Resistance test notification"@
}

/// The text of the test notification.
pub open spec fn notice_body() -> Seq<char> {
    "This is a test notification from Resistance. If you can read it, notifications reach you."@
}

/// The test notification from `sender` to `recipient`.
pub open spec fn notice_for(
    sender: IdentityView,
    transport: TransportView,
    recipient: IdentityView,
) -> EnvelopeView {
    EnvelopeView { sender, transport, recipient, subject: notice_subject(), body: notice_body() }
}

/// The test notifications from `sender` to each of `recipients`, in order.
pub open spec fn notices_for(
    sender: IdentityView,
    transport: TransportView,
    recipients: Seq<IdentityView>,
) -> Seq<EnvelopeView> {
    Seq::new(recipients.len(), |k: int| notice_for(sender, transport, recipients[k]))
}

/// The values of a list of envelopes, in order.
pub open spec fn envelope_views(envelopes: Seq<Envelope>) -> Seq<EnvelopeView> {
    envelopes.map_values(|e: Envelope| e@)
}

/// The values of a list of replies, in order.
pub open spec fn reply_views(replies: Seq<Reply>) -> Seq<ReplyView> {
    replies.map_values(|r: Reply| r@)
}

/// The reason given for a message that was never handed to the transport.
pub open spec fn not_attempted() -> Seq<char> {
    "not attempted"@
}

/// Why message `k` did not reach its recipient, if it did not: the
/// transport's reason where it answered, and [`not_attempted`] where no
/// answer was recorded.
pub open spec fn failure_at(envelopes: Seq<EnvelopeView>, replies: Seq<ReplyView>, k: int) -> Option<
    FailureView,
> {
    if k < replies.len() {
        match replies[k] {
            ReplyView::Done => None,
            ReplyView::Failed(reason) => Some(
                FailureView { recipient: envelopes[k].recipient, reason },
            ),
        }
    } else {
        Some(FailureView { recipient: envelopes[k].recipient, reason: not_attempted() })
    }
}

/// The failures among the first `n` messages, in order.
pub open spec fn failures_among(envelopes: Seq<EnvelopeView>, replies: Seq<ReplyView>, n: nat) -> Seq<
    FailureView,
>
    decreases n,
{
    if n == 0 {
        Seq::empty()
    } else {
        let earlier = failures_among(envelopes, replies, (n - 1) as nat);
        match failure_at(envelopes, replies, n - 1) {
            Some(failure) => earlier.push(failure),
            None => earlier,
        }
    }
}

/// Every message that did not reach its recipient, in order.
pub open spec fn undelivered(envelopes: Seq<EnvelopeView>, replies: Seq<ReplyView>) -> Seq<
    FailureView,
> {
    failures_among(envelopes, replies, envelopes.len())
}

/// The test notifications from `sender` to each of `recipients`, in order.
pub fn notices(sender: &Identity, transport: &TransportConfig, recipients: &Vec<Identity>) -> (out:
    Vec<Envelope>)
    ensures
        envelope_views(out@) == notices_for(
            sender@,
            transport@,
            recipients@.map_values(|i: Identity| i@),
        ),
{
    let mut out: Vec<Envelope> = Vec::new();
    let mut k: usize = 0;
    while k < recipients.len()
        invariant
            k <= recipients.len(),
            out@.len() == k,
            forall|j: int|
                0 <= j < k ==> (#[trigger] out@[j])@ == notice_for(
                    sender@,
                    transport@,
                    recipients@[j]@,
                ),
        decreases recipients.len() - k,
    {
        let subject = "Resistance test notification".to_owned();
        let body =
            "This is a test notification from Resistance. If you can read it, notifications reach you.".to_owned();
        out.push(
            Envelope {
                sender: sender.clone(),
                transport: transport.clone(),
                recipient: recipients[k].clone(),
                subject,
                body,
            },
        );
        k = k + 1;
    }
    assert(envelope_views(out@) =~= notices_for(
        sender@,
        transport@,
        recipients@.map_values(|i: Identity| i@),
    ));
    out
}

/// A round of notifications under way: the messages to send, and the
/// transport's answers to those that were sent so far, in the same order.
#[derive(Debug, PartialEq, Eq)]
pub struct Dispatch {
    pub envelopes: Vec<Envelope>,
    pub replies: Vec<Reply>,
}

/// The mathematical value of a [`Dispatch`].
pub struct DispatchView {
    pub envelopes: Seq<EnvelopeView>,
    pub replies: Seq<ReplyView>,
}

impl View for Dispatch {
    type V = DispatchView;

    open spec fn view(&self) -> DispatchView {
        DispatchView {
            envelopes: envelope_views(self.envelopes@),
            replies: reply_views(self.replies@),
        }
    }
}

impl Dispatch {
    /// A round that is to send `envelopes`, none of them sent yet.
    pub fn new(envelopes: Vec<Envelope>) -> (round: Dispatch)
        ensures
            round@ == (DispatchView {
                envelopes: envelope_views(envelopes@),
                replies: Seq::empty(),
            }),
    {
        let round = Dispatch { envelopes, replies: Vec::new() };
        assert(round@.replies =~= Seq::empty());
        round
    }

    /// The message to hand to the transport next; none when every message
    /// has its answer.
    pub fn next(&self) -> (envelope: Option<&Envelope>)
        ensures
            match envelope {
                Some(e) => self@.replies.len() < self@.envelopes.len() && e@
                    == self@.envelopes[self@.replies.len() as int],
                None => self@.replies.len() >= self@.envelopes.len(),
            },
    {
        if self.replies.len() < self.envelopes.len() {
            Some(&self.envelopes[self.replies.len()])
        } else {
            None
        }
    }

    /// Records the transport's answer to the message that [`Dispatch::next`]
    /// named. Where no message was waiting the answer is dropped and the
    /// result is `false`.
    pub fn record(&mut self, reply: Reply) -> (taken: bool)
        ensures
            taken == (old(self)@.replies.len() < old(self)@.envelopes.len()),
            taken ==> final(self)@ == (DispatchView {
                replies: old(self)@.replies.push(reply@),
                ..old(self)@
            }),
            !taken ==> *final(self) == *old(self),
    {
        if self.replies.len() < self.envelopes.len() {
            self.replies.push(reply);
            assert(self@.replies =~= old(self)@.replies.push(reply@));
            true
        } else {
            false
        }
    }

    /// Closes the round: success when every message was sent and accepted,
    /// and otherwise an error that lists every message that was not.
    pub fn finish(self) -> (done: Result<(), Error>)
        ensures
            match done {
                Ok(()) => undelivered(self@.envelopes, self@.replies).len() == 0,
                Err(e) => e matches Error::Send(failures) && failures.len() > 0 && failure_views(
                    failures@,
                ) == undelivered(self@.envelopes, self@.replies),
            },
    {
        let ghost envelopes = self@.envelopes;
        let ghost replies = self@.replies;
        let mut failures: Vec<Failure> = Vec::new();
        let mut k: usize = 0;
        assert(failure_views(failures@) =~= Seq::empty());
        while k < self.envelopes.len()
            invariant
                k <= self.envelopes.len(),
                envelopes == envelope_views(self.envelopes@),
                replies == reply_views(self.replies@),
                failure_views(failures@) == failures_among(envelopes, replies, k as nat),
            decreases self.envelopes.len() - k,
        {
            let ghost earlier = failure_views(failures@);
            if k < self.replies.len() {
                match &self.replies[k] {
                    Reply::Done => {},
                    Reply::Failed(reason) => {
                        let failure = Failure {
                            recipient: self.envelopes[k].recipient.clone(),
                            reason: reason.clone(),
                        };
                        failures.push(failure);
                        assert(failure_views(failures@) =~= earlier.push(failure@));
                    },
                }
            } else {
                let failure = Failure {
                    recipient: self.envelopes[k].recipient.clone(),
                    reason: "not attempted".to_owned(),
                };
                failures.push(failure);
                assert(failure_views(failures@) =~= earlier.push(failure@));
            }
            k = k + 1;
        }
        if failures.len() == 0 {
            Ok(())
        } else {
            Err(Error::Send(failures))
        }
    }
}

} // verus!
