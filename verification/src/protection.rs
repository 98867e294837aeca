//! The orchestrator: one value that owns the configuration for the length
//! of one command, from setup through contact management to notification.

use crate::codec::{
    config_bytes, config_fits, lemma_read_config_is_stored, lemma_stored_config_reads_back,
};
use crate::config::{
    found_by_email, found_by_name, lemma_added_squadmate_is_found,
    lemma_removed_squadmate_is_not_found, lists_email, without_email, Config, ConfigView,
    TransportConfig, TransportView,
};
use crate::email::{optional_view, plausible_address, Identity, IdentityView};
use crate::error::Error;
use crate::prompt::{affirmative, is_affirmative};
use crate::store::{held_config, ConfigStore};
use crate::transport::{
    login_step, login_step_of, notices, notices_for, Dispatch, DispatchView, LoginStep,
};
use vstd::prelude::*;

verus! {

/// The error of an operation that needs a configuration where the
/// location holds none: not configured where the location is absent,
/// corrupt where it is present.
pub open spec fn unavailable(stored: Option<Seq<u8>>) -> Error {
    if stored is None {
        Error::NotConfigured
    } else {
        Error::Corrupt
    }
}

/// What a setup for `identity` over `transport` comes to, on a location
/// that held `before` and holds `after`. It succeeds when no configuration
/// was in force and the address is plausible: the location then holds the
/// stored form of the new configuration, which has no squadmates. It is
/// refused, with the location untouched, as already configured while a
/// configuration is in force, and else for the address.
pub open spec fn setup_outcome(
    before: Option<Seq<u8>>,
    after: Option<Seq<u8>>,
    identity: IdentityView,
    transport: TransportView,
    done: Result<(), Error>,
) -> bool {
    let made = ConfigView { identity, transport, squadmates: Seq::empty() };
    match done {
        Ok(()) => {
            &&& held_config(before) is None
            &&& plausible_address(identity.email)
            &&& after == Some(config_bytes(made))
            &&& held_config(after) == Some(made)
        },
        Err(e) => {
            &&& after == before
            &&& held_config(before) is Some || !plausible_address(identity.email)
            &&& e == (if held_config(before) is Some {
                Error::AlreadyConfigured
            } else {
                Error::InvalidEmail
            })
        },
    }
}

/// What adding `identity` comes to, on a location that held `before` and
/// holds `after`. It succeeds when a configuration is in force that does
/// not list the address: the location then holds the same configuration
/// with `identity` appended. It is refused, with the location untouched,
/// as a duplicate where the address is listed, and as
/// [`unavailable`] where no configuration is in force.
pub open spec fn addition_outcome(
    before: Option<Seq<u8>>,
    after: Option<Seq<u8>>,
    identity: IdentityView,
    done: Result<(), Error>,
) -> bool {
    match done {
        Ok(()) => {
            &&& held_config(before) matches Some(c)
            &&& !lists_email(c.squadmates, identity.email)
            &&& after == Some(
                config_bytes(ConfigView { squadmates: c.squadmates.push(identity), ..c }),
            )
            &&& held_config(after) == Some(
                ConfigView { squadmates: c.squadmates.push(identity), ..c },
            )
        },
        Err(e) => {
            &&& after == before
            &&& match held_config(before) {
                Some(c) => lists_email(c.squadmates, identity.email) && e
                    == Error::DuplicateSquadmate,
                None => e == unavailable(before),
            }
        },
    }
}

/// What removing the squadmate with the address `email` comes to, on a
/// location that held `before` and holds `after`. It succeeds when a
/// configuration is in force that lists the address: the location then
/// holds the same configuration without what it listed under that
/// address. It is refused, with the location untouched, as not found
/// where the address is not listed, and as [`unavailable`] where no
/// configuration is in force.
pub open spec fn removal_outcome(
    before: Option<Seq<u8>>,
    after: Option<Seq<u8>>,
    email: Seq<char>,
    done: Result<(), Error>,
) -> bool {
    match done {
        Ok(()) => {
            &&& held_config(before) matches Some(c)
            &&& lists_email(c.squadmates, email)
            &&& after == Some(
                config_bytes(ConfigView { squadmates: without_email(c.squadmates, email), ..c }),
            )
            &&& held_config(after) == Some(
                ConfigView { squadmates: without_email(c.squadmates, email), ..c },
            )
        },
        Err(e) => {
            &&& after == before
            &&& match held_config(before) {
                Some(c) => !lists_email(c.squadmates, email) && e == Error::NotFound,
                None => e == unavailable(before),
            }
        },
    }
}

/// The field by which a squadmate is looked up.
#[derive(Debug, Clone, Copy, PartialEq, Eq)]
pub enum LookupField {
    Email,
    Name,
}

/// The first entry of `list` whose `field` is `value`, if there is one.
pub open spec fn found_by(field: LookupField, list: Seq<IdentityView>, value: Seq<char>) -> Option<
    IdentityView,
> {
    match field {
        LookupField::Email => found_by_email(list, value),
        LookupField::Name => found_by_name(list, value),
    }
}

/// The configuration store together with the working copy of what it holds.
pub struct CivilProtection {
    store: ConfigStore,
    config: Option<Config>,
}

impl View for CivilProtection {
    type V = Option<Seq<u8>>;

    /// What the backing location holds.
    closed spec fn view(&self) -> Option<Seq<u8>> {
        self.store@
    }
}

impl CivilProtection {
    /// The working copy, where there is one, is well-formed and is what
    /// the store holds.
    #[verifier::type_invariant]
    spec fn in_step(&self) -> bool {
        self.config matches Some(c) ==> c@.wf() && config_fits(c@) && self.store@ == Some(
            config_bytes(c@),
        )
    }

    /// The configuration in force: the one that the location holds.
    pub open spec fn current(&self) -> Option<ConfigView> {
        held_config(self@)
    }

    /// An orchestrator over `store`, with nothing loaded yet.
    pub fn new(store: ConfigStore) -> (made: CivilProtection)
        ensures
            made@ == store@,
    {
        CivilProtection { store, config: None }
    }

    /// The store as it stands, to be written out by its owner.
    pub fn store(&self) -> (store: &ConfigStore)
        ensures
            store@ == self@,
    {
        &self.store
    }

    /// Brings the working copy in, where there is none yet.
    fn load(&mut self) -> (done: Result<(), Error>)
        ensures
            final(self)@ == old(self)@,
            match done {
                Ok(()) => final(self).config matches Some(c) && old(self).current() == Some(c@),
                Err(e) => old(self).current() is None && e == unavailable(old(self)@),
            },
    {
        proof {
            use_type_invariant(&*self);
        }
        if self.config.is_some() {
            proof {
                lemma_stored_config_reads_back(self.config->0@);
            }
            return Ok(());
        }
        match self.store.load() {
            Ok(config) => {
                proof {
                    lemma_read_config_is_stored(self.store@->0);
                }
                self.config = Some(config);
                Ok(())
            },
            Err(Error::NotFound) => Err(Error::NotConfigured),
            Err(e) => Err(e),
        }
    }

    /// Whether a configuration is in force.
    pub fn does_config_exist(&self) -> (present: bool)
        ensures
            present == (self.current() is Some),
    {
        proof {
            use_type_invariant(self);
        }
        match &self.config {
            Some(config) => {
                proof {
                    lemma_stored_config_reads_back(config@);
                }
                true
            },
            None => self.store.holds_config(),
        }
    }

    /// Removes the configuration and forgets the working copy.
    pub fn delete_config(&mut self)
        ensures
            final(self)@ is None,
            final(self).current() is None,
    {
        self.config = None;
        self.store = ConfigStore::absent();
    }

    /// Sets up a configuration for `identity` over `transport`, with no
    /// squadmates, and stores it. Refused while a configuration is in
    /// force, and for an address that is not plausible.
    pub fn create_config(&mut self, identity: Identity, transport: TransportConfig) -> (done:
        Result<(), Error>)
        ensures
            setup_outcome(old(self)@, final(self)@, identity@, transport@, done),
    {
        if self.does_config_exist() {
            return Err(Error::AlreadyConfigured);
        }
        match Config::new(identity, transport) {
            Ok(config) => {
                self.config = None;
                self.store = ConfigStore::holding(crate::codec::encode(&config));
                proof {
                    lemma_stored_config_reads_back(config@);
                }
                self.config = Some(config);
                Ok(())
            },
            Err(e) => Err(e),
        }
    }

    /// [`CivilProtection::create_config`] for a mail server that asks for
    /// `credential`.
    pub fn create_config_smtp(&mut self, identity: Identity, credential: String) -> (done: Result<
        (),
        Error,
    >)
        ensures
            setup_outcome(
                old(self)@,
                final(self)@,
                identity@,
                TransportView::Smtp { credential: credential@ },
                done,
            ),
    {
        self.create_config(identity, TransportConfig::Smtp { credential })
    }

    /// [`CivilProtection::create_config`] for the local mail-transfer agent.
    pub fn create_config_sendmail(&mut self, identity: Identity) -> (done: Result<(), Error>)
        ensures
            setup_outcome(old(self)@, final(self)@, identity@, TransportView::Sendmail, done),
    {
        self.create_config(identity, TransportConfig::Sendmail)
    }

    /// The configuration in force, read from the store on first use.
    pub fn config(&mut self) -> (held: Result<Config, Error>)
        ensures
            final(self)@ == old(self)@,
            match held {
                Ok(config) => old(self).current() == Some(config@),
                Err(e) => old(self).current() is None && e == unavailable(old(self)@),
            },
    {
        match self.load() {
            Ok(()) => {
                let config = self.config.as_ref().unwrap();
                Ok(config.clone())
            },
            Err(e) => Err(e),
        }
    }

    /// What logging in asks of the transport under the configuration in
    /// force. The transport's answer goes to
    /// [`confirm_login`](crate::transport::confirm_login).
    pub fn login(&mut self) -> (step: Result<LoginStep, Error>)
        ensures
            final(self)@ == old(self)@,
            match step {
                Ok(step) => old(self).current() matches Some(c) && step@ == login_step_of(
                    c.identity,
                    c.transport,
                ),
                Err(e) => old(self).current() is None && e == unavailable(old(self)@),
            },
    {
        match self.load() {
            Ok(()) => {
                let config = self.config.as_ref().unwrap();
                Ok(login_step(&config.identity, &config.transport))
            },
            Err(e) => Err(e),
        }
    }

    /// The first squadmate named `name`, if there is one.
    pub fn find_squadmate_by_name(&mut self, name: &str) -> (found: Result<
        Option<Identity>,
        Error,
    >)
        ensures
            final(self)@ == old(self)@,
            match found {
                Ok(found) => old(self).current() matches Some(c) && optional_view(found) == found_by_name(
                    c.squadmates,
                    name@,
                ),
                Err(e) => old(self).current() is None && e == unavailable(old(self)@),
            },
    {
        match self.load() {
            Ok(()) => {
                let config = self.config.as_ref().unwrap();
                Ok(config.find_squadmate_by_name(name))
            },
            Err(e) => Err(e),
        }
    }

    /// The squadmate with the address `email`, if there is one.
    pub fn find_squadmate_by_email(&mut self, email: &str) -> (found: Result<
        Option<Identity>,
        Error,
    >)
        ensures
            final(self)@ == old(self)@,
            match found {
                Ok(found) => old(self).current() matches Some(c) && optional_view(found) == found_by_email(
                    c.squadmates,
                    email@,
                ),
                Err(e) => old(self).current() is None && e == unavailable(old(self)@),
            },
    {
        match self.load() {
            Ok(()) => {
                let config = self.config.as_ref().unwrap();
                Ok(config.find_squadmate_by_email(email))
            },
            Err(e) => Err(e),
        }
    }

    /// The first squadmate whose `field` is `value`, if there is one.
    pub fn find_squadmate(&mut self, field: LookupField, value: &str) -> (found: Result<
        Option<Identity>,
        Error,
    >)
        ensures
            final(self)@ == old(self)@,
            match found {
                Ok(found) => old(self).current() matches Some(c) && optional_view(found) == found_by(
                    field,
                    c.squadmates,
                    value@,
                ),
                Err(e) => old(self).current() is None && e == unavailable(old(self)@),
            },
    {
        match field {
            LookupField::Email => self.find_squadmate_by_email(value),
            LookupField::Name => self.find_squadmate_by_name(value),
        }
    }

    /// Appends `identity` to the squadmates and stores the result. Refused,
    /// with nothing changed, where its address is already listed.
    pub fn add_squadmate(&mut self, identity: Identity) -> (done: Result<(), Error>)
        ensures
            addition_outcome(old(self)@, final(self)@, identity@, done),
    {
        match self.load() {
            Ok(()) => {},
            Err(e) => {
                return Err(e);
            },
        }
        proof {
            use_type_invariant(&*self);
        }
        let mut held: Option<Config> = None;
        std::mem::swap(&mut self.config, &mut held);
        let mut config = held.unwrap();
        let done = config.add_squadmate(identity);
        if done.is_ok() {
            self.store = ConfigStore::holding(crate::codec::encode(&config));
            proof {
                lemma_stored_config_reads_back(config@);
            }
        }
        self.config = Some(config);
        done
    }

    /// Removes the squadmate that has the address of `identity` and stores
    /// the result. Refused, with nothing changed, where no squadmate has it.
    pub fn rm_squadmate(&mut self, identity: &Identity) -> (done: Result<(), Error>)
        ensures
            removal_outcome(old(self)@, final(self)@, identity.email@, done),
    {
        match self.load() {
            Ok(()) => {},
            Err(e) => {
                return Err(e);
            },
        }
        proof {
            use_type_invariant(&*self);
        }
        let mut held: Option<Config> = None;
        std::mem::swap(&mut self.config, &mut held);
        let mut config = held.unwrap();
        let done = config.rm_squadmate(identity);
        if done.is_ok() {
            self.store = ConfigStore::holding(crate::codec::encode(&config));
            proof {
                lemma_stored_config_reads_back(config@);
            }
        }
        self.config = Some(config);
        done
    }

    /// Acts on the operator's reply to the question whether an existing
    /// configuration is to be set up anew: a yes deletes it, anything else
    /// leaves it. The result says whether setup may go on.
    pub fn reset_if_confirmed(&mut self, reply: &str) -> (go_on: bool)
        ensures
            go_on == affirmative(reply@),
            go_on ==> final(self)@ is None,
            !go_on ==> final(self)@ == old(self)@,
    {
        if is_affirmative(reply) {
            self.delete_config();
            true
        } else {
            false
        }
    }

    /// Acts on the operator's reply to the question whether `squadmate` is
    /// to be removed: a yes removes it as
    /// [`CivilProtection::rm_squadmate`] does, anything else changes
    /// nothing. The result says whether it was removed.
    pub fn remove_if_confirmed(&mut self, squadmate: &Identity, reply: &str) -> (removed: Result<
        bool,
        Error,
    >)
        ensures
            match removed {
                Ok(true) => affirmative(reply@) && removal_outcome(
                    old(self)@,
                    final(self)@,
                    squadmate.email@,
                    Ok(()),
                ),
                Ok(false) => !affirmative(reply@) && final(self)@ == old(self)@,
                Err(e) => affirmative(reply@) && removal_outcome(
                    old(self)@,
                    final(self)@,
                    squadmate.email@,
                    Err(e),
                ),
            },
    {
        if is_affirmative(reply) {
            match self.rm_squadmate(squadmate) {
                Ok(()) => Ok(true),
                Err(e) => Err(e),
            }
        } else {
            Ok(false)
        }
    }

    /// Opens a round of test notifications: one message from the operator
    /// to each squadmate, in the order of the list, none of them sent yet.
    pub fn notify_squadmates(&mut self) -> (round: Result<Dispatch, Error>)
        ensures
            final(self)@ == old(self)@,
            match round {
                Ok(round) => old(self).current() matches Some(c) && round@ == (DispatchView {
                    envelopes: notices_for(c.identity, c.transport, c.squadmates),
                    replies: Seq::empty(),
                }),
                Err(e) => old(self).current() is None && e == unavailable(old(self)@),
            },
    {
        match self.load() {
            Ok(()) => {
                let config = self.config.as_ref().unwrap();
                Ok(Dispatch::new(notices(&config.identity, &config.transport, &config.squadmates)))
            },
            Err(e) => Err(e),
        }
    }
}

/// After a squadmate was added, a lookup by its address gives exactly
/// the identity that was added.
pub proof fn lemma_added_then_found(
    before: Option<Seq<u8>>,
    after: Option<Seq<u8>>,
    identity: IdentityView,
)
    requires
        addition_outcome(before, after, identity, Ok(())),
    ensures
        held_config(after) matches Some(c) && found_by_email(c.squadmates, identity.email) == Some(
            identity,
        ),
{
    let c = held_config(before)->0;
    lemma_added_squadmate_is_found(c.squadmates, identity);
}

/// Adding a squadmate whose address is already listed is refused as a
/// duplicate and leaves everything as it was.
pub proof fn lemma_duplicate_is_refused(
    before: Option<Seq<u8>>,
    after: Option<Seq<u8>>,
    identity: IdentityView,
    done: Result<(), Error>,
)
    requires
        addition_outcome(before, after, identity, done),
        held_config(before) matches Some(c) && lists_email(c.squadmates, identity.email),
    ensures
        done == Err::<(), Error>(Error::DuplicateSquadmate),
        after == before,
{
}

/// After a squadmate was removed, a lookup by its address gives nothing.
pub proof fn lemma_removed_then_not_found(
    before: Option<Seq<u8>>,
    after: Option<Seq<u8>>,
    email: Seq<char>,
)
    requires
        removal_outcome(before, after, email, Ok(())),
    ensures
        held_config(after) matches Some(c) && found_by_email(c.squadmates, email) is None,
{
    let c = held_config(before)->0;
    lemma_removed_squadmate_is_not_found(c.squadmates, email);
}

/// Removing a squadmate that is not listed is refused as not found and
/// leaves everything as it was, however often it is tried.
pub proof fn lemma_absent_is_not_removed(
    before: Option<Seq<u8>>,
    after: Option<Seq<u8>>,
    email: Seq<char>,
    done: Result<(), Error>,
)
    requires
        removal_outcome(before, after, email, done),
        held_config(before) matches Some(c) && !lists_email(c.squadmates, email),
    ensures
        done == Err::<(), Error>(Error::NotFound),
        after == before,
{
}

/// Once the configuration is deleted none exists, and asking for one
/// reports that nothing is configured.
pub proof fn lemma_deleted_config_is_gone(stored: Option<Seq<u8>>)
    requires
        stored is None,
    ensures
        held_config(stored) is None,
        unavailable(stored) == Error::NotConfigured,
{
}

} // verus!
