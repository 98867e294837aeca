//! The persisted aggregate: who sends, how, and to whom.

use crate::email::{
    is_plausible_address, optional_view, plausible_address, Identity, IdentityView,
};
use crate::error::Error;
use vstd::prelude::*;

verus! {

/// How outgoing mail leaves the machine.
#[derive(Debug, PartialEq, Eq)]
pub enum TransportConfig {
    /// Through a mail server that asks for the operator's credential.
    Smtp { credential: String },
    /// Through the local mail-transfer agent.
    Sendmail,
}

/// The mathematical value of a [`TransportConfig`].
pub enum TransportView {
    Smtp { credential: Seq<char> },
    Sendmail,
}

impl View for TransportConfig {
    type V = TransportView;

    open spec fn view(&self) -> TransportView {
        match self {
            TransportConfig::Smtp { credential } => TransportView::Smtp { credential: credential@ },
            TransportConfig::Sendmail => TransportView::Sendmail,
        }
    }
}

impl Clone for TransportConfig {
    fn clone(&self) -> (copy: Self)
        ensures
            copy == *self,
    {
        match self {
            TransportConfig::Smtp { credential } => TransportConfig::Smtp {
                credential: credential.clone(),
            },
            TransportConfig::Sendmail => TransportConfig::Sendmail,
        }
    }
}

/// The values of a list of identities, in order.
pub open spec fn identity_views(list: Seq<Identity>) -> Seq<IdentityView> {
    list.map_values(|i: Identity| i@)
}

/// No two entries of `list` share an address.
pub open spec fn distinct_emails(list: Seq<IdentityView>) -> bool {
    forall|i: int, j: int|
        0 <= i < j < list.len() ==> (#[trigger] list[i]).email != (#[trigger] list[j]).email
}

/// Some entry of `list` has the address `email`.
pub open spec fn lists_email(list: Seq<IdentityView>, email: Seq<char>) -> bool {
    exists|k: int| 0 <= k < list.len() && (#[trigger] list[k]).email == email
}

/// Some entry of `list` has the name `name`.
pub open spec fn lists_name(list: Seq<IdentityView>, name: Seq<char>) -> bool {
    exists|k: int| 0 <= k < list.len() && (#[trigger] list[k]).name == name
}

/// Position `k` holds the first entry of `list` with the address `email`.
pub open spec fn first_with_email(list: Seq<IdentityView>, email: Seq<char>, k: int) -> bool {
    &&& 0 <= k < list.len()
    &&& list[k].email == email
    &&& forall|j: int| 0 <= j < k ==> (#[trigger] list[j]).email != email
}

/// Position `k` holds the first entry of `list` with the name `name`.
pub open spec fn first_with_name(list: Seq<IdentityView>, name: Seq<char>, k: int) -> bool {
    &&& 0 <= k < list.len()
    &&& list[k].name == name
    &&& forall|j: int| 0 <= j < k ==> (#[trigger] list[j]).name != name
}

/// The first entry of `list` with the address `email`, if there is one.
pub open spec fn found_by_email(list: Seq<IdentityView>, email: Seq<char>) -> Option<
    IdentityView,
> {
    if lists_email(list, email) {
        Some(list[choose|k: int| first_with_email(list, email, k)])
    } else {
        None
    }
}

/// The first entry of `list` with the name `name`, if there is one.
pub open spec fn found_by_name(list: Seq<IdentityView>, name: Seq<char>) -> Option<IdentityView> {
    if lists_name(list, name) {
        Some(list[choose|k: int| first_with_name(list, name, k)])
    } else {
        None
    }
}

/// `list` without its entries that have the address `email`.
pub open spec fn without_email(list: Seq<IdentityView>, email: Seq<char>) -> Seq<IdentityView> {
    list.filter(|i: IdentityView| i.email != email)
}

/// The first entry with an address is the one that [`found_by_email`] names.
pub proof fn lemma_first_with_email_is_found(list: Seq<IdentityView>, email: Seq<char>, k: int)
    requires
        first_with_email(list, email, k),
    ensures
        lists_email(list, email),
        found_by_email(list, email) == Some(list[k]),
{
    let c = choose|c: int| first_with_email(list, email, c);
    assert(c == k) by {
        if c < k {
            assert(list[c].email != email);
        } else if k < c {
            assert(list[k].email != email);
        }
    }
}

/// The first entry with a name is the one that [`found_by_name`] names.
pub proof fn lemma_first_with_name_is_found(list: Seq<IdentityView>, name: Seq<char>, k: int)
    requires
        first_with_name(list, name, k),
    ensures
        lists_name(list, name),
        found_by_name(list, name) == Some(list[k]),
{
    let c = choose|c: int| first_with_name(list, name, c);
    assert(c == k) by {
        if c < k {
            assert(list[c].name != name);
        } else if k < c {
            assert(list[k].name != name);
        }
    }
}

/// Before an entry with the address `email` stands a first one.
proof fn lemma_first_with_email_exists(list: Seq<IdentityView>, email: Seq<char>, w: int) -> (k:
    int)
    requires
        0 <= w < list.len(),
        list[w].email == email,
    ensures
        first_with_email(list, email, k),
    decreases w,
{
    if exists|j: int| 0 <= j < w && (#[trigger] list[j]).email == email {
        let j = choose|j: int| 0 <= j < w && (#[trigger] list[j]).email == email;
        lemma_first_with_email_exists(list, email, j)
    } else {
        w
    }
}

/// Before an entry with the name `name` stands a first one.
proof fn lemma_first_with_name_exists(list: Seq<IdentityView>, name: Seq<char>, w: int) -> (k: int)
    requires
        0 <= w < list.len(),
        list[w].name == name,
    ensures
        first_with_name(list, name, k),
    decreases w,
{
    if exists|j: int| 0 <= j < w && (#[trigger] list[j]).name == name {
        let j = choose|j: int| 0 <= j < w && (#[trigger] list[j]).name == name;
        lemma_first_with_name_exists(list, name, j)
    } else {
        w
    }
}

/// A lookup by address gives an entry of the list that has the address and
/// stands before every other that has it; it gives nothing exactly when no
/// entry has the address.
pub proof fn lemma_found_by_email_is_first(list: Seq<IdentityView>, email: Seq<char>)
    ensures
        match found_by_email(list, email) {
            Some(i) => exists|k: int| first_with_email(list, email, k) && list[k] == i,
            None => !lists_email(list, email),
        },
{
    if lists_email(list, email) {
        let w = choose|w: int| 0 <= w < list.len() && (#[trigger] list[w]).email == email;
        let k = lemma_first_with_email_exists(list, email, w);
        lemma_first_with_email_is_found(list, email, k);
    }
}

/// A lookup by name gives an entry of the list that has the name and
/// stands before every other that has it; it gives nothing exactly when no
/// entry has the name.
pub proof fn lemma_found_by_name_is_first(list: Seq<IdentityView>, name: Seq<char>)
    ensures
        match found_by_name(list, name) {
            Some(i) => exists|k: int| first_with_name(list, name, k) && list[k] == i,
            None => !lists_name(list, name),
        },
{
    if lists_name(list, name) {
        let w = choose|w: int| 0 <= w < list.len() && (#[trigger] list[w]).name == name;
        let k = lemma_first_with_name_exists(list, name, w);
        lemma_first_with_name_is_found(list, name, k);
    }
}

/// The mathematical value of a [`Config`].
pub struct ConfigView {
    pub identity: IdentityView,
    pub transport: TransportView,
    pub squadmates: Seq<IdentityView>,
}

impl ConfigView {
    /// The invariant of a configuration: the operator's address is
    /// plausible and no two squadmates share an address.
    pub open spec fn wf(self) -> bool {
        &&& plausible_address(self.identity.email)
        &&& distinct_emails(self.squadmates)
    }
}

/// Operator identity, transport and the ordered list of squadmates.
#[derive(Debug, PartialEq, Eq)]
pub struct Config {
    pub identity: Identity,
    pub transport: TransportConfig,
    pub squadmates: Vec<Identity>,
}

impl View for Config {
    type V = ConfigView;

    open spec fn view(&self) -> ConfigView {
        ConfigView {
            identity: self.identity@,
            transport: self.transport@,
            squadmates: identity_views(self.squadmates@),
        }
    }
}

impl Clone for Config {
    fn clone(&self) -> (copy: Self)
        ensures
            copy@ == self@,
    {
        let mut squadmates: Vec<Identity> = Vec::new();
        let mut k: usize = 0;
        while k < self.squadmates.len()
            invariant
                k <= self.squadmates.len(),
                squadmates@ == self.squadmates@.take(k as int),
            decreases self.squadmates.len() - k,
        {
            squadmates.push(self.squadmates[k].clone());
            assert(squadmates@ =~= self.squadmates@.take(k + 1));
            k = k + 1;
        }
        assert(squadmates@ =~= self.squadmates@);
        Config { identity: self.identity.clone(), transport: self.transport.clone(), squadmates }
    }
}

impl Config {
    /// A configuration for `identity` with no squadmates yet; refused when
    /// the address is not plausible.
    pub fn new(identity: Identity, transport: TransportConfig) -> (made: Result<Config, Error>)
        ensures
            match made {
                Ok(c) => plausible_address(identity.email@) && c@.wf() && c@ == (ConfigView {
                    identity: identity@,
                    transport: transport@,
                    squadmates: Seq::empty(),
                }),
                Err(e) => !plausible_address(identity.email@) && e == Error::InvalidEmail,
            },
    {
        if is_plausible_address(identity.email.as_str()) {
            let c = Config { identity, transport, squadmates: Vec::new() };
            assert(c@.squadmates =~= Seq::empty());
            Ok(c)
        } else {
            Err(Error::InvalidEmail)
        }
    }

    /// The first squadmate with the address `email`, if there is one.
    pub fn find_squadmate_by_email(&self, email: &str) -> (found: Option<Identity>)
        ensures
            optional_view(found) == found_by_email(self@.squadmates, email@),
    {
        let wanted = email.to_owned();
        let mut k: usize = 0;
        while k < self.squadmates.len()
            invariant
                k <= self.squadmates.len(),
                wanted@ == email@,
                forall|j: int| 0 <= j < k ==> (#[trigger] self@.squadmates[j]).email != email@,
            decreases self.squadmates.len() - k,
        {
            if self.squadmates[k].email == wanted {
                let hit = self.squadmates[k].clone();
                proof {
                    lemma_first_with_email_is_found(self@.squadmates, email@, k as int);
                }
                return Some(hit);
            }
            k = k + 1;
        }
        None
    }

    /// The first squadmate with the name `name`, if there is one.
    pub fn find_squadmate_by_name(&self, name: &str) -> (found: Option<Identity>)
        ensures
            optional_view(found) == found_by_name(self@.squadmates, name@),
    {
        let wanted = name.to_owned();
        let mut k: usize = 0;
        while k < self.squadmates.len()
            invariant
                k <= self.squadmates.len(),
                wanted@ == name@,
                forall|j: int| 0 <= j < k ==> (#[trigger] self@.squadmates[j]).name != name@,
            decreases self.squadmates.len() - k,
        {
            if self.squadmates[k].name == wanted {
                let hit = self.squadmates[k].clone();
                proof {
                    lemma_first_with_name_is_found(self@.squadmates, name@, k as int);
                }
                return Some(hit);
            }
            k = k + 1;
        }
        None
    }

    /// Decides the invariant [`ConfigView::wf`].
    pub fn is_well_formed(&self) -> (ok: bool)
        ensures
            ok == self@.wf(),
    {
        if !is_plausible_address(self.identity.email.as_str()) {
            return false;
        }
        let ghost list = self@.squadmates;
        let mut j: usize = 0;
        while j < self.squadmates.len()
            invariant
                j <= self.squadmates.len(),
                list == identity_views(self.squadmates@),
                forall|a: int, b: int|
                    0 <= a < b < j ==> (#[trigger] list[a]).email != (#[trigger] list[b]).email,
            decreases self.squadmates.len() - j,
        {
            let mut i: usize = 0;
            while i < j
                invariant
                    i <= j < self.squadmates.len(),
                    list == identity_views(self.squadmates@),
                    forall|a: int| 0 <= a < i ==> (#[trigger] list[a]).email != list[j as int].email,
                decreases j - i,
            {
                if self.squadmates[i].email == self.squadmates[j].email {
                    assert(list[i as int].email == list[j as int].email);
                    return false;
                }
                i = i + 1;
            }
            j = j + 1;
        }
        true
    }

    /// Whether some squadmate has the address `email`.
    pub fn has_squadmate_email(&self, email: &str) -> (listed: bool)
        ensures
            listed == lists_email(self@.squadmates, email@),
    {
        let wanted = email.to_owned();
        let mut k: usize = 0;
        while k < self.squadmates.len()
            invariant
                k <= self.squadmates.len(),
                wanted@ == email@,
                forall|j: int| 0 <= j < k ==> (#[trigger] self@.squadmates[j]).email != email@,
            decreases self.squadmates.len() - k,
        {
            if self.squadmates[k].email == wanted {
                assert(self@.squadmates[k as int].email == email@);
                return true;
            }
            k = k + 1;
        }
        false
    }

    /// Appends `identity` to the squadmates, unless its address is already
    /// listed: then nothing changes.
    pub fn add_squadmate(&mut self, identity: Identity) -> (done: Result<(), Error>)
        ensures
            match done {
                Ok(()) => !lists_email(old(self)@.squadmates, identity.email@) && final(self)@ == (
                ConfigView {
                    squadmates: old(self)@.squadmates.push(identity@),
                    ..old(self)@
                }),
                Err(e) => lists_email(old(self)@.squadmates, identity.email@) && e
                    == Error::DuplicateSquadmate && *final(self) == *old(self),
            },
            old(self)@.wf() ==> final(self)@.wf(),
    {
        if self.has_squadmate_email(identity.email.as_str()) {
            Err(Error::DuplicateSquadmate)
        } else {
            self.squadmates.push(identity);
            assert(self@.squadmates =~= old(self)@.squadmates.push(identity@));
            Ok(())
        }
    }

    /// Removes what the list holds under the address of `identity`; where
    /// no squadmate has that address, nothing changes.
    pub fn rm_squadmate(&mut self, identity: &Identity) -> (done: Result<(), Error>)
        ensures
            match done {
                Ok(()) => lists_email(old(self)@.squadmates, identity.email@) && final(self)@ == (
                ConfigView {
                    squadmates: without_email(old(self)@.squadmates, identity.email@),
                    ..old(self)@
                }),
                Err(e) => !lists_email(old(self)@.squadmates, identity.email@) && e
                    == Error::NotFound && *final(self) == *old(self),
            },
            old(self)@.wf() ==> final(self)@.wf(),
    {
        if !self.has_squadmate_email(identity.email.as_str()) {
            return Err(Error::NotFound);
        }
        let ghost before = self@.squadmates;
        let ghost keep = |i: IdentityView| i.email != identity.email@;
        let mut kept: Vec<Identity> = Vec::new();
        let mut k: usize = 0;
        assert(before.take(0) =~= Seq::empty());
        assert(identity_views(kept@) =~= Seq::empty());
        assert(Seq::<IdentityView>::empty().filter(keep) =~= Seq::empty()) by {
            reveal(Seq::filter);
        }
        while k < self.squadmates.len()
            invariant
                k <= self.squadmates.len(),
                before == identity_views(self.squadmates@),
                keep == |i: IdentityView| i.email != identity.email@,
                identity_views(kept@) == before.take(k as int).filter(keep),
            decreases self.squadmates.len() - k,
        {
            proof {
                assert(before.take(k + 1) =~= before.take(k as int).push(before[k as int]));
                before.take(k as int).lemma_filter_push(before[k as int], keep);
            }
            if self.squadmates[k].email != identity.email {
                let copy = self.squadmates[k].clone();
                let ghost earlier = kept@;
                kept.push(copy);
                assert(identity_views(kept@) =~= identity_views(earlier).push(copy@));
            }
            k = k + 1;
        }
        assert(before.take(k as int) =~= before);
        self.squadmates = kept;
        proof {
            lemma_without_email_keeps_distinct(before, identity.email@);
        }
        Ok(())
    }
}

/// Taking an address out of a list leaves no entry with that address, and
/// a list without repeated addresses stays one.
pub proof fn lemma_without_email_keeps_distinct(list: Seq<IdentityView>, email: Seq<char>)
    ensures
        !lists_email(without_email(list, email), email),
        distinct_emails(list) ==> distinct_emails(without_email(list, email)),
    decreases list.len(),
{
    reveal(Seq::filter);
    if list.len() > 0 {
        let keep = |i: IdentityView| i.email != email;
        let rest = list.drop_last();
        lemma_without_email_keeps_distinct(rest, email);
        let out = without_email(list, email);
        let inner = without_email(rest, email);
        if distinct_emails(list) {
            assert(distinct_emails(rest)) by {
                assert forall|i: int, j: int| 0 <= i < j < rest.len() implies (#[trigger] rest[i]).email
                    != (#[trigger] rest[j]).email by {
                    assert(list[i].email != list[j].email);
                }
            }
            assert forall|i: int, j: int| 0 <= i < j < out.len() implies (#[trigger] out[i]).email
                != (#[trigger] out[j]).email by {
                if j == inner.len() {
                    assert(inner.contains(inner[i]));
                    lemma_filtered_entry_was_listed(rest, email, inner[i]);
                    let m = choose|m: int| 0 <= m < rest.len() && rest[m] == inner[i];
                    assert(list[m].email != list[list.len() - 1].email);
                } else {
                    assert(inner[i].email != inner[j].email);
                }
            }
        }
        assert(!lists_email(out, email)) by {
            if lists_email(out, email) {
                let w = choose|w: int| 0 <= w < out.len() && (#[trigger] out[w]).email == email;
                if w < inner.len() {
                    assert(inner[w].email == email);
                }
            }
        }
    }
}

/// Every entry that the filter kept was an entry of the list.
pub proof fn lemma_filtered_entry_was_listed(
    list: Seq<IdentityView>,
    email: Seq<char>,
    entry: IdentityView,
)
    requires
        without_email(list, email).contains(entry),
    ensures
        list.contains(entry),
    decreases list.len(),
{
    reveal(Seq::filter);
    if list.len() > 0 {
        let rest = list.drop_last();
        let inner = without_email(rest, email);
        let out = without_email(list, email);
        let w = choose|w: int| 0 <= w < out.len() && out[w] == entry;
        if w < inner.len() {
            assert(inner[w] == entry);
            assert(inner.contains(entry));
            lemma_filtered_entry_was_listed(rest, email, entry);
            let m = choose|m: int| 0 <= m < rest.len() && rest[m] == entry;
            assert(list[m] == entry);
        } else {
            assert(list[list.len() - 1] == entry);
        }
    }
}

/// A squadmate that was added is the one found under its address: when
/// the address was not listed before, looking it up in the extended list
/// gives exactly the identity that was appended.
pub proof fn lemma_added_squadmate_is_found(list: Seq<IdentityView>, added: IdentityView)
    requires
        !lists_email(list, added.email),
    ensures
        found_by_email(list.push(added), added.email) == Some(added),
{
    let longer = list.push(added);
    assert(first_with_email(longer, added.email, list.len() as int)) by {
        assert forall|j: int| 0 <= j < list.len() implies (#[trigger] longer[j]).email
            != added.email by {
            assert(list[j].email != added.email);
        }
    }
    lemma_first_with_email_is_found(longer, added.email, list.len() as int);
}

/// A squadmate that was removed is not found under its address any more.
pub proof fn lemma_removed_squadmate_is_not_found(list: Seq<IdentityView>, email: Seq<char>)
    ensures
        found_by_email(without_email(list, email), email) is None,
{
    lemma_without_email_keeps_distinct(list, email);
}

/// In a list without repeated addresses a lookup by address gives the one
/// entry that has the address, wherever it stands.
pub proof fn lemma_found_by_email_is_the_one(list: Seq<IdentityView>, email: Seq<char>, k: int)
    requires
        distinct_emails(list),
        0 <= k < list.len(),
        list[k].email == email,
    ensures
        found_by_email(list, email) == Some(list[k]),
{
    assert(first_with_email(list, email, k)) by {
        assert forall|j: int| 0 <= j < k implies (#[trigger] list[j]).email != email by {
            assert(list[j].email != list[k].email);
        }
    }
    lemma_first_with_email_is_found(list, email, k);
}

} // verus!
