//! Identities: a display name paired with an email address.

use crate::chars::{is_blank, is_blank_char};
use vstd::prelude::*;
use vstd::string::StrSliceExecFns;

verus! {

/// The mathematical value of an [`Identity`].
pub struct IdentityView {
    pub name: Seq<char>,
    pub email: Seq<char>,
}

/// A display name and an email address.
#[derive(Debug, PartialEq, Eq)]
pub struct Identity {
    pub name: String,
    pub email: String,
}

impl View for Identity {
    type V = IdentityView;

    open spec fn view(&self) -> IdentityView {
        IdentityView { name: self.name@, email: self.email@ }
    }
}

/// The value of an identity that may be missing.
pub open spec fn optional_view(identity: Option<Identity>) -> Option<IdentityView> {
    match identity {
        Some(i) => Some(i@),
        None => None,
    }
}

impl Clone for Identity {
    fn clone(&self) -> (copy: Self)
        ensures
            copy == *self,
    {
        Identity { name: self.name.clone(), email: self.email.clone() }
    }
}

/// Whether `s` has the outline of an email address: exactly one `@`, with
/// something on both sides of it, and no blank character anywhere.
pub open spec fn plausible_address(s: Seq<char>) -> bool {
    &&& exists|at: int| #[trigger]
        sole_at(s, at)
    &&& forall|j: int| 0 <= j < s.len() ==> !is_blank(#[trigger] s[j])
}

/// Whether position `at` holds the only `@` of `s`, neither first nor last.
pub open spec fn sole_at(s: Seq<char>, at: int) -> bool {
    &&& 0 < at < s.len() - 1
    &&& s[at] == '@'
    &&& forall|j: int| 0 <= j < s.len() && j != at ==> #[trigger] s[j] != '@'
}

/// Decides [`plausible_address`] in one pass over the characters.
pub fn is_plausible_address(s: &str) -> (ok: bool)
    ensures
        ok == plausible_address(s@),
{
    let mut clean = true;
    let mut first: Option<usize> = None;
    let mut again = false;
    let mut seen: usize = 0;
    let total: usize = s.unicode_len();
    let ghost mut second: int = 0;
    for c in it: s.chars()
        invariant
            it.seq() == s@,
            seen == it.index(),
            s@.len() == total,
            seen <= total,
            clean <==> forall|j: int| 0 <= j < seen ==> !is_blank(#[trigger] s@[j]),
            first is None ==> !again && forall|j: int| 0 <= j < seen ==> #[trigger] s@[j] != '@',
            first matches Some(a) ==> a < seen && s@[a as int] == '@',
            first matches Some(a) ==> !again ==> forall|j: int|
                0 <= j < seen && j != a ==> #[trigger] s@[j] != '@',
            again ==> first is Some && 0 <= second < seen && second != first->0 && s@[second]
                == '@',
    {
        if is_blank_char(c) {
            clean = false;
        }
        if c == '@' {
            if first.is_some() {
                again = true;
                proof {
                    second = seen as int;
                }
            } else {
                first = Some(seen);
            }
        }
        seen = seen + 1;
    }
    match first {
        Some(a) => {
            let ok = clean && !again && 0 < a && a < seen - 1;
            proof {
                if ok {
                    assert(sole_at(s@, a as int));
                } else if clean {
                    assert forall|at: int| !sole_at(s@, at) by {
                        if sole_at(s@, at) {
                            assert(at == a || (again && at == second));
                        }
                    }
                }
            }
            ok
        },
        None => false,
    }
}

/// Where the part after the last `@` of `s` begins: the start of `s`
/// where it holds no `@`.
pub open spec fn domain_start(s: Seq<char>) -> int
    decreases s.len(),
{
    if s.len() == 0 {
        0
    } else if s.last() == '@' {
        s.len() as int
    } else {
        domain_start(s.drop_last())
    }
}

/// The domain of an address: what follows its last `@`.
pub open spec fn domain_of(s: Seq<char>) -> Seq<char> {
    s.skip(domain_start(s))
}

/// The domain of `address`, where mail for it is handed in.
pub fn mail_domain(address: &str) -> (domain: String)
    ensures
        domain@ == domain_of(address@),
{
    let total: usize = address.unicode_len();
    let mut start: usize = 0;
    let mut seen: usize = 0;
    assert(address@.take(0) =~= Seq::empty());
    for c in it: address.chars()
        invariant
            it.seq() == address@,
            seen == it.index(),
            address@.len() == total,
            seen <= total,
            start <= seen,
            start == domain_start(address@.take(seen as int)),
    {
        assert(address@.take(seen + 1).drop_last() =~= address@.take(seen as int));
        seen = seen + 1;
        if c == '@' {
            start = seen;
        }
    }
    assert(address@.take(seen as int) =~= address@);
    let domain = address.substring_char(start, total).to_owned();
    assert(address@.subrange(start as int, total as int) =~= address@.skip(start as int));
    domain
}

} // verus!
