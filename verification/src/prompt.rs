//! What the operator typed, turned into values: a yes or no, and the
//! fields of an identity without the line ends.

use crate::chars::{is_space, is_space_char};
use crate::email::{Identity, IdentityView};
use vstd::prelude::*;
use vstd::string::StrSliceExecFns;

verus! {

/// Whether a reply means yes: it begins with `y`, in either case.
pub open spec fn affirmative(reply: Seq<char>) -> bool {
    reply.len() > 0 && (reply[0] == 'y' || reply[0] == 'Y')
}

/// Decides [`affirmative`].
pub fn is_affirmative(reply: &str) -> (yes: bool)
    ensures
        yes == affirmative(reply@),
{
    if reply.is_empty() {
        false
    } else {
        let first = reply.get_char(0);
        first == 'y' || first == 'Y'
    }
}

/// `line` without the white space at its end.
pub open spec fn trimmed(line: Seq<char>) -> Seq<char>
    decreases line.len(),
{
    if line.len() > 0 && is_space(line.last()) {
        trimmed(line.drop_last())
    } else {
        line
    }
}

/// A line of input without the white space at its end, the line end
/// included.
pub fn trim_line(line: &str) -> (kept: String)
    ensures
        kept@ == trimmed(line@),
{
    let mut end = line.unicode_len();
    assert(line@.take(end as int) =~= line@);
    loop
        invariant
            end <= line@.len(),
            trimmed(line@) == trimmed(line@.take(end as int)),
        ensures
            end <= line@.len(),
            trimmed(line@) == line@.take(end as int),
        decreases end,
    {
        if end == 0 {
            break;
        }
        if !is_space_char(line.get_char(end - 1)) {
            break;
        }
        assert(line@.take(end as int).drop_last() =~= line@.take(end - 1));
        end = end - 1;
    }
    let kept = line.substring_char(0, end).to_owned();
    assert(line@.subrange(0, end as int) =~= line@.take(end as int));
    kept
}

/// The identity that the operator entered on two lines, name first.
pub fn entered_identity(name_line: &str, email_line: &str) -> (identity: Identity)
    ensures
        identity@ == (IdentityView { name: trimmed(name_line@), email: trimmed(email_line@) }),
{
    Identity { name: trim_line(name_line), email: trim_line(email_line) }
}

} // verus!
