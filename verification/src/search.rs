//! Case-insensitive substring search. Lowercasing is the one outside result
//! in the crate with a name of its own, `lower_of`; the substring matcher is
//! verified, so a query matches a record exactly when the lowered needle
//! occurs in a lowered field.

use vstd::prelude::*;
use crate::types::{Task, TaskView, User, UserView};
use crate::strutil::string_to_chars;

verus! {

/// What `str::to_lowercase` returns for the characters of its argument; a
/// function of those characters alone. An empty string lowers to itself.
pub uninterp spec fn lower_of(s: Seq<char>) -> Seq<char>;

/// Relies on str::to_lowercase: the result depends on the characters alone.
#[verifier::external_body]
pub fn lowercase(s: &str) -> (r: String)
    ensures
        r@ == lower_of(s@),
        s@.len() == 0 ==> r@.len() == 0,
{
    s.to_lowercase()
}

/// `needle` occurs contiguously in `hay`.
pub open spec fn contains_seq(hay: Seq<char>, needle: Seq<char>) -> bool {
    exists|i: int|
        0 <= i && i + needle.len() <= hay.len() && #[trigger] hay.subrange(i, i + needle.len())
            == needle
}

/// Whether `needle` starts at position `i` of `hay`.
fn matches_at(hay: &Vec<char>, needle: &Vec<char>, i: usize) -> (r: bool)
    requires
        i + needle@.len() <= hay@.len(),
    ensures
        r == (hay@.subrange(i as int, i + needle@.len()) == needle@),
{
    let hlen = hay.len();
    let nlen = needle.len();
    let mut j: usize = 0;
    while j < nlen
        invariant
            0 <= j <= nlen,
            nlen == needle@.len(),
            hlen == hay@.len(),
            i + nlen <= hlen,
            forall|k: int| 0 <= k < j ==> hay@[i + k] == needle@[k],
        decreases nlen - j,
    {
        if hay[i + j] != needle[j] {
            proof {
                assert(hay@.subrange(i as int, i + needle@.len())[j as int] != needle@[j as int]);
            }
            return false;
        }
        j = j + 1;
    }
    proof {
        assert(hay@.subrange(i as int, i + needle@.len()) =~= needle@);
    }
    true
}

/// Verified substring search over characters.
pub fn contains_chars(hay: &Vec<char>, needle: &Vec<char>) -> (r: bool)
    ensures
        r == contains_seq(hay@, needle@),
{
    if needle.len() > hay.len() {
        proof {
            assert(!contains_seq(hay@, needle@));
        }
        return false;
    }
    if needle.len() == 0 {
        proof {
            assert(hay@.subrange(0, 0 + needle@.len() as int) =~= needle@);
            assert(contains_seq(hay@, needle@));
        }
        return true;
    }
    let mut i: usize = 0;
    let last = hay.len() - needle.len();
    while i <= last
        invariant
            0 <= i <= last + 1,
            needle@.len() >= 1,
            hay@.len() <= usize::MAX,
            last == hay@.len() - needle@.len(),
            forall|k: int| 0 <= k < i ==> #[trigger] hay@.subrange(k, k + needle@.len())
                != needle@,
        decreases last - i + 1,
    {
        if matches_at(hay, needle, i) {
            proof {
                assert(contains_seq(hay@, needle@));
            }
            return true;
        }
        i = i + 1;
    }
    proof {
        assert(!contains_seq(hay@, needle@));
    }
    false
}

/// A task matches a query when the lowered query occurs in its lowered title
/// or its lowered description.
pub open spec fn task_matches(t: TaskView, q: Seq<char>) -> bool {
    contains_seq(lower_of(t.title), lower_of(q)) || contains_seq(
        lower_of(t.description),
        lower_of(q),
    )
}

/// A user matches a query when the lowered query occurs in the lowered
/// username, email or full name.
pub open spec fn user_matches(u: UserView, q: Seq<char>) -> bool {
    contains_seq(lower_of(u.username), lower_of(q)) || contains_seq(
        lower_of(u.email),
        lower_of(q),
    ) || contains_seq(lower_of(u.full_name), lower_of(q))
}

/// Whether a task matches the query whose lowered characters are given.
pub(crate) fn task_match_exec(
    t: &Task,
    lowered_query: &Vec<char>,
    Ghost(q): Ghost<Seq<char>>,
) -> (r: bool)
    requires
        lowered_query@ == lower_of(q),
    ensures
        r == task_matches(t@, q),
{
    let tl = lowercase(t.title.as_str());
    let tlc = string_to_chars(tl.as_str());
    if contains_chars(&tlc, lowered_query) {
        return true;
    }
    let dl = lowercase(t.description.as_str());
    let dlc = string_to_chars(dl.as_str());
    contains_chars(&dlc, lowered_query)
}

/// Whether a user matches the query whose lowered characters are given.
pub(crate) fn user_match_exec(
    u: &User,
    lowered_query: &Vec<char>,
    Ghost(q): Ghost<Seq<char>>,
) -> (r: bool)
    requires
        lowered_query@ == lower_of(q),
    ensures
        r == user_matches(u@, q),
{
    let nl = lowercase(u.username.as_str());
    let nlc = string_to_chars(nl.as_str());
    if contains_chars(&nlc, lowered_query) {
        return true;
    }
    let el = lowercase(u.email.as_str());
    let elc = string_to_chars(el.as_str());
    if contains_chars(&elc, lowered_query) {
        return true;
    }
    let fl = lowercase(u.full_name.as_str());
    let flc = string_to_chars(fl.as_str());
    contains_chars(&flc, lowered_query)
}

} // verus!
