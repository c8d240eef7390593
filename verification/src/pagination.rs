//! Pagination tokens and page windows. A token spells `page_<N>`; anything
//! that does not parse — wrong prefix, non-digits, a value beyond the machine
//! word — decodes to page zero rather than failing the request. A page is the
//! window `[N * size, N * size + size)` of the listing order, clamped to its
//! length. A continuation token for the next page is handed out exactly when
//! the returned batch fills the page, which can point past the end when the
//! listing ends on a page boundary; that is the documented signal, not a
//! promise.

use vstd::prelude::*;
use crate::numstr::{all_digits, val_of, digits_of, parse_digits, push_digits, lemma_digits_of};
use crate::strutil::{string_to_chars, chars_to_string};

verus! {

/// The page index a token decodes to.
pub open spec fn token_page(t: Seq<char>) -> nat {
    if t.len() > 5 && t.subrange(0, 5) == "page_"@ && all_digits(
        t.subrange(5, t.len() as int),
    ) && val_of(t.subrange(5, t.len() as int)) <= usize::MAX as nat {
        val_of(t.subrange(5, t.len() as int))
    } else {
        0
    }
}

/// The token that names page `p`.
pub open spec fn page_token_of(p: nat) -> Seq<char> {
    "page_"@ + digits_of(p)
}

/// The window of `s` that page `page` of size `size` shows.
pub open spec fn page_slice<T>(s: Seq<T>, page: nat, size: nat) -> Seq<T> {
    let start: nat = if page * size <= s.len() {
        page * size
    } else {
        s.len()
    };
    let end: nat = if page * size + size <= s.len() {
        page * size + size
    } else {
        s.len()
    };
    s.subrange(start as int, end as int)
}

/// The effective page size: a size that is not positive shows nothing.
pub open spec fn clamp_size(page_size: i32) -> nat {
    if page_size <= 0 {
        0
    } else {
        page_size as nat
    }
}

/// Decodes a page token; every malformed token is page zero.
pub fn parse_page_token(token: &str) -> (p: usize)
    ensures
        p as nat == token_page(token@),
{
    let chars = string_to_chars(token);
    if chars.len() < 6 {
        proof {
            if token@.len() > 5 {
                assert(false);
            }
        }
        return 0;
    }
    proof {
        reveal_strlit("page_");
    }
    if !(chars[0] == 'p' && chars[1] == 'a' && chars[2] == 'g' && chars[3] == 'e'
        && chars[4] == '_') {
        proof {
            if token@.subrange(0, 5) == "page_"@ {
                assert(token@.subrange(0, 5)[0] == 'p');
                assert(token@.subrange(0, 5)[1] == 'a');
                assert(token@.subrange(0, 5)[2] == 'g');
                assert(token@.subrange(0, 5)[3] == 'e');
                assert(token@.subrange(0, 5)[4] == '_');
            }
        }
        return 0;
    }
    proof {
        assert(token@.subrange(0, 5) =~= "page_"@);
    }
    match parse_digits(&chars, 5, chars.len()) {
        Some(x) => {
            if x <= usize::MAX as u64 {
                x as usize
            } else {
                0
            }
        },
        None => 0,
    }
}

/// The continuation token after a batch: `page_<N+1>` exactly when the batch
/// filled the page, the empty string otherwise. A page index already at the
/// machine's limit stays where it is.
pub open spec fn next_token_view(count: nat, page_size: i32, t: Seq<char>) -> Seq<char> {
    if count == page_size {
        let p = token_page(t);
        let p2: nat = if p == usize::MAX as nat {
            p
        } else {
            p + 1
        };
        page_token_of(p2)
    } else {
        Seq::empty()
    }
}

/// Builds the continuation token after a batch of `count` items.
pub fn next_page_token(count: usize, page_size: i32, token: &str) -> (r: String)
    ensures
        r@ == next_token_view(count as nat, page_size, token@),
{
    if page_size >= 0 && count == page_size as usize {
        let p = parse_page_token(token);
        let p2: usize = if p == usize::MAX {
            p
        } else {
            p + 1
        };
        let mut out: Vec<char> = string_to_chars("page_");
        push_digits(&mut out, p2 as u64);
        let r = chars_to_string(&out);
        proof {
            assert(r@ =~= page_token_of((p2 as nat)));
        }
        r
    } else {
        let r = String::new();
        proof {
            assert(count as int != page_size as int);
        }
        r
    }
}

/// The pages of size `size` tile the listing: pages `0 .. k` concatenated.
pub open spec fn pages_concat<T>(s: Seq<T>, size: nat, k: nat) -> Seq<T>
    decreases k,
{
    if k == 0 {
        Seq::empty()
    } else {
        pages_concat(s, size, (k - 1) as nat) + page_slice(s, (k - 1) as nat, size)
    }
}

proof fn lemma_pages_concat_take<T>(s: Seq<T>, size: nat, k: nat)
    requires
        size > 0,
    ensures
        pages_concat(s, size, k) == s.take(if k * size <= s.len() {
            (k * size) as int
        } else {
            s.len() as int
        }),
    decreases k,
{
    if k == 0 {
        assert(k * size == 0) by (nonlinear_arith)
            requires
                k == 0,
        ;
        assert(pages_concat(s, size, 0) =~= s.take(0));
    } else {
        let j = (k - 1) as nat;
        lemma_pages_concat_take(s, size, j);
        assert(j * size == k * size - size) by (nonlinear_arith)
            requires
                j == k - 1,
        ;
        assert(j * size >= 0) by (nonlinear_arith);
        let prev: int = if j * size <= s.len() {
            (j * size) as int
        } else {
            s.len() as int
        };
        let cur: int = if k * size <= s.len() {
            (k * size) as int
        } else {
            s.len() as int
        };
        assert(pages_concat(s, size, k) =~= s.take(prev) + page_slice(s, j, size));
        assert(s.take(prev) + page_slice(s, j, size) =~= s.take(cur));
    }
}

/// Pagination completeness: with a positive page size, walking the pages
/// `0 .. k` in order returns every element exactly once, as soon as `k`
/// pages reach the end of the listing.
pub proof fn lemma_pagination_complete<T>(s: Seq<T>, size: nat, k: nat)
    requires
        size > 0,
        k * size >= s.len(),
    ensures
        pages_concat(s, size, k) == s,
{
    lemma_pages_concat_take(s, size, k);
    assert(s.take(s.len() as int) =~= s);
}

} // verus!
