//! The snapshot codec: the store's five collections as one character
//! document, written and parsed by verified code. Every number is a
//! fixed-width decimal field, every string is length-prefixed, so the format
//! is self-delimiting without any escaping; the round-trip law says that
//! decoding an encoded snapshot yields it back exactly.

use vstd::prelude::*;
use crate::types::{
    Timestamp, TaskMetrics, TaskStatus, TaskPriority, UserStatus, PreferencesView, ProfileView,
    CommentView, AttachmentView, UserView, TaskView, User, Task, UserPreferences, UserProfile,
    TaskComment, TaskAttachment,
};
use crate::store::StoreView;
use crate::strutil::{string_to_chars, chars_to_string};
use crate::alist::pairs_view;
use crate::numstr::{
    is_digit, digit_val, all_digits, val_of, digits_of, lemma_digits_of, parse_digits,
    push_digits,
};

verus! {

/// The width of every numeric field: enough digits for any 64-bit value.
pub open spec fn num_width() -> int {
    20
}

/// `k` zero characters.
pub open spec fn zeros(k: int) -> Seq<char> {
    Seq::new(k as nat, |i: int| '0')
}

/// Ten to the `k`.
pub open spec fn pow10(k: nat) -> nat
    decreases k,
{
    if k == 0 {
        1
    } else {
        10 * pow10((k - 1) as nat)
    }
}

/// Leading zeros do not change the value a digit run spells.
proof fn lemma_val_of_zeros_prefix(k: int, s: Seq<char>)
    requires
        k >= 0,
    ensures
        val_of(zeros(k) + s) == val_of(s),
    decreases s.len(),
{
    if s.len() == 0 {
        lemma_val_of_all_zeros(k);
        assert(zeros(k) + s =~= zeros(k));
    } else {
        assert((zeros(k) + s).drop_last() =~= zeros(k) + s.drop_last());
        assert((zeros(k) + s).last() == s.last());
        lemma_val_of_zeros_prefix(k, s.drop_last());
    }
}

/// A run of zeros spells zero.
proof fn lemma_val_of_all_zeros(k: int)
    requires
        k >= 0,
    ensures
        val_of(zeros(k)) == 0,
    decreases k,
{
    if k == 0 {
        assert(zeros(0) =~= Seq::<char>::empty());
    } else {
        assert(zeros(k).drop_last() =~= zeros(k - 1));
        assert(zeros(k).last() == '0');
        lemma_val_of_all_zeros(k - 1);
        assert(digit_val('0') == 0);
    }
}

/// The canonical digits of a value below `pow10(k)` fit in `k` places.
proof fn lemma_digits_len(n: nat, k: nat)
    requires
        k >= 1,
        n < pow10(k),
    ensures
        digits_of(n).len() <= k,
    decreases k,
{
    if n < 10 {
    } else {
        assert(pow10(k) == 10 * pow10((k - 1) as nat));
        assert(n / 10 < pow10((k - 1) as nat)) by (nonlinear_arith)
            requires
                n < 10 * pow10((k - 1) as nat),
                n >= 10,
        ;
        assert(pow10((k - 1) as nat) >= 1) by {
            lemma_pow10_pos((k - 1) as nat);
        }
        if k - 1 == 0 {
            assert(n / 10 < 1);
            assert(n < 10);
        } else {
            lemma_digits_len(n / 10, (k - 1) as nat);
        }
    }
}

proof fn lemma_pow10_pos(k: nat)
    ensures
        pow10(k) >= 1,
    decreases k,
{
    if k > 0 {
        lemma_pow10_pos((k - 1) as nat);
    }
}


/// Dropping a concatenation's left part leaves its right part.
proof fn lemma_concat_skip<T>(a: Seq<T>, b: Seq<T>)
    ensures
        (a + b).skip(a.len() as int) == b,
{
    assert((a + b).skip(a.len() as int) =~= b);
}

/// Two skips in a row are one skip.
proof fn lemma_skip_skip<T>(s: Seq<T>, m: int, n: int)
    requires
        0 <= m,
        0 <= n,
        m + n <= s.len(),
    ensures
        s.skip(m).skip(n) == s.skip(m + n),
{
    assert(s.skip(m).skip(n) =~= s.skip(m + n));
}

/// Concatenation is associative.
proof fn lemma_concat_assoc<T>(a: Seq<T>, b: Seq<T>, c: Seq<T>)
    ensures
        (a + b) + c == a + (b + c),
{
    assert((a + b) + c =~= a + (b + c));
}

/// Every 64-bit value fits in the fixed number width.
proof fn lemma_digits_len_u64(n: nat)
    requires
        n <= u64::MAX,
    ensures
        digits_of(n).len() <= num_width(),
{
    assert(pow10(20) == 100000000000000000000) by {
        assert(pow10(0) == 1);
        assert(pow10(1) == 10);
        assert(pow10(2) == 100);
        assert(pow10(3) == 1000);
        assert(pow10(4) == 10000);
        assert(pow10(5) == 100000);
        assert(pow10(6) == 1000000);
        assert(pow10(7) == 10000000);
        assert(pow10(8) == 100000000);
        assert(pow10(9) == 1000000000);
        assert(pow10(10) == 10000000000);
        assert(pow10(11) == 100000000000);
        assert(pow10(12) == 1000000000000);
        assert(pow10(13) == 10000000000000);
        assert(pow10(14) == 100000000000000);
        assert(pow10(15) == 1000000000000000);
        assert(pow10(16) == 10000000000000000);
        assert(pow10(17) == 100000000000000000);
        assert(pow10(18) == 1000000000000000000);
        assert(pow10(19) == 10000000000000000000);
        assert(pow10(20) == 100000000000000000000);
    }
    lemma_digits_len(n, 20);
}

/// A 64-bit value as exactly `num_width` digits, zero-padded.
#[verifier::opaque]
pub open spec fn senc_num(n: nat) -> Seq<char> {
    zeros(num_width() - digits_of(n).len()) + digits_of(n)
}

/// Reading one fixed-width number: exactly `num_width` digits whose value
/// fits in 64 bits.
#[verifier::opaque]
pub open spec fn sdec_num(t: Seq<char>) -> Option<(nat, int)> {
    if t.len() >= num_width() && all_digits(t.take(num_width())) && val_of(t.take(num_width()))
        <= u64::MAX {
        Some((val_of(t.take(num_width())), num_width()))
    } else {
        None
    }
}

/// The fixed-width field of a 64-bit value is well formed.
pub proof fn lemma_senc_num_wf(n: nat)
    requires
        n <= u64::MAX,
    ensures
        senc_num(n).len() == num_width(),
        all_digits(senc_num(n)),
        val_of(senc_num(n)) == n,
{
    reveal(senc_num);
    lemma_digits_of(n);
    lemma_digits_len_u64(n);
    let k = num_width() - digits_of(n).len();
    lemma_val_of_zeros_prefix(k, digits_of(n));
    assert forall|i: int| 0 <= i < senc_num(n).len() implies is_digit(#[trigger] senc_num(n)[i])
        by {
        if i < k {
            assert(senc_num(n)[i] == '0');
        } else {
            assert(senc_num(n)[i] == digits_of(n)[i - k]);
        }
    }
}

/// Round trip for one number field, whatever follows it.
pub proof fn lemma_dec_num(n: nat, rest: Seq<char>)
    requires
        n <= u64::MAX,
    ensures
        sdec_num(senc_num(n) + rest) == Some((n, num_width())),
{
    reveal(sdec_num);
    reveal(senc_num);
    lemma_senc_num_wf(n);
    assert((senc_num(n) + rest).take(num_width()) =~= senc_num(n));
}

/// The zigzag image of a signed value: non-negative values become even,
/// negative ones odd.
pub open spec fn zigzag(n: int) -> nat {
    if n >= 0 {
        (2 * n) as nat
    } else {
        (-2 * n - 1) as nat
    }
}

/// The signed value a zigzag image spells.
pub open spec fn unzigzag(m: nat) -> int {
    if m % 2 == 0 {
        (m / 2) as int
    } else {
        -(((m + 1) / 2) as int)
    }
}

/// Zigzag round trip.
pub proof fn lemma_zigzag(n: int)
    ensures
        unzigzag(zigzag(n)) == n,
{
    if n >= 0 {
        assert((2 * n) % 2 == 0 && (2 * n) / 2 == n) by (nonlinear_arith);
    } else {
        let m = (-2 * n - 1) as nat;
        assert(m % 2 == 1 && ((m + 1) / 2) as int == -n) by (nonlinear_arith)
            requires
                n < 0,
                m == -2 * n - 1,
        ;
    }
}

/// A signed 64-bit value as its zigzagged fixed-width field.
#[verifier::opaque]
pub open spec fn senc_i64(n: int) -> Seq<char> {
    senc_num(zigzag(n))
}

/// Reading one signed 64-bit value.
#[verifier::opaque]
pub open spec fn sdec_i64(t: Seq<char>) -> Option<(int, int)> {
    match sdec_num(t) {
        Some((m, c)) => {
            if i64::MIN <= unzigzag(m) <= i64::MAX {
                Some((unzigzag(m), c))
            } else {
                None
            }
        },
        None => None,
    }
}

/// Round trip for one signed field, whatever follows it.
pub proof fn lemma_dec_i64(n: int, rest: Seq<char>)
    requires
        i64::MIN <= n <= i64::MAX,
    ensures
        sdec_i64(senc_i64(n) + rest) == Some((n, num_width())),
        senc_i64(n).len() == num_width(),
{
    reveal(senc_i64);
    reveal(sdec_i64);
    reveal(sdec_i64);
    reveal(senc_i64);
    assert(zigzag(n) <= u64::MAX);
    lemma_dec_num(zigzag(n), rest);
    lemma_senc_num_wf(zigzag(n));
    lemma_zigzag(n);
}

/// A boolean as one character.
#[verifier::opaque]
pub open spec fn senc_bool(b: bool) -> Seq<char> {
    if b {
        seq!['T']
    } else {
        seq!['F']
    }
}

/// Reading one boolean character.
#[verifier::opaque]
pub open spec fn sdec_bool(t: Seq<char>) -> Option<(bool, int)> {
    if t.len() >= 1 && t[0] == 'T' {
        Some((true, 1))
    } else if t.len() >= 1 && t[0] == 'F' {
        Some((false, 1))
    } else {
        None
    }
}

/// Round trip for one boolean, whatever follows it.
pub proof fn lemma_dec_bool(b: bool, rest: Seq<char>)
    ensures
        sdec_bool(senc_bool(b) + rest) == Some((b, 1int)),
{
    reveal(sdec_bool);
    reveal(senc_bool);
}

/// A string as its length followed by its characters, no escaping.
#[verifier::opaque]
pub open spec fn senc_str(s: Seq<char>) -> Seq<char> {
    senc_num(s.len()) + s
}

/// Reading one length-prefixed string.
#[verifier::opaque]
pub open spec fn sdec_str(t: Seq<char>) -> Option<(Seq<char>, int)> {
    match sdec_num(t) {
        Some((n, c)) => {
            if t.len() - c >= n {
                Some((t.subrange(c, c + n), c + n))
            } else {
                None
            }
        },
        None => None,
    }
}

/// Round trip for one string, whatever follows it; the length must fit the
/// numeric field, which any string held in memory does.
pub proof fn lemma_dec_str(s: Seq<char>, rest: Seq<char>)
    requires
        s.len() <= u64::MAX,
    ensures
        sdec_str(senc_str(s) + rest) == Some((s, senc_str(s).len() as int)),
{
    reveal(sdec_str);
    reveal(senc_num);
    reveal(senc_str);
    let t = senc_str(s) + rest;
    assert(senc_str(s) + rest =~= senc_num(s.len()) + (s + rest));
    lemma_dec_num(s.len(), s + rest);
    lemma_senc_num_wf(s.len());
    assert(t.subrange(num_width(), num_width() + s.len() as int) =~= s);
}


/// An unsigned 64-bit field.
#[verifier::opaque]
pub open spec fn senc_u64(x: u64) -> Seq<char> {
    senc_num(x as nat)
}

/// Reading one unsigned 64-bit field.
#[verifier::opaque]
pub open spec fn sdec_u64(t: Seq<char>) -> Option<(u64, int)> {
    match sdec_num(t) {
        Some((n, c)) => Some((n as u64, c)),
        None => None,
    }
}

/// Round trip for one unsigned 64-bit field.
pub proof fn lemma_dec_u64(x: u64, rest: Seq<char>)
    ensures
        sdec_u64(senc_u64(x) + rest) == Some((x, senc_u64(x).len() as int)),
{
    reveal(senc_num);
    reveal(sdec_num);
    reveal(sdec_u64);
    reveal(senc_u64);
    lemma_dec_num(x as nat, rest);
    lemma_senc_num_wf(x as nat);
}

/// A signed 64-bit field.
#[verifier::opaque]
pub open spec fn senc_i64v(x: i64) -> Seq<char> {
    senc_i64(x as int)
}

/// Reading one signed 64-bit field.
#[verifier::opaque]
pub open spec fn sdec_i64v(t: Seq<char>) -> Option<(i64, int)> {
    match sdec_i64(t) {
        Some((n, c)) => Some((n as i64, c)),
        None => None,
    }
}

/// Round trip for one signed 64-bit field.
pub proof fn lemma_dec_i64v(x: i64, rest: Seq<char>)
    ensures
        sdec_i64v(senc_i64v(x) + rest) == Some((x, senc_i64v(x).len() as int)),
{
    reveal(senc_i64);
    reveal(sdec_i64);
    reveal(sdec_i64v);
    reveal(senc_i64v);
    lemma_dec_i64(x as int, rest);
    lemma_senc_num_wf(zigzag(x as int));
}

/// A signed 32-bit field, carried as a signed 64-bit one.
#[verifier::opaque]
pub open spec fn senc_i32(x: i32) -> Seq<char> {
    senc_i64(x as int)
}

/// Reading one signed 32-bit field.
#[verifier::opaque]
pub open spec fn sdec_i32(t: Seq<char>) -> Option<(i32, int)> {
    match sdec_i64(t) {
        Some((n, c)) => if i32::MIN <= n <= i32::MAX {
            Some((n as i32, c))
        } else {
            None
        },
        None => None,
    }
}

/// Round trip for one signed 32-bit field.
pub proof fn lemma_dec_i32(x: i32, rest: Seq<char>)
    ensures
        sdec_i32(senc_i32(x) + rest) == Some((x, senc_i32(x).len() as int)),
{
    reveal(senc_i64);
    reveal(sdec_i64);
    reveal(sdec_i32);
    reveal(senc_i32);
    lemma_dec_i64(x as int, rest);
    lemma_senc_num_wf(zigzag(x as int));
}

/// An unsigned 32-bit field, carried as an unsigned 64-bit one.
#[verifier::opaque]
pub open spec fn senc_u32(x: u32) -> Seq<char> {
    senc_num(x as nat)
}

/// Reading one unsigned 32-bit field.
#[verifier::opaque]
pub open spec fn sdec_u32(t: Seq<char>) -> Option<(u32, int)> {
    match sdec_num(t) {
        Some((n, c)) => if n <= u32::MAX {
            Some((n as u32, c))
        } else {
            None
        },
        None => None,
    }
}

/// Round trip for one unsigned 32-bit field.
pub proof fn lemma_dec_u32(x: u32, rest: Seq<char>)
    ensures
        sdec_u32(senc_u32(x) + rest) == Some((x, senc_u32(x).len() as int)),
{
    reveal(senc_num);
    reveal(sdec_num);
    reveal(sdec_u32);
    reveal(senc_u32);
    lemma_dec_num(x as nat, rest);
    lemma_senc_num_wf(x as nat);
}

/// A user's account state as one tag character.
#[verifier::opaque]
pub open spec fn senc_ustatus(x: UserStatus) -> Seq<char> {
    match x {
        UserStatus::Unspecified => seq!['U'],
        UserStatus::Active => seq!['A'],
        UserStatus::Inactive => seq!['I'],
        UserStatus::Suspended => seq!['X'],
    }
}

/// Reading one account-state tag.
#[verifier::opaque]
pub open spec fn sdec_ustatus(t: Seq<char>) -> Option<(UserStatus, int)> {
    if t.len() >= 1 {
        if t[0] == 'U' {
            Some((UserStatus::Unspecified, 1))
        } else if t[0] == 'A' {
            Some((UserStatus::Active, 1))
        } else if t[0] == 'I' {
            Some((UserStatus::Inactive, 1))
        } else if t[0] == 'X' {
            Some((UserStatus::Suspended, 1))
        } else {
            None
        }
    } else {
        None
    }
}

/// Round trip for one account-state tag.
pub proof fn lemma_dec_ustatus(x: UserStatus, rest: Seq<char>)
    ensures
        sdec_ustatus(senc_ustatus(x) + rest) == Some((x, senc_ustatus(x).len() as int)),
{
    reveal(sdec_ustatus);
    reveal(senc_ustatus);
}

/// A task status as one tag character.
#[verifier::opaque]
pub open spec fn senc_tstatus(x: TaskStatus) -> Seq<char> {
    match x {
        TaskStatus::Unspecified => seq!['u'],
        TaskStatus::Todo => seq!['t'],
        TaskStatus::InProgress => seq!['p'],
        TaskStatus::Review => seq!['r'],
        TaskStatus::Done => seq!['d'],
        TaskStatus::Cancelled => seq!['c'],
    }
}

/// Reading one task-status tag.
#[verifier::opaque]
pub open spec fn sdec_tstatus(t: Seq<char>) -> Option<(TaskStatus, int)> {
    if t.len() >= 1 {
        if t[0] == 'u' {
            Some((TaskStatus::Unspecified, 1))
        } else if t[0] == 't' {
            Some((TaskStatus::Todo, 1))
        } else if t[0] == 'p' {
            Some((TaskStatus::InProgress, 1))
        } else if t[0] == 'r' {
            Some((TaskStatus::Review, 1))
        } else if t[0] == 'd' {
            Some((TaskStatus::Done, 1))
        } else if t[0] == 'c' {
            Some((TaskStatus::Cancelled, 1))
        } else {
            None
        }
    } else {
        None
    }
}

/// Round trip for one task-status tag.
pub proof fn lemma_dec_tstatus(x: TaskStatus, rest: Seq<char>)
    ensures
        sdec_tstatus(senc_tstatus(x) + rest) == Some((x, senc_tstatus(x).len() as int)),
{
    reveal(sdec_tstatus);
    reveal(senc_tstatus);
}

/// A task priority as one tag character.
#[verifier::opaque]
pub open spec fn senc_tprio(x: TaskPriority) -> Seq<char> {
    match x {
        TaskPriority::Unspecified => seq!['n'],
        TaskPriority::Low => seq!['l'],
        TaskPriority::Medium => seq!['m'],
        TaskPriority::High => seq!['h'],
        TaskPriority::Urgent => seq!['g'],
    }
}

/// Reading one task-priority tag.
#[verifier::opaque]
pub open spec fn sdec_tprio(t: Seq<char>) -> Option<(TaskPriority, int)> {
    if t.len() >= 1 {
        if t[0] == 'n' {
            Some((TaskPriority::Unspecified, 1))
        } else if t[0] == 'l' {
            Some((TaskPriority::Low, 1))
        } else if t[0] == 'm' {
            Some((TaskPriority::Medium, 1))
        } else if t[0] == 'h' {
            Some((TaskPriority::High, 1))
        } else if t[0] == 'g' {
            Some((TaskPriority::Urgent, 1))
        } else {
            None
        }
    } else {
        None
    }
}

/// Round trip for one task-priority tag.
pub proof fn lemma_dec_tprio(x: TaskPriority, rest: Seq<char>)
    ensures
        sdec_tprio(senc_tprio(x) + rest) == Some((x, senc_tprio(x).len() as int)),
{
    reveal(sdec_tprio);
    reveal(senc_tprio);
}

/// An optional value: an absence tag, or a presence tag and the value.
#[verifier::opaque]
pub open spec fn senc_opt_ts(x: Option<Timestamp>) -> Seq<char> {
    match x {
        None => seq!['N'],
        Some(v) => seq!['S'] + senc_ts(v),
    }
}

/// Reading one optional value.
#[verifier::opaque]
pub open spec fn sdec_opt_ts(t: Seq<char>) -> Option<(Option<Timestamp>, int)> {
    if t.len() >= 1 && t[0] == 'N' {
        Some((None, 1))
    } else if t.len() >= 1 && t[0] == 'S' {
        match sdec_ts(t.skip(1)) {
            Some((v, c)) => Some((Some(v), 1 + c)),
            None => None,
        }
    } else {
        None
    }
}

/// Round trip for one optional value, whatever follows it.
pub proof fn lemma_dec_opt_ts(x: Option<Timestamp>, rest: Seq<char>)
    ensures
        sdec_opt_ts(senc_opt_ts(x) + rest) == Some((x, senc_opt_ts(x).len() as int)),
{
    reveal(sdec_opt_ts);
    reveal(senc_opt_ts);
    reveal(senc_ts);
    match x {
        None => {
        },
        Some(v) => {
            let t = senc_opt_ts(x) + rest;
            assert(t[0] == 'S');
            assert(t.skip(1) =~= senc_ts(v) + rest);
            lemma_dec_ts(v, rest);
        },
    }
}

/// An optional value: an absence tag, or a presence tag and the value.
#[verifier::opaque]
pub open spec fn senc_opt_metrics(x: Option<TaskMetrics>) -> Seq<char> {
    match x {
        None => seq!['N'],
        Some(v) => seq!['S'] + senc_metrics(v),
    }
}

/// Reading one optional value.
#[verifier::opaque]
pub open spec fn sdec_opt_metrics(t: Seq<char>) -> Option<(Option<TaskMetrics>, int)> {
    if t.len() >= 1 && t[0] == 'N' {
        Some((None, 1))
    } else if t.len() >= 1 && t[0] == 'S' {
        match sdec_metrics(t.skip(1)) {
            Some((v, c)) => Some((Some(v), 1 + c)),
            None => None,
        }
    } else {
        None
    }
}

/// Round trip for one optional value, whatever follows it.
pub proof fn lemma_dec_opt_metrics(x: Option<TaskMetrics>, rest: Seq<char>)
    ensures
        sdec_opt_metrics(senc_opt_metrics(x) + rest) == Some((x, senc_opt_metrics(x).len() as int)),
{
    reveal(sdec_opt_metrics);
    reveal(senc_metrics);
    reveal(senc_opt_metrics);
    match x {
        None => {
        },
        Some(v) => {
            let t = senc_opt_metrics(x) + rest;
            assert(t[0] == 'S');
            assert(t.skip(1) =~= senc_metrics(v) + rest);
            lemma_dec_metrics(v, rest);
        },
    }
}

/// An optional value: an absence tag, or a presence tag and the value.
#[verifier::opaque]
pub open spec fn senc_opt_prefs(x: Option<PreferencesView>) -> Seq<char> {
    match x {
        None => seq!['N'],
        Some(v) => seq!['S'] + senc_prefs(v),
    }
}

/// Every string inside fits the length field.
pub open spec fn opt_prefs_bounded(x: Option<PreferencesView>) -> bool {
    match x {
        Some(v) => prefs_bounded(v),
        None => true,
    }
}
/// Reading one optional value.
#[verifier::opaque]
pub open spec fn sdec_opt_prefs(t: Seq<char>) -> Option<(Option<PreferencesView>, int)> {
    if t.len() >= 1 && t[0] == 'N' {
        Some((None, 1))
    } else if t.len() >= 1 && t[0] == 'S' {
        match sdec_prefs(t.skip(1)) {
            Some((v, c)) => Some((Some(v), 1 + c)),
            None => None,
        }
    } else {
        None
    }
}

/// Round trip for one optional value, whatever follows it.
pub proof fn lemma_dec_opt_prefs(x: Option<PreferencesView>, rest: Seq<char>)
    requires
        opt_prefs_bounded(x),
    ensures
        sdec_opt_prefs(senc_opt_prefs(x) + rest) == Some((x, senc_opt_prefs(x).len() as int)),
{
    reveal(sdec_opt_prefs);
    reveal(senc_opt_prefs);
    reveal(senc_prefs);
    match x {
        None => {
        },
        Some(v) => {
            let t = senc_opt_prefs(x) + rest;
            assert(t[0] == 'S');
            assert(t.skip(1) =~= senc_prefs(v) + rest);
            lemma_dec_prefs(v, rest);
        },
    }
}

/// An optional value: an absence tag, or a presence tag and the value.
#[verifier::opaque]
pub open spec fn senc_opt_profile(x: Option<ProfileView>) -> Seq<char> {
    match x {
        None => seq!['N'],
        Some(v) => seq!['S'] + senc_profile(v),
    }
}

/// Every string inside fits the length field.
pub open spec fn opt_profile_bounded(x: Option<ProfileView>) -> bool {
    match x {
        Some(v) => profile_bounded(v),
        None => true,
    }
}
/// Reading one optional value.
#[verifier::opaque]
pub open spec fn sdec_opt_profile(t: Seq<char>) -> Option<(Option<ProfileView>, int)> {
    if t.len() >= 1 && t[0] == 'N' {
        Some((None, 1))
    } else if t.len() >= 1 && t[0] == 'S' {
        match sdec_profile(t.skip(1)) {
            Some((v, c)) => Some((Some(v), 1 + c)),
            None => None,
        }
    } else {
        None
    }
}

/// Round trip for one optional value, whatever follows it.
pub proof fn lemma_dec_opt_profile(x: Option<ProfileView>, rest: Seq<char>)
    requires
        opt_profile_bounded(x),
    ensures
        sdec_opt_profile(senc_opt_profile(x) + rest) == Some((x, senc_opt_profile(x).len() as int)),
{
    reveal(sdec_opt_profile);
    reveal(senc_opt_profile);
    reveal(senc_profile);
    match x {
        None => {
        },
        Some(v) => {
            let t = senc_opt_profile(x) + rest;
            assert(t[0] == 'S');
            assert(t.skip(1) =~= senc_profile(v) + rest);
            lemma_dec_profile(v, rest);
        },
    }
}

/// One keyed entry: the key, then the value.
#[verifier::opaque]
pub open spec fn senc_user_entry(p: (Seq<char>, UserView)) -> Seq<char> {
    senc_str(p.0) + senc_user(p.1)
}

/// The key and the value fit their fields.
pub open spec fn user_entry_bounded(p: (Seq<char>, UserView)) -> bool {
    &&& p.0.len() <= u64::MAX
    &&& user_bounded(p.1)
}

/// Reading one keyed entry.
#[verifier::opaque]
pub open spec fn sdec_user_entry(t: Seq<char>) -> Option<((Seq<char>, UserView), int)> {
    match sdec_str(t) {
        Some((k, c)) => match sdec_user(t.skip(c)) {
            Some((v, c2)) => Some(((k, v), c + c2)),
            None => None,
        },
        None => None,
    }
}

/// Round trip for one keyed entry, whatever follows it.
#[verifier::rlimit(80)]
pub proof fn lemma_dec_user_entry(p: (Seq<char>, UserView), rest: Seq<char>)
    requires
        user_entry_bounded(p),
    ensures
        sdec_user_entry(senc_user_entry(p) + rest) == Some((p, senc_user_entry(p).len() as int)),
{
    reveal(sdec_user_entry);
    reveal(senc_str);
    reveal(senc_user);
    reveal(senc_user_entry);
    let e0 = senc_str(p.0);
    let e1 = senc_user(p.1);
    let t = senc_user_entry(p) + rest;
    assert(t =~= e0 + (e1 + rest));
    lemma_dec_str(p.0, e1 + rest);
    assert(t.skip(e0.len() as int) =~= e1 + rest);
    lemma_dec_user(p.1, rest);
}

/// One keyed entry: the key, then the value.
#[verifier::opaque]
pub open spec fn senc_task_entry(p: (Seq<char>, TaskView)) -> Seq<char> {
    senc_str(p.0) + senc_task(p.1)
}

/// The key and the value fit their fields.
pub open spec fn task_entry_bounded(p: (Seq<char>, TaskView)) -> bool {
    &&& p.0.len() <= u64::MAX
    &&& task_bounded(p.1)
}

/// Reading one keyed entry.
#[verifier::opaque]
pub open spec fn sdec_task_entry(t: Seq<char>) -> Option<((Seq<char>, TaskView), int)> {
    match sdec_str(t) {
        Some((k, c)) => match sdec_task(t.skip(c)) {
            Some((v, c2)) => Some(((k, v), c + c2)),
            None => None,
        },
        None => None,
    }
}

/// Round trip for one keyed entry, whatever follows it.
#[verifier::rlimit(80)]
pub proof fn lemma_dec_task_entry(p: (Seq<char>, TaskView), rest: Seq<char>)
    requires
        task_entry_bounded(p),
    ensures
        sdec_task_entry(senc_task_entry(p) + rest) == Some((p, senc_task_entry(p).len() as int)),
{
    reveal(sdec_task_entry);
    reveal(senc_str);
    reveal(senc_task);
    reveal(senc_task_entry);
    let e0 = senc_str(p.0);
    let e1 = senc_task(p.1);
    let t = senc_task_entry(p) + rest;
    assert(t =~= e0 + (e1 + rest));
    lemma_dec_str(p.0, e1 + rest);
    assert(t.skip(e0.len() as int) =~= e1 + rest);
    lemma_dec_task(p.1, rest);
}

/// One keyed entry: the key, then the value.
#[verifier::opaque]
pub open spec fn senc_str_entry(p: (Seq<char>, Seq<char>)) -> Seq<char> {
    senc_str(p.0) + senc_str(p.1)
}

/// The key and the value fit their fields.
pub open spec fn str_entry_bounded(p: (Seq<char>, Seq<char>)) -> bool {
    &&& p.0.len() <= u64::MAX
    &&& p.1.len() <= u64::MAX
}

/// Reading one keyed entry.
#[verifier::opaque]
pub open spec fn sdec_str_entry(t: Seq<char>) -> Option<((Seq<char>, Seq<char>), int)> {
    match sdec_str(t) {
        Some((k, c)) => match sdec_str(t.skip(c)) {
            Some((v, c2)) => Some(((k, v), c + c2)),
            None => None,
        },
        None => None,
    }
}

/// Round trip for one keyed entry, whatever follows it.
pub proof fn lemma_dec_str_entry(p: (Seq<char>, Seq<char>), rest: Seq<char>)
    requires
        str_entry_bounded(p),
    ensures
        sdec_str_entry(senc_str_entry(p) + rest) == Some((p, senc_str_entry(p).len() as int)),
{
    reveal(sdec_str_entry);
    reveal(senc_str);
    reveal(senc_str_entry);
    let e0 = senc_str(p.0);
    let e1 = senc_str(p.1);
    let t = senc_str_entry(p) + rest;
    assert(t =~= e0 + (e1 + rest));
    lemma_dec_str(p.0, e1 + rest);
    assert(t.skip(e0.len() as int) =~= e1 + rest);
    lemma_dec_str(p.1, rest);
}

/// One keyed entry: the key, then the value.
#[verifier::opaque]
pub open spec fn senc_ids_entry(p: (Seq<char>, Seq<Seq<char>>)) -> Seq<char> {
    senc_str(p.0) + senc_list_str(p.1)
}

/// The key and the value fit their fields.
pub open spec fn ids_entry_bounded(p: (Seq<char>, Seq<Seq<char>>)) -> bool {
    &&& p.0.len() <= u64::MAX
    &&& list_str_bounded(p.1)
}

/// Reading one keyed entry.
#[verifier::opaque]
pub open spec fn sdec_ids_entry(t: Seq<char>) -> Option<((Seq<char>, Seq<Seq<char>>), int)> {
    match sdec_str(t) {
        Some((k, c)) => match sdec_list_str(t.skip(c)) {
            Some((v, c2)) => Some(((k, v), c + c2)),
            None => None,
        },
        None => None,
    }
}

/// Round trip for one keyed entry, whatever follows it.
#[verifier::rlimit(80)]
pub proof fn lemma_dec_ids_entry(p: (Seq<char>, Seq<Seq<char>>), rest: Seq<char>)
    requires
        ids_entry_bounded(p),
    ensures
        sdec_ids_entry(senc_ids_entry(p) + rest) == Some((p, senc_ids_entry(p).len() as int)),
{
    reveal(sdec_ids_entry);
    reveal(senc_ids_entry);
    reveal(senc_list_str);
    reveal(senc_str);
    let e0 = senc_str(p.0);
    let e1 = senc_list_str(p.1);
    let t = senc_ids_entry(p) + rest;
    assert(t =~= e0 + (e1 + rest));
    lemma_dec_str(p.0, e1 + rest);
    assert(t.skip(e0.len() as int) =~= e1 + rest);
    lemma_dec_list_str(p.1, rest);
}

/// The elements of a listing, first to last.
#[verifier::opaque]
pub open spec fn senc_items_list_str(s: Seq<Seq<char>>) -> Seq<char>
    decreases s.len(),
{
    if s.len() == 0 {
        Seq::empty()
    } else {
        senc_str(s[0]) + senc_items_list_str(s.drop_first())
    }
}

/// A listing as its count followed by its elements.
#[verifier::opaque]
pub open spec fn senc_list_str(s: Seq<Seq<char>>) -> Seq<char> {
    senc_num(s.len()) + senc_items_list_str(s)
}

/// Every element fits its fields and the count fits the numeric field.
pub open spec fn list_str_bounded(s: Seq<Seq<char>>) -> bool {
    &&& s.len() <= u64::MAX
    &&& forall|i: int| 0 <= i < s.len() ==> #[trigger] s[i].len() <= u64::MAX
}

/// Reading `k` elements.
#[verifier::opaque]
pub open spec fn sdec_items_list_str(t: Seq<char>, k: nat) -> Option<(Seq<Seq<char>>, int)>
    decreases k,
{
    if k == 0 {
        Some((Seq::empty(), 0))
    } else {
        match sdec_str(t) {
            Some((e, c)) => match sdec_items_list_str(t.skip(c), (k - 1) as nat) {
                Some((s2, c2)) => Some((seq![e] + s2, c + c2)),
                None => None,
            },
            None => None,
        }
    }
}

/// Reading one listing.
#[verifier::opaque]
pub open spec fn sdec_list_str(t: Seq<char>) -> Option<(Seq<Seq<char>>, int)> {
    match sdec_num(t) {
        Some((k, c)) => match sdec_items_list_str(t.skip(c), k) {
            Some((s, c2)) => Some((s, c + c2)),
            None => None,
        },
        None => None,
    }
}

/// Round trip for the elements, whatever follows them.
#[verifier::rlimit(80)]
pub proof fn lemma_dec_items_list_str(s: Seq<Seq<char>>, rest: Seq<char>)
    requires
        forall|i: int| 0 <= i < s.len() ==> #[trigger] s[i].len() <= u64::MAX,
    ensures
        sdec_items_list_str(senc_items_list_str(s) + rest, s.len()) == Some((
            s,
            senc_items_list_str(s).len() as int,
        )),
    decreases s.len(),
{
    reveal(sdec_items_list_str);
    reveal(senc_items_list_str);
    reveal(senc_str);
    if s.len() == 0 {
        assert(senc_items_list_str(s) =~= Seq::<char>::empty());
    } else {
        let e0 = senc_str(s[0]);
        let tail = s.drop_first();
        let et = senc_items_list_str(tail);
        let t = senc_items_list_str(s) + rest;
        assert(t =~= e0 + (et + rest));
        lemma_dec_str(s[0], et + rest);
        assert(t.skip(e0.len() as int) =~= et + rest);
        assert(forall|i: int| 0 <= i < tail.len() ==> tail[i] == s[i + 1]);
        lemma_dec_items_list_str(tail, rest);
        assert(seq![s[0]] + tail =~= s);
    }
}

/// Round trip for one listing, whatever follows it.
pub proof fn lemma_dec_list_str(s: Seq<Seq<char>>, rest: Seq<char>)
    requires
        list_str_bounded(s),
    ensures
        sdec_list_str(senc_list_str(s) + rest) == Some((s, senc_list_str(s).len() as int)),
{
    reveal(sdec_list_str);
    reveal(senc_items_list_str);
    reveal(senc_list_str);
    reveal(senc_num);
    let t = senc_list_str(s) + rest;
    assert(t =~= senc_num(s.len()) + (senc_items_list_str(s) + rest));
    lemma_dec_num(s.len(), senc_items_list_str(s) + rest);
    lemma_senc_num_wf(s.len());
    assert(t.skip(num_width()) =~= senc_items_list_str(s) + rest);
    lemma_dec_items_list_str(s, rest);
}

/// The elements of a listing, first to last.
#[verifier::opaque]
pub open spec fn senc_items_list_comment(s: Seq<CommentView>) -> Seq<char>
    decreases s.len(),
{
    if s.len() == 0 {
        Seq::empty()
    } else {
        senc_comment(s[0]) + senc_items_list_comment(s.drop_first())
    }
}

/// A listing as its count followed by its elements.
#[verifier::opaque]
pub open spec fn senc_list_comment(s: Seq<CommentView>) -> Seq<char> {
    senc_num(s.len()) + senc_items_list_comment(s)
}

/// Every element fits its fields and the count fits the numeric field.
pub open spec fn list_comment_bounded(s: Seq<CommentView>) -> bool {
    &&& s.len() <= u64::MAX
    &&& forall|i: int| 0 <= i < s.len() ==> #[trigger] comment_bounded(s[i])
}

/// Reading `k` elements.
#[verifier::opaque]
pub open spec fn sdec_items_list_comment(t: Seq<char>, k: nat) -> Option<(Seq<CommentView>, int)>
    decreases k,
{
    if k == 0 {
        Some((Seq::empty(), 0))
    } else {
        match sdec_comment(t) {
            Some((e, c)) => match sdec_items_list_comment(t.skip(c), (k - 1) as nat) {
                Some((s2, c2)) => Some((seq![e] + s2, c + c2)),
                None => None,
            },
            None => None,
        }
    }
}

/// Reading one listing.
#[verifier::opaque]
pub open spec fn sdec_list_comment(t: Seq<char>) -> Option<(Seq<CommentView>, int)> {
    match sdec_num(t) {
        Some((k, c)) => match sdec_items_list_comment(t.skip(c), k) {
            Some((s, c2)) => Some((s, c + c2)),
            None => None,
        },
        None => None,
    }
}

/// Round trip for the elements, whatever follows them.
#[verifier::rlimit(100)]
#[verifier::spinoff_prover]
pub proof fn lemma_dec_items_list_comment(s: Seq<CommentView>, rest: Seq<char>)
    requires
        forall|i: int| 0 <= i < s.len() ==> #[trigger] comment_bounded(s[i]),
    ensures
        sdec_items_list_comment(senc_items_list_comment(s) + rest, s.len()) == Some((
            s,
            senc_items_list_comment(s).len() as int,
        )),
    decreases s.len(),
{
    reveal(sdec_items_list_comment);
    reveal(senc_comment);
    reveal(senc_items_list_comment);
    if s.len() == 0 {
        assert(senc_items_list_comment(s) =~= Seq::<char>::empty());
    } else {
        let e0 = senc_comment(s[0]);
        let tail = s.drop_first();
        let et = senc_items_list_comment(tail);
        let t = senc_items_list_comment(s) + rest;
        assert(t =~= e0 + (et + rest));
        lemma_dec_comment(s[0], et + rest);
        assert(t.skip(e0.len() as int) =~= et + rest);
        assert(forall|i: int| 0 <= i < tail.len() ==> tail[i] == s[i + 1]);
        lemma_dec_items_list_comment(tail, rest);
        assert(seq![s[0]] + tail =~= s);
    }
}

/// Round trip for one listing, whatever follows it.
pub proof fn lemma_dec_list_comment(s: Seq<CommentView>, rest: Seq<char>)
    requires
        list_comment_bounded(s),
    ensures
        sdec_list_comment(senc_list_comment(s) + rest) == Some((s, senc_list_comment(s).len() as int)),
{
    reveal(sdec_list_comment);
    reveal(senc_items_list_comment);
    reveal(senc_list_comment);
    reveal(senc_num);
    let t = senc_list_comment(s) + rest;
    assert(t =~= senc_num(s.len()) + (senc_items_list_comment(s) + rest));
    lemma_dec_num(s.len(), senc_items_list_comment(s) + rest);
    lemma_senc_num_wf(s.len());
    assert(t.skip(num_width()) =~= senc_items_list_comment(s) + rest);
    lemma_dec_items_list_comment(s, rest);
}

/// The elements of a listing, first to last.
#[verifier::opaque]
pub open spec fn senc_items_list_attachment(s: Seq<AttachmentView>) -> Seq<char>
    decreases s.len(),
{
    if s.len() == 0 {
        Seq::empty()
    } else {
        senc_attachment(s[0]) + senc_items_list_attachment(s.drop_first())
    }
}

/// A listing as its count followed by its elements.
#[verifier::opaque]
pub open spec fn senc_list_attachment(s: Seq<AttachmentView>) -> Seq<char> {
    senc_num(s.len()) + senc_items_list_attachment(s)
}

/// Every element fits its fields and the count fits the numeric field.
pub open spec fn list_attachment_bounded(s: Seq<AttachmentView>) -> bool {
    &&& s.len() <= u64::MAX
    &&& forall|i: int| 0 <= i < s.len() ==> #[trigger] attachment_bounded(s[i])
}

/// Reading `k` elements.
#[verifier::opaque]
pub open spec fn sdec_items_list_attachment(t: Seq<char>, k: nat) -> Option<(Seq<AttachmentView>, int)>
    decreases k,
{
    if k == 0 {
        Some((Seq::empty(), 0))
    } else {
        match sdec_attachment(t) {
            Some((e, c)) => match sdec_items_list_attachment(t.skip(c), (k - 1) as nat) {
                Some((s2, c2)) => Some((seq![e] + s2, c + c2)),
                None => None,
            },
            None => None,
        }
    }
}

/// Reading one listing.
#[verifier::opaque]
pub open spec fn sdec_list_attachment(t: Seq<char>) -> Option<(Seq<AttachmentView>, int)> {
    match sdec_num(t) {
        Some((k, c)) => match sdec_items_list_attachment(t.skip(c), k) {
            Some((s, c2)) => Some((s, c + c2)),
            None => None,
        },
        None => None,
    }
}

/// Round trip for the elements, whatever follows them.
#[verifier::rlimit(80)]
pub proof fn lemma_dec_items_list_attachment(s: Seq<AttachmentView>, rest: Seq<char>)
    requires
        forall|i: int| 0 <= i < s.len() ==> #[trigger] attachment_bounded(s[i]),
    ensures
        sdec_items_list_attachment(senc_items_list_attachment(s) + rest, s.len()) == Some((
            s,
            senc_items_list_attachment(s).len() as int,
        )),
    decreases s.len(),
{
    reveal(sdec_items_list_attachment);
    reveal(senc_attachment);
    reveal(senc_items_list_attachment);
    if s.len() == 0 {
        assert(senc_items_list_attachment(s) =~= Seq::<char>::empty());
    } else {
        let e0 = senc_attachment(s[0]);
        let tail = s.drop_first();
        let et = senc_items_list_attachment(tail);
        let t = senc_items_list_attachment(s) + rest;
        assert(t =~= e0 + (et + rest));
        lemma_dec_attachment(s[0], et + rest);
        assert(t.skip(e0.len() as int) =~= et + rest);
        assert(forall|i: int| 0 <= i < tail.len() ==> tail[i] == s[i + 1]);
        lemma_dec_items_list_attachment(tail, rest);
        assert(seq![s[0]] + tail =~= s);
    }
}

/// Round trip for one listing, whatever follows it.
pub proof fn lemma_dec_list_attachment(s: Seq<AttachmentView>, rest: Seq<char>)
    requires
        list_attachment_bounded(s),
    ensures
        sdec_list_attachment(senc_list_attachment(s) + rest) == Some((s, senc_list_attachment(s).len() as int)),
{
    reveal(sdec_list_attachment);
    reveal(senc_items_list_attachment);
    reveal(senc_list_attachment);
    reveal(senc_num);
    let t = senc_list_attachment(s) + rest;
    assert(t =~= senc_num(s.len()) + (senc_items_list_attachment(s) + rest));
    lemma_dec_num(s.len(), senc_items_list_attachment(s) + rest);
    lemma_senc_num_wf(s.len());
    assert(t.skip(num_width()) =~= senc_items_list_attachment(s) + rest);
    lemma_dec_items_list_attachment(s, rest);
}

/// The elements of a listing, first to last.
#[verifier::opaque]
pub open spec fn senc_items_users(s: Seq<(Seq<char>, UserView)>) -> Seq<char>
    decreases s.len(),
{
    if s.len() == 0 {
        Seq::empty()
    } else {
        senc_user_entry(s[0]) + senc_items_users(s.drop_first())
    }
}

/// A listing as its count followed by its elements.
#[verifier::opaque]
pub open spec fn senc_users(s: Seq<(Seq<char>, UserView)>) -> Seq<char> {
    senc_num(s.len()) + senc_items_users(s)
}

/// Every element fits its fields and the count fits the numeric field.
pub open spec fn users_bounded(s: Seq<(Seq<char>, UserView)>) -> bool {
    &&& s.len() <= u64::MAX
    &&& forall|i: int| 0 <= i < s.len() ==> #[trigger] user_entry_bounded(s[i])
}

/// Reading `k` elements.
#[verifier::opaque]
pub open spec fn sdec_items_users(t: Seq<char>, k: nat) -> Option<(Seq<(Seq<char>, UserView)>, int)>
    decreases k,
{
    if k == 0 {
        Some((Seq::empty(), 0))
    } else {
        match sdec_user_entry(t) {
            Some((e, c)) => match sdec_items_users(t.skip(c), (k - 1) as nat) {
                Some((s2, c2)) => Some((seq![e] + s2, c + c2)),
                None => None,
            },
            None => None,
        }
    }
}

/// Reading one listing.
#[verifier::opaque]
pub open spec fn sdec_users(t: Seq<char>) -> Option<(Seq<(Seq<char>, UserView)>, int)> {
    match sdec_num(t) {
        Some((k, c)) => match sdec_items_users(t.skip(c), k) {
            Some((s, c2)) => Some((s, c + c2)),
            None => None,
        },
        None => None,
    }
}

/// Round trip for the elements, whatever follows them.
#[verifier::rlimit(100)]
#[verifier::spinoff_prover]
pub proof fn lemma_dec_items_users(s: Seq<(Seq<char>, UserView)>, rest: Seq<char>)
    requires
        forall|i: int| 0 <= i < s.len() ==> user_entry_bounded(#[trigger] s[i]),
    ensures
        sdec_items_users(senc_items_users(s) + rest, s.len()) == Some((
            s,
            senc_items_users(s).len() as int,
        )),
    decreases s.len(),
{
    reveal(sdec_items_users);
    reveal(senc_items_users);
    reveal(senc_user_entry);
    if s.len() == 0 {
        assert(senc_items_users(s) =~= Seq::<char>::empty());
    } else {
        let e0 = senc_user_entry(s[0]);
        let tail = s.drop_first();
        let et = senc_items_users(tail);
        let t = senc_items_users(s) + rest;
        lemma_concat_assoc(e0, et, rest);
        assert(t == e0 + (et + rest));
        lemma_dec_user_entry(s[0], et + rest);
        lemma_concat_skip(e0, et + rest);
        assert(t.skip(e0.len() as int) == et + rest);
        assert(forall|i: int| 0 <= i < tail.len() ==> tail[i] == s[i + 1]);
        lemma_dec_items_users(tail, rest);
        assert(seq![s[0]] + tail =~= s);
    }
}

/// Round trip for one listing, whatever follows it.
pub proof fn lemma_dec_users(s: Seq<(Seq<char>, UserView)>, rest: Seq<char>)
    requires
        users_bounded(s),
    ensures
        sdec_users(senc_users(s) + rest) == Some((s, senc_users(s).len() as int)),
{
    reveal(sdec_users);
    reveal(senc_items_users);
    reveal(senc_num);
    reveal(senc_users);
    let t = senc_users(s) + rest;
    assert(t =~= senc_num(s.len()) + (senc_items_users(s) + rest));
    lemma_dec_num(s.len(), senc_items_users(s) + rest);
    lemma_senc_num_wf(s.len());
    assert(t.skip(num_width()) =~= senc_items_users(s) + rest);
    lemma_dec_items_users(s, rest);
}

/// The elements of a listing, first to last.
#[verifier::opaque]
pub open spec fn senc_items_tasks(s: Seq<(Seq<char>, TaskView)>) -> Seq<char>
    decreases s.len(),
{
    if s.len() == 0 {
        Seq::empty()
    } else {
        senc_task_entry(s[0]) + senc_items_tasks(s.drop_first())
    }
}

/// A listing as its count followed by its elements.
#[verifier::opaque]
pub open spec fn senc_tasks(s: Seq<(Seq<char>, TaskView)>) -> Seq<char> {
    senc_num(s.len()) + senc_items_tasks(s)
}

/// Every element fits its fields and the count fits the numeric field.
pub open spec fn tasks_bounded(s: Seq<(Seq<char>, TaskView)>) -> bool {
    &&& s.len() <= u64::MAX
    &&& forall|i: int| 0 <= i < s.len() ==> #[trigger] task_entry_bounded(s[i])
}

/// Reading `k` elements.
#[verifier::opaque]
pub open spec fn sdec_items_tasks(t: Seq<char>, k: nat) -> Option<(Seq<(Seq<char>, TaskView)>, int)>
    decreases k,
{
    if k == 0 {
        Some((Seq::empty(), 0))
    } else {
        match sdec_task_entry(t) {
            Some((e, c)) => match sdec_items_tasks(t.skip(c), (k - 1) as nat) {
                Some((s2, c2)) => Some((seq![e] + s2, c + c2)),
                None => None,
            },
            None => None,
        }
    }
}

/// Reading one listing.
#[verifier::opaque]
pub open spec fn sdec_tasks(t: Seq<char>) -> Option<(Seq<(Seq<char>, TaskView)>, int)> {
    match sdec_num(t) {
        Some((k, c)) => match sdec_items_tasks(t.skip(c), k) {
            Some((s, c2)) => Some((s, c + c2)),
            None => None,
        },
        None => None,
    }
}

/// Round trip for the elements, whatever follows them.
#[verifier::rlimit(80)]
pub proof fn lemma_dec_items_tasks(s: Seq<(Seq<char>, TaskView)>, rest: Seq<char>)
    requires
        forall|i: int| 0 <= i < s.len() ==> task_entry_bounded(#[trigger] s[i]),
    ensures
        sdec_items_tasks(senc_items_tasks(s) + rest, s.len()) == Some((
            s,
            senc_items_tasks(s).len() as int,
        )),
    decreases s.len(),
{
    reveal(sdec_items_tasks);
    reveal(senc_items_tasks);
    reveal(senc_task_entry);
    if s.len() == 0 {
        assert(senc_items_tasks(s) =~= Seq::<char>::empty());
    } else {
        let e0 = senc_task_entry(s[0]);
        let tail = s.drop_first();
        let et = senc_items_tasks(tail);
        let t = senc_items_tasks(s) + rest;
        lemma_concat_assoc(e0, et, rest);
        assert(t == e0 + (et + rest));
        lemma_dec_task_entry(s[0], et + rest);
        lemma_concat_skip(e0, et + rest);
        assert(t.skip(e0.len() as int) == et + rest);
        assert(forall|i: int| 0 <= i < tail.len() ==> tail[i] == s[i + 1]);
        lemma_dec_items_tasks(tail, rest);
        assert(seq![s[0]] + tail =~= s);
    }
}

/// Round trip for one listing, whatever follows it.
pub proof fn lemma_dec_tasks(s: Seq<(Seq<char>, TaskView)>, rest: Seq<char>)
    requires
        tasks_bounded(s),
    ensures
        sdec_tasks(senc_tasks(s) + rest) == Some((s, senc_tasks(s).len() as int)),
{
    reveal(sdec_tasks);
    reveal(senc_items_tasks);
    reveal(senc_num);
    reveal(senc_tasks);
    let t = senc_tasks(s) + rest;
    assert(t =~= senc_num(s.len()) + (senc_items_tasks(s) + rest));
    lemma_dec_num(s.len(), senc_items_tasks(s) + rest);
    lemma_senc_num_wf(s.len());
    assert(t.skip(num_width()) =~= senc_items_tasks(s) + rest);
    lemma_dec_items_tasks(s, rest);
}

/// The elements of a listing, first to last.
#[verifier::opaque]
pub open spec fn senc_items_sindex(s: Seq<(Seq<char>, Seq<char>)>) -> Seq<char>
    decreases s.len(),
{
    if s.len() == 0 {
        Seq::empty()
    } else {
        senc_str_entry(s[0]) + senc_items_sindex(s.drop_first())
    }
}

/// A listing as its count followed by its elements.
#[verifier::opaque]
pub open spec fn senc_sindex(s: Seq<(Seq<char>, Seq<char>)>) -> Seq<char> {
    senc_num(s.len()) + senc_items_sindex(s)
}

/// Every element fits its fields and the count fits the numeric field.
pub open spec fn sindex_bounded(s: Seq<(Seq<char>, Seq<char>)>) -> bool {
    &&& s.len() <= u64::MAX
    &&& forall|i: int| 0 <= i < s.len() ==> #[trigger] str_entry_bounded(s[i])
}

/// Reading `k` elements.
#[verifier::opaque]
pub open spec fn sdec_items_sindex(t: Seq<char>, k: nat) -> Option<(Seq<(Seq<char>, Seq<char>)>, int)>
    decreases k,
{
    if k == 0 {
        Some((Seq::empty(), 0))
    } else {
        match sdec_str_entry(t) {
            Some((e, c)) => match sdec_items_sindex(t.skip(c), (k - 1) as nat) {
                Some((s2, c2)) => Some((seq![e] + s2, c + c2)),
                None => None,
            },
            None => None,
        }
    }
}

/// Reading one listing.
#[verifier::opaque]
pub open spec fn sdec_sindex(t: Seq<char>) -> Option<(Seq<(Seq<char>, Seq<char>)>, int)> {
    match sdec_num(t) {
        Some((k, c)) => match sdec_items_sindex(t.skip(c), k) {
            Some((s, c2)) => Some((s, c + c2)),
            None => None,
        },
        None => None,
    }
}

/// Round trip for the elements, whatever follows them.
#[verifier::rlimit(80)]
pub proof fn lemma_dec_items_sindex(s: Seq<(Seq<char>, Seq<char>)>, rest: Seq<char>)
    requires
        forall|i: int| 0 <= i < s.len() ==> #[trigger] str_entry_bounded(s[i]),
    ensures
        sdec_items_sindex(senc_items_sindex(s) + rest, s.len()) == Some((
            s,
            senc_items_sindex(s).len() as int,
        )),
    decreases s.len(),
{
    reveal(sdec_items_sindex);
    reveal(senc_items_sindex);
    reveal(senc_str_entry);
    if s.len() == 0 {
        assert(senc_items_sindex(s) =~= Seq::<char>::empty());
    } else {
        let e0 = senc_str_entry(s[0]);
        let tail = s.drop_first();
        let et = senc_items_sindex(tail);
        let t = senc_items_sindex(s) + rest;
        assert(t =~= e0 + (et + rest));
        lemma_dec_str_entry(s[0], et + rest);
        assert(t.skip(e0.len() as int) =~= et + rest);
        assert(forall|i: int| 0 <= i < tail.len() ==> tail[i] == s[i + 1]);
        lemma_dec_items_sindex(tail, rest);
        assert(seq![s[0]] + tail =~= s);
    }
}

/// Round trip for one listing, whatever follows it.
pub proof fn lemma_dec_sindex(s: Seq<(Seq<char>, Seq<char>)>, rest: Seq<char>)
    requires
        sindex_bounded(s),
    ensures
        sdec_sindex(senc_sindex(s) + rest) == Some((s, senc_sindex(s).len() as int)),
{
    reveal(sdec_sindex);
    reveal(senc_items_sindex);
    reveal(senc_num);
    reveal(senc_sindex);
    let t = senc_sindex(s) + rest;
    assert(t =~= senc_num(s.len()) + (senc_items_sindex(s) + rest));
    lemma_dec_num(s.len(), senc_items_sindex(s) + rest);
    lemma_senc_num_wf(s.len());
    assert(t.skip(num_width()) =~= senc_items_sindex(s) + rest);
    lemma_dec_items_sindex(s, rest);
}

/// The elements of a listing, first to last.
#[verifier::opaque]
pub open spec fn senc_items_utlists(s: Seq<(Seq<char>, Seq<Seq<char>>)>) -> Seq<char>
    decreases s.len(),
{
    if s.len() == 0 {
        Seq::empty()
    } else {
        senc_ids_entry(s[0]) + senc_items_utlists(s.drop_first())
    }
}

/// A listing as its count followed by its elements.
#[verifier::opaque]
pub open spec fn senc_utlists(s: Seq<(Seq<char>, Seq<Seq<char>>)>) -> Seq<char> {
    senc_num(s.len()) + senc_items_utlists(s)
}

/// Every element fits its fields and the count fits the numeric field.
pub open spec fn utlists_bounded(s: Seq<(Seq<char>, Seq<Seq<char>>)>) -> bool {
    &&& s.len() <= u64::MAX
    &&& forall|i: int| 0 <= i < s.len() ==> #[trigger] ids_entry_bounded(s[i])
}

/// Reading `k` elements.
#[verifier::opaque]
pub open spec fn sdec_items_utlists(t: Seq<char>, k: nat) -> Option<(Seq<(Seq<char>, Seq<Seq<char>>)>, int)>
    decreases k,
{
    if k == 0 {
        Some((Seq::empty(), 0))
    } else {
        match sdec_ids_entry(t) {
            Some((e, c)) => match sdec_items_utlists(t.skip(c), (k - 1) as nat) {
                Some((s2, c2)) => Some((seq![e] + s2, c + c2)),
                None => None,
            },
            None => None,
        }
    }
}

/// Reading one listing.
#[verifier::opaque]
pub open spec fn sdec_utlists(t: Seq<char>) -> Option<(Seq<(Seq<char>, Seq<Seq<char>>)>, int)> {
    match sdec_num(t) {
        Some((k, c)) => match sdec_items_utlists(t.skip(c), k) {
            Some((s, c2)) => Some((s, c + c2)),
            None => None,
        },
        None => None,
    }
}

/// Round trip for the elements, whatever follows them.
#[verifier::rlimit(80)]
pub proof fn lemma_dec_items_utlists(s: Seq<(Seq<char>, Seq<Seq<char>>)>, rest: Seq<char>)
    requires
        forall|i: int| 0 <= i < s.len() ==> #[trigger] ids_entry_bounded(s[i]),
    ensures
        sdec_items_utlists(senc_items_utlists(s) + rest, s.len()) == Some((
            s,
            senc_items_utlists(s).len() as int,
        )),
    decreases s.len(),
{
    reveal(sdec_items_utlists);
    reveal(senc_ids_entry);
    reveal(senc_items_utlists);
    if s.len() == 0 {
        assert(senc_items_utlists(s) =~= Seq::<char>::empty());
    } else {
        let e0 = senc_ids_entry(s[0]);
        let tail = s.drop_first();
        let et = senc_items_utlists(tail);
        let t = senc_items_utlists(s) + rest;
        assert(t =~= e0 + (et + rest));
        lemma_dec_ids_entry(s[0], et + rest);
        assert(t.skip(e0.len() as int) =~= et + rest);
        assert(forall|i: int| 0 <= i < tail.len() ==> tail[i] == s[i + 1]);
        lemma_dec_items_utlists(tail, rest);
        assert(seq![s[0]] + tail =~= s);
    }
}

/// Round trip for one listing, whatever follows it.
pub proof fn lemma_dec_utlists(s: Seq<(Seq<char>, Seq<Seq<char>>)>, rest: Seq<char>)
    requires
        utlists_bounded(s),
    ensures
        sdec_utlists(senc_utlists(s) + rest) == Some((s, senc_utlists(s).len() as int)),
{
    reveal(sdec_utlists);
    reveal(senc_items_utlists);
    reveal(senc_num);
    reveal(senc_utlists);
    let t = senc_utlists(s) + rest;
    assert(t =~= senc_num(s.len()) + (senc_items_utlists(s) + rest));
    lemma_dec_num(s.len(), senc_items_utlists(s) + rest);
    lemma_senc_num_wf(s.len());
    assert(t.skip(num_width()) =~= senc_items_utlists(s) + rest);
    lemma_dec_items_utlists(s, rest);
}


/// The document's leading tag.
pub open spec fn snap_header() -> Seq<char> {
    seq!['t', 's', 'v', '1']
}

/// The whole store as one document: the tag, then the five collections.
#[verifier::opaque]
pub open spec fn senc_snapshot(v: StoreView) -> Seq<char> {
    snap_header() + senc_users(v.users) + senc_sindex(v.emails) + senc_sindex(v.usernames)
        + senc_tasks(v.tasks) + senc_utlists(v.user_tasks)
}

/// Every string anywhere in the store fits its length field.
pub open spec fn view_bounded(v: StoreView) -> bool {
    &&& users_bounded(v.users)
    &&& sindex_bounded(v.emails)
    &&& sindex_bounded(v.usernames)
    &&& tasks_bounded(v.tasks)
    &&& utlists_bounded(v.user_tasks)
}

/// Reading one whole document.
#[verifier::opaque]
pub open spec fn sdec_snapshot(t: Seq<char>) -> Option<(StoreView, int)> {
    if t.len() >= 4 && t.take(4) == snap_header() {
        match sdec_users(t.skip(4)) {
            None => None,
            Some((users, c0)) =>
            match sdec_sindex(t.skip(4 + c0)) {
                None => None,
                Some((emails, c1)) =>
                match sdec_sindex(t.skip(4 + c0 + c1)) {
                    None => None,
                    Some((usernames, c2)) =>
                    match sdec_tasks(t.skip(4 + c0 + c1 + c2)) {
                        None => None,
                        Some((tasks, c3)) =>
                        match sdec_utlists(t.skip(4 + c0 + c1 + c2 + c3)) {
                            None => None,
                            Some((user_tasks, c4)) => Some((
                                StoreView { users, emails, usernames, tasks, user_tasks },
                                4 + c0 + c1 + c2 + c3 + c4,
                            )),
                        },
                    },
                },
            },
        }
    } else {
        None
    }
}

/// The round trip of the whole document: decoding an encoded snapshot yields
/// exactly the encoded store, consuming the entire document.
#[verifier::rlimit(80)]
pub proof fn lemma_dec_snapshot(v: StoreView, rest: Seq<char>)
    requires
        view_bounded(v),
    ensures
        sdec_snapshot(senc_snapshot(v) + rest) == Some((v, senc_snapshot(v).len() as int)),
{
    reveal(sdec_snapshot);
    reveal(senc_sindex);
    reveal(senc_snapshot);
    reveal(senc_tasks);
    reveal(senc_users);
    reveal(senc_utlists);
    let h = snap_header();
    let e0 = senc_users(v.users);
    let e1 = senc_sindex(v.emails);
    let e2 = senc_sindex(v.usernames);
    let e3 = senc_tasks(v.tasks);
    let e4 = senc_utlists(v.user_tasks);
    let t5 = rest;
    let t4 = e4 + t5;
    let t3 = e3 + t4;
    let t2 = e2 + t3;
    let t1 = e1 + t2;
    let t0 = e0 + t1;
    let th = h + t0;
    lemma_concat_assoc(h + e0 + e1 + e2 + e3, e4, t5);
    lemma_concat_assoc(h + e0 + e1 + e2, e3, t4);
    lemma_concat_assoc(h + e0 + e1, e2, t3);
    lemma_concat_assoc(h + e0, e1, t2);
    lemma_concat_assoc(h, e0, t1);
    assert(senc_snapshot(v) + rest == th);
    assert(th.take(4) =~= h);
    lemma_concat_skip(h, t0);
    assert(th.skip(4) == t0);
    lemma_dec_users(v.users, t1);
    lemma_concat_skip(e0, t1);
    lemma_skip_skip(th, 4, e0.len() as int);
    assert(th.skip(4 + e0.len() as int) == t1);
    lemma_dec_sindex(v.emails, t2);
    lemma_concat_skip(e1, t2);
    lemma_skip_skip(th, 4 + e0.len() as int, e1.len() as int);
    assert(th.skip(4 + e0.len() + e1.len() as int) == t2);
    lemma_dec_sindex(v.usernames, t3);
    lemma_concat_skip(e2, t3);
    lemma_skip_skip(th, 4 + e0.len() + e1.len() as int, e2.len() as int);
    assert(th.skip(4 + e0.len() + e1.len() + e2.len() as int) == t3);
    lemma_dec_tasks(v.tasks, t4);
    lemma_concat_skip(e3, t4);
    lemma_skip_skip(th, 4 + e0.len() + e1.len() + e2.len() as int, e3.len() as int);
    assert(th.skip(4 + e0.len() + e1.len() + e2.len() + e3.len() as int) == t4);
    lemma_dec_utlists(v.user_tasks, t5);
}

/// One `Timestamp` as the concatenation of its fields.
#[verifier::opaque]
pub open spec fn senc_ts(x: Timestamp) -> Seq<char> {
    senc_i64v(x.seconds) + senc_i32(x.nanos)
}

/// Every string in the record fits the length field.
pub open spec fn ts_bounded(x: Timestamp) -> bool {
    true
}

/// Reading one `Timestamp`.
#[verifier::opaque]
pub open spec fn sdec_ts(t: Seq<char>) -> Option<(Timestamp, int)> {
    match sdec_i64v(t) {
        None => None,
        Some((x0, c0)) =>
        match sdec_i32(t.skip(c0)) {
            None => None,
            Some((x1, c1)) => Some((Timestamp { seconds: x0, nanos: x1 }, c0 + c1)),
        },
    }
}

/// Round trip for one `Timestamp`, whatever follows it.
pub proof fn lemma_dec_ts(x: Timestamp, rest: Seq<char>)
    requires
        ts_bounded(x),
    ensures
        sdec_ts(senc_ts(x) + rest) == Some((x, senc_ts(x).len() as int)),
{
    reveal(sdec_ts);
    reveal(senc_i32);
    reveal(senc_i64v);
    reveal(senc_ts);
    let e0 = senc_i64v(x.seconds);
    let e1 = senc_i32(x.nanos);
    let t2 = rest;
    let t1 = e1 + t2;
    let t0 = e0 + t1;
    assert(senc_ts(x) + rest =~= t0);
    lemma_dec_i64v(x.seconds, t1);
    assert(t0.skip((e0.len()) as int) =~= t1);
    lemma_dec_i32(x.nanos, t2);
}

/// One `TaskMetrics` as the concatenation of its fields.
#[verifier::opaque]
pub open spec fn senc_metrics(x: TaskMetrics) -> Seq<char> {
    senc_i32(x.estimated_hours) + senc_i32(x.actual_hours) + senc_u32(x.completion_percent)
}

/// Every string in the record fits the length field.
pub open spec fn metrics_bounded(x: TaskMetrics) -> bool {
    true
}

/// Reading one `TaskMetrics`.
#[verifier::opaque]
pub open spec fn sdec_metrics(t: Seq<char>) -> Option<(TaskMetrics, int)> {
    match sdec_i32(t) {
        None => None,
        Some((x0, c0)) =>
        match sdec_i32(t.skip(c0)) {
            None => None,
            Some((x1, c1)) =>
            match sdec_u32(t.skip(c0 + c1)) {
                None => None,
                Some((x2, c2)) => Some((TaskMetrics { estimated_hours: x0, actual_hours: x1, completion_percent: x2 }, c0 + c1 + c2)),
            },
        },
    }
}

/// Round trip for one `TaskMetrics`, whatever follows it.
#[verifier::rlimit(80)]
pub proof fn lemma_dec_metrics(x: TaskMetrics, rest: Seq<char>)
    requires
        metrics_bounded(x),
    ensures
        sdec_metrics(senc_metrics(x) + rest) == Some((x, senc_metrics(x).len() as int)),
{
    reveal(sdec_metrics);
    reveal(senc_i32);
    reveal(senc_metrics);
    reveal(senc_u32);
    let e0 = senc_i32(x.estimated_hours);
    let e1 = senc_i32(x.actual_hours);
    let e2 = senc_u32(x.completion_percent);
    let t3 = rest;
    let t2 = e2 + t3;
    let t1 = e1 + t2;
    let t0 = e0 + t1;
    assert(senc_metrics(x) + rest =~= t0);
    lemma_dec_i32(x.estimated_hours, t1);
    assert(t0.skip((e0.len()) as int) =~= t1);
    lemma_dec_i32(x.actual_hours, t2);
    assert(t0.skip((e0.len() + e1.len()) as int) =~= t2);
    lemma_dec_u32(x.completion_percent, t3);
}

/// One `PreferencesView` as the concatenation of its fields.
#[verifier::opaque]
pub open spec fn senc_prefs(x: PreferencesView) -> Seq<char> {
    senc_str(x.theme) + senc_str(x.language) + senc_str(x.timezone) + senc_bool(x.notifications_enabled) + senc_bool(x.email_notifications)
}

/// Every string in the record fits the length field.
pub open spec fn prefs_bounded(x: PreferencesView) -> bool {
    &&& x.theme.len() <= u64::MAX
    &&& x.language.len() <= u64::MAX
    &&& x.timezone.len() <= u64::MAX
}

/// Reading one `PreferencesView`.
#[verifier::opaque]
pub open spec fn sdec_prefs(t: Seq<char>) -> Option<(PreferencesView, int)> {
    match sdec_str(t) {
        None => None,
        Some((x0, c0)) =>
        match sdec_str(t.skip(c0)) {
            None => None,
            Some((x1, c1)) =>
            match sdec_str(t.skip(c0 + c1)) {
                None => None,
                Some((x2, c2)) =>
                match sdec_bool(t.skip(c0 + c1 + c2)) {
                    None => None,
                    Some((x3, c3)) =>
                    match sdec_bool(t.skip(c0 + c1 + c2 + c3)) {
                        None => None,
                        Some((x4, c4)) => Some((PreferencesView { theme: x0, language: x1, timezone: x2, notifications_enabled: x3, email_notifications: x4 }, c0 + c1 + c2 + c3 + c4)),
                    },
                },
            },
        },
    }
}

/// Round trip for one `PreferencesView`, whatever follows it.
#[verifier::rlimit(80)]
pub proof fn lemma_dec_prefs(x: PreferencesView, rest: Seq<char>)
    requires
        prefs_bounded(x),
    ensures
        sdec_prefs(senc_prefs(x) + rest) == Some((x, senc_prefs(x).len() as int)),
{
    reveal(sdec_prefs);
    reveal(senc_bool);
    reveal(senc_prefs);
    reveal(senc_str);
    let e0 = senc_str(x.theme);
    let e1 = senc_str(x.language);
    let e2 = senc_str(x.timezone);
    let e3 = senc_bool(x.notifications_enabled);
    let e4 = senc_bool(x.email_notifications);
    let t5 = rest;
    let t4 = e4 + t5;
    let t3 = e3 + t4;
    let t2 = e2 + t3;
    let t1 = e1 + t2;
    let t0 = e0 + t1;
    assert(senc_prefs(x) + rest =~= t0);
    lemma_dec_str(x.theme, t1);
    assert(t0.skip((e0.len()) as int) =~= t1);
    lemma_dec_str(x.language, t2);
    assert(t0.skip((e0.len() + e1.len()) as int) =~= t2);
    lemma_dec_str(x.timezone, t3);
    assert(t0.skip((e0.len() + e1.len() + e2.len()) as int) =~= t3);
    lemma_dec_bool(x.notifications_enabled, t4);
    assert(t0.skip((e0.len() + e1.len() + e2.len() + e3.len()) as int) =~= t4);
    lemma_dec_bool(x.email_notifications, t5);
}

/// One `ProfileView` as the concatenation of its fields.
#[verifier::opaque]
pub open spec fn senc_profile(x: ProfileView) -> Seq<char> {
    senc_str(x.avatar_url) + senc_str(x.bio) + senc_str(x.department) + senc_str(x.phone) + senc_str(x.location)
}

/// Every string in the record fits the length field.
pub open spec fn profile_bounded(x: ProfileView) -> bool {
    &&& x.avatar_url.len() <= u64::MAX
    &&& x.bio.len() <= u64::MAX
    &&& x.department.len() <= u64::MAX
    &&& x.phone.len() <= u64::MAX
    &&& x.location.len() <= u64::MAX
}

/// Reading one `ProfileView`.
#[verifier::opaque]
pub open spec fn sdec_profile(t: Seq<char>) -> Option<(ProfileView, int)> {
    match sdec_str(t) {
        None => None,
        Some((x0, c0)) =>
        match sdec_str(t.skip(c0)) {
            None => None,
            Some((x1, c1)) =>
            match sdec_str(t.skip(c0 + c1)) {
                None => None,
                Some((x2, c2)) =>
                match sdec_str(t.skip(c0 + c1 + c2)) {
                    None => None,
                    Some((x3, c3)) =>
                    match sdec_str(t.skip(c0 + c1 + c2 + c3)) {
                        None => None,
                        Some((x4, c4)) => Some((ProfileView { avatar_url: x0, bio: x1, department: x2, phone: x3, location: x4 }, c0 + c1 + c2 + c3 + c4)),
                    },
                },
            },
        },
    }
}

/// Round trip for one `ProfileView`, whatever follows it.
#[verifier::rlimit(80)]
pub proof fn lemma_dec_profile(x: ProfileView, rest: Seq<char>)
    requires
        profile_bounded(x),
    ensures
        sdec_profile(senc_profile(x) + rest) == Some((x, senc_profile(x).len() as int)),
{
    reveal(sdec_profile);
    reveal(senc_profile);
    reveal(senc_str);
    let e0 = senc_str(x.avatar_url);
    let e1 = senc_str(x.bio);
    let e2 = senc_str(x.department);
    let e3 = senc_str(x.phone);
    let e4 = senc_str(x.location);
    let t5 = rest;
    let t4 = e4 + t5;
    let t3 = e3 + t4;
    let t2 = e2 + t3;
    let t1 = e1 + t2;
    let t0 = e0 + t1;
    assert(senc_profile(x) + rest =~= t0);
    lemma_dec_str(x.avatar_url, t1);
    assert(t0.skip((e0.len()) as int) =~= t1);
    lemma_dec_str(x.bio, t2);
    assert(t0.skip((e0.len() + e1.len()) as int) =~= t2);
    lemma_dec_str(x.department, t3);
    assert(t0.skip((e0.len() + e1.len() + e2.len()) as int) =~= t3);
    lemma_dec_str(x.phone, t4);
    assert(t0.skip((e0.len() + e1.len() + e2.len() + e3.len()) as int) =~= t4);
    lemma_dec_str(x.location, t5);
}

/// One `CommentView` as the concatenation of its fields.
#[verifier::opaque]
pub open spec fn senc_comment(x: CommentView) -> Seq<char> {
    senc_str(x.id) + senc_str(x.author_id) + senc_str(x.content) + senc_opt_ts(x.created_at)
}

/// Every string in the record fits the length field.
pub open spec fn comment_bounded(x: CommentView) -> bool {
    &&& x.id.len() <= u64::MAX
    &&& x.author_id.len() <= u64::MAX
    &&& x.content.len() <= u64::MAX
}

/// Reading one `CommentView`.
#[verifier::opaque]
pub open spec fn sdec_comment(t: Seq<char>) -> Option<(CommentView, int)> {
    match sdec_str(t) {
        None => None,
        Some((x0, c0)) =>
        match sdec_str(t.skip(c0)) {
            None => None,
            Some((x1, c1)) =>
            match sdec_str(t.skip(c0 + c1)) {
                None => None,
                Some((x2, c2)) =>
                match sdec_opt_ts(t.skip(c0 + c1 + c2)) {
                    None => None,
                    Some((x3, c3)) => Some((CommentView { id: x0, author_id: x1, content: x2, created_at: x3 }, c0 + c1 + c2 + c3)),
                },
            },
        },
    }
}

/// Round trip for one `CommentView`, whatever follows it.
#[verifier::rlimit(80)]
pub proof fn lemma_dec_comment(x: CommentView, rest: Seq<char>)
    requires
        comment_bounded(x),
    ensures
        sdec_comment(senc_comment(x) + rest) == Some((x, senc_comment(x).len() as int)),
{
    reveal(sdec_comment);
    reveal(senc_comment);
    reveal(senc_opt_ts);
    reveal(senc_str);
    let e0 = senc_str(x.id);
    let e1 = senc_str(x.author_id);
    let e2 = senc_str(x.content);
    let e3 = senc_opt_ts(x.created_at);
    let t4 = rest;
    let t3 = e3 + t4;
    let t2 = e2 + t3;
    let t1 = e1 + t2;
    let t0 = e0 + t1;
    assert(senc_comment(x) + rest =~= t0);
    lemma_dec_str(x.id, t1);
    assert(t0.skip((e0.len()) as int) =~= t1);
    lemma_dec_str(x.author_id, t2);
    assert(t0.skip((e0.len() + e1.len()) as int) =~= t2);
    lemma_dec_str(x.content, t3);
    assert(t0.skip((e0.len() + e1.len() + e2.len()) as int) =~= t3);
    lemma_dec_opt_ts(x.created_at, t4);
}

/// One `AttachmentView` as the concatenation of its fields.
#[verifier::opaque]
pub open spec fn senc_attachment(x: AttachmentView) -> Seq<char> {
    senc_str(x.id) + senc_str(x.filename) + senc_str(x.content_type) + senc_u64(x.file_size) + senc_opt_ts(x.uploaded_at) + senc_str(x.uploaded_by) + senc_str(x.url)
}

/// Every string in the record fits the length field.
pub open spec fn attachment_bounded(x: AttachmentView) -> bool {
    &&& x.id.len() <= u64::MAX
    &&& x.filename.len() <= u64::MAX
    &&& x.content_type.len() <= u64::MAX
    &&& x.uploaded_by.len() <= u64::MAX
    &&& x.url.len() <= u64::MAX
}

/// Reading one `AttachmentView`.
#[verifier::opaque]
pub open spec fn sdec_attachment(t: Seq<char>) -> Option<(AttachmentView, int)> {
    match sdec_str(t) {
        None => None,
        Some((x0, c0)) =>
        match sdec_str(t.skip(c0)) {
            None => None,
            Some((x1, c1)) =>
            match sdec_str(t.skip(c0 + c1)) {
                None => None,
                Some((x2, c2)) =>
                match sdec_u64(t.skip(c0 + c1 + c2)) {
                    None => None,
                    Some((x3, c3)) =>
                    match sdec_opt_ts(t.skip(c0 + c1 + c2 + c3)) {
                        None => None,
                        Some((x4, c4)) =>
                        match sdec_str(t.skip(c0 + c1 + c2 + c3 + c4)) {
                            None => None,
                            Some((x5, c5)) =>
                            match sdec_str(t.skip(c0 + c1 + c2 + c3 + c4 + c5)) {
                                None => None,
                                Some((x6, c6)) => Some((AttachmentView { id: x0, filename: x1, content_type: x2, file_size: x3, uploaded_at: x4, uploaded_by: x5, url: x6 }, c0 + c1 + c2 + c3 + c4 + c5 + c6)),
                            },
                        },
                    },
                },
            },
        },
    }
}

/// Round trip for one `AttachmentView`, whatever follows it.
#[verifier::rlimit(100)]
#[verifier::spinoff_prover]
pub proof fn lemma_dec_attachment(x: AttachmentView, rest: Seq<char>)
    requires
        attachment_bounded(x),
    ensures
        sdec_attachment(senc_attachment(x) + rest) == Some((x, senc_attachment(x).len() as int)),
{
    reveal(sdec_attachment);
    reveal(senc_attachment);
    reveal(senc_opt_ts);
    reveal(senc_str);
    reveal(senc_u64);
    let e0 = senc_str(x.id);
    let e1 = senc_str(x.filename);
    let e2 = senc_str(x.content_type);
    let e3 = senc_u64(x.file_size);
    let e4 = senc_opt_ts(x.uploaded_at);
    let e5 = senc_str(x.uploaded_by);
    let e6 = senc_str(x.url);
    let t7 = rest;
    let t6 = e6 + t7;
    let t5 = e5 + t6;
    let t4 = e4 + t5;
    let t3 = e3 + t4;
    let t2 = e2 + t3;
    let t1 = e1 + t2;
    let t0 = e0 + t1;
    // peel the concatenation one field at a time
    lemma_concat_assoc(e0 + e1 + e2 + e3 + e4 + e5, e6, t7);
    lemma_concat_assoc(e0 + e1 + e2 + e3 + e4, e5, t6);
    lemma_concat_assoc(e0 + e1 + e2 + e3, e4, t5);
    lemma_concat_assoc(e0 + e1 + e2, e3, t4);
    lemma_concat_assoc(e0 + e1, e2, t3);
    lemma_concat_assoc(e0, e1, t2);
    assert(senc_attachment(x) + rest == t0);
    lemma_dec_str(x.id, t1);
    lemma_concat_skip(e0, t1);
    assert(t0.skip((e0.len()) as int) == t1);
    lemma_dec_str(x.filename, t2);
    lemma_concat_skip(e1, t2);
    lemma_skip_skip(t0, (e0.len()) as int, e1.len() as int);
    assert(t0.skip((e0.len() + e1.len()) as int) == t2);
    lemma_dec_str(x.content_type, t3);
    lemma_concat_skip(e2, t3);
    lemma_skip_skip(t0, (e0.len() + e1.len()) as int, e2.len() as int);
    assert(t0.skip((e0.len() + e1.len() + e2.len()) as int) == t3);
    lemma_dec_u64(x.file_size, t4);
    lemma_concat_skip(e3, t4);
    lemma_skip_skip(t0, (e0.len() + e1.len() + e2.len()) as int, e3.len() as int);
    assert(t0.skip((e0.len() + e1.len() + e2.len() + e3.len()) as int) == t4);
    lemma_dec_opt_ts(x.uploaded_at, t5);
    lemma_concat_skip(e4, t5);
    lemma_skip_skip(t0, (e0.len() + e1.len() + e2.len() + e3.len()) as int, e4.len() as int);
    assert(t0.skip((e0.len() + e1.len() + e2.len() + e3.len() + e4.len()) as int) == t5);
    lemma_dec_str(x.uploaded_by, t6);
    lemma_concat_skip(e5, t6);
    lemma_skip_skip(t0, (e0.len() + e1.len() + e2.len() + e3.len() + e4.len()) as int, e5.len() as int);
    assert(t0.skip((e0.len() + e1.len() + e2.len() + e3.len() + e4.len() + e5.len()) as int) == t6);
    lemma_dec_str(x.url, t7);
}

/// The leading fields of a user record.
#[verifier::opaque]
pub open spec fn senc_user_head(x: UserView) -> Seq<char> {
    senc_str(x.id) + senc_str(x.username) + senc_str(x.email) + senc_str(x.full_name) + senc_i32(x.role) + senc_bool(x.is_active) + senc_ustatus(x.status)
}

/// The trailing fields of a user record.
#[verifier::opaque]
pub open spec fn senc_user_tail(x: UserView) -> Seq<char> {
    senc_list_str(x.permissions) + senc_opt_ts(x.created_at) + senc_opt_ts(x.updated_at) + senc_opt_ts(x.last_login) + senc_opt_prefs(x.preferences) + senc_opt_profile(x.profile)
}

/// One `UserView` as the concatenation of its fields.
#[verifier::opaque]
pub open spec fn senc_user(x: UserView) -> Seq<char> {
    senc_user_head(x) + senc_user_tail(x)
}

/// Every string in the record fits the length field.
pub open spec fn user_bounded(x: UserView) -> bool {
    &&& x.id.len() <= u64::MAX
    &&& x.username.len() <= u64::MAX
    &&& x.email.len() <= u64::MAX
    &&& x.full_name.len() <= u64::MAX
    &&& list_str_bounded(x.permissions)
    &&& opt_prefs_bounded(x.preferences)
    &&& opt_profile_bounded(x.profile)
}

/// Reading the leading fields of a user record.
#[verifier::opaque]
pub open spec fn sdec_user_head(t: Seq<char>) -> Option<(
    (Seq<char>, Seq<char>, Seq<char>, Seq<char>, i32, bool, UserStatus),
    int,
)> {
    match sdec_str(t) {
        None => None,
        Some((x0, c0)) =>
        match sdec_str(t.skip(c0)) {
            None => None,
            Some((x1, c1)) =>
            match sdec_str(t.skip(c0 + c1)) {
                None => None,
                Some((x2, c2)) =>
                match sdec_str(t.skip(c0 + c1 + c2)) {
                    None => None,
                    Some((x3, c3)) =>
                    match sdec_i32(t.skip(c0 + c1 + c2 + c3)) {
                        None => None,
                        Some((x4, c4)) =>
                        match sdec_bool(t.skip(c0 + c1 + c2 + c3 + c4)) {
                            None => None,
                            Some((x5, c5)) =>
                            match sdec_ustatus(t.skip(c0 + c1 + c2 + c3 + c4 + c5)) {
                                None => None,
                                Some((x6, c6)) => Some(((x0, x1, x2, x3, x4, x5, x6), c0 + c1 + c2 + c3 + c4 + c5 + c6)),
                            },
                        },
                    },
                },
            },
        },
    }
}

/// Reading the trailing fields of a user record.
#[verifier::opaque]
pub open spec fn sdec_user_tail(t: Seq<char>) -> Option<(
    (Seq<Seq<char>>, Option<Timestamp>, Option<Timestamp>, Option<Timestamp>, Option<PreferencesView>, Option<ProfileView>),
    int,
)> {
    match sdec_list_str(t) {
        None => None,
        Some((x0, c0)) =>
        match sdec_opt_ts(t.skip(c0)) {
            None => None,
            Some((x1, c1)) =>
            match sdec_opt_ts(t.skip(c0 + c1)) {
                None => None,
                Some((x2, c2)) =>
                match sdec_opt_ts(t.skip(c0 + c1 + c2)) {
                    None => None,
                    Some((x3, c3)) =>
                    match sdec_opt_prefs(t.skip(c0 + c1 + c2 + c3)) {
                        None => None,
                        Some((x4, c4)) =>
                        match sdec_opt_profile(t.skip(c0 + c1 + c2 + c3 + c4)) {
                            None => None,
                            Some((x5, c5)) => Some(((x0, x1, x2, x3, x4, x5), c0 + c1 + c2 + c3 + c4 + c5)),
                        },
                    },
                },
            },
        },
    }
}

/// Reading one `UserView`.
#[verifier::opaque]
pub open spec fn sdec_user(t: Seq<char>) -> Option<(UserView, int)> {
    match sdec_user_head(t) {
        None => None,
        Some((h, c)) => match sdec_user_tail(t.skip(c)) {
            None => None,
            Some((tl, c2)) => Some((
                UserView {
                    id: h.0,
                    username: h.1,
                    email: h.2,
                    full_name: h.3,
                    role: h.4,
                    is_active: h.5,
                    status: h.6,
                    permissions: tl.0,
                    created_at: tl.1,
                    updated_at: tl.2,
                    last_login: tl.3,
                    preferences: tl.4,
                    profile: tl.5,
                },
                c + c2,
            )),
        },
    }
}

#[verifier::rlimit(100)]
#[verifier::spinoff_prover]
proof fn lemma_dec_user_head(x: UserView, rest: Seq<char>)
    requires
        user_bounded(x),
    ensures
        sdec_user_head(senc_user_head(x) + rest) == Some((((x.id, x.username, x.email, x.full_name, x.role, x.is_active, x.status)), senc_user_head(x).len() as int)),
{
    reveal(sdec_user_head);
    reveal(senc_bool);
    reveal(senc_i32);
    reveal(senc_str);
    reveal(senc_user_head);
    reveal(senc_ustatus);
    let e0 = senc_str(x.id);
    let e1 = senc_str(x.username);
    let e2 = senc_str(x.email);
    let e3 = senc_str(x.full_name);
    let e4 = senc_i32(x.role);
    let e5 = senc_bool(x.is_active);
    let e6 = senc_ustatus(x.status);
    let t7 = rest;
    let t6 = e6 + t7;
    let t5 = e5 + t6;
    let t4 = e4 + t5;
    let t3 = e3 + t4;
    let t2 = e2 + t3;
    let t1 = e1 + t2;
    let t0 = e0 + t1;
    lemma_concat_assoc(e0 + e1 + e2 + e3 + e4 + e5, e6, t7);
    lemma_concat_assoc(e0 + e1 + e2 + e3 + e4, e5, t6);
    lemma_concat_assoc(e0 + e1 + e2 + e3, e4, t5);
    lemma_concat_assoc(e0 + e1 + e2, e3, t4);
    lemma_concat_assoc(e0 + e1, e2, t3);
    lemma_concat_assoc(e0, e1, t2);
    assert(senc_user_head(x) + rest == t0);
    lemma_dec_str(x.id, t1);
    lemma_concat_skip(e0, t1);
    assert(t0.skip((e0.len()) as int) == t1);
    lemma_dec_str(x.username, t2);
    lemma_concat_skip(e1, t2);
    lemma_skip_skip(t0, (e0.len()) as int, e1.len() as int);
    assert(t0.skip((e0.len() + e1.len()) as int) == t2);
    lemma_dec_str(x.email, t3);
    lemma_concat_skip(e2, t3);
    lemma_skip_skip(t0, (e0.len() + e1.len()) as int, e2.len() as int);
    assert(t0.skip((e0.len() + e1.len() + e2.len()) as int) == t3);
    lemma_dec_str(x.full_name, t4);
    lemma_concat_skip(e3, t4);
    lemma_skip_skip(t0, (e0.len() + e1.len() + e2.len()) as int, e3.len() as int);
    assert(t0.skip((e0.len() + e1.len() + e2.len() + e3.len()) as int) == t4);
    lemma_dec_i32(x.role, t5);
    lemma_concat_skip(e4, t5);
    lemma_skip_skip(t0, (e0.len() + e1.len() + e2.len() + e3.len()) as int, e4.len() as int);
    assert(t0.skip((e0.len() + e1.len() + e2.len() + e3.len() + e4.len()) as int) == t5);
    lemma_dec_bool(x.is_active, t6);
    lemma_concat_skip(e5, t6);
    lemma_skip_skip(t0, (e0.len() + e1.len() + e2.len() + e3.len() + e4.len()) as int, e5.len() as int);
    assert(t0.skip((e0.len() + e1.len() + e2.len() + e3.len() + e4.len() + e5.len()) as int) == t6);
    lemma_dec_ustatus(x.status, t7);
}

#[verifier::rlimit(100)]
#[verifier::spinoff_prover]
proof fn lemma_dec_user_tail(x: UserView, rest: Seq<char>)
    requires
        user_bounded(x),
    ensures
        sdec_user_tail(senc_user_tail(x) + rest) == Some((((x.permissions, x.created_at, x.updated_at, x.last_login, x.preferences, x.profile)), senc_user_tail(x).len() as int)),
{
    reveal(sdec_user_tail);
    reveal(senc_list_str);
    reveal(senc_opt_prefs);
    reveal(senc_opt_profile);
    reveal(senc_opt_ts);
    reveal(senc_user_tail);
    let e0 = senc_list_str(x.permissions);
    let e1 = senc_opt_ts(x.created_at);
    let e2 = senc_opt_ts(x.updated_at);
    let e3 = senc_opt_ts(x.last_login);
    let e4 = senc_opt_prefs(x.preferences);
    let e5 = senc_opt_profile(x.profile);
    let t6 = rest;
    let t5 = e5 + t6;
    let t4 = e4 + t5;
    let t3 = e3 + t4;
    let t2 = e2 + t3;
    let t1 = e1 + t2;
    let t0 = e0 + t1;
    lemma_concat_assoc(e0 + e1 + e2 + e3 + e4, e5, t6);
    lemma_concat_assoc(e0 + e1 + e2 + e3, e4, t5);
    lemma_concat_assoc(e0 + e1 + e2, e3, t4);
    lemma_concat_assoc(e0 + e1, e2, t3);
    lemma_concat_assoc(e0, e1, t2);
    assert(senc_user_tail(x) + rest == t0);
    lemma_dec_list_str(x.permissions, t1);
    lemma_concat_skip(e0, t1);
    assert(t0.skip((e0.len()) as int) == t1);
    lemma_dec_opt_ts(x.created_at, t2);
    lemma_concat_skip(e1, t2);
    lemma_skip_skip(t0, (e0.len()) as int, e1.len() as int);
    assert(t0.skip((e0.len() + e1.len()) as int) == t2);
    lemma_dec_opt_ts(x.updated_at, t3);
    lemma_concat_skip(e2, t3);
    lemma_skip_skip(t0, (e0.len() + e1.len()) as int, e2.len() as int);
    assert(t0.skip((e0.len() + e1.len() + e2.len()) as int) == t3);
    lemma_dec_opt_ts(x.last_login, t4);
    lemma_concat_skip(e3, t4);
    lemma_skip_skip(t0, (e0.len() + e1.len() + e2.len()) as int, e3.len() as int);
    assert(t0.skip((e0.len() + e1.len() + e2.len() + e3.len()) as int) == t4);
    lemma_dec_opt_prefs(x.preferences, t5);
    lemma_concat_skip(e4, t5);
    lemma_skip_skip(t0, (e0.len() + e1.len() + e2.len() + e3.len()) as int, e4.len() as int);
    assert(t0.skip((e0.len() + e1.len() + e2.len() + e3.len() + e4.len()) as int) == t5);
    lemma_dec_opt_profile(x.profile, t6);
}

/// Round trip for one `UserView`, whatever follows it.
#[verifier::rlimit(100)]
#[verifier::spinoff_prover]
pub proof fn lemma_dec_user(x: UserView, rest: Seq<char>)
    requires
        user_bounded(x),
    ensures
        sdec_user(senc_user(x) + rest) == Some((x, senc_user(x).len() as int)),
{
    reveal(sdec_user);
    reveal(senc_user);
    reveal(senc_user_head);
    reveal(senc_user_tail);
    let h = senc_user_head(x);
    let tl = senc_user_tail(x);
    lemma_concat_assoc(h, tl, rest);
    assert(senc_user(x) + rest == h + (tl + rest));
    lemma_dec_user_head(x, tl + rest);
    lemma_concat_skip(h, tl + rest);
    lemma_skip_skip(senc_user(x) + rest, 0, h.len() as int);
    assert((senc_user(x) + rest).skip(h.len() as int) == tl + rest);
    lemma_dec_user_tail(x, rest);
    assert(sdec_user(senc_user(x) + rest) matches Some(p) && p.0 =~= x && p.1 == senc_user(
        x,
    ).len() as int);
}

/// The leading fields of a task record.
#[verifier::opaque]
pub open spec fn senc_task_head(x: TaskView) -> Seq<char> {
    senc_str(x.id) + senc_str(x.title) + senc_str(x.description) + senc_tstatus(x.status) + senc_tprio(x.priority) + senc_list_str(x.tags) + senc_str(x.assigned_to)
}

/// The trailing fields of a task record.
#[verifier::opaque]
pub open spec fn senc_task_tail(x: TaskView) -> Seq<char> {
    senc_opt_ts(x.created_at) + senc_opt_ts(x.updated_at) + senc_opt_ts(x.due_date) + senc_opt_metrics(x.metrics) + senc_list_comment(x.comments) + senc_list_attachment(x.attachments)
}

/// One `TaskView` as the concatenation of its fields.
#[verifier::opaque]
pub open spec fn senc_task(x: TaskView) -> Seq<char> {
    senc_task_head(x) + senc_task_tail(x)
}

/// Every string in the record fits the length field.
pub open spec fn task_bounded(x: TaskView) -> bool {
    &&& x.id.len() <= u64::MAX
    &&& x.title.len() <= u64::MAX
    &&& x.description.len() <= u64::MAX
    &&& list_str_bounded(x.tags)
    &&& x.assigned_to.len() <= u64::MAX
    &&& list_comment_bounded(x.comments)
    &&& list_attachment_bounded(x.attachments)
}

/// Reading the leading fields of a task record.
#[verifier::opaque]
pub open spec fn sdec_task_head(t: Seq<char>) -> Option<(
    (Seq<char>, Seq<char>, Seq<char>, TaskStatus, TaskPriority, Seq<Seq<char>>, Seq<char>),
    int,
)> {
    match sdec_str(t) {
        None => None,
        Some((x0, c0)) =>
        match sdec_str(t.skip(c0)) {
            None => None,
            Some((x1, c1)) =>
            match sdec_str(t.skip(c0 + c1)) {
                None => None,
                Some((x2, c2)) =>
                match sdec_tstatus(t.skip(c0 + c1 + c2)) {
                    None => None,
                    Some((x3, c3)) =>
                    match sdec_tprio(t.skip(c0 + c1 + c2 + c3)) {
                        None => None,
                        Some((x4, c4)) =>
                        match sdec_list_str(t.skip(c0 + c1 + c2 + c3 + c4)) {
                            None => None,
                            Some((x5, c5)) =>
                            match sdec_str(t.skip(c0 + c1 + c2 + c3 + c4 + c5)) {
                                None => None,
                                Some((x6, c6)) => Some(((x0, x1, x2, x3, x4, x5, x6), c0 + c1 + c2 + c3 + c4 + c5 + c6)),
                            },
                        },
                    },
                },
            },
        },
    }
}

/// Reading the trailing fields of a task record.
#[verifier::opaque]
pub open spec fn sdec_task_tail(t: Seq<char>) -> Option<(
    (Option<Timestamp>, Option<Timestamp>, Option<Timestamp>, Option<TaskMetrics>, Seq<CommentView>, Seq<AttachmentView>),
    int,
)> {
    match sdec_opt_ts(t) {
        None => None,
        Some((x0, c0)) =>
        match sdec_opt_ts(t.skip(c0)) {
            None => None,
            Some((x1, c1)) =>
            match sdec_opt_ts(t.skip(c0 + c1)) {
                None => None,
                Some((x2, c2)) =>
                match sdec_opt_metrics(t.skip(c0 + c1 + c2)) {
                    None => None,
                    Some((x3, c3)) =>
                    match sdec_list_comment(t.skip(c0 + c1 + c2 + c3)) {
                        None => None,
                        Some((x4, c4)) =>
                        match sdec_list_attachment(t.skip(c0 + c1 + c2 + c3 + c4)) {
                            None => None,
                            Some((x5, c5)) => Some(((x0, x1, x2, x3, x4, x5), c0 + c1 + c2 + c3 + c4 + c5)),
                        },
                    },
                },
            },
        },
    }
}

/// Reading one `TaskView`.
#[verifier::opaque]
pub open spec fn sdec_task(t: Seq<char>) -> Option<(TaskView, int)> {
    match sdec_task_head(t) {
        None => None,
        Some((h, c)) => match sdec_task_tail(t.skip(c)) {
            None => None,
            Some((tl, c2)) => Some((
                TaskView {
                    id: h.0,
                    title: h.1,
                    description: h.2,
                    status: h.3,
                    priority: h.4,
                    tags: h.5,
                    assigned_to: h.6,
                    created_at: tl.0,
                    updated_at: tl.1,
                    due_date: tl.2,
                    metrics: tl.3,
                    comments: tl.4,
                    attachments: tl.5,
                },
                c + c2,
            )),
        },
    }
}

#[verifier::rlimit(100)]
#[verifier::spinoff_prover]
proof fn lemma_dec_task_head(x: TaskView, rest: Seq<char>)
    requires
        task_bounded(x),
    ensures
        sdec_task_head(senc_task_head(x) + rest) == Some((((x.id, x.title, x.description, x.status, x.priority, x.tags, x.assigned_to)), senc_task_head(x).len() as int)),
{
    reveal(sdec_task_head);
    reveal(senc_list_str);
    reveal(senc_str);
    reveal(senc_task_head);
    reveal(senc_tprio);
    reveal(senc_tstatus);
    let e0 = senc_str(x.id);
    let e1 = senc_str(x.title);
    let e2 = senc_str(x.description);
    let e3 = senc_tstatus(x.status);
    let e4 = senc_tprio(x.priority);
    let e5 = senc_list_str(x.tags);
    let e6 = senc_str(x.assigned_to);
    let t7 = rest;
    let t6 = e6 + t7;
    let t5 = e5 + t6;
    let t4 = e4 + t5;
    let t3 = e3 + t4;
    let t2 = e2 + t3;
    let t1 = e1 + t2;
    let t0 = e0 + t1;
    lemma_concat_assoc(e0 + e1 + e2 + e3 + e4 + e5, e6, t7);
    lemma_concat_assoc(e0 + e1 + e2 + e3 + e4, e5, t6);
    lemma_concat_assoc(e0 + e1 + e2 + e3, e4, t5);
    lemma_concat_assoc(e0 + e1 + e2, e3, t4);
    lemma_concat_assoc(e0 + e1, e2, t3);
    lemma_concat_assoc(e0, e1, t2);
    assert(senc_task_head(x) + rest == t0);
    lemma_dec_str(x.id, t1);
    lemma_concat_skip(e0, t1);
    assert(t0.skip((e0.len()) as int) == t1);
    lemma_dec_str(x.title, t2);
    lemma_concat_skip(e1, t2);
    lemma_skip_skip(t0, (e0.len()) as int, e1.len() as int);
    assert(t0.skip((e0.len() + e1.len()) as int) == t2);
    lemma_dec_str(x.description, t3);
    lemma_concat_skip(e2, t3);
    lemma_skip_skip(t0, (e0.len() + e1.len()) as int, e2.len() as int);
    assert(t0.skip((e0.len() + e1.len() + e2.len()) as int) == t3);
    lemma_dec_tstatus(x.status, t4);
    lemma_concat_skip(e3, t4);
    lemma_skip_skip(t0, (e0.len() + e1.len() + e2.len()) as int, e3.len() as int);
    assert(t0.skip((e0.len() + e1.len() + e2.len() + e3.len()) as int) == t4);
    lemma_dec_tprio(x.priority, t5);
    lemma_concat_skip(e4, t5);
    lemma_skip_skip(t0, (e0.len() + e1.len() + e2.len() + e3.len()) as int, e4.len() as int);
    assert(t0.skip((e0.len() + e1.len() + e2.len() + e3.len() + e4.len()) as int) == t5);
    lemma_dec_list_str(x.tags, t6);
    lemma_concat_skip(e5, t6);
    lemma_skip_skip(t0, (e0.len() + e1.len() + e2.len() + e3.len() + e4.len()) as int, e5.len() as int);
    assert(t0.skip((e0.len() + e1.len() + e2.len() + e3.len() + e4.len() + e5.len()) as int) == t6);
    lemma_dec_str(x.assigned_to, t7);
}

#[verifier::rlimit(100)]
#[verifier::spinoff_prover]
proof fn lemma_dec_task_tail(x: TaskView, rest: Seq<char>)
    requires
        task_bounded(x),
    ensures
        sdec_task_tail(senc_task_tail(x) + rest) == Some((((x.created_at, x.updated_at, x.due_date, x.metrics, x.comments, x.attachments)), senc_task_tail(x).len() as int)),
{
    reveal(sdec_task_tail);
    reveal(senc_list_attachment);
    reveal(senc_list_comment);
    reveal(senc_opt_metrics);
    reveal(senc_opt_ts);
    reveal(senc_task_tail);
    let e0 = senc_opt_ts(x.created_at);
    let e1 = senc_opt_ts(x.updated_at);
    let e2 = senc_opt_ts(x.due_date);
    let e3 = senc_opt_metrics(x.metrics);
    let e4 = senc_list_comment(x.comments);
    let e5 = senc_list_attachment(x.attachments);
    let t6 = rest;
    let t5 = e5 + t6;
    let t4 = e4 + t5;
    let t3 = e3 + t4;
    let t2 = e2 + t3;
    let t1 = e1 + t2;
    let t0 = e0 + t1;
    lemma_concat_assoc(e0 + e1 + e2 + e3 + e4, e5, t6);
    lemma_concat_assoc(e0 + e1 + e2 + e3, e4, t5);
    lemma_concat_assoc(e0 + e1 + e2, e3, t4);
    lemma_concat_assoc(e0 + e1, e2, t3);
    lemma_concat_assoc(e0, e1, t2);
    assert(senc_task_tail(x) + rest == t0);
    lemma_dec_opt_ts(x.created_at, t1);
    lemma_concat_skip(e0, t1);
    assert(t0.skip((e0.len()) as int) == t1);
    lemma_dec_opt_ts(x.updated_at, t2);
    lemma_concat_skip(e1, t2);
    lemma_skip_skip(t0, (e0.len()) as int, e1.len() as int);
    assert(t0.skip((e0.len() + e1.len()) as int) == t2);
    lemma_dec_opt_ts(x.due_date, t3);
    lemma_concat_skip(e2, t3);
    lemma_skip_skip(t0, (e0.len() + e1.len()) as int, e2.len() as int);
    assert(t0.skip((e0.len() + e1.len() + e2.len()) as int) == t3);
    lemma_dec_opt_metrics(x.metrics, t4);
    lemma_concat_skip(e3, t4);
    lemma_skip_skip(t0, (e0.len() + e1.len() + e2.len()) as int, e3.len() as int);
    assert(t0.skip((e0.len() + e1.len() + e2.len() + e3.len()) as int) == t4);
    lemma_dec_list_comment(x.comments, t5);
    lemma_concat_skip(e4, t5);
    lemma_skip_skip(t0, (e0.len() + e1.len() + e2.len() + e3.len()) as int, e4.len() as int);
    assert(t0.skip((e0.len() + e1.len() + e2.len() + e3.len() + e4.len()) as int) == t5);
    lemma_dec_list_attachment(x.attachments, t6);
}

/// Round trip for one `TaskView`, whatever follows it.
#[verifier::rlimit(100)]
#[verifier::spinoff_prover]
pub proof fn lemma_dec_task(x: TaskView, rest: Seq<char>)
    requires
        task_bounded(x),
    ensures
        sdec_task(senc_task(x) + rest) == Some((x, senc_task(x).len() as int)),
{
    reveal(sdec_task);
    reveal(senc_task);
    reveal(senc_task_head);
    reveal(senc_task_tail);
    let h = senc_task_head(x);
    let tl = senc_task_tail(x);
    lemma_concat_assoc(h, tl, rest);
    assert(senc_task(x) + rest == h + (tl + rest));
    lemma_dec_task_head(x, tl + rest);
    lemma_concat_skip(h, tl + rest);
    lemma_skip_skip(senc_task(x) + rest, 0, h.len() as int);
    assert((senc_task(x) + rest).skip(h.len() as int) == tl + rest);
    lemma_dec_task_tail(x, rest);
    assert(sdec_task(senc_task(x) + rest) matches Some(p) && p.0 =~= x && p.1 == senc_task(
        x,
    ).len() as int);
}


/// Appends one fixed-width number field.
pub fn enc_num(out: &mut Vec<char>, n: u64)
    ensures
        final(out)@ == old(out)@ + senc_num(n as nat),
{
    proof {
        reveal(senc_num);
    }
    let ghost base = out@;
    let mut tmp: Vec<char> = Vec::new();
    push_digits(&mut tmp, n);
    proof {
        lemma_digits_len_u64(n as nat);
        lemma_digits_of(n as nat);
    }
    let pad = 20 - tmp.len();
    let mut j: usize = 0;
    while j < pad
        invariant
            0 <= j <= pad,
            pad == 20 - tmp.len(),
            tmp@ == digits_of(n as nat),
            out@ =~= base + zeros(j as int),
        decreases pad - j,
    {
        out.push('0');
        proof {
            assert(out@ =~= base + zeros(j + 1));
        }
        j = j + 1;
    }
    let mut idx: usize = 0;
    while idx < tmp.len()
        invariant
            0 <= idx <= tmp@.len(),
            pad == 20 - tmp@.len(),
            tmp@ == digits_of(n as nat),
            out@ =~= base + zeros(pad as int) + tmp@.take(idx as int),
        decreases tmp@.len() - idx,
    {
        out.push(tmp[idx]);
        proof {
            assert(out@ =~= base + zeros(pad as int) + tmp@.take(idx + 1));
        }
        idx = idx + 1;
    }
    proof {
        assert(tmp@.take(tmp@.len() as int) =~= tmp@);
        assert(out@ =~= base + senc_num(n as nat));
    }
}

/// Appends one unsigned 64-bit field.
pub fn enc_u64(out: &mut Vec<char>, n: u64)
    ensures
        final(out)@ == old(out)@ + senc_u64(n),
{
    proof {
        reveal(senc_u64);
    }
    enc_num(out, n);
}

/// Appends one signed 64-bit field, zigzagged.
pub fn enc_i64(out: &mut Vec<char>, x: i64)
    ensures
        final(out)@ == old(out)@ + senc_i64v(x),
{
    proof {
        reveal(senc_i64);
    }
    proof {
        reveal(senc_i64v);
    }
    let m: u64 = if x >= 0 {
        (x as u64) * 2
    } else {
        ((-(x + 1)) as u64) * 2 + 1
    };
    proof {
        assert(m as nat == zigzag(x as int));
    }
    enc_num(out, m);
}

/// Appends one signed 32-bit field.
pub fn enc_i32(out: &mut Vec<char>, x: i32)
    ensures
        final(out)@ == old(out)@ + senc_i32(x),
{
    proof {
        reveal(senc_i64);
        reveal(senc_i64v);
    }
    proof {
        reveal(senc_i32);
    }
    enc_i64(out, x as i64);
}

/// Appends one unsigned 32-bit field.
pub fn enc_u32(out: &mut Vec<char>, x: u32)
    ensures
        final(out)@ == old(out)@ + senc_u32(x),
{
    proof {
        reveal(senc_u32);
    }
    enc_num(out, x as u64);
}

/// Appends one boolean tag.
pub fn enc_bool(out: &mut Vec<char>, b: bool)
    ensures
        final(out)@ == old(out)@ + senc_bool(b),
{
    proof {
        reveal(senc_bool);
    }
    let ghost base = out@;
    if b {
        out.push('T');
    } else {
        out.push('F');
    }
    proof {
        assert(out@ =~= base + senc_bool(b));
    }
}

/// Appends one account-state tag.
pub fn enc_ustatus(out: &mut Vec<char>, x: UserStatus)
    ensures
        final(out)@ == old(out)@ + senc_ustatus(x),
{
    proof {
        reveal(senc_ustatus);
    }
    let ghost base = out@;
    match x {
        UserStatus::Unspecified => out.push('U'),
        UserStatus::Active => out.push('A'),
        UserStatus::Inactive => out.push('I'),
        UserStatus::Suspended => out.push('X'),
    }
    proof {
        assert(out@ =~= base + senc_ustatus(x));
    }
}

/// Appends one task-status tag.
pub fn enc_tstatus(out: &mut Vec<char>, x: TaskStatus)
    ensures
        final(out)@ == old(out)@ + senc_tstatus(x),
{
    proof {
        reveal(senc_tstatus);
    }
    let ghost base = out@;
    match x {
        TaskStatus::Unspecified => out.push('u'),
        TaskStatus::Todo => out.push('t'),
        TaskStatus::InProgress => out.push('p'),
        TaskStatus::Review => out.push('r'),
        TaskStatus::Done => out.push('d'),
        TaskStatus::Cancelled => out.push('c'),
    }
    proof {
        assert(out@ =~= base + senc_tstatus(x));
    }
}

/// Appends one task-priority tag.
pub fn enc_tprio(out: &mut Vec<char>, x: TaskPriority)
    ensures
        final(out)@ == old(out)@ + senc_tprio(x),
{
    proof {
        reveal(senc_tprio);
    }
    let ghost base = out@;
    match x {
        TaskPriority::Unspecified => out.push('n'),
        TaskPriority::Low => out.push('l'),
        TaskPriority::Medium => out.push('m'),
        TaskPriority::High => out.push('h'),
        TaskPriority::Urgent => out.push('g'),
    }
    proof {
        assert(out@ =~= base + senc_tprio(x));
    }
}

/// Appends one length-prefixed string.
pub fn enc_str(out: &mut Vec<char>, s: &str)
    ensures
        final(out)@ == old(out)@ + senc_str(s@),
{
    proof {
        reveal(senc_num);
        reveal(senc_str);
    }
    let ghost base = out@;
    let cs = string_to_chars(s);
    enc_num(out, cs.len() as u64);
    let mut idx: usize = 0;
    while idx < cs.len()
        invariant
            0 <= idx <= cs@.len(),
            cs@ == s@,
            out@ =~= base + senc_num(s@.len()) + s@.take(idx as int),
        decreases cs@.len() - idx,
    {
        out.push(cs[idx]);
        proof {
            assert(out@ =~= base + senc_num(s@.len()) + s@.take(idx + 1));
        }
        idx = idx + 1;
    }
    proof {
        assert(s@.take(s@.len() as int) =~= s@);
        assert(out@ =~= base + senc_str(s@));
    }
}

/// Appends one timestamp.
pub fn enc_ts(out: &mut Vec<char>, t: &Timestamp)
    ensures
        final(out)@ == old(out)@ + senc_ts(*t),
{
    proof {
        reveal(senc_ts);
    }
    let ghost base = out@;
    enc_i64(out, t.seconds);
    enc_i32(out, t.nanos);
    proof {
        assert(out@ =~= base + senc_ts(*t));
    }
}

/// Appends one optional timestamp.
pub fn enc_opt_ts(out: &mut Vec<char>, x: &Option<Timestamp>)
    ensures
        final(out)@ == old(out)@ + senc_opt_ts(*x),
{
    proof {
        reveal(senc_opt_ts);
    }
    let ghost base = out@;
    match x {
        None => {
            out.push('N');
        },
        Some(t) => {
            out.push('S');
            enc_ts(out, t);
        },
    }
    proof {
        assert(out@ =~= base + senc_opt_ts(*x));
    }
}

/// Appends one metrics block.
pub fn enc_metrics(out: &mut Vec<char>, x: &TaskMetrics)
    ensures
        final(out)@ == old(out)@ + senc_metrics(*x),
{
    proof {
        reveal(senc_metrics);
    }
    let ghost base = out@;
    enc_i32(out, x.estimated_hours);
    enc_i32(out, x.actual_hours);
    enc_u32(out, x.completion_percent);
    proof {
        assert(out@ =~= base + senc_metrics(*x));
    }
}

/// Appends one optional metrics block.
pub fn enc_opt_metrics(out: &mut Vec<char>, x: &Option<TaskMetrics>)
    ensures
        final(out)@ == old(out)@ + senc_opt_metrics(*x),
{
    proof {
        reveal(senc_opt_metrics);
    }
    let ghost base = out@;
    match x {
        None => {
            out.push('N');
        },
        Some(m) => {
            out.push('S');
            enc_metrics(out, m);
        },
    }
    proof {
        assert(out@ =~= base + senc_opt_metrics(*x));
    }
}

/// Appends one `UserPreferences`.
pub fn enc_prefs(out: &mut Vec<char>, x: &UserPreferences)
    ensures
        final(out)@ == old(out)@ + senc_prefs(x@),
{
    proof {
        reveal(senc_prefs);
    }
    let ghost base = out@;
    enc_str(out, x.theme.as_str());
    enc_str(out, x.language.as_str());
    enc_str(out, x.timezone.as_str());
    enc_bool(out, x.notifications_enabled);
    enc_bool(out, x.email_notifications);
    proof {
        assert(out@ =~= base + senc_prefs(x@));
    }
}

/// Appends one optional preferences block.
pub fn enc_opt_prefs(out: &mut Vec<char>, x: &Option<UserPreferences>)
    ensures
        final(out)@ == old(out)@ + senc_opt_prefs(x.deep_view()),
{
    proof {
        reveal(senc_opt_prefs);
    }
    let ghost base = out@;
    match x {
        None => {
            out.push('N');
        },
        Some(p) => {
            out.push('S');
            enc_prefs(out, p);
        },
    }
    proof {
        assert(out@ =~= base + senc_opt_prefs(x.deep_view()));
    }
}

/// Appends one `UserProfile`.
pub fn enc_profile(out: &mut Vec<char>, x: &UserProfile)
    ensures
        final(out)@ == old(out)@ + senc_profile(x@),
{
    proof {
        reveal(senc_profile);
    }
    let ghost base = out@;
    enc_str(out, x.avatar_url.as_str());
    enc_str(out, x.bio.as_str());
    enc_str(out, x.department.as_str());
    enc_str(out, x.phone.as_str());
    enc_str(out, x.location.as_str());
    proof {
        assert(out@ =~= base + senc_profile(x@));
    }
}

/// Appends one optional profile block.
pub fn enc_opt_profile(out: &mut Vec<char>, x: &Option<UserProfile>)
    ensures
        final(out)@ == old(out)@ + senc_opt_profile(x.deep_view()),
{
    proof {
        reveal(senc_opt_profile);
    }
    let ghost base = out@;
    match x {
        None => {
            out.push('N');
        },
        Some(p) => {
            out.push('S');
            enc_profile(out, p);
        },
    }
    proof {
        assert(out@ =~= base + senc_opt_profile(x.deep_view()));
    }
}

/// Appends one `TaskComment`.
pub fn enc_comment(out: &mut Vec<char>, x: &TaskComment)
    ensures
        final(out)@ == old(out)@ + senc_comment(x@),
{
    proof {
        reveal(senc_comment);
    }
    let ghost base = out@;
    enc_str(out, x.id.as_str());
    enc_str(out, x.author_id.as_str());
    enc_str(out, x.content.as_str());
    enc_opt_ts(out, &x.created_at);
    proof {
        assert(out@ =~= base + senc_comment(x@));
    }
}
/// Appends one `TaskAttachment`.
pub fn enc_attachment(out: &mut Vec<char>, x: &TaskAttachment)
    ensures
        final(out)@ == old(out)@ + senc_attachment(x@),
{
    proof {
        reveal(senc_attachment);
    }
    let ghost base = out@;
    enc_str(out, x.id.as_str());
    enc_str(out, x.filename.as_str());
    enc_str(out, x.content_type.as_str());
    enc_u64(out, x.file_size);
    enc_opt_ts(out, &x.uploaded_at);
    enc_str(out, x.uploaded_by.as_str());
    enc_str(out, x.url.as_str());
    proof {
        assert(out@ =~= base + senc_attachment(x@));
    }
}

/// Appending one element extends the element run on the right.
proof fn lemma_items_push_list_str(s: Seq<Seq<char>>, x: Seq<char>)
    ensures
        senc_items_list_str(s.push(x)) == senc_items_list_str(s) + senc_str(x),
    decreases s.len(),
{
    reveal(senc_items_list_str);
    reveal(senc_str);
    if s.len() == 0 {
        assert(s.push(x)[0] == x);
        assert(s.push(x).drop_first() =~= Seq::<Seq<char>>::empty());
        assert(senc_items_list_str(Seq::<Seq<char>>::empty()) =~= Seq::<char>::empty());
        assert(senc_items_list_str(s.push(x)) =~= senc_str(x));
        assert(senc_items_list_str(s) + senc_str(x) =~= senc_str(x));
    } else {
        assert(s.push(x)[0] == s[0]);
        assert(s.push(x).drop_first() =~= s.drop_first().push(x));
        lemma_items_push_list_str(s.drop_first(), x);
        lemma_concat_assoc(senc_str(s[0]), senc_items_list_str(s.drop_first()), senc_str(x));
    }
}


/// Appending one element extends the element run on the right.
proof fn lemma_items_push_list_comment(s: Seq<CommentView>, x: CommentView)
    ensures
        senc_items_list_comment(s.push(x)) == senc_items_list_comment(s) + senc_comment(x),
    decreases s.len(),
{
    reveal(senc_comment);
    reveal(senc_items_list_comment);
    if s.len() == 0 {
        assert(s.push(x)[0] == x);
        assert(s.push(x).drop_first() =~= Seq::<CommentView>::empty());
        assert(senc_items_list_comment(Seq::<CommentView>::empty()) =~= Seq::<char>::empty());
        assert(senc_items_list_comment(s.push(x)) =~= senc_comment(x));
        assert(senc_items_list_comment(s) + senc_comment(x) =~= senc_comment(x));
    } else {
        assert(s.push(x)[0] == s[0]);
        assert(s.push(x).drop_first() =~= s.drop_first().push(x));
        lemma_items_push_list_comment(s.drop_first(), x);
        lemma_concat_assoc(senc_comment(s[0]), senc_items_list_comment(s.drop_first()), senc_comment(x));
    }
}


/// Appending one element extends the element run on the right.
proof fn lemma_items_push_list_attachment(s: Seq<AttachmentView>, x: AttachmentView)
    ensures
        senc_items_list_attachment(s.push(x)) == senc_items_list_attachment(s) + senc_attachment(x),
    decreases s.len(),
{
    reveal(senc_attachment);
    reveal(senc_items_list_attachment);
    if s.len() == 0 {
        assert(s.push(x)[0] == x);
        assert(s.push(x).drop_first() =~= Seq::<AttachmentView>::empty());
        assert(senc_items_list_attachment(Seq::<AttachmentView>::empty()) =~= Seq::<char>::empty());
        assert(senc_items_list_attachment(s.push(x)) =~= senc_attachment(x));
        assert(senc_items_list_attachment(s) + senc_attachment(x) =~= senc_attachment(x));
    } else {
        assert(s.push(x)[0] == s[0]);
        assert(s.push(x).drop_first() =~= s.drop_first().push(x));
        lemma_items_push_list_attachment(s.drop_first(), x);
        lemma_concat_assoc(senc_attachment(s[0]), senc_items_list_attachment(s.drop_first()), senc_attachment(x));
    }
}


/// Appending one element extends the element run on the right.
proof fn lemma_items_push_users(s: Seq<(Seq<char>, UserView)>, x: (Seq<char>, UserView))
    ensures
        senc_items_users(s.push(x)) == senc_items_users(s) + senc_user_entry(x),
    decreases s.len(),
{
    reveal(senc_items_users);
    reveal(senc_user_entry);
    if s.len() == 0 {
        assert(s.push(x)[0] == x);
        assert(s.push(x).drop_first() =~= Seq::<(Seq<char>, UserView)>::empty());
        assert(senc_items_users(Seq::<(Seq<char>, UserView)>::empty()) =~= Seq::<char>::empty());
        assert(senc_items_users(s.push(x)) =~= senc_user_entry(x));
        assert(senc_items_users(s) + senc_user_entry(x) =~= senc_user_entry(x));
    } else {
        assert(s.push(x)[0] == s[0]);
        assert(s.push(x).drop_first() =~= s.drop_first().push(x));
        lemma_items_push_users(s.drop_first(), x);
        lemma_concat_assoc(senc_user_entry(s[0]), senc_items_users(s.drop_first()), senc_user_entry(x));
    }
}


/// Appending one element extends the element run on the right.
proof fn lemma_items_push_tasks(s: Seq<(Seq<char>, TaskView)>, x: (Seq<char>, TaskView))
    ensures
        senc_items_tasks(s.push(x)) == senc_items_tasks(s) + senc_task_entry(x),
    decreases s.len(),
{
    reveal(senc_items_tasks);
    reveal(senc_task_entry);
    if s.len() == 0 {
        assert(s.push(x)[0] == x);
        assert(s.push(x).drop_first() =~= Seq::<(Seq<char>, TaskView)>::empty());
        assert(senc_items_tasks(Seq::<(Seq<char>, TaskView)>::empty()) =~= Seq::<char>::empty());
        assert(senc_items_tasks(s.push(x)) =~= senc_task_entry(x));
        assert(senc_items_tasks(s) + senc_task_entry(x) =~= senc_task_entry(x));
    } else {
        assert(s.push(x)[0] == s[0]);
        assert(s.push(x).drop_first() =~= s.drop_first().push(x));
        lemma_items_push_tasks(s.drop_first(), x);
        lemma_concat_assoc(senc_task_entry(s[0]), senc_items_tasks(s.drop_first()), senc_task_entry(x));
    }
}


/// Appending one element extends the element run on the right.
proof fn lemma_items_push_sindex(s: Seq<(Seq<char>, Seq<char>)>, x: (Seq<char>, Seq<char>))
    ensures
        senc_items_sindex(s.push(x)) == senc_items_sindex(s) + senc_str_entry(x),
    decreases s.len(),
{
    reveal(senc_items_sindex);
    reveal(senc_str_entry);
    if s.len() == 0 {
        assert(s.push(x)[0] == x);
        assert(s.push(x).drop_first() =~= Seq::<(Seq<char>, Seq<char>)>::empty());
        assert(senc_items_sindex(Seq::<(Seq<char>, Seq<char>)>::empty()) =~= Seq::<char>::empty());
        assert(senc_items_sindex(s.push(x)) =~= senc_str_entry(x));
        assert(senc_items_sindex(s) + senc_str_entry(x) =~= senc_str_entry(x));
    } else {
        assert(s.push(x)[0] == s[0]);
        assert(s.push(x).drop_first() =~= s.drop_first().push(x));
        lemma_items_push_sindex(s.drop_first(), x);
        lemma_concat_assoc(senc_str_entry(s[0]), senc_items_sindex(s.drop_first()), senc_str_entry(x));
    }
}


/// Appending one element extends the element run on the right.
proof fn lemma_items_push_utlists(s: Seq<(Seq<char>, Seq<Seq<char>>)>, x: (Seq<char>, Seq<Seq<char>>))
    ensures
        senc_items_utlists(s.push(x)) == senc_items_utlists(s) + senc_ids_entry(x),
    decreases s.len(),
{
    reveal(senc_ids_entry);
    reveal(senc_items_utlists);
    if s.len() == 0 {
        assert(s.push(x)[0] == x);
        assert(s.push(x).drop_first() =~= Seq::<(Seq<char>, Seq<Seq<char>>)>::empty());
        assert(senc_items_utlists(Seq::<(Seq<char>, Seq<Seq<char>>)>::empty()) =~= Seq::<char>::empty());
        assert(senc_items_utlists(s.push(x)) =~= senc_ids_entry(x));
        assert(senc_items_utlists(s) + senc_ids_entry(x) =~= senc_ids_entry(x));
    } else {
        assert(s.push(x)[0] == s[0]);
        assert(s.push(x).drop_first() =~= s.drop_first().push(x));
        lemma_items_push_utlists(s.drop_first(), x);
        lemma_concat_assoc(senc_ids_entry(s[0]), senc_items_utlists(s.drop_first()), senc_ids_entry(x));
    }
}


/// Appends one listing of strings.
pub fn enc_list_str(out: &mut Vec<char>, v: &Vec<String>)
    ensures
        final(out)@ == old(out)@ + senc_list_str(v.deep_view()),
{
    proof {
        reveal(senc_items_list_str);
        reveal(senc_list_str);
        reveal(senc_num);
    }
    let ghost base = out@;
    let ghost dv = v.deep_view();
    enc_num(out, v.len() as u64);
    let mut i: usize = 0;
    while i < v.len()
        invariant
            0 <= i <= v@.len(),
            dv == v.deep_view(),
            dv.len() == v@.len(),
            out@ == base + senc_num(dv.len()) + senc_items_list_str(dv.take(i as int)),
        decreases v@.len() - i,
    {
        let ghost prev = out@;
        proof {
            assert(dv[i as int] == v@[i as int]@);
        }
        enc_str(out, v[i].as_str());
        proof {
            assert(dv.take(i + 1) =~= dv.take(i as int).push(dv[i as int]));
            lemma_items_push_list_str(dv.take(i as int), dv[i as int]);
            assert(out@ =~= base + senc_num(dv.len()) + senc_items_list_str(dv.take(i + 1)));
        }
        i = i + 1;
    }
    proof {
        assert(dv.take(dv.len() as int) =~= dv);
        assert(out@ =~= base + senc_list_str(dv));
    }
}

/// Appends one listing of comments.
#[verifier::rlimit(100)]
#[verifier::spinoff_prover]
pub fn enc_list_comment(out: &mut Vec<char>, v: &Vec<TaskComment>)
    ensures
        final(out)@ == old(out)@ + senc_list_comment(v.deep_view()),
{
    proof {
        reveal(senc_items_list_comment);
        reveal(senc_list_comment);
        reveal(senc_num);
    }
    let ghost base = out@;
    let ghost dv = v.deep_view();
    enc_num(out, v.len() as u64);
    let mut i: usize = 0;
    while i < v.len()
        invariant
            0 <= i <= v@.len(),
            dv == v.deep_view(),
            dv.len() == v@.len(),
            out@ == base + senc_num(dv.len()) + senc_items_list_comment(dv.take(i as int)),
        decreases v@.len() - i,
    {
        proof {
            assert(dv[i as int] == v@[i as int]@);
        }
        enc_comment(out, &v[i]);
        proof {
            assert(dv.take(i + 1) =~= dv.take(i as int).push(dv[i as int]));
            lemma_items_push_list_comment(dv.take(i as int), dv[i as int]);
            assert(out@ =~= base + senc_num(dv.len()) + senc_items_list_comment(dv.take(i + 1)));
        }
        i = i + 1;
    }
    proof {
        assert(dv.take(dv.len() as int) =~= dv);
        assert(out@ =~= base + senc_list_comment(dv));
    }
}

/// Appends one listing of attachments.
#[verifier::rlimit(100)]
#[verifier::spinoff_prover]
pub fn enc_list_attachment(out: &mut Vec<char>, v: &Vec<TaskAttachment>)
    ensures
        final(out)@ == old(out)@ + senc_list_attachment(v.deep_view()),
{
    proof {
        reveal(senc_items_list_attachment);
        reveal(senc_list_attachment);
        reveal(senc_num);
    }
    let ghost base = out@;
    let ghost dv = v.deep_view();
    enc_num(out, v.len() as u64);
    let mut i: usize = 0;
    while i < v.len()
        invariant
            0 <= i <= v@.len(),
            dv == v.deep_view(),
            dv.len() == v@.len(),
            out@ == base + senc_num(dv.len()) + senc_items_list_attachment(dv.take(i as int)),
        decreases v@.len() - i,
    {
        proof {
            assert(dv[i as int] == v@[i as int]@);
        }
        enc_attachment(out, &v[i]);
        proof {
            assert(dv.take(i + 1) =~= dv.take(i as int).push(dv[i as int]));
            lemma_items_push_list_attachment(dv.take(i as int), dv[i as int]);
            assert(out@ =~= base + senc_num(dv.len()) + senc_items_list_attachment(dv.take(i + 1)));
        }
        i = i + 1;
    }
    proof {
        assert(dv.take(dv.len() as int) =~= dv);
        assert(out@ =~= base + senc_list_attachment(dv));
    }
}

/// Appends one `User`.
#[verifier::rlimit(100)]
#[verifier::spinoff_prover]
pub fn enc_user(out: &mut Vec<char>, x: &User)
    ensures
        final(out)@ == old(out)@ + senc_user(x@),
{
    proof {
        reveal(senc_user_tail);
    }
    proof {
        reveal(senc_bool);
        reveal(senc_i32);
        reveal(senc_list_str);
        reveal(senc_opt_prefs);
        reveal(senc_opt_profile);
        reveal(senc_opt_ts);
        reveal(senc_str);
        reveal(senc_user);
        reveal(senc_user_head);
        reveal(senc_ustatus);
    }
    let ghost base = out@;
    let ghost e0 = senc_str(x@.id);
    let ghost e1 = senc_str(x@.username);
    let ghost e2 = senc_str(x@.email);
    let ghost e3 = senc_str(x@.full_name);
    let ghost e4 = senc_i32(x@.role);
    let ghost e5 = senc_bool(x@.is_active);
    let ghost e6 = senc_ustatus(x@.status);
    let ghost e7 = senc_list_str(x@.permissions);
    let ghost e8 = senc_opt_ts(x@.created_at);
    let ghost e9 = senc_opt_ts(x@.updated_at);
    let ghost e10 = senc_opt_ts(x@.last_login);
    let ghost e11 = senc_opt_prefs(x@.preferences);
    let ghost e12 = senc_opt_profile(x@.profile);
    enc_str(out, x.id.as_str());
    proof {
        assert(out@ == base + e0);
    }
    enc_str(out, x.username.as_str());
    proof {
        lemma_concat_assoc(base, e0, e1);
        assert(out@ == base + (e0 + e1));
    }
    enc_str(out, x.email.as_str());
    proof {
        lemma_concat_assoc(base, e0 + e1, e2);
        assert(out@ == base + (e0 + e1 + e2));
    }
    enc_str(out, x.full_name.as_str());
    proof {
        lemma_concat_assoc(base, e0 + e1 + e2, e3);
        assert(out@ == base + (e0 + e1 + e2 + e3));
    }
    enc_i32(out, x.role);
    proof {
        lemma_concat_assoc(base, e0 + e1 + e2 + e3, e4);
        assert(out@ == base + (e0 + e1 + e2 + e3 + e4));
    }
    enc_bool(out, x.is_active);
    proof {
        lemma_concat_assoc(base, e0 + e1 + e2 + e3 + e4, e5);
        assert(out@ == base + (e0 + e1 + e2 + e3 + e4 + e5));
    }
    enc_ustatus(out, x.status);
    proof {
        lemma_concat_assoc(base, e0 + e1 + e2 + e3 + e4 + e5, e6);
        assert(out@ == base + (e0 + e1 + e2 + e3 + e4 + e5 + e6));
    }
    enc_list_str(out, &x.permissions);
    proof {
        lemma_concat_assoc(base, e0 + e1 + e2 + e3 + e4 + e5 + e6, e7);
        assert(out@ == base + (e0 + e1 + e2 + e3 + e4 + e5 + e6 + e7));
    }
    enc_opt_ts(out, &x.created_at);
    proof {
        lemma_concat_assoc(base, e0 + e1 + e2 + e3 + e4 + e5 + e6 + e7, e8);
        assert(out@ == base + (e0 + e1 + e2 + e3 + e4 + e5 + e6 + e7 + e8));
    }
    enc_opt_ts(out, &x.updated_at);
    proof {
        lemma_concat_assoc(base, e0 + e1 + e2 + e3 + e4 + e5 + e6 + e7 + e8, e9);
        assert(out@ == base + (e0 + e1 + e2 + e3 + e4 + e5 + e6 + e7 + e8 + e9));
    }
    enc_opt_ts(out, &x.last_login);
    proof {
        lemma_concat_assoc(base, e0 + e1 + e2 + e3 + e4 + e5 + e6 + e7 + e8 + e9, e10);
        assert(out@ == base + (e0 + e1 + e2 + e3 + e4 + e5 + e6 + e7 + e8 + e9 + e10));
    }
    enc_opt_prefs(out, &x.preferences);
    proof {
        lemma_concat_assoc(base, e0 + e1 + e2 + e3 + e4 + e5 + e6 + e7 + e8 + e9 + e10, e11);
        assert(out@ == base + (e0 + e1 + e2 + e3 + e4 + e5 + e6 + e7 + e8 + e9 + e10 + e11));
    }
    enc_opt_profile(out, &x.profile);
    proof {
        lemma_concat_assoc(base, e0 + e1 + e2 + e3 + e4 + e5 + e6 + e7 + e8 + e9 + e10 + e11, e12);
        assert(out@ == base + (e0 + e1 + e2 + e3 + e4 + e5 + e6 + e7 + e8 + e9 + e10 + e11 + e12));
    }
    proof {
        lemma_concat_assoc(senc_user_head(x@), e7, e8);
        lemma_concat_assoc(senc_user_head(x@), e7 + e8, e9);
        lemma_concat_assoc(senc_user_head(x@), e7 + e8 + e9, e10);
        lemma_concat_assoc(senc_user_head(x@), e7 + e8 + e9 + e10, e11);
        lemma_concat_assoc(senc_user_head(x@), e7 + e8 + e9 + e10 + e11, e12);
        assert(out@ == base + senc_user(x@));
    }
}
/// Appends one `Task`.
#[verifier::rlimit(100)]
#[verifier::spinoff_prover]
pub fn enc_task(out: &mut Vec<char>, x: &Task)
    ensures
        final(out)@ == old(out)@ + senc_task(x@),
{
    proof {
        reveal(senc_task_tail);
    }
    proof {
        reveal(senc_list_attachment);
        reveal(senc_list_comment);
        reveal(senc_list_str);
        reveal(senc_opt_metrics);
        reveal(senc_opt_ts);
        reveal(senc_str);
        reveal(senc_task);
        reveal(senc_task_head);
        reveal(senc_tprio);
        reveal(senc_tstatus);
    }
    let ghost base = out@;
    let ghost e0 = senc_str(x@.id);
    let ghost e1 = senc_str(x@.title);
    let ghost e2 = senc_str(x@.description);
    let ghost e3 = senc_tstatus(x@.status);
    let ghost e4 = senc_tprio(x@.priority);
    let ghost e5 = senc_list_str(x@.tags);
    let ghost e6 = senc_str(x@.assigned_to);
    let ghost e7 = senc_opt_ts(x@.created_at);
    let ghost e8 = senc_opt_ts(x@.updated_at);
    let ghost e9 = senc_opt_ts(x@.due_date);
    let ghost e10 = senc_opt_metrics(x@.metrics);
    let ghost e11 = senc_list_comment(x@.comments);
    let ghost e12 = senc_list_attachment(x@.attachments);
    enc_str(out, x.id.as_str());
    proof {
        assert(out@ == base + e0);
    }
    enc_str(out, x.title.as_str());
    proof {
        lemma_concat_assoc(base, e0, e1);
        assert(out@ == base + (e0 + e1));
    }
    enc_str(out, x.description.as_str());
    proof {
        lemma_concat_assoc(base, e0 + e1, e2);
        assert(out@ == base + (e0 + e1 + e2));
    }
    enc_tstatus(out, x.status);
    proof {
        lemma_concat_assoc(base, e0 + e1 + e2, e3);
        assert(out@ == base + (e0 + e1 + e2 + e3));
    }
    enc_tprio(out, x.priority);
    proof {
        lemma_concat_assoc(base, e0 + e1 + e2 + e3, e4);
        assert(out@ == base + (e0 + e1 + e2 + e3 + e4));
    }
    enc_list_str(out, &x.tags);
    proof {
        lemma_concat_assoc(base, e0 + e1 + e2 + e3 + e4, e5);
        assert(out@ == base + (e0 + e1 + e2 + e3 + e4 + e5));
    }
    enc_str(out, x.assigned_to.as_str());
    proof {
        lemma_concat_assoc(base, e0 + e1 + e2 + e3 + e4 + e5, e6);
        assert(out@ == base + (e0 + e1 + e2 + e3 + e4 + e5 + e6));
    }
    enc_opt_ts(out, &x.created_at);
    proof {
        lemma_concat_assoc(base, e0 + e1 + e2 + e3 + e4 + e5 + e6, e7);
        assert(out@ == base + (e0 + e1 + e2 + e3 + e4 + e5 + e6 + e7));
    }
    enc_opt_ts(out, &x.updated_at);
    proof {
        lemma_concat_assoc(base, e0 + e1 + e2 + e3 + e4 + e5 + e6 + e7, e8);
        assert(out@ == base + (e0 + e1 + e2 + e3 + e4 + e5 + e6 + e7 + e8));
    }
    enc_opt_ts(out, &x.due_date);
    proof {
        lemma_concat_assoc(base, e0 + e1 + e2 + e3 + e4 + e5 + e6 + e7 + e8, e9);
        assert(out@ == base + (e0 + e1 + e2 + e3 + e4 + e5 + e6 + e7 + e8 + e9));
    }
    enc_opt_metrics(out, &x.metrics);
    proof {
        lemma_concat_assoc(base, e0 + e1 + e2 + e3 + e4 + e5 + e6 + e7 + e8 + e9, e10);
        assert(out@ == base + (e0 + e1 + e2 + e3 + e4 + e5 + e6 + e7 + e8 + e9 + e10));
    }
    enc_list_comment(out, &x.comments);
    proof {
        lemma_concat_assoc(base, e0 + e1 + e2 + e3 + e4 + e5 + e6 + e7 + e8 + e9 + e10, e11);
        assert(out@ == base + (e0 + e1 + e2 + e3 + e4 + e5 + e6 + e7 + e8 + e9 + e10 + e11));
    }
    enc_list_attachment(out, &x.attachments);
    proof {
        lemma_concat_assoc(base, e0 + e1 + e2 + e3 + e4 + e5 + e6 + e7 + e8 + e9 + e10 + e11, e12);
        assert(out@ == base + (e0 + e1 + e2 + e3 + e4 + e5 + e6 + e7 + e8 + e9 + e10 + e11 + e12));
    }
    proof {
        lemma_concat_assoc(senc_task_head(x@), e7, e8);
        lemma_concat_assoc(senc_task_head(x@), e7 + e8, e9);
        lemma_concat_assoc(senc_task_head(x@), e7 + e8 + e9, e10);
        lemma_concat_assoc(senc_task_head(x@), e7 + e8 + e9 + e10, e11);
        lemma_concat_assoc(senc_task_head(x@), e7 + e8 + e9 + e10 + e11, e12);
        assert(out@ == base + senc_task(x@));
    }
}

/// Appends the user collection.
#[verifier::rlimit(100)]
#[verifier::spinoff_prover]
pub fn enc_users(out: &mut Vec<char>, v: &Vec<(String, User)>)
    ensures
        final(out)@ == old(out)@ + senc_users(pairs_view(v@)),
{
    proof {
        reveal(senc_items_users);
        reveal(senc_num);
        reveal(senc_users);
    }
    let ghost base = out@;
    let ghost dv = pairs_view(v@);
    enc_num(out, v.len() as u64);
    let mut i: usize = 0;
    while i < v.len()
        invariant
            0 <= i <= v@.len(),
            dv == pairs_view(v@),
            dv.len() == v@.len(),
            out@ == base + senc_num(dv.len()) + senc_items_users(dv.take(i as int)),
        decreases v@.len() - i,
    {
        proof {
            reveal(senc_user_entry);
            assert(dv[i as int] == (v@[i as int].0@, v@[i as int].1.deep_view()));
        }
        enc_str(out, v[i].0.as_str());
        enc_user(out, &v[i].1);
        proof {
            assert(dv.take(i + 1) =~= dv.take(i as int).push(dv[i as int]));
            lemma_items_push_users(dv.take(i as int), dv[i as int]);
            assert(out@ =~= base + senc_num(dv.len()) + senc_items_users(dv.take(i + 1)));
        }
        i = i + 1;
    }
    proof {
        assert(dv.take(dv.len() as int) =~= dv);
        assert(out@ =~= base + senc_users(dv));
    }
}


/// Appends the task collection.
#[verifier::rlimit(100)]
#[verifier::spinoff_prover]
pub fn enc_tasks(out: &mut Vec<char>, v: &Vec<(String, Task)>)
    ensures
        final(out)@ == old(out)@ + senc_tasks(pairs_view(v@)),
{
    proof {
        reveal(senc_items_tasks);
        reveal(senc_num);
        reveal(senc_tasks);
    }
    let ghost base = out@;
    let ghost dv = pairs_view(v@);
    enc_num(out, v.len() as u64);
    let mut i: usize = 0;
    while i < v.len()
        invariant
            0 <= i <= v@.len(),
            dv == pairs_view(v@),
            dv.len() == v@.len(),
            out@ == base + senc_num(dv.len()) + senc_items_tasks(dv.take(i as int)),
        decreases v@.len() - i,
    {
        proof {
            reveal(senc_task_entry);
            assert(dv[i as int] == (v@[i as int].0@, v@[i as int].1.deep_view()));
        }
        enc_str(out, v[i].0.as_str());
        enc_task(out, &v[i].1);
        proof {
            assert(dv.take(i + 1) =~= dv.take(i as int).push(dv[i as int]));
            lemma_items_push_tasks(dv.take(i as int), dv[i as int]);
            assert(out@ =~= base + senc_num(dv.len()) + senc_items_tasks(dv.take(i + 1)));
        }
        i = i + 1;
    }
    proof {
        assert(dv.take(dv.len() as int) =~= dv);
        assert(out@ =~= base + senc_tasks(dv));
    }
}


/// Appends the index collection.
#[verifier::rlimit(100)]
#[verifier::spinoff_prover]
pub fn enc_sindex(out: &mut Vec<char>, v: &Vec<(String, String)>)
    ensures
        final(out)@ == old(out)@ + senc_sindex(pairs_view(v@)),
{
    proof {
        reveal(senc_items_sindex);
        reveal(senc_num);
        reveal(senc_sindex);
    }
    let ghost base = out@;
    let ghost dv = pairs_view(v@);
    enc_num(out, v.len() as u64);
    let mut i: usize = 0;
    while i < v.len()
        invariant
            0 <= i <= v@.len(),
            dv == pairs_view(v@),
            dv.len() == v@.len(),
            out@ == base + senc_num(dv.len()) + senc_items_sindex(dv.take(i as int)),
        decreases v@.len() - i,
    {
        proof {
            reveal(senc_str_entry);
            assert(dv[i as int] == (v@[i as int].0@, v@[i as int].1.deep_view()));
        }
        enc_str(out, v[i].0.as_str());
        enc_str(out, v[i].1.as_str());
        proof {
            assert(dv.take(i + 1) =~= dv.take(i as int).push(dv[i as int]));
            lemma_items_push_sindex(dv.take(i as int), dv[i as int]);
            assert(out@ =~= base + senc_num(dv.len()) + senc_items_sindex(dv.take(i + 1)));
        }
        i = i + 1;
    }
    proof {
        assert(dv.take(dv.len() as int) =~= dv);
        assert(out@ =~= base + senc_sindex(dv));
    }
}


/// Appends the task-list collection.
#[verifier::rlimit(100)]
#[verifier::spinoff_prover]
pub fn enc_utlists(out: &mut Vec<char>, v: &Vec<(String, Vec<String>)>)
    ensures
        final(out)@ == old(out)@ + senc_utlists(pairs_view(v@)),
{
    proof {
        reveal(senc_items_utlists);
        reveal(senc_num);
        reveal(senc_utlists);
    }
    let ghost base = out@;
    let ghost dv = pairs_view(v@);
    enc_num(out, v.len() as u64);
    let mut i: usize = 0;
    while i < v.len()
        invariant
            0 <= i <= v@.len(),
            dv == pairs_view(v@),
            dv.len() == v@.len(),
            out@ == base + senc_num(dv.len()) + senc_items_utlists(dv.take(i as int)),
        decreases v@.len() - i,
    {
        proof {
            reveal(senc_ids_entry);
            assert(dv[i as int] == (v@[i as int].0@, v@[i as int].1.deep_view()));
        }
        enc_str(out, v[i].0.as_str());
        enc_list_str(out, &v[i].1);
        proof {
            assert(dv.take(i + 1) =~= dv.take(i as int).push(dv[i as int]));
            lemma_items_push_utlists(dv.take(i as int), dv[i as int]);
            assert(out@ =~= base + senc_num(dv.len()) + senc_items_utlists(dv.take(i + 1)));
        }
        i = i + 1;
    }
    proof {
        assert(dv.take(dv.len() as int) =~= dv);
        assert(out@ =~= base + senc_utlists(dv));
    }
}


/// Reads one fixed-width number field.
pub fn dec_num(v: &Vec<char>, i: usize) -> (r: Option<(u64, usize)>)
    requires
        i <= v@.len(),
    ensures
        match r {
            Some((x, j)) => i <= j <= v@.len() && sdec_num(v@.skip(i as int)) == Some((
                x as nat,
                (j - i) as int,
            )),
            None => sdec_num(v@.skip(i as int)) is None,
        },
{
    proof {
        reveal(sdec_num);
    }
    let ghost t = v@.skip(i as int);
    if v.len() < 20 || i > v.len() - 20 {
        proof {
            assert(t.len() < 20);
        }
        return None;
    }
    proof {
        assert(t.take(20) =~= v@.subrange(i as int, i + 20));
    }
    match parse_digits(v, i, i + 20) {
        Some(x) => Some((x, i + 20)),
        None => None,
    }
}

/// Reads one unsigned 64-bit field.
pub fn dec_u64(v: &Vec<char>, i: usize) -> (r: Option<(u64, usize)>)
    requires
        i <= v@.len(),
    ensures
        match r {
            Some((x, j)) => i <= j <= v@.len() && sdec_u64(v@.skip(i as int)) == Some((
                x,
                (j - i) as int,
            )),
            None => sdec_u64(v@.skip(i as int)) is None,
        },
{
    proof {
        reveal(sdec_u64);
    }
    dec_num(v, i)
}

/// Reads one signed 64-bit field.
pub fn dec_i64(v: &Vec<char>, i: usize) -> (r: Option<(i64, usize)>)
    requires
        i <= v@.len(),
    ensures
        match r {
            Some((x, j)) => i <= j <= v@.len() && sdec_i64v(v@.skip(i as int)) == Some((
                x,
                (j - i) as int,
            )),
            None => sdec_i64v(v@.skip(i as int)) is None,
        },
{
    proof {
        reveal(sdec_i64);
    }
    proof {
        reveal(sdec_i64v);
    }
    match dec_num(v, i) {
        Some((m, j)) => {
            let x: i64 = if m % 2 == 0 {
                (m / 2) as i64
            } else {
                let h = m / 2 + 1;
                if h > i64::MAX as u64 {
                    i64::MIN
                } else {
                    -(h as i64)
                }
            };
            proof {
                assert(x as int == unzigzag(m as nat));
            }
            Some((x, j))
        },
        None => None,
    }
}

/// Reads one signed 32-bit field.
pub fn dec_i32(v: &Vec<char>, i: usize) -> (r: Option<(i32, usize)>)
    requires
        i <= v@.len(),
    ensures
        match r {
            Some((x, j)) => i <= j <= v@.len() && sdec_i32(v@.skip(i as int)) == Some((
                x,
                (j - i) as int,
            )),
            None => sdec_i32(v@.skip(i as int)) is None,
        },
{
    proof {
        reveal(sdec_i64);
        reveal(sdec_i64v);
    }
    proof {
        reveal(sdec_i32);
    }
    match dec_i64(v, i) {
        Some((n, j)) => {
            if i32::MIN as i64 <= n && n <= i32::MAX as i64 {
                Some((n as i32, j))
            } else {
                None
            }
        },
        None => None,
    }
}

/// Reads one unsigned 32-bit field.
pub fn dec_u32(v: &Vec<char>, i: usize) -> (r: Option<(u32, usize)>)
    requires
        i <= v@.len(),
    ensures
        match r {
            Some((x, j)) => i <= j <= v@.len() && sdec_u32(v@.skip(i as int)) == Some((
                x,
                (j - i) as int,
            )),
            None => sdec_u32(v@.skip(i as int)) is None,
        },
{
    proof {
        reveal(sdec_u32);
    }
    match dec_num(v, i) {
        Some((n, j)) => {
            if n <= u32::MAX as u64 {
                Some((n as u32, j))
            } else {
                None
            }
        },
        None => None,
    }
}

/// Reads one boolean tag.
pub fn dec_bool(v: &Vec<char>, i: usize) -> (r: Option<(bool, usize)>)
    requires
        i <= v@.len(),
    ensures
        match r {
            Some((x, j)) => i <= j <= v@.len() && sdec_bool(v@.skip(i as int)) == Some((
                x,
                (j - i) as int,
            )),
            None => sdec_bool(v@.skip(i as int)) is None,
        },
{
    proof {
        reveal(sdec_bool);
    }
    if i >= v.len() {
        return None;
    }
    let c = v[i];
    if c == 'T' {
        Some((true, i + 1))
    } else if c == 'F' {
        Some((false, i + 1))
    } else {
        None
    }
}

/// Reads one account-state tag.
pub fn dec_ustatus(v: &Vec<char>, i: usize) -> (r: Option<(UserStatus, usize)>)
    requires
        i <= v@.len(),
    ensures
        match r {
            Some((x, j)) => i <= j <= v@.len() && sdec_ustatus(v@.skip(i as int)) == Some((
                x,
                (j - i) as int,
            )),
            None => sdec_ustatus(v@.skip(i as int)) is None,
        },
{
    proof {
        reveal(sdec_ustatus);
    }
    if i >= v.len() {
        return None;
    }
    let c = v[i];
    if c == 'U' {
        Some((UserStatus::Unspecified, i + 1))
    } else if c == 'A' {
        Some((UserStatus::Active, i + 1))
    } else if c == 'I' {
        Some((UserStatus::Inactive, i + 1))
    } else if c == 'X' {
        Some((UserStatus::Suspended, i + 1))
    } else {
        None
    }
}

/// Reads one task-status tag.
pub fn dec_tstatus(v: &Vec<char>, i: usize) -> (r: Option<(TaskStatus, usize)>)
    requires
        i <= v@.len(),
    ensures
        match r {
            Some((x, j)) => i <= j <= v@.len() && sdec_tstatus(v@.skip(i as int)) == Some((
                x,
                (j - i) as int,
            )),
            None => sdec_tstatus(v@.skip(i as int)) is None,
        },
{
    proof {
        reveal(sdec_tstatus);
    }
    if i >= v.len() {
        return None;
    }
    let c = v[i];
    if c == 'u' {
        Some((TaskStatus::Unspecified, i + 1))
    } else if c == 't' {
        Some((TaskStatus::Todo, i + 1))
    } else if c == 'p' {
        Some((TaskStatus::InProgress, i + 1))
    } else if c == 'r' {
        Some((TaskStatus::Review, i + 1))
    } else if c == 'd' {
        Some((TaskStatus::Done, i + 1))
    } else if c == 'c' {
        Some((TaskStatus::Cancelled, i + 1))
    } else {
        None
    }
}

/// Reads one task-priority tag.
pub fn dec_tprio(v: &Vec<char>, i: usize) -> (r: Option<(TaskPriority, usize)>)
    requires
        i <= v@.len(),
    ensures
        match r {
            Some((x, j)) => i <= j <= v@.len() && sdec_tprio(v@.skip(i as int)) == Some((
                x,
                (j - i) as int,
            )),
            None => sdec_tprio(v@.skip(i as int)) is None,
        },
{
    proof {
        reveal(sdec_tprio);
    }
    if i >= v.len() {
        return None;
    }
    let c = v[i];
    if c == 'n' {
        Some((TaskPriority::Unspecified, i + 1))
    } else if c == 'l' {
        Some((TaskPriority::Low, i + 1))
    } else if c == 'm' {
        Some((TaskPriority::Medium, i + 1))
    } else if c == 'h' {
        Some((TaskPriority::High, i + 1))
    } else if c == 'g' {
        Some((TaskPriority::Urgent, i + 1))
    } else {
        None
    }
}

/// Reads one length-prefixed string.
pub fn dec_str(v: &Vec<char>, i: usize) -> (r: Option<(String, usize)>)
    requires
        i <= v@.len(),
    ensures
        match r {
            Some((x, j)) => i <= j <= v@.len() && sdec_str(v@.skip(i as int)) == Some((
                x@,
                (j - i) as int,
            )),
            None => sdec_str(v@.skip(i as int)) is None,
        },
{
    proof {
        reveal(sdec_str);
    }
    let ghost t = v@.skip(i as int);
    match dec_num(v, i) {
        Some((n, j)) => {
            if n > (v.len() - j) as u64 {
                proof {
                    assert(t.len() - (j - i) < n);
                }
                return None;
            }
            let n2 = n as usize;
            let vlen = v.len();
            let mut cs: Vec<char> = Vec::new();
            let mut k: usize = 0;
            while k < n2
                invariant
                    0 <= k <= n2,
                    i <= j,
                    j + n2 <= vlen,
                    vlen == v@.len(),
                    cs@ =~= v@.subrange(j as int, j + k),
                decreases n2 - k,
            {
                cs.push(v[j + k]);
                proof {
                    assert(cs@ =~= v@.subrange(j as int, j + k + 1));
                }
                k = k + 1;
            }
            let s = chars_to_string(&cs);
            proof {
                assert(s@ =~= t.subrange((j - i) as int, (j - i) + n as int));
            }
            Some((s, j + n2))
        },
        None => None,
    }
}


/// Reads one timestamp.
pub fn dec_ts(v: &Vec<char>, i: usize) -> (r: Option<(Timestamp, usize)>)
    requires
        i <= v@.len(),
    ensures
        match r {
            Some((x, j)) => i <= j <= v@.len() && sdec_ts(v@.skip(i as int)) == Some((
                x,
                (j - i) as int,
            )),
            None => sdec_ts(v@.skip(i as int)) is None,
        },
{
    proof {
        reveal(sdec_ts);
    }
    let ghost t = v@.skip(i as int);
    let (x0, j0) = match dec_i64(v, i) {
        Some(p) => p,
        None => {
            return None;
        },
    };
    proof {
        lemma_skip_skip(v@, i as int, (j0 - i) as int);
    }
    let (x1, j1) = match dec_i32(v, j0) {
        Some(p) => p,
        None => {
            return None;
        },
    };
    let x = Timestamp { seconds: x0, nanos: x1 };
    Some((x, j1))
}

/// Reads one metrics block.
pub fn dec_metrics(v: &Vec<char>, i: usize) -> (r: Option<(TaskMetrics, usize)>)
    requires
        i <= v@.len(),
    ensures
        match r {
            Some((x, j)) => i <= j <= v@.len() && sdec_metrics(v@.skip(i as int)) == Some((
                x,
                (j - i) as int,
            )),
            None => sdec_metrics(v@.skip(i as int)) is None,
        },
{
    proof {
        reveal(sdec_metrics);
    }
    let ghost t = v@.skip(i as int);
    let (x0, j0) = match dec_i32(v, i) {
        Some(p) => p,
        None => {
            return None;
        },
    };
    proof {
        lemma_skip_skip(v@, i as int, (j0 - i) as int);
    }
    let (x1, j1) = match dec_i32(v, j0) {
        Some(p) => p,
        None => {
            return None;
        },
    };
    proof {
        lemma_skip_skip(v@, i as int, (j1 - i) as int);
    }
    let (x2, j2) = match dec_u32(v, j1) {
        Some(p) => p,
        None => {
            return None;
        },
    };
    let x = TaskMetrics { estimated_hours: x0, actual_hours: x1, completion_percent: x2 };
    Some((x, j2))
}


/// Reads one optional value.
pub fn dec_opt_ts(v: &Vec<char>, i: usize) -> (r: Option<(Option<Timestamp>, usize)>)
    requires
        i <= v@.len(),
    ensures
        match r {
            Some((x, j)) => i <= j <= v@.len() && sdec_opt_ts(v@.skip(i as int)) == Some((
                x,
                (j - i) as int,
            )),
            None => sdec_opt_ts(v@.skip(i as int)) is None,
        },
{
    proof {
        reveal(sdec_opt_ts);
    }
    let ghost t = v@.skip(i as int);
    if i >= v.len() {
        return None;
    }
    let c = v[i];
    if c == 'N' {
        Some((None, i + 1))
    } else if c == 'S' {
        proof {
            lemma_skip_skip(v@, i as int, 1);
        }
        match dec_ts(v, i + 1) {
            Some((inner, j)) => Some((Some(inner), j)),
            None => None,
        }
    } else {
        None
    }
}


/// Reads one optional value.
pub fn dec_opt_metrics(v: &Vec<char>, i: usize) -> (r: Option<(Option<TaskMetrics>, usize)>)
    requires
        i <= v@.len(),
    ensures
        match r {
            Some((x, j)) => i <= j <= v@.len() && sdec_opt_metrics(v@.skip(i as int)) == Some((
                x,
                (j - i) as int,
            )),
            None => sdec_opt_metrics(v@.skip(i as int)) is None,
        },
{
    proof {
        reveal(sdec_opt_metrics);
    }
    let ghost t = v@.skip(i as int);
    if i >= v.len() {
        return None;
    }
    let c = v[i];
    if c == 'N' {
        Some((None, i + 1))
    } else if c == 'S' {
        proof {
            lemma_skip_skip(v@, i as int, 1);
        }
        match dec_metrics(v, i + 1) {
            Some((inner, j)) => Some((Some(inner), j)),
            None => None,
        }
    } else {
        None
    }
}

/// Reads one `UserPreferences`.
#[verifier::rlimit(100)]
#[verifier::spinoff_prover]
pub fn dec_prefs(v: &Vec<char>, i: usize) -> (r: Option<(UserPreferences, usize)>)
    requires
        i <= v@.len(),
    ensures
        match r {
            Some((x, j)) => i <= j <= v@.len() && sdec_prefs(v@.skip(i as int)) == Some((
                x@,
                (j - i) as int,
            )),
            None => sdec_prefs(v@.skip(i as int)) is None,
        },
{
    proof {
        reveal(sdec_prefs);
    }
    let ghost t = v@.skip(i as int);
    let (x0, j0) = match dec_str(v, i) {
        Some(p) => p,
        None => {
            return None;
        },
    };
    proof {
        lemma_skip_skip(v@, i as int, (j0 - i) as int);
    }
    let (x1, j1) = match dec_str(v, j0) {
        Some(p) => p,
        None => {
            return None;
        },
    };
    proof {
        lemma_skip_skip(v@, i as int, (j1 - i) as int);
    }
    let (x2, j2) = match dec_str(v, j1) {
        Some(p) => p,
        None => {
            return None;
        },
    };
    proof {
        lemma_skip_skip(v@, i as int, (j2 - i) as int);
    }
    let (x3, j3) = match dec_bool(v, j2) {
        Some(p) => p,
        None => {
            return None;
        },
    };
    proof {
        lemma_skip_skip(v@, i as int, (j3 - i) as int);
    }
    let (x4, j4) = match dec_bool(v, j3) {
        Some(p) => p,
        None => {
            return None;
        },
    };
    proof {
        lemma_skip_skip(v@, i as int, (j4 - i) as int);
    }
    let x = UserPreferences { theme: x0, language: x1, timezone: x2, notifications_enabled: x3, email_notifications: x4 };
    proof {
        assert(x@ =~= PreferencesView { theme: x0@, language: x1@, timezone: x2@, notifications_enabled: x3, email_notifications: x4 });
    }
    Some((x, j4))
}

/// Reads one optional value.
pub fn dec_opt_prefs(v: &Vec<char>, i: usize) -> (r: Option<(Option<UserPreferences>, usize)>)
    requires
        i <= v@.len(),
    ensures
        match r {
            Some((x, j)) => i <= j <= v@.len() && sdec_opt_prefs(v@.skip(i as int)) == Some((
                x.deep_view(),
                (j - i) as int,
            )),
            None => sdec_opt_prefs(v@.skip(i as int)) is None,
        },
{
    proof {
        reveal(sdec_opt_prefs);
    }
    let ghost t = v@.skip(i as int);
    if i >= v.len() {
        return None;
    }
    let c = v[i];
    if c == 'N' {
        Some((None, i + 1))
    } else if c == 'S' {
        proof {
            lemma_skip_skip(v@, i as int, 1);
        }
        match dec_prefs(v, i + 1) {
            Some((inner, j)) => Some((Some(inner), j)),
            None => None,
        }
    } else {
        None
    }
}

/// Reads one `UserProfile`.
#[verifier::rlimit(100)]
#[verifier::spinoff_prover]
pub fn dec_profile(v: &Vec<char>, i: usize) -> (r: Option<(UserProfile, usize)>)
    requires
        i <= v@.len(),
    ensures
        match r {
            Some((x, j)) => i <= j <= v@.len() && sdec_profile(v@.skip(i as int)) == Some((
                x@,
                (j - i) as int,
            )),
            None => sdec_profile(v@.skip(i as int)) is None,
        },
{
    proof {
        reveal(sdec_profile);
    }
    let ghost t = v@.skip(i as int);
    let (x0, j0) = match dec_str(v, i) {
        Some(p) => p,
        None => {
            return None;
        },
    };
    proof {
        lemma_skip_skip(v@, i as int, (j0 - i) as int);
    }
    let (x1, j1) = match dec_str(v, j0) {
        Some(p) => p,
        None => {
            return None;
        },
    };
    proof {
        lemma_skip_skip(v@, i as int, (j1 - i) as int);
    }
    let (x2, j2) = match dec_str(v, j1) {
        Some(p) => p,
        None => {
            return None;
        },
    };
    proof {
        lemma_skip_skip(v@, i as int, (j2 - i) as int);
    }
    let (x3, j3) = match dec_str(v, j2) {
        Some(p) => p,
        None => {
            return None;
        },
    };
    proof {
        lemma_skip_skip(v@, i as int, (j3 - i) as int);
    }
    let (x4, j4) = match dec_str(v, j3) {
        Some(p) => p,
        None => {
            return None;
        },
    };
    proof {
        lemma_skip_skip(v@, i as int, (j4 - i) as int);
    }
    let x = UserProfile { avatar_url: x0, bio: x1, department: x2, phone: x3, location: x4 };
    proof {
        assert(x@ =~= ProfileView { avatar_url: x0@, bio: x1@, department: x2@, phone: x3@, location: x4@ });
    }
    Some((x, j4))
}

/// Reads one optional value.
pub fn dec_opt_profile(v: &Vec<char>, i: usize) -> (r: Option<(Option<UserProfile>, usize)>)
    requires
        i <= v@.len(),
    ensures
        match r {
            Some((x, j)) => i <= j <= v@.len() && sdec_opt_profile(v@.skip(i as int)) == Some((
                x.deep_view(),
                (j - i) as int,
            )),
            None => sdec_opt_profile(v@.skip(i as int)) is None,
        },
{
    proof {
        reveal(sdec_opt_profile);
    }
    let ghost t = v@.skip(i as int);
    if i >= v.len() {
        return None;
    }
    let c = v[i];
    if c == 'N' {
        Some((None, i + 1))
    } else if c == 'S' {
        proof {
            lemma_skip_skip(v@, i as int, 1);
        }
        match dec_profile(v, i + 1) {
            Some((inner, j)) => Some((Some(inner), j)),
            None => None,
        }
    } else {
        None
    }
}

/// Reads one `TaskComment`.
#[verifier::rlimit(100)]
#[verifier::spinoff_prover]
pub fn dec_comment(v: &Vec<char>, i: usize) -> (r: Option<(TaskComment, usize)>)
    requires
        i <= v@.len(),
    ensures
        match r {
            Some((x, j)) => i <= j <= v@.len() && sdec_comment(v@.skip(i as int)) == Some((
                x@,
                (j - i) as int,
            )),
            None => sdec_comment(v@.skip(i as int)) is None,
        },
{
    proof {
        reveal(sdec_comment);
    }
    let ghost t = v@.skip(i as int);
    let (x0, j0) = match dec_str(v, i) {
        Some(p) => p,
        None => {
            return None;
        },
    };
    proof {
        lemma_skip_skip(v@, i as int, (j0 - i) as int);
    }
    let (x1, j1) = match dec_str(v, j0) {
        Some(p) => p,
        None => {
            return None;
        },
    };
    proof {
        lemma_skip_skip(v@, i as int, (j1 - i) as int);
    }
    let (x2, j2) = match dec_str(v, j1) {
        Some(p) => p,
        None => {
            return None;
        },
    };
    proof {
        lemma_skip_skip(v@, i as int, (j2 - i) as int);
    }
    let (x3, j3) = match dec_opt_ts(v, j2) {
        Some(p) => p,
        None => {
            return None;
        },
    };
    proof {
        lemma_skip_skip(v@, i as int, (j3 - i) as int);
    }
    let x = TaskComment { id: x0, author_id: x1, content: x2, created_at: x3 };
    proof {
        assert(x@ =~= CommentView { id: x0@, author_id: x1@, content: x2@, created_at: x3 });
    }
    Some((x, j3))
}
/// Reads one `TaskAttachment`.
#[verifier::rlimit(100)]
#[verifier::spinoff_prover]
pub fn dec_attachment(v: &Vec<char>, i: usize) -> (r: Option<(TaskAttachment, usize)>)
    requires
        i <= v@.len(),
    ensures
        match r {
            Some((x, j)) => i <= j <= v@.len() && sdec_attachment(v@.skip(i as int)) == Some((
                x@,
                (j - i) as int,
            )),
            None => sdec_attachment(v@.skip(i as int)) is None,
        },
{
    proof {
        reveal(sdec_attachment);
    }
    let ghost t = v@.skip(i as int);
    let (x0, j0) = match dec_str(v, i) {
        Some(p) => p,
        None => {
            return None;
        },
    };
    proof {
        lemma_skip_skip(v@, i as int, (j0 - i) as int);
    }
    let (x1, j1) = match dec_str(v, j0) {
        Some(p) => p,
        None => {
            return None;
        },
    };
    proof {
        lemma_skip_skip(v@, i as int, (j1 - i) as int);
    }
    let (x2, j2) = match dec_str(v, j1) {
        Some(p) => p,
        None => {
            return None;
        },
    };
    proof {
        lemma_skip_skip(v@, i as int, (j2 - i) as int);
    }
    let (x3, j3) = match dec_u64(v, j2) {
        Some(p) => p,
        None => {
            return None;
        },
    };
    proof {
        lemma_skip_skip(v@, i as int, (j3 - i) as int);
    }
    let (x4, j4) = match dec_opt_ts(v, j3) {
        Some(p) => p,
        None => {
            return None;
        },
    };
    proof {
        lemma_skip_skip(v@, i as int, (j4 - i) as int);
    }
    let (x5, j5) = match dec_str(v, j4) {
        Some(p) => p,
        None => {
            return None;
        },
    };
    proof {
        lemma_skip_skip(v@, i as int, (j5 - i) as int);
    }
    let (x6, j6) = match dec_str(v, j5) {
        Some(p) => p,
        None => {
            return None;
        },
    };
    proof {
        lemma_skip_skip(v@, i as int, (j6 - i) as int);
    }
    let x = TaskAttachment { id: x0, filename: x1, content_type: x2, file_size: x3, uploaded_at: x4, uploaded_by: x5, url: x6 };
    proof {
        assert(x@ =~= AttachmentView { id: x0@, filename: x1@, content_type: x2@, file_size: x3, uploaded_at: x4, uploaded_by: x5@, url: x6@ });
    }
    Some((x, j6))
}

/// Reads one listing.
#[verifier::rlimit(100)]
#[verifier::spinoff_prover]
pub fn dec_list_str(v: &Vec<char>, i: usize) -> (r: Option<(Vec<String>, usize)>)
    requires
        i <= v@.len(),
    ensures
        match r {
            Some((x, j)) => i <= j <= v@.len() && sdec_list_str(v@.skip(i as int)) == Some((
                x.deep_view(),
                (j - i) as int,
            )),
            None => sdec_list_str(v@.skip(i as int)) is None,
        },
{
    proof {
        reveal(sdec_items_list_str);
        reveal(sdec_list_str);
        reveal(sdec_num);
    }
    let ghost t = v@.skip(i as int);
    let (k64, j0) = match dec_num(v, i) {
        Some(p) => p,
        None => {
            return None;
        },
    };
    proof {
        lemma_skip_skip(v@, i as int, (j0 - i) as int);
    }
    let mut acc: Vec<String> = Vec::new();
    let mut pos: usize = j0;
    let mut idx: u64 = 0;
    while idx < k64
        invariant
            i <= j0 <= pos <= v@.len(),
            0 <= idx <= k64,
            t == v@.skip(i as int),
            sdec_num(t) == Some((k64 as nat, (j0 - i) as int)),
            v@.skip(pos as int) == t.skip((pos - i) as int),
            sdec_items_list_str(t.skip((j0 - i) as int), k64 as nat) == (match sdec_items_list_str(
                v@.skip(pos as int),
                (k64 - idx) as nat,
            ) {
                Some((s2, c2)) => Some((acc.deep_view() + s2, pos - j0 + c2)),
                None => None::<(Seq<Seq<char>>, int)>,
            }),
        decreases k64 - idx,
    {
        proof {
            reveal(sdec_list_str);
            reveal(sdec_items_list_str);
            reveal(sdec_num);
        }
        let (e, pos2) = match dec_str(v, pos) {
            Some(p) => p,
            None => {
                return None;
            },
        };
        proof {
            lemma_skip_skip(v@, pos as int, (pos2 - pos) as int);
            lemma_skip_skip(t, (pos - i) as int, (pos2 - pos) as int);
        }
        let ghost prev = acc.deep_view();
        let ghost ev = e@;
        acc.push(e);
        proof {
            assert(acc.deep_view() =~= prev.push(ev));
            let rr = sdec_items_list_str(v@.skip(pos2 as int), (k64 - idx - 1) as nat);
            match rr {
                Some(p2) => {
                    assert(prev + (seq![ev] + p2.0) =~= acc.deep_view() + p2.0);
                },
                None => {
                },
            }
        }
        pos = pos2;
        idx = idx + 1;
    }
    proof {
        assert(sdec_items_list_str(v@.skip(pos as int), 0) == Some((Seq::<Seq<char>>::empty(), 0int)));
        assert(acc.deep_view() + Seq::<Seq<char>>::empty() =~= acc.deep_view());
    }
    Some((acc, pos))
}


/// Reads one listing.
#[verifier::rlimit(100)]
#[verifier::spinoff_prover]
pub fn dec_list_comment(v: &Vec<char>, i: usize) -> (r: Option<(Vec<TaskComment>, usize)>)
    requires
        i <= v@.len(),
    ensures
        match r {
            Some((x, j)) => i <= j <= v@.len() && sdec_list_comment(v@.skip(i as int)) == Some((
                x.deep_view(),
                (j - i) as int,
            )),
            None => sdec_list_comment(v@.skip(i as int)) is None,
        },
{
    proof {
        reveal(sdec_items_list_comment);
        reveal(sdec_list_comment);
        reveal(sdec_num);
    }
    let ghost t = v@.skip(i as int);
    let (k64, j0) = match dec_num(v, i) {
        Some(p) => p,
        None => {
            return None;
        },
    };
    proof {
        lemma_skip_skip(v@, i as int, (j0 - i) as int);
    }
    let mut acc: Vec<TaskComment> = Vec::new();
    let mut pos: usize = j0;
    let mut idx: u64 = 0;
    while idx < k64
        invariant
            i <= j0 <= pos <= v@.len(),
            0 <= idx <= k64,
            t == v@.skip(i as int),
            sdec_num(t) == Some((k64 as nat, (j0 - i) as int)),
            v@.skip(pos as int) == t.skip((pos - i) as int),
            sdec_items_list_comment(t.skip((j0 - i) as int), k64 as nat) == (match sdec_items_list_comment(
                v@.skip(pos as int),
                (k64 - idx) as nat,
            ) {
                Some((s2, c2)) => Some((acc.deep_view() + s2, pos - j0 + c2)),
                None => None::<(Seq<CommentView>, int)>,
            }),
        decreases k64 - idx,
    {
        proof {
            reveal(sdec_list_comment);
            reveal(sdec_items_list_comment);
            reveal(sdec_num);
        }
        let (e, pos2) = match dec_comment(v, pos) {
            Some(p) => p,
            None => {
                return None;
            },
        };
        proof {
            lemma_skip_skip(v@, pos as int, (pos2 - pos) as int);
            lemma_skip_skip(t, (pos - i) as int, (pos2 - pos) as int);
        }
        let ghost prev = acc.deep_view();
        let ghost ev = e@;
        acc.push(e);
        proof {
            assert(acc.deep_view() =~= prev.push(ev));
            let rr = sdec_items_list_comment(v@.skip(pos2 as int), (k64 - idx - 1) as nat);
            match rr {
                Some(p2) => {
                    assert(prev + (seq![ev] + p2.0) =~= acc.deep_view() + p2.0);
                },
                None => {
                },
            }
        }
        pos = pos2;
        idx = idx + 1;
    }
    proof {
        assert(sdec_items_list_comment(v@.skip(pos as int), 0) == Some((Seq::<CommentView>::empty(), 0int)));
        assert(acc.deep_view() + Seq::<CommentView>::empty() =~= acc.deep_view());
    }
    Some((acc, pos))
}


/// Reads one listing.
#[verifier::rlimit(100)]
#[verifier::spinoff_prover]
pub fn dec_list_attachment(v: &Vec<char>, i: usize) -> (r: Option<(Vec<TaskAttachment>, usize)>)
    requires
        i <= v@.len(),
    ensures
        match r {
            Some((x, j)) => i <= j <= v@.len() && sdec_list_attachment(v@.skip(i as int)) == Some((
                x.deep_view(),
                (j - i) as int,
            )),
            None => sdec_list_attachment(v@.skip(i as int)) is None,
        },
{
    proof {
        reveal(sdec_items_list_attachment);
        reveal(sdec_list_attachment);
        reveal(sdec_num);
    }
    let ghost t = v@.skip(i as int);
    let (k64, j0) = match dec_num(v, i) {
        Some(p) => p,
        None => {
            return None;
        },
    };
    proof {
        lemma_skip_skip(v@, i as int, (j0 - i) as int);
    }
    let mut acc: Vec<TaskAttachment> = Vec::new();
    let mut pos: usize = j0;
    let mut idx: u64 = 0;
    while idx < k64
        invariant
            i <= j0 <= pos <= v@.len(),
            0 <= idx <= k64,
            t == v@.skip(i as int),
            sdec_num(t) == Some((k64 as nat, (j0 - i) as int)),
            v@.skip(pos as int) == t.skip((pos - i) as int),
            sdec_items_list_attachment(t.skip((j0 - i) as int), k64 as nat) == (match sdec_items_list_attachment(
                v@.skip(pos as int),
                (k64 - idx) as nat,
            ) {
                Some((s2, c2)) => Some((acc.deep_view() + s2, pos - j0 + c2)),
                None => None::<(Seq<AttachmentView>, int)>,
            }),
        decreases k64 - idx,
    {
        proof {
            reveal(sdec_list_attachment);
            reveal(sdec_items_list_attachment);
            reveal(sdec_num);
        }
        let (e, pos2) = match dec_attachment(v, pos) {
            Some(p) => p,
            None => {
                return None;
            },
        };
        proof {
            lemma_skip_skip(v@, pos as int, (pos2 - pos) as int);
            lemma_skip_skip(t, (pos - i) as int, (pos2 - pos) as int);
        }
        let ghost prev = acc.deep_view();
        let ghost ev = e@;
        acc.push(e);
        proof {
            assert(acc.deep_view() =~= prev.push(ev));
            let rr = sdec_items_list_attachment(v@.skip(pos2 as int), (k64 - idx - 1) as nat);
            match rr {
                Some(p2) => {
                    assert(prev + (seq![ev] + p2.0) =~= acc.deep_view() + p2.0);
                },
                None => {
                },
            }
        }
        pos = pos2;
        idx = idx + 1;
    }
    proof {
        assert(sdec_items_list_attachment(v@.skip(pos as int), 0) == Some((Seq::<AttachmentView>::empty(), 0int)));
        assert(acc.deep_view() + Seq::<AttachmentView>::empty() =~= acc.deep_view());
    }
    Some((acc, pos))
}

#[verifier::rlimit(100)]
#[verifier::spinoff_prover]
fn dec_user_head(v: &Vec<char>, i: usize) -> (r: Option<((String, String, String, String, i32, bool, UserStatus), usize)>)
    requires
        i <= v@.len(),
    ensures
        match r {
            Some((x, j)) => i <= j <= v@.len() && sdec_user_head(v@.skip(i as int)) == Some((
                (x.0@, x.1@, x.2@, x.3@, x.4, x.5, x.6),
                (j - i) as int,
            )),
            None => sdec_user_head(v@.skip(i as int)) is None,
        },
{
    proof {
        reveal(sdec_user_head);
    }
    let ghost t = v@.skip(i as int);
    let (x0, j0) = match dec_str(v, i) {
        Some(p) => p,
        None => {
            return None;
        },
    };
    proof {
        lemma_skip_skip(v@, i as int, (j0 - i) as int);
    }
    let (x1, j1) = match dec_str(v, j0) {
        Some(p) => p,
        None => {
            return None;
        },
    };
    proof {
        lemma_skip_skip(v@, i as int, (j1 - i) as int);
    }
    let (x2, j2) = match dec_str(v, j1) {
        Some(p) => p,
        None => {
            return None;
        },
    };
    proof {
        lemma_skip_skip(v@, i as int, (j2 - i) as int);
    }
    let (x3, j3) = match dec_str(v, j2) {
        Some(p) => p,
        None => {
            return None;
        },
    };
    proof {
        lemma_skip_skip(v@, i as int, (j3 - i) as int);
    }
    let (x4, j4) = match dec_i32(v, j3) {
        Some(p) => p,
        None => {
            return None;
        },
    };
    proof {
        lemma_skip_skip(v@, i as int, (j4 - i) as int);
    }
    let (x5, j5) = match dec_bool(v, j4) {
        Some(p) => p,
        None => {
            return None;
        },
    };
    proof {
        lemma_skip_skip(v@, i as int, (j5 - i) as int);
    }
    let (x6, j6) = match dec_ustatus(v, j5) {
        Some(p) => p,
        None => {
            return None;
        },
    };
    proof {
        lemma_skip_skip(v@, i as int, (j6 - i) as int);
    }
    Some(((x0, x1, x2, x3, x4, x5, x6), j6))
}

#[verifier::rlimit(100)]
#[verifier::spinoff_prover]
fn dec_user_tail(v: &Vec<char>, i: usize) -> (r: Option<((Vec<String>, Option<Timestamp>, Option<Timestamp>, Option<Timestamp>, Option<UserPreferences>, Option<UserProfile>), usize)>)
    requires
        i <= v@.len(),
    ensures
        match r {
            Some((x, j)) => i <= j <= v@.len() && sdec_user_tail(v@.skip(i as int)) == Some((
                (x.0.deep_view(), x.1, x.2, x.3, x.4.deep_view(), x.5.deep_view()),
                (j - i) as int,
            )),
            None => sdec_user_tail(v@.skip(i as int)) is None,
        },
{
    proof {
        reveal(sdec_user_tail);
    }
    let ghost t = v@.skip(i as int);
    let (x0, j0) = match dec_list_str(v, i) {
        Some(p) => p,
        None => {
            return None;
        },
    };
    proof {
        lemma_skip_skip(v@, i as int, (j0 - i) as int);
    }
    let (x1, j1) = match dec_opt_ts(v, j0) {
        Some(p) => p,
        None => {
            return None;
        },
    };
    proof {
        lemma_skip_skip(v@, i as int, (j1 - i) as int);
    }
    let (x2, j2) = match dec_opt_ts(v, j1) {
        Some(p) => p,
        None => {
            return None;
        },
    };
    proof {
        lemma_skip_skip(v@, i as int, (j2 - i) as int);
    }
    let (x3, j3) = match dec_opt_ts(v, j2) {
        Some(p) => p,
        None => {
            return None;
        },
    };
    proof {
        lemma_skip_skip(v@, i as int, (j3 - i) as int);
    }
    let (x4, j4) = match dec_opt_prefs(v, j3) {
        Some(p) => p,
        None => {
            return None;
        },
    };
    proof {
        lemma_skip_skip(v@, i as int, (j4 - i) as int);
    }
    let (x5, j5) = match dec_opt_profile(v, j4) {
        Some(p) => p,
        None => {
            return None;
        },
    };
    proof {
        lemma_skip_skip(v@, i as int, (j5 - i) as int);
    }
    Some(((x0, x1, x2, x3, x4, x5), j5))
}

/// Reads one `User`.
#[verifier::rlimit(100)]
#[verifier::spinoff_prover]
pub fn dec_user(v: &Vec<char>, i: usize) -> (r: Option<(User, usize)>)
    requires
        i <= v@.len(),
    ensures
        match r {
            Some((x, j)) => i <= j <= v@.len() && sdec_user(v@.skip(i as int)) == Some((
                x@,
                (j - i) as int,
            )),
            None => sdec_user(v@.skip(i as int)) is None,
        },
{
    proof {
        reveal(sdec_user);
    }
    let ghost t = v@.skip(i as int);
    let (h, j0) = match dec_user_head(v, i) {
        Some(p) => p,
        None => {
            return None;
        },
    };
    proof {
        lemma_skip_skip(v@, i as int, (j0 - i) as int);
    }
    let (tl, j1) = match dec_user_tail(v, j0) {
        Some(p) => p,
        None => {
            return None;
        },
    };
    let x = User {
        id: h.0,
        username: h.1,
        email: h.2,
        full_name: h.3,
        role: h.4,
        is_active: h.5,
        status: h.6,
        permissions: tl.0,
        created_at: tl.1,
        updated_at: tl.2,
        last_login: tl.3,
        preferences: tl.4,
        profile: tl.5,
    };
    Some((x, j1))
}
#[verifier::rlimit(100)]
#[verifier::spinoff_prover]
fn dec_task_head(v: &Vec<char>, i: usize) -> (r: Option<((String, String, String, TaskStatus, TaskPriority, Vec<String>, String), usize)>)
    requires
        i <= v@.len(),
    ensures
        match r {
            Some((x, j)) => i <= j <= v@.len() && sdec_task_head(v@.skip(i as int)) == Some((
                (x.0@, x.1@, x.2@, x.3, x.4, x.5.deep_view(), x.6@),
                (j - i) as int,
            )),
            None => sdec_task_head(v@.skip(i as int)) is None,
        },
{
    proof {
        reveal(sdec_task_head);
    }
    let ghost t = v@.skip(i as int);
    let (x0, j0) = match dec_str(v, i) {
        Some(p) => p,
        None => {
            return None;
        },
    };
    proof {
        lemma_skip_skip(v@, i as int, (j0 - i) as int);
    }
    let (x1, j1) = match dec_str(v, j0) {
        Some(p) => p,
        None => {
            return None;
        },
    };
    proof {
        lemma_skip_skip(v@, i as int, (j1 - i) as int);
    }
    let (x2, j2) = match dec_str(v, j1) {
        Some(p) => p,
        None => {
            return None;
        },
    };
    proof {
        lemma_skip_skip(v@, i as int, (j2 - i) as int);
    }
    let (x3, j3) = match dec_tstatus(v, j2) {
        Some(p) => p,
        None => {
            return None;
        },
    };
    proof {
        lemma_skip_skip(v@, i as int, (j3 - i) as int);
    }
    let (x4, j4) = match dec_tprio(v, j3) {
        Some(p) => p,
        None => {
            return None;
        },
    };
    proof {
        lemma_skip_skip(v@, i as int, (j4 - i) as int);
    }
    let (x5, j5) = match dec_list_str(v, j4) {
        Some(p) => p,
        None => {
            return None;
        },
    };
    proof {
        lemma_skip_skip(v@, i as int, (j5 - i) as int);
    }
    let (x6, j6) = match dec_str(v, j5) {
        Some(p) => p,
        None => {
            return None;
        },
    };
    proof {
        lemma_skip_skip(v@, i as int, (j6 - i) as int);
    }
    Some(((x0, x1, x2, x3, x4, x5, x6), j6))
}

#[verifier::rlimit(100)]
#[verifier::spinoff_prover]
fn dec_task_tail(v: &Vec<char>, i: usize) -> (r: Option<((Option<Timestamp>, Option<Timestamp>, Option<Timestamp>, Option<TaskMetrics>, Vec<TaskComment>, Vec<TaskAttachment>), usize)>)
    requires
        i <= v@.len(),
    ensures
        match r {
            Some((x, j)) => i <= j <= v@.len() && sdec_task_tail(v@.skip(i as int)) == Some((
                (x.0, x.1, x.2, x.3, x.4.deep_view(), x.5.deep_view()),
                (j - i) as int,
            )),
            None => sdec_task_tail(v@.skip(i as int)) is None,
        },
{
    proof {
        reveal(sdec_task_tail);
    }
    let ghost t = v@.skip(i as int);
    let (x0, j0) = match dec_opt_ts(v, i) {
        Some(p) => p,
        None => {
            return None;
        },
    };
    proof {
        lemma_skip_skip(v@, i as int, (j0 - i) as int);
    }
    let (x1, j1) = match dec_opt_ts(v, j0) {
        Some(p) => p,
        None => {
            return None;
        },
    };
    proof {
        lemma_skip_skip(v@, i as int, (j1 - i) as int);
    }
    let (x2, j2) = match dec_opt_ts(v, j1) {
        Some(p) => p,
        None => {
            return None;
        },
    };
    proof {
        lemma_skip_skip(v@, i as int, (j2 - i) as int);
    }
    let (x3, j3) = match dec_opt_metrics(v, j2) {
        Some(p) => p,
        None => {
            return None;
        },
    };
    proof {
        lemma_skip_skip(v@, i as int, (j3 - i) as int);
    }
    let (x4, j4) = match dec_list_comment(v, j3) {
        Some(p) => p,
        None => {
            return None;
        },
    };
    proof {
        lemma_skip_skip(v@, i as int, (j4 - i) as int);
    }
    let (x5, j5) = match dec_list_attachment(v, j4) {
        Some(p) => p,
        None => {
            return None;
        },
    };
    proof {
        lemma_skip_skip(v@, i as int, (j5 - i) as int);
    }
    Some(((x0, x1, x2, x3, x4, x5), j5))
}

/// Reads one `Task`.
#[verifier::rlimit(100)]
#[verifier::spinoff_prover]
pub fn dec_task(v: &Vec<char>, i: usize) -> (r: Option<(Task, usize)>)
    requires
        i <= v@.len(),
    ensures
        match r {
            Some((x, j)) => i <= j <= v@.len() && sdec_task(v@.skip(i as int)) == Some((
                x@,
                (j - i) as int,
            )),
            None => sdec_task(v@.skip(i as int)) is None,
        },
{
    proof {
        reveal(sdec_task);
    }
    let ghost t = v@.skip(i as int);
    let (h, j0) = match dec_task_head(v, i) {
        Some(p) => p,
        None => {
            return None;
        },
    };
    proof {
        lemma_skip_skip(v@, i as int, (j0 - i) as int);
    }
    let (tl, j1) = match dec_task_tail(v, j0) {
        Some(p) => p,
        None => {
            return None;
        },
    };
    let x = Task {
        id: h.0,
        title: h.1,
        description: h.2,
        status: h.3,
        priority: h.4,
        tags: h.5,
        assigned_to: h.6,
        created_at: tl.0,
        updated_at: tl.1,
        due_date: tl.2,
        metrics: tl.3,
        comments: tl.4,
        attachments: tl.5,
    };
    Some((x, j1))
}

/// Reads one keyed entry.
#[verifier::rlimit(100)]
#[verifier::spinoff_prover]
pub fn dec_user_entry(v: &Vec<char>, i: usize) -> (r: Option<((String, User), usize)>)
    requires
        i <= v@.len(),
    ensures
        match r {
            Some((x, j)) => i <= j <= v@.len() && sdec_user_entry(v@.skip(i as int)) == Some((
                (x.0@, x.1@),
                (j - i) as int,
            )),
            None => sdec_user_entry(v@.skip(i as int)) is None,
        },
{
    proof {
        reveal(sdec_user_entry);
    }
    let ghost t = v@.skip(i as int);
    let (key, j0) = match dec_str(v, i) {
        Some(p) => p,
        None => {
            return None;
        },
    };
    proof {
        lemma_skip_skip(v@, i as int, (j0 - i) as int);
    }
    let (val, j1) = match dec_user(v, j0) {
        Some(p) => p,
        None => {
            return None;
        },
    };
    Some(((key, val), j1))
}


/// Reads one keyed entry.
#[verifier::rlimit(100)]
#[verifier::spinoff_prover]
pub fn dec_task_entry(v: &Vec<char>, i: usize) -> (r: Option<((String, Task), usize)>)
    requires
        i <= v@.len(),
    ensures
        match r {
            Some((x, j)) => i <= j <= v@.len() && sdec_task_entry(v@.skip(i as int)) == Some((
                (x.0@, x.1@),
                (j - i) as int,
            )),
            None => sdec_task_entry(v@.skip(i as int)) is None,
        },
{
    proof {
        reveal(sdec_task_entry);
    }
    let ghost t = v@.skip(i as int);
    let (key, j0) = match dec_str(v, i) {
        Some(p) => p,
        None => {
            return None;
        },
    };
    proof {
        lemma_skip_skip(v@, i as int, (j0 - i) as int);
    }
    let (val, j1) = match dec_task(v, j0) {
        Some(p) => p,
        None => {
            return None;
        },
    };
    Some(((key, val), j1))
}


/// Reads one keyed entry.
#[verifier::rlimit(100)]
#[verifier::spinoff_prover]
pub fn dec_str_entry(v: &Vec<char>, i: usize) -> (r: Option<((String, String), usize)>)
    requires
        i <= v@.len(),
    ensures
        match r {
            Some((x, j)) => i <= j <= v@.len() && sdec_str_entry(v@.skip(i as int)) == Some((
                (x.0@, x.1@),
                (j - i) as int,
            )),
            None => sdec_str_entry(v@.skip(i as int)) is None,
        },
{
    proof {
        reveal(sdec_str_entry);
    }
    let ghost t = v@.skip(i as int);
    let (key, j0) = match dec_str(v, i) {
        Some(p) => p,
        None => {
            return None;
        },
    };
    proof {
        lemma_skip_skip(v@, i as int, (j0 - i) as int);
    }
    let (val, j1) = match dec_str(v, j0) {
        Some(p) => p,
        None => {
            return None;
        },
    };
    Some(((key, val), j1))
}


/// Reads one keyed entry.
#[verifier::rlimit(100)]
#[verifier::spinoff_prover]
pub fn dec_ids_entry(v: &Vec<char>, i: usize) -> (r: Option<((String, Vec<String>), usize)>)
    requires
        i <= v@.len(),
    ensures
        match r {
            Some((x, j)) => i <= j <= v@.len() && sdec_ids_entry(v@.skip(i as int)) == Some((
                (x.0@, x.1.deep_view()),
                (j - i) as int,
            )),
            None => sdec_ids_entry(v@.skip(i as int)) is None,
        },
{
    proof {
        reveal(sdec_ids_entry);
    }
    let ghost t = v@.skip(i as int);
    let (key, j0) = match dec_str(v, i) {
        Some(p) => p,
        None => {
            return None;
        },
    };
    proof {
        lemma_skip_skip(v@, i as int, (j0 - i) as int);
    }
    let (val, j1) = match dec_list_str(v, j0) {
        Some(p) => p,
        None => {
            return None;
        },
    };
    Some(((key, val), j1))
}


/// Reads one listing.
#[verifier::rlimit(100)]
#[verifier::spinoff_prover]
pub fn dec_users(v: &Vec<char>, i: usize) -> (r: Option<(Vec<(String, User)>, usize)>)
    requires
        i <= v@.len(),
    ensures
        match r {
            Some((x, j)) => i <= j <= v@.len() && sdec_users(v@.skip(i as int)) == Some((
                pairs_view(x@),
                (j - i) as int,
            )),
            None => sdec_users(v@.skip(i as int)) is None,
        },
{
    proof {
        reveal(sdec_items_users);
        reveal(sdec_num);
        reveal(sdec_users);
    }
    let ghost t = v@.skip(i as int);
    let (k64, j0) = match dec_num(v, i) {
        Some(p) => p,
        None => {
            return None;
        },
    };
    proof {
        lemma_skip_skip(v@, i as int, (j0 - i) as int);
    }
    let mut acc: Vec<(String, User)> = Vec::new();
    let mut pos: usize = j0;
    let mut idx: u64 = 0;
    while idx < k64
        invariant
            i <= j0 <= pos <= v@.len(),
            0 <= idx <= k64,
            t == v@.skip(i as int),
            sdec_num(t) == Some((k64 as nat, (j0 - i) as int)),
            v@.skip(pos as int) == t.skip((pos - i) as int),
            sdec_items_users(t.skip((j0 - i) as int), k64 as nat) == (match sdec_items_users(
                v@.skip(pos as int),
                (k64 - idx) as nat,
            ) {
                Some((s2, c2)) => Some((pairs_view(acc@) + s2, pos - j0 + c2)),
                None => None::<(Seq<(Seq<char>, UserView)>, int)>,
            }),
        decreases k64 - idx,
    {
        proof {
            reveal(sdec_users);
            reveal(sdec_items_users);
            reveal(sdec_num);
        }
        let (e, pos2) = match dec_user_entry(v, pos) {
            Some(p) => p,
            None => {
                return None;
            },
        };
        proof {
            lemma_skip_skip(v@, pos as int, (pos2 - pos) as int);
            lemma_skip_skip(t, (pos - i) as int, (pos2 - pos) as int);
        }
        let ghost prev = pairs_view(acc@);
        let ghost ev = (e.0@, e.1@);
        acc.push(e);
        proof {
            assert(pairs_view(acc@) =~= prev.push(ev));
            let rr = sdec_items_users(v@.skip(pos2 as int), (k64 - idx - 1) as nat);
            match rr {
                Some(p2) => {
                    assert(prev + (seq![ev] + p2.0) =~= pairs_view(acc@) + p2.0);
                },
                None => {
                },
            }
        }
        pos = pos2;
        idx = idx + 1;
    }
    proof {
        assert(sdec_items_users(v@.skip(pos as int), 0) == Some((Seq::<(Seq<char>, UserView)>::empty(), 0int)));
        assert(pairs_view(acc@) + Seq::<(Seq<char>, UserView)>::empty() =~= pairs_view(acc@));
    }
    Some((acc, pos))
}


/// Reads one listing.
#[verifier::rlimit(100)]
#[verifier::spinoff_prover]
pub fn dec_tasks(v: &Vec<char>, i: usize) -> (r: Option<(Vec<(String, Task)>, usize)>)
    requires
        i <= v@.len(),
    ensures
        match r {
            Some((x, j)) => i <= j <= v@.len() && sdec_tasks(v@.skip(i as int)) == Some((
                pairs_view(x@),
                (j - i) as int,
            )),
            None => sdec_tasks(v@.skip(i as int)) is None,
        },
{
    proof {
        reveal(sdec_items_tasks);
        reveal(sdec_num);
        reveal(sdec_tasks);
    }
    let ghost t = v@.skip(i as int);
    let (k64, j0) = match dec_num(v, i) {
        Some(p) => p,
        None => {
            return None;
        },
    };
    proof {
        lemma_skip_skip(v@, i as int, (j0 - i) as int);
    }
    let mut acc: Vec<(String, Task)> = Vec::new();
    let mut pos: usize = j0;
    let mut idx: u64 = 0;
    while idx < k64
        invariant
            i <= j0 <= pos <= v@.len(),
            0 <= idx <= k64,
            t == v@.skip(i as int),
            sdec_num(t) == Some((k64 as nat, (j0 - i) as int)),
            v@.skip(pos as int) == t.skip((pos - i) as int),
            sdec_items_tasks(t.skip((j0 - i) as int), k64 as nat) == (match sdec_items_tasks(
                v@.skip(pos as int),
                (k64 - idx) as nat,
            ) {
                Some((s2, c2)) => Some((pairs_view(acc@) + s2, pos - j0 + c2)),
                None => None::<(Seq<(Seq<char>, TaskView)>, int)>,
            }),
        decreases k64 - idx,
    {
        proof {
            reveal(sdec_tasks);
            reveal(sdec_items_tasks);
            reveal(sdec_num);
        }
        let (e, pos2) = match dec_task_entry(v, pos) {
            Some(p) => p,
            None => {
                return None;
            },
        };
        proof {
            lemma_skip_skip(v@, pos as int, (pos2 - pos) as int);
            lemma_skip_skip(t, (pos - i) as int, (pos2 - pos) as int);
        }
        let ghost prev = pairs_view(acc@);
        let ghost ev = (e.0@, e.1@);
        acc.push(e);
        proof {
            assert(pairs_view(acc@) =~= prev.push(ev));
            let rr = sdec_items_tasks(v@.skip(pos2 as int), (k64 - idx - 1) as nat);
            match rr {
                Some(p2) => {
                    assert(prev + (seq![ev] + p2.0) =~= pairs_view(acc@) + p2.0);
                },
                None => {
                },
            }
        }
        pos = pos2;
        idx = idx + 1;
    }
    proof {
        assert(sdec_items_tasks(v@.skip(pos as int), 0) == Some((Seq::<(Seq<char>, TaskView)>::empty(), 0int)));
        assert(pairs_view(acc@) + Seq::<(Seq<char>, TaskView)>::empty() =~= pairs_view(acc@));
    }
    Some((acc, pos))
}


/// Reads one listing.
#[verifier::rlimit(100)]
#[verifier::spinoff_prover]
pub fn dec_sindex(v: &Vec<char>, i: usize) -> (r: Option<(Vec<(String, String)>, usize)>)
    requires
        i <= v@.len(),
    ensures
        match r {
            Some((x, j)) => i <= j <= v@.len() && sdec_sindex(v@.skip(i as int)) == Some((
                pairs_view(x@),
                (j - i) as int,
            )),
            None => sdec_sindex(v@.skip(i as int)) is None,
        },
{
    proof {
        reveal(sdec_items_sindex);
        reveal(sdec_num);
        reveal(sdec_sindex);
    }
    let ghost t = v@.skip(i as int);
    let (k64, j0) = match dec_num(v, i) {
        Some(p) => p,
        None => {
            return None;
        },
    };
    proof {
        lemma_skip_skip(v@, i as int, (j0 - i) as int);
    }
    let mut acc: Vec<(String, String)> = Vec::new();
    let mut pos: usize = j0;
    let mut idx: u64 = 0;
    while idx < k64
        invariant
            i <= j0 <= pos <= v@.len(),
            0 <= idx <= k64,
            t == v@.skip(i as int),
            sdec_num(t) == Some((k64 as nat, (j0 - i) as int)),
            v@.skip(pos as int) == t.skip((pos - i) as int),
            sdec_items_sindex(t.skip((j0 - i) as int), k64 as nat) == (match sdec_items_sindex(
                v@.skip(pos as int),
                (k64 - idx) as nat,
            ) {
                Some((s2, c2)) => Some((pairs_view(acc@) + s2, pos - j0 + c2)),
                None => None::<(Seq<(Seq<char>, Seq<char>)>, int)>,
            }),
        decreases k64 - idx,
    {
        proof {
            reveal(sdec_sindex);
            reveal(sdec_items_sindex);
            reveal(sdec_num);
        }
        let (e, pos2) = match dec_str_entry(v, pos) {
            Some(p) => p,
            None => {
                return None;
            },
        };
        proof {
            lemma_skip_skip(v@, pos as int, (pos2 - pos) as int);
            lemma_skip_skip(t, (pos - i) as int, (pos2 - pos) as int);
        }
        let ghost prev = pairs_view(acc@);
        let ghost ev = (e.0@, e.1@);
        acc.push(e);
        proof {
            assert(pairs_view(acc@) =~= prev.push(ev));
            let rr = sdec_items_sindex(v@.skip(pos2 as int), (k64 - idx - 1) as nat);
            match rr {
                Some(p2) => {
                    assert(prev + (seq![ev] + p2.0) =~= pairs_view(acc@) + p2.0);
                },
                None => {
                },
            }
        }
        pos = pos2;
        idx = idx + 1;
    }
    proof {
        assert(sdec_items_sindex(v@.skip(pos as int), 0) == Some((Seq::<(Seq<char>, Seq<char>)>::empty(), 0int)));
        assert(pairs_view(acc@) + Seq::<(Seq<char>, Seq<char>)>::empty() =~= pairs_view(acc@));
    }
    Some((acc, pos))
}


/// Reads one listing.
#[verifier::rlimit(100)]
#[verifier::spinoff_prover]
pub fn dec_utlists(v: &Vec<char>, i: usize) -> (r: Option<(Vec<(String, Vec<String>)>, usize)>)
    requires
        i <= v@.len(),
    ensures
        match r {
            Some((x, j)) => i <= j <= v@.len() && sdec_utlists(v@.skip(i as int)) == Some((
                pairs_view(x@),
                (j - i) as int,
            )),
            None => sdec_utlists(v@.skip(i as int)) is None,
        },
{
    proof {
        reveal(sdec_items_utlists);
        reveal(sdec_num);
        reveal(sdec_utlists);
    }
    let ghost t = v@.skip(i as int);
    let (k64, j0) = match dec_num(v, i) {
        Some(p) => p,
        None => {
            return None;
        },
    };
    proof {
        lemma_skip_skip(v@, i as int, (j0 - i) as int);
    }
    let mut acc: Vec<(String, Vec<String>)> = Vec::new();
    let mut pos: usize = j0;
    let mut idx: u64 = 0;
    while idx < k64
        invariant
            i <= j0 <= pos <= v@.len(),
            0 <= idx <= k64,
            t == v@.skip(i as int),
            sdec_num(t) == Some((k64 as nat, (j0 - i) as int)),
            v@.skip(pos as int) == t.skip((pos - i) as int),
            sdec_items_utlists(t.skip((j0 - i) as int), k64 as nat) == (match sdec_items_utlists(
                v@.skip(pos as int),
                (k64 - idx) as nat,
            ) {
                Some((s2, c2)) => Some((pairs_view(acc@) + s2, pos - j0 + c2)),
                None => None::<(Seq<(Seq<char>, Seq<Seq<char>>)>, int)>,
            }),
        decreases k64 - idx,
    {
        proof {
            reveal(sdec_utlists);
            reveal(sdec_items_utlists);
            reveal(sdec_num);
        }
        let (e, pos2) = match dec_ids_entry(v, pos) {
            Some(p) => p,
            None => {
                return None;
            },
        };
        proof {
            lemma_skip_skip(v@, pos as int, (pos2 - pos) as int);
            lemma_skip_skip(t, (pos - i) as int, (pos2 - pos) as int);
        }
        let ghost prev = pairs_view(acc@);
        let ghost ev = (e.0@, e.1.deep_view());
        acc.push(e);
        proof {
            assert(pairs_view(acc@) =~= prev.push(ev));
            let rr = sdec_items_utlists(v@.skip(pos2 as int), (k64 - idx - 1) as nat);
            match rr {
                Some(p2) => {
                    assert(prev + (seq![ev] + p2.0) =~= pairs_view(acc@) + p2.0);
                },
                None => {
                },
            }
        }
        pos = pos2;
        idx = idx + 1;
    }
    proof {
        assert(sdec_items_utlists(v@.skip(pos as int), 0) == Some((Seq::<(Seq<char>, Seq<Seq<char>>)>::empty(), 0int)));
        assert(pairs_view(acc@) + Seq::<(Seq<char>, Seq<Seq<char>>)>::empty() =~= pairs_view(acc@));
    }
    Some((acc, pos))
}


/// The round trip of a whole snapshot document: decoding an encoded store
/// yields it back exactly, consuming the entire document.
pub proof fn lemma_snapshot_round_trip(v: StoreView)
    requires
        view_bounded(v),
    ensures
        sdec_snapshot(senc_snapshot(v)) == Some((v, senc_snapshot(v).len() as int)),
{
    lemma_dec_snapshot(v, Seq::empty());
    assert(senc_snapshot(v) + Seq::<char>::empty() =~= senc_snapshot(v));
}

} // verus!
