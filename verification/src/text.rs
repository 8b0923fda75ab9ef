//! Character-sequence helpers shared by the control-protocol codec and the
//! configuration rules: whitespace trimming, decimal rendering and reading,
//! and ASCII case folding.

use vstd::prelude::*;

verus! {

// ---------------------------------------------------------------------------
// Trusted: `String::push`.
// ---------------------------------------------------------------------------

/// Relies on std's `String::push`: it appends exactly the given character to
/// the end of the string.
pub assume_specification[ String::push ](s: &mut String, c: char)
    ensures
        final(s)@ == old(s)@.push(c),
;

// ---------------------------------------------------------------------------
// Whitespace and trimming.
// ---------------------------------------------------------------------------

/// The whitespace characters the protocol tolerates around a message line.
pub open spec fn is_ws(c: char) -> bool {
    c == ' ' || c == '\t' || c == '\n' || c == '\r'
}

pub open spec fn trim_start(s: Seq<char>) -> Seq<char>
    decreases s.len(),
{
    if s.len() > 0 && is_ws(s[0]) {
        trim_start(s.drop_first())
    } else {
        s
    }
}

pub open spec fn trim_end(s: Seq<char>) -> Seq<char>
    decreases s.len(),
{
    if s.len() > 0 && is_ws(s.last()) {
        trim_end(s.drop_last())
    } else {
        s
    }
}

/// A message line with surrounding whitespace (including the line terminator)
/// removed.
pub open spec fn trim(s: Seq<char>) -> Seq<char> {
    trim_end(trim_start(s))
}

fn ws_char(c: char) -> (r: bool)
    ensures
        r == is_ws(c),
{
    c == ' ' || c == '\t' || c == '\n' || c == '\r'
}

/// The characters of `s`, in order.
pub fn chars_of(s: &str) -> (v: Vec<char>)
    ensures
        v@ == s@,
{
    let n = s.unicode_len();
    let mut v: Vec<char> = Vec::new();
    let mut i: usize = 0;
    while i < n
        invariant
            n == s@.len(),
            i <= n,
            v@ == s@.subrange(0, i as int),
        decreases n - i,
    {
        v.push(s.get_char(i));
        proof {
            assert(s@.subrange(0, i + 1) =~= s@.subrange(0, i as int).push(s@[i as int]));
        }
        i += 1;
    }
    proof {
        assert(s@.subrange(0, n as int) =~= s@);
    }
    v
}

/// The characters of `s` with surrounding whitespace removed.
pub fn trimmed_chars(s: &str) -> (v: Vec<char>)
    ensures
        v@ == trim(s@),
{
    let v = chars_of(s);
    let n = v.len();
    proof {
        assert(v@.subrange(0, n as int) =~= s@);
    }
    let mut lo: usize = 0;
    while lo < n && ws_char(v[lo])
        invariant
            lo <= n,
            n == v@.len(),
            v@ == s@,
            trim_start(s@) == trim_start(v@.subrange(lo as int, n as int)),
        decreases n - lo,
    {
        proof {
            assert(v@.subrange(lo as int, n as int).drop_first() =~= v@.subrange(
                lo + 1,
                n as int,
            ));
        }
        lo += 1;
    }
    proof {
        assert(trim_start(s@) =~= v@.subrange(lo as int, n as int));
    }
    let mut hi: usize = n;
    while hi > lo && ws_char(v[hi - 1])
        invariant
            lo <= hi <= n,
            n == v@.len(),
            v@ == s@,
            trim_start(s@) == v@.subrange(lo as int, n as int),
            trim_end(v@.subrange(lo as int, n as int)) == trim_end(
                v@.subrange(lo as int, hi as int),
            ),
        decreases hi,
    {
        proof {
            assert(v@.subrange(lo as int, hi as int).drop_last() =~= v@.subrange(
                lo as int,
                hi - 1,
            ));
        }
        hi -= 1;
    }
    proof {
        assert(trim(s@) =~= v@.subrange(lo as int, hi as int));
    }
    let mut out: Vec<char> = Vec::new();
    let mut i: usize = lo;
    while i < hi
        invariant
            lo <= i <= hi <= n,
            n == v@.len(),
            out@ == v@.subrange(lo as int, i as int),
            trim(s@) == v@.subrange(lo as int, hi as int),
        decreases hi - i,
    {
        out.push(v[i]);
        proof {
            assert(v@.subrange(lo as int, i + 1) =~= v@.subrange(lo as int, i as int).push(
                v@[i as int],
            ));
        }
        i += 1;
    }
    out
}

// ---------------------------------------------------------------------------
// Decimal digits.
// ---------------------------------------------------------------------------

pub open spec fn is_dec_digit(c: char) -> bool {
    '0' <= c && c <= '9'
}

/// The digit character for a value in 0..10.
pub open spec fn dec_digit(n: int) -> char
    recommends
        0 <= n < 10,
{
    (48 + n) as char
}

/// The value of a digit character.
pub open spec fn digit_val(c: char) -> int
    recommends
        is_dec_digit(c),
{
    c as int - 48
}

/// The canonical decimal rendering of a non-negative integer: no sign, no
/// leading zeros (a bare `0` for zero).
pub open spec fn dec_str(n: int) -> Seq<char>
    recommends
        0 <= n,
    decreases n,
{
    if n < 10 {
        seq![dec_digit(n)]
    } else {
        dec_str(n / 10).push(dec_digit(n % 10))
    }
}

/// The decimal value of a digit sequence, most significant digit first.
pub open spec fn seq_val(ds: Seq<char>) -> int
    recommends
        forall|i: int| 0 <= i < ds.len() ==> is_dec_digit(ds[i]),
    decreases ds.len(),
{
    if ds.len() == 0 {
        0
    } else {
        seq_val(ds.drop_last()) * 10 + digit_val(ds.last())
    }
}

/// Every canonical rendering is a nonempty digit sequence without a leading
/// zero (unless it is exactly `0`), and reading it back gives the number.
pub proof fn lemma_dec_str_wf(n: int)
    requires
        0 <= n,
    ensures
        dec_str(n).len() >= 1,
        forall|i: int| 0 <= i < dec_str(n).len() ==> is_dec_digit(#[trigger] dec_str(n)[i]),
        dec_str(n).len() > 1 ==> dec_str(n)[0] != '0',
        dec_str(n)[0] == '0' ==> n == 0,
        seq_val(dec_str(n)) == n,
    decreases n,
{
    if n < 10 {
        assert(dec_str(n) =~= seq![dec_digit(n)]);
        assert(dec_str(n).drop_last() =~= Seq::<char>::empty());
        assert(dec_digit(n) as int == 48 + n);
        assert(seq_val(Seq::<char>::empty()) == 0);
        assert(seq_val(dec_str(n)) == seq_val(dec_str(n).drop_last()) * 10 + digit_val(
            dec_str(n).last(),
        ));
    } else {
        lemma_dec_str_wf(n / 10);
        let prefix = dec_str(n / 10);
        assert(dec_str(n) =~= prefix.push(dec_digit(n % 10)));
        assert(dec_str(n).drop_last() =~= prefix);
        assert(seq_val(dec_str(n)) == seq_val(prefix) * 10 + digit_val(dec_digit(n % 10)));
        assert(n / 10 >= 1);
    }
}

/// A nonempty digit sequence without a leading zero has a positive value
/// unless it is exactly `0`, and is bounded below by zero in any case.
pub proof fn lemma_seq_val_bounds(ds: Seq<char>)
    requires
        forall|i: int| 0 <= i < ds.len() ==> is_dec_digit(ds[i]),
    ensures
        seq_val(ds) >= 0,
        ds.len() >= 1 && ds[0] != '0' ==> seq_val(ds) >= 1,
    decreases ds.len(),
{
    if ds.len() > 0 {
        lemma_seq_val_bounds(ds.drop_last());
        assert(ds.len() >= 2 ==> ds.drop_last()[0] == ds[0]);
    }
}

/// Canonicity: a nonempty digit sequence without a leading zero is the
/// canonical rendering of its own value.
pub proof fn lemma_seq_val_canonical(ds: Seq<char>)
    requires
        ds.len() >= 1,
        forall|i: int| 0 <= i < ds.len() ==> is_dec_digit(ds[i]),
        ds.len() > 1 ==> ds[0] != '0',
    ensures
        dec_str(seq_val(ds)) == ds,
    decreases ds.len(),
{
    lemma_seq_val_bounds(ds);
    if ds.len() == 1 {
        assert(ds.drop_last() =~= Seq::<char>::empty());
        assert(ds.last() == ds[0]);
        assert(seq_val(Seq::<char>::empty()) == 0);
        assert(seq_val(ds) == seq_val(ds.drop_last()) * 10 + digit_val(ds.last()));
        assert(seq_val(ds) == digit_val(ds[0]));
        assert(0 <= seq_val(ds) < 10);
        assert(dec_digit(digit_val(ds[0])) == ds[0]);
        assert(dec_str(seq_val(ds)) =~= ds);
    } else {
        let init = ds.drop_last();
        assert(init[0] == ds[0]);
        lemma_seq_val_bounds(init);
        lemma_seq_val_canonical(init);
        let v = seq_val(ds);
        assert(v == seq_val(init) * 10 + digit_val(ds.last()));
        assert(seq_val(init) >= 1);
        assert(0 <= digit_val(ds.last()) < 10);
        assert(v / 10 == seq_val(init) && v % 10 == digit_val(ds.last())) by {
            vstd::arithmetic::div_mod::lemma_fundamental_div_mod_converse(
                v,
                10,
                seq_val(init),
                digit_val(ds.last()),
            );
        }
        assert(v >= 10);
        assert(dec_str(v) =~= dec_str(v / 10).push(dec_digit(v % 10)));
        assert(dec_str(v) =~= ds);
    }
}

/// Where the run of decimal digits beginning at `i` ends.
pub open spec fn digit_run_end(s: Seq<char>, i: int) -> int
    recommends
        0 <= i <= s.len(),
    decreases s.len() - i,
{
    if 0 <= i && i < s.len() && is_dec_digit(s[i]) {
        digit_run_end(s, i + 1)
    } else {
        i
    }
}

pub proof fn lemma_digit_run_end(s: Seq<char>, i: int)
    requires
        0 <= i <= s.len(),
    ensures
        i <= digit_run_end(s, i) <= s.len(),
        forall|k: int| i <= k < digit_run_end(s, i) ==> is_dec_digit(s[k]),
        digit_run_end(s, i) < s.len() ==> !is_dec_digit(s[digit_run_end(s, i)]),
    decreases s.len() - i,
{
    if i < s.len() && is_dec_digit(s[i]) {
        lemma_digit_run_end(s, i + 1);
    }
}

/// A digit run ends exactly at the first non-digit: if the characters from
/// `i` to `j` are digits and `j` sits at the end or before a non-digit, the
/// run beginning at `i` ends at `j`.
pub proof fn lemma_digit_run_end_exact(s: Seq<char>, i: int, j: int)
    requires
        0 <= i <= j <= s.len(),
        forall|k: int| i <= k < j ==> is_dec_digit(s[k]),
        j < s.len() ==> !is_dec_digit(s[j]),
    ensures
        digit_run_end(s, i) == j,
    decreases j - i,
{
    if i < j {
        lemma_digit_run_end_exact(s, i + 1, j);
    }
}

/// The number token beginning at position `i`, if the characters there are a
/// canonical `u64` rendering: its value and the position just past it.
pub open spec fn num_token(s: Seq<char>, i: int) -> Option<(u64, int)> {
    let e = digit_run_end(s, i);
    let ds = s.subrange(i, e);
    if ds.len() == 0 || (ds.len() > 1 && ds[0] == '0') || seq_val(ds) > u64::MAX {
        Option::None
    } else {
        Option::Some((seq_val(ds) as u64, e))
    }
}

/// What a number token means: the consumed characters are the canonical
/// rendering of the value, and they end at the end or before a non-digit.
pub proof fn lemma_num_token_canonical(s: Seq<char>, i: int)
    requires
        0 <= i <= s.len(),
        num_token(s, i) is Some,
    ensures
        num_token(s, i) matches Option::Some((v, e)) ==> i < e <= s.len() && s.subrange(i, e)
            == dec_str(v as int) && (e < s.len() ==> !is_dec_digit(s[e])),
{
    let e = digit_run_end(s, i);
    let ds = s.subrange(i, e);
    lemma_digit_run_end(s, i);
    lemma_seq_val_bounds(ds);
    lemma_seq_val_canonical(ds);
}

/// Completeness: if the characters at `i` are the canonical rendering of `v`
/// bounded by a non-digit, the number token there is exactly `v`.
pub proof fn lemma_num_token_complete(s: Seq<char>, i: int, v: u64)
    requires
        0 <= i,
        i + dec_str(v as int).len() <= s.len(),
        s.subrange(i, i + dec_str(v as int).len()) == dec_str(v as int),
        i + dec_str(v as int).len() < s.len() ==> !is_dec_digit(
            s[i + dec_str(v as int).len()],
        ),
    ensures
        num_token(s, i) == Option::Some((v, i + dec_str(v as int).len())),
{
    let ds = dec_str(v as int);
    let j = i + ds.len();
    lemma_dec_str_wf(v as int);
    assert(forall|k: int| i <= k < j ==> is_dec_digit(s[k])) by {
        assert(forall|k: int| i <= k < j ==> s[k] == ds[k - i]);
    }
    lemma_digit_run_end_exact(s, i, j);
    assert(s.subrange(i, j) == ds);
}

/// Render a number in canonical decimal.
pub fn u64_to_string(n: u64) -> (s: String)
    ensures
        s@ == dec_str(n as int),
{
    let mut rev: Vec<u64> = Vec::new();
    let mut m: u64 = n;
    loop
        invariant_except_break
            rev@.len() == 0 ==> m == n,
            rev@.len() > 0 ==> 1 <= m,
            rev@.len() > 0 ==> dec_str(n as int) == dec_str(m as int) + rev_digits(rev@),
        invariant
            forall|k: int| 0 <= k < rev@.len() ==> #[trigger] rev@[k] < 10,
        ensures
            dec_str(n as int) == rev_digits(rev@),
            forall|k: int| 0 <= k < rev@.len() ==> #[trigger] rev@[k] < 10,
        decreases m,
    {
        let ghost prev_rev = rev@;
        let ghost prev_m = m as int;
        let d: u64 = m % 10;
        m = m / 10;
        rev.push(d);
        proof {
            assert(rev@.drop_last() =~= prev_rev);
            assert(rev@.last() == d);
            assert(rev_digits(rev@) == seq![dec_digit(d as int)] + rev_digits(prev_rev));
            if prev_rev.len() == 0 {
                assert(dec_str(n as int) =~= dec_str(n as int) + rev_digits(prev_rev));
            }
            assert(dec_str(n as int) == dec_str(prev_m) + rev_digits(prev_rev));
            if prev_m >= 10 {
                assert(dec_str(prev_m) =~= dec_str(prev_m / 10).push(dec_digit(prev_m % 10)));
                assert(dec_str(prev_m) =~= dec_str(prev_m / 10) + seq![dec_digit(prev_m % 10)]);
                assert(dec_str(n as int) =~= dec_str(m as int) + rev_digits(rev@));
            } else {
                assert(m == 0);
                assert(d as int == prev_m);
                assert(dec_str(prev_m) =~= seq![dec_digit(prev_m)]);
                assert(dec_str(n as int) =~= rev_digits(rev@));
            }
        }
        if m == 0 {
            break ;
        }
    }
    proof {
        assert(dec_str(n as int) == rev_digits(rev@));
        assert(rev@.subrange(0, rev@.len() as int) =~= rev@);
    }
    let mut s = String::new();
    proof {
        assert(dec_str(n as int) =~= s@ + rev_digits(rev@.subrange(0, rev@.len() as int)));
    }
    let mut i: usize = rev.len();
    while i > 0
        invariant
            i <= rev@.len(),
            forall|k: int| 0 <= k < rev@.len() ==> #[trigger] rev@[k] < 10,
            dec_str(n as int) == s@ + rev_digits(rev@.subrange(0, i as int)),
        decreases i,
    {
        i = i - 1;
        let d: u64 = rev[i];
        let c: char = ((48 + d) as u8) as char;
        proof {
            assert(c == dec_digit(d as int));
            let part = rev@.subrange(0, i + 1);
            assert(part.last() == d && part.drop_last() =~= rev@.subrange(0, i as int));
            assert(rev_digits(part) =~= seq![dec_digit(d as int)] + rev_digits(
                rev@.subrange(0, i as int),
            ));
            assert(dec_str(n as int) =~= s@.push(c) + rev_digits(rev@.subrange(0, i as int)));
        }
        s.push(c);
    }
    proof {
        assert(rev_digits(rev@.subrange(0, 0)) =~= Seq::<char>::empty());
        assert(dec_str(n as int) =~= s@);
    }
    s
}

/// The digit characters for a reversed digit list: last entry (most
/// significant) first.
pub open spec fn rev_digits(ds: Seq<u64>) -> Seq<char>
    decreases ds.len(),
{
    if ds.len() == 0 {
        Seq::empty()
    } else {
        seq![dec_digit(ds.last() as int)] + rev_digits(ds.drop_last())
    }
}

fn dec_digit_char(c: char) -> (r: bool)
    ensures
        r == is_dec_digit(c),
{
    '0' <= c && c <= '9'
}

/// Read the number token beginning at `i`, as `num_token` describes.
pub fn parse_u64(t: &Vec<char>, i: usize) -> (r: Option<(u64, usize)>)
    requires
        i <= t@.len(),
    ensures
        r matches Option::Some((v, j)) ==> i < j <= t@.len() && num_token(t@, i as int)
            == Option::Some((v, j as int)),
        r is None ==> num_token(t@, i as int) is None,
{
    let n = t.len();
    let mut j: usize = i;
    let mut acc: u64 = 0;
    let mut over: bool = false;
    loop
        invariant
            i <= j <= n,
            n == t@.len(),
            digit_run_end(t@, i as int) == digit_run_end(t@, j as int),
            forall|k: int| i <= k < j ==> is_dec_digit(t@[k]),
            !over ==> acc == seq_val(t@.subrange(i as int, j as int)),
            over ==> seq_val(t@.subrange(i as int, j as int)) > u64::MAX,
        ensures
            i <= j <= n,
            n == t@.len(),
            digit_run_end(t@, i as int) == j as int,
            forall|k: int| i <= k < j ==> is_dec_digit(t@[k]),
            !over ==> acc == seq_val(t@.subrange(i as int, j as int)),
            over ==> seq_val(t@.subrange(i as int, j as int)) > u64::MAX,
        decreases n - j,
    {
        if j >= n || !dec_digit_char(t[j]) {
            proof {
                if (j as int) < t@.len() {
                    assert(!is_dec_digit(t@[j as int]));
                }
                assert(digit_run_end(t@, j as int) == j as int);
            }
            break ;
        }
        let ghost prev = t@.subrange(i as int, j as int);
        let d: u64 = ((t[j] as u32) - 48) as u64;
        proof {
            assert(d == digit_val(t@[j as int]));
            assert(d < 10);
            let cur = t@.subrange(i as int, j + 1);
            assert(cur.drop_last() =~= prev && cur.last() == t@[j as int]);
            assert(seq_val(cur) == seq_val(prev) * 10 + d);
            lemma_seq_val_bounds(prev);
        }
        if !over {
            if acc > (u64::MAX - d) / 10 {
                over = true;
                proof {
                    let cur = t@.subrange(i as int, j + 1);
                    assert(acc * 10 + d > u64::MAX) by {
                        assert(acc >= (u64::MAX - d) / 10 + 1);
                        assert((u64::MAX - d) < ((u64::MAX - d) / 10) * 10 + 10);
                        assert(acc * 10 >= ((u64::MAX - d) / 10 + 1) * 10);
                    }
                    assert(seq_val(cur) > u64::MAX);
                }
            } else {
                proof {
                    assert(acc * 10 + d <= u64::MAX) by {
                        assert(acc <= (u64::MAX - d) / 10);
                        assert(acc * 10 <= ((u64::MAX - d) / 10) * 10);
                        assert(((u64::MAX - d) / 10) * 10 <= u64::MAX - d);
                    }
                }
                acc = acc * 10 + d;
            }
        } else {
            proof {
                let cur = t@.subrange(i as int, j + 1);
                assert(seq_val(cur) > u64::MAX);
            }
        }
        j = j + 1;
    }
    proof {
        assert(t@.subrange(i as int, j as int) == t@.subrange(
            i as int,
            digit_run_end(t@, i as int),
        ));
    }
    if j == i {
        return None;
    }
    if over {
        return None;
    }
    if j > i + 1 && t[i] == '0' {
        return None;
    }
    proof {
        let ds = t@.subrange(i as int, j as int);
        assert(ds.len() >= 1 && !(ds.len() > 1 && ds[0] == '0') && seq_val(ds) <= u64::MAX);
    }
    Some((acc, j))
}

/// Whether the characters of `l` appear in `s` at position `i`.
pub open spec fn lit_at(s: Seq<char>, i: int, l: Seq<char>) -> bool {
    0 <= i && i + l.len() <= s.len() && s.subrange(i, i + l.len()) == l
}

/// Match the literal `lit` at position `i`, returning the position just past
/// it.
pub fn match_lit(t: &Vec<char>, i: usize, lit: &str) -> (r: Option<usize>)
    requires
        i <= t@.len(),
    ensures
        r matches Option::Some(j) ==> j as int == i + lit@.len() && lit_at(t@, i as int, lit@),
        r is None ==> !lit_at(t@, i as int, lit@),
{
    let n = t.len();
    let ln = lit.unicode_len();
    if ln > n - i {
        return None;
    }
    let mut k: usize = 0;
    while k < ln
        invariant
            k <= ln,
            i + ln <= n,
            n == t@.len(),
            ln == lit@.len(),
            forall|k2: int| 0 <= k2 < k ==> t@[i + k2] == lit@[k2],
        decreases ln - k,
    {
        if t[i + k] != lit.get_char(k) {
            proof {
                assert(t@.subrange(i as int, i + ln) != lit@) by {
                    assert(t@.subrange(i as int, i + ln)[k as int] != lit@[k as int]);
                }
            }
            return None;
        }
        k = k + 1;
    }
    proof {
        assert(t@.subrange(i as int, i + ln) =~= lit@);
    }
    Some(i + ln)
}

/// Whether the whole character vector equals the literal.
pub fn chars_eq_lit(t: &Vec<char>, lit: &str) -> (r: bool)
    ensures
        r == (t@ == lit@),
{
    let ln = lit.unicode_len();
    if t.len() != ln {
        return false;
    }
    match match_lit(t, 0, lit) {
        Some(_) => {
            proof {
                assert(t@.subrange(0, t@.len() as int) =~= t@);
            }
            true
        },
        None => {
            proof {
                assert(t@.subrange(0, t@.len() as int) =~= t@);
            }
            false
        },
    }
}

/// A character's code point is non-negative.
pub proof fn lemma_char_nonneg(c: char)
    ensures
        0 <= c as int,
{
}

} // verus!
