//! Byte-level text primitives shared by the codec: decimal rendering and
//! parsing with round-trip lemmas, fixed-width zero-padded numbers, digit
//! and hex runs, prefix matching, and lexicographic byte order.

use vstd::prelude::*;

verus! {

pub open spec fn is_digit(b: u8) -> bool {
    48 <= b <= 57
}

pub open spec fn is_hex(b: u8) -> bool {
    is_digit(b) || (97 <= b <= 102)
}

/// Canonical decimal rendering of `n` (no leading zeros).
pub open spec fn dec_spec(n: u64) -> Seq<u8>
    decreases n,
{
    if n < 10 {
        seq![(48 + n) as u8]
    } else {
        dec_spec((n / 10) as u64) + seq![(48 + n % 10) as u8]
    }
}

/// Value of a digit string, most significant digit first.
pub open spec fn val_spec(s: Seq<u8>) -> int
    decreases s.len(),
{
    if s.len() == 0 {
        0
    } else {
        val_spec(s.drop_last()) * 10 + (s.last() - 48)
    }
}

/// Zero-padded rendering of `n` to exactly `w` digits (low digits kept).
pub open spec fn pad_spec(n: u64, w: nat) -> Seq<u8>
    decreases w,
{
    if w == 0 {
        Seq::empty()
    } else {
        pad_spec((n / 10) as u64, (w - 1) as nat) + seq![(48 + n % 10) as u8]
    }
}

/// End of the digit run starting at `i`.
pub open spec fn digit_run_end(s: Seq<u8>, i: int) -> int
    decreases s.len() - i,
{
    if 0 <= i < s.len() && is_digit(s[i]) {
        digit_run_end(s, i + 1)
    } else {
        i
    }
}

/// End of the hex run starting at `i`.
pub open spec fn hex_run_end(s: Seq<u8>, i: int) -> int
    decreases s.len() - i,
{
    if 0 <= i < s.len() && is_hex(s[i]) {
        hex_run_end(s, i + 1)
    } else {
        i
    }
}

pub proof fn lemma_digit_run_end_bounds(s: Seq<u8>, i: int)
    requires
        0 <= i <= s.len(),
    ensures
        i <= digit_run_end(s, i) <= s.len(),
        forall|k: int| i <= k < digit_run_end(s, i) ==> is_digit(s[k]),
        digit_run_end(s, i) < s.len() ==> !is_digit(s[digit_run_end(s, i)]),
    decreases s.len() - i,
{
    if i < s.len() && is_digit(s[i]) {
        lemma_digit_run_end_bounds(s, i + 1);
    }
}

/// Pins the digit run once its end is known.
pub proof fn lemma_digit_run_end_at(s: Seq<u8>, i: int, j: int)
    requires
        0 <= i <= j <= s.len(),
        forall|k: int| i <= k < j ==> is_digit(s[k]),
        j == s.len() || !is_digit(s[j]),
    ensures
        digit_run_end(s, i) == j,
    decreases j - i,
{
    if i < j {
        lemma_digit_run_end_at(s, i + 1, j);
    }
}

pub proof fn lemma_hex_run_end_bounds(s: Seq<u8>, i: int)
    requires
        0 <= i <= s.len(),
    ensures
        i <= hex_run_end(s, i) <= s.len(),
        forall|k: int| i <= k < hex_run_end(s, i) ==> is_hex(s[k]),
        hex_run_end(s, i) < s.len() ==> !is_hex(s[hex_run_end(s, i)]),
    decreases s.len() - i,
{
    if i < s.len() && is_hex(s[i]) {
        lemma_hex_run_end_bounds(s, i + 1);
    }
}

/// The canonical rendering is made of digits, is nonempty, and starts with
/// a zero only for the value zero itself.
pub proof fn lemma_dec_digits(n: u64)
    ensures
        dec_spec(n).len() >= 1,
        forall|k: int| 0 <= k < dec_spec(n).len() ==> is_digit(#[trigger] dec_spec(n)[k]),
        dec_spec(n)[0] == 48 ==> n == 0,
    decreases n,
{
    if n >= 10 {
        lemma_dec_digits((n / 10) as u64);
    }
}

/// Parsing inverts rendering.
pub proof fn lemma_val_dec(n: u64)
    ensures
        val_spec(dec_spec(n)) == n,
    decreases n,
{
    if n < 10 {
        assert(dec_spec(n) == seq![(48 + n) as u8]);
        assert(dec_spec(n).drop_last() =~= Seq::<u8>::empty());
        assert(dec_spec(n).last() == (48 + n) as u8);
        assert(val_spec(dec_spec(n)) == val_spec(Seq::<u8>::empty()) * 10 + ((48 + n) as u8 - 48));
    } else {
        lemma_val_dec((n / 10) as u64);
        assert(dec_spec(n).drop_last() =~= dec_spec((n / 10) as u64));
        assert((n / 10) * 10 + n % 10 == n) by (nonlinear_arith);
    }
}

pub proof fn lemma_pad_digits(n: u64, w: nat)
    ensures
        pad_spec(n, w).len() == w,
        forall|k: int| 0 <= k < w ==> is_digit(#[trigger] pad_spec(n, w)[k]),
    decreases w,
{
    if w > 0 {
        lemma_pad_digits((n / 10) as u64, (w - 1) as nat);
    }
}

/// Fixed-width parsing inverts zero-padded rendering for values in range.
pub proof fn lemma_val_pad(n: u64, w: nat)
    requires
        n < pow10(w),
    ensures
        val_spec(pad_spec(n, w)) == n,
    decreases w,
{
    if w > 0 {
        assert(pow10(w) == 10 * pow10((w - 1) as nat));
        assert(pow10((w - 1) as nat) > 0) by {
            lemma_pow10_pos((w - 1) as nat);
        }
        assert(n / 10 < pow10((w - 1) as nat)) by (nonlinear_arith)
            requires
                n < 10 * pow10((w - 1) as nat),
                pow10((w - 1) as nat) > 0,
        ;
        lemma_val_pad((n / 10) as u64, (w - 1) as nat);
        assert(pad_spec(n, w).drop_last() =~= pad_spec((n / 10) as u64, (w - 1) as nat));
        assert((n / 10) * 10 + n % 10 == n) by (nonlinear_arith);
    }
}

pub proof fn lemma_pow10_pos(n: nat)
    ensures
        pow10(n) >= 1,
    decreases n,
{
    if n > 0 {
        lemma_pow10_pos((n - 1) as nat);
    }
}

pub open spec fn pow10(n: nat) -> int
    decreases n,
{
    if n == 0 {
        1
    } else {
        10 * pow10((n - 1) as nat)
    }
}

/// A digit string of `w` digits values below `10^w`.
pub proof fn lemma_val_bound(s: Seq<u8>)
    requires
        forall|k: int| 0 <= k < s.len() ==> is_digit(#[trigger] s[k]),
    ensures
        0 <= val_spec(s) < pow10(s.len()),
    decreases s.len(),
{
    if s.len() > 0 {
        assert(forall|k: int|
            0 <= k < s.drop_last().len() ==> is_digit(#[trigger] s.drop_last()[k]));
        lemma_val_bound(s.drop_last());
        let b = pow10((s.len() - 1) as nat);
        assert(val_spec(s.drop_last()) * 10 <= (b - 1) * 10) by (nonlinear_arith)
            requires
                val_spec(s.drop_last()) <= b - 1,
        ;
    }
}

pub proof fn lemma_val_nonneg(s: Seq<u8>)
    requires
        forall|k: int| 0 <= k < s.len() ==> is_digit(#[trigger] s[k]),
    ensures
        val_spec(s) >= 0,
    decreases s.len(),
{
    if s.len() > 0 {
        assert(forall|k: int|
            0 <= k < s.drop_last().len() ==> is_digit(#[trigger] s.drop_last()[k]));
        lemma_val_nonneg(s.drop_last());
    }
}

/// Every digit prefix values at most the whole digit string.
pub proof fn lemma_val_take_le(s: Seq<u8>, m: int)
    requires
        forall|k: int| 0 <= k < s.len() ==> is_digit(#[trigger] s[k]),
        0 <= m <= s.len(),
    ensures
        val_spec(s.take(m)) <= val_spec(s),
    decreases s.len() - m,
{
    if m < s.len() {
        lemma_val_take_le(s, m + 1);
        let t = s.take(m + 1);
        assert(forall|k: int| 0 <= k < t.len() ==> is_digit(#[trigger] t[k]));
        assert(t.drop_last() =~= s.take(m));
        lemma_val_nonneg(s.take(m));
        assert(val_spec(s.take(m)) <= val_spec(t));
    } else {
        assert(s.take(m) =~= s);
    }
}

/// Appends the canonical decimal rendering of `n`.
pub fn push_dec(out: &mut Vec<u8>, n: u64)
    ensures
        final(out)@ == old(out)@ + dec_spec(n),
    decreases n,
{
    if n < 10 {
        out.push((48 + n) as u8);
        assert(out@ =~= old(out)@ + dec_spec(n));
    } else {
        push_dec(out, n / 10);
        out.push((48 + n % 10) as u8);
        assert(out@ =~= old(out)@ + dec_spec(n));
    }
}

/// Appends `n` zero-padded to `w` digits.
pub fn push_pad(out: &mut Vec<u8>, n: u64, w: u8)
    ensures
        final(out)@ == old(out)@ + pad_spec(n, w as nat),
    decreases w,
{
    if w == 0 {
        assert(out@ =~= old(out)@ + pad_spec(n, 0));
    } else {
        push_pad(out, n / 10, w - 1);
        out.push((48 + n % 10) as u8);
        assert(out@ =~= old(out)@ + pad_spec(n, w as nat));
    }
}

/// Reads the digit run starting at `i`; returns its value and end when the
/// run is nonempty and the value fits in `u64`.
pub fn parse_dec(s: &Vec<u8>, i: usize) -> (r: Option<(u64, usize)>)
    requires
        i <= s@.len(),
    ensures
        match r {
            Some((v, j)) => {
                &&& j == digit_run_end(s@, i as int)
                &&& i < j <= s@.len()
                &&& v == val_spec(s@.subrange(i as int, j as int))
            },
            None => i == digit_run_end(s@, i as int) || val_spec(
                s@.subrange(i as int, digit_run_end(s@, i as int)),
            ) > u64::MAX,
        },
{
    proof {
        lemma_digit_run_end_bounds(s@, i as int);
    }
    let ghost e = digit_run_end(s@, i as int);
    if i == s.len() || !(48 <= s[i] && s[i] <= 57) {
        return None;
    }
    let mut j: usize = i;
    let mut acc: u64 = 0;
    proof {
        assert(s@.subrange(i as int, i as int) =~= Seq::<u8>::empty());
    }
    while j < s.len() && 48 <= s[j] && s[j] <= 57
        invariant
            i <= j <= s@.len(),
            i <= e <= s@.len(),
            j <= e,
            e == digit_run_end(s@, i as int),
            forall|k: int| i <= k < e ==> is_digit(s@[k]),
            e < s@.len() ==> !is_digit(s@[e]),
            j < e ==> is_digit(s@[j as int]),
            acc == val_spec(s@.subrange(i as int, j as int)),
        decreases s@.len() - j,
    {
        proof {
            assert(j < e || j == e) by {
                lemma_digit_run_end_bounds(s@, i as int);
            }
            if j == e {
                assert(!is_digit(s@[j as int]));
                assert(false);
            }
        }
        let d: u64 = (s[j] - 48) as u64;
        if acc > (u64::MAX - d) / 10 {
            proof {
                assert(j < e) by {
                    if j == e {
                        assert(!is_digit(s@[j as int]));
                    }
                }
                let pre2 = s@.subrange(i as int, j + 1);
                assert(pre2.drop_last() =~= s@.subrange(i as int, j as int));
                assert(pre2.last() == s@[j as int]);
                assert(val_spec(pre2) == acc * 10 + d);
                let q = (u64::MAX - d) / 10;
                vstd::arithmetic::div_mod::lemma_fundamental_div_mod((u64::MAX - d) as int, 10);
                assert(acc * 10 >= q * 10 + 10) by (nonlinear_arith)
                    requires
                        acc >= q + 1,
                ;
                assert(val_spec(pre2) > u64::MAX);
                lemma_parse_overflow(s@, i as int, j as int);
            }
            return None;
        }
        proof {
            let pre = s@.subrange(i as int, j as int);
            let pre2 = s@.subrange(i as int, j + 1 as int);
            assert(pre2.drop_last() =~= pre);
            assert(acc * 10 + d <= u64::MAX) by (nonlinear_arith)
                requires
                    acc <= (u64::MAX - d) / 10,
                    d <= 9,
            ;
        }
        acc = acc * 10 + d;
        j = j + 1;
    }
    proof {
        assert(j == e) by {
            if j < e {
                assert(is_digit(s@[j as int]));
            }
        }
    }
    Some((acc, j))
}

/// On the early overflow return above, the run's full value is out of
/// range; this is folded into the contract via the following fact.
pub proof fn lemma_parse_overflow(s: Seq<u8>, i: int, j: int)
    requires
        0 <= i <= j,
        j < digit_run_end(s, i) <= s.len(),
        val_spec(s.subrange(i, j + 1)) > u64::MAX,
    ensures
        val_spec(s.subrange(i, digit_run_end(s, i))) > u64::MAX,
{
    let e = digit_run_end(s, i);
    lemma_digit_run_end_bounds(s, i);
    let whole = s.subrange(i, e);
    assert(forall|k: int| 0 <= k < whole.len() ==> is_digit(#[trigger] whole[k]));
    lemma_val_take_le(whole, j + 1 - i);
    assert(whole.take(j + 1 - i) =~= s.subrange(i, j + 1));
}

/// Reads the hex run starting at `i`, returning its end.
pub fn scan_hex(s: &Vec<u8>, i: usize) -> (j: usize)
    requires
        i <= s@.len(),
    ensures
        j == hex_run_end(s@, i as int),
        i <= j <= s@.len(),
{
    proof {
        lemma_hex_run_end_bounds(s@, i as int);
    }
    let ghost e = hex_run_end(s@, i as int);
    let mut j: usize = i;
    while j < s.len() && ((48 <= s[j] && s[j] <= 57) || (97 <= s[j] && s[j] <= 102))
        invariant
            i <= j <= s@.len(),
            j <= e,
            e == hex_run_end(s@, i as int),
            i <= e <= s@.len(),
            forall|k: int| i <= k < e ==> is_hex(s@[k]),
            e < s@.len() ==> !is_hex(s@[e]),
        decreases s@.len() - j,
    {
        proof {
            if j == e {
                assert(!is_hex(s@[j as int]));
                assert(false);
            }
        }
        j = j + 1;
    }
    proof {
        if j < e {
            assert(is_hex(s@[j as int]));
        }
    }
    j
}

/// `pat` occurs in `s` at position `i`.
pub open spec fn match_at(s: Seq<u8>, i: int, pat: Seq<u8>) -> bool {
    &&& 0 <= i
    &&& i + pat.len() <= s.len()
    &&& s.subrange(i, i + pat.len()) == pat
}

pub fn check_match_at(s: &Vec<u8>, i: usize, pat: &Vec<u8>) -> (r: bool)
    requires
        i <= s@.len(),
    ensures
        r == match_at(s@, i as int, pat@),
{
    if s.len() - i < pat.len() {
        return false;
    }
    let n: usize = s.len();
    let mut k: usize = 0;
    while k < pat.len()
        invariant
            0 <= k <= pat@.len(),
            i + pat@.len() <= s@.len(),
            n == s@.len(),
            forall|m: int| 0 <= m < k ==> s@[i + m] == pat@[m],
        decreases pat@.len() - k,
    {
        proof {
            assert(i + k < n);
        }
        if s[i + k] != pat[k] {
            assert(s@.subrange(i as int, i + pat@.len()) != pat@) by {
                assert(s@.subrange(i as int, i + pat@.len())[k as int] != pat@[k as int]);
            }
            return false;
        }
        k = k + 1;
    }
    assert(s@.subrange(i as int, i + pat@.len()) =~= pat@);
    true
}

/// Byte equality of two vectors.
pub fn bytes_eq(a: &Vec<u8>, b: &Vec<u8>) -> (r: bool)
    ensures
        r == (a@ == b@),
{
    if a.len() != b.len() {
        assert(a@ != b@) by {
            assert(a@.len() != b@.len());
        }
        return false;
    }
    let mut k: usize = 0;
    while k < a.len()
        invariant
            0 <= k <= a@.len(),
            a@.len() == b@.len(),
            forall|m: int| 0 <= m < k ==> a@[m] == b@[m],
        decreases a@.len() - k,
    {
        if a[k] != b[k] {
            return false;
        }
        k = k + 1;
    }
    assert(a@ =~= b@);
    true
}

/// Strict lexicographic order on byte strings: the fixed total order used
/// for issue references and for publish-order tie breaking.
pub open spec fn lex_lt(a: Seq<u8>, b: Seq<u8>) -> bool
    decreases a.len(),
{
    if b.len() == 0 {
        false
    } else if a.len() == 0 {
        true
    } else if a[0] != b[0] {
        a[0] < b[0]
    } else {
        lex_lt(a.drop_first(), b.drop_first())
    }
}

pub fn bytes_lt(a: &Vec<u8>, b: &Vec<u8>) -> (r: bool)
    ensures
        r == lex_lt(a@, b@),
{
    let mut k: usize = 0;
    proof {
        assert(a@.skip(0) =~= a@);
        assert(b@.skip(0) =~= b@);
    }
    while k < a.len() && k < b.len()
        invariant
            0 <= k <= a@.len(),
            k <= b@.len(),
            forall|m: int| 0 <= m < k ==> a@[m] == b@[m],
            lex_lt(a@, b@) == lex_lt(a@.skip(k as int), b@.skip(k as int)),
        decreases a@.len() - k,
    {
        if a[k] < b[k] {
            assert(lex_lt(a@.skip(k as int), b@.skip(k as int)));
            return true;
        }
        if a[k] > b[k] {
            assert(!lex_lt(a@.skip(k as int), b@.skip(k as int)));
            return false;
        }
        proof {
            let x = a@.skip(k as int);
            let y = b@.skip(k as int);
            assert(x.drop_first() =~= a@.skip(k + 1));
            assert(y.drop_first() =~= b@.skip(k + 1));
        }
        k = k + 1;
    }
    proof {
        let x = a@.skip(k as int);
        let y = b@.skip(k as int);
        if k == a.len() {
            assert(x.len() == 0);
        } else {
            assert(y.len() == 0);
        }
    }
    k == a.len() && k < b.len()
}

} // verus!
