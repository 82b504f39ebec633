use vstd::prelude::*;

verus! {

/// The ASCII decimal digits.
pub open spec fn is_digit(b: u8) -> bool {
    48 <= b && b <= 57
}

/// The ASCII byte of one decimal digit.
pub open spec fn digit_byte(d: nat) -> u8
    recommends
        d < 10,
{
    (48 + d) as u8
}

/// The decimal representation of `n`: most significant digit first, no
/// leading zeros, a single `0` for zero.
pub open spec fn dec_rep(n: nat) -> Seq<u8>
    decreases n,
{
    if n < 10 {
        seq![digit_byte(n)]
    } else {
        dec_rep(n / 10) + seq![digit_byte(n % 10)]
    }
}

pub open spec fn pow10(k: nat) -> nat
    decreases k,
{
    if k == 0 {
        1
    } else {
        10 * pow10((k - 1) as nat)
    }
}

/// Reads decimal digits from the front of `s`, folding them onto `acc`,
/// until the first non-digit; fails if the value would exceed `u32::MAX`.
pub open spec fn parse_num_rec(s: Seq<u8>, acc: u32) -> Option<(u32, Seq<u8>)>
    decreases s.len(),
{
    if s.len() > 0 && is_digit(s[0]) {
        let d = (s[0] - 48) as nat;
        if acc * 10 + d <= u32::MAX {
            parse_num_rec(s.skip(1), (acc * 10 + d) as u32)
        } else {
            None
        }
    } else {
        Some((acc, s))
    }
}

/// Reads a decimal number (one digit or more) from the front of `s`:
/// the value and what follows it, or nothing if `s` does not start with a
/// digit or the value does not fit in a `u32`.
pub open spec fn parse_num(s: Seq<u8>) -> Option<(u32, Seq<u8>)> {
    if s.len() > 0 && is_digit(s[0]) {
        parse_num_rec(s, 0)
    } else {
        None
    }
}

pub proof fn lemma_dec_rep_digits(n: nat)
    ensures
        dec_rep(n).len() >= 1,
        forall|i: int| 0 <= i < dec_rep(n).len() ==> is_digit(#[trigger] dec_rep(n)[i]),
    decreases n,
{
    if n < 10 {
    } else {
        lemma_dec_rep_digits(n / 10);
    }
}

proof fn lemma_parse_dec_rep_rec(n: nat, rest: Seq<u8>, acc: u32)
    requires
        n <= u32::MAX,
        acc * pow10(dec_rep(n).len()) + n <= u32::MAX,
    ensures
        parse_num_rec(dec_rep(n) + rest, acc) == parse_num_rec(
            rest,
            (acc * pow10(dec_rep(n).len()) + n) as u32,
        ),
    decreases n,
{
    if n < 10 {
        assert(pow10(0) == 1);
        assert(pow10(1) == 10);
        let s = dec_rep(n) + rest;
        assert(s[0] == digit_byte(n));
        assert(is_digit(s[0]));
        assert(s.skip(1) =~= rest);
    } else {
        let hi = n / 10;
        let lo = n % 10;
        let ll = dec_rep(hi).len();
        assert(dec_rep(n) == dec_rep(hi) + seq![digit_byte(lo)]);
        assert(dec_rep(n).len() == ll + 1);
        assert(pow10(ll + 1) == 10 * pow10(ll));
        assert(dec_rep(n) + rest =~= dec_rep(hi) + (seq![digit_byte(lo)] + rest));
        vstd::arithmetic::div_mod::lemma_fundamental_div_mod(n as int, 10);
        assert(n == 10 * hi + lo);
        assert(acc * pow10(ll + 1) + n == 10 * (acc * pow10(ll) + hi) + lo) by (nonlinear_arith)
            requires
                pow10(ll + 1) == 10 * pow10(ll),
                n == 10 * hi + lo,
        ;
        assert(acc * pow10(ll) >= 0) by (nonlinear_arith);
        assert(acc * pow10(ll) + hi <= u32::MAX);
        lemma_parse_dec_rep_rec(hi, seq![digit_byte(lo)] + rest, acc);
        let acc2 = (acc * pow10(ll) + hi) as u32;
        let s2 = seq![digit_byte(lo)] + rest;
        assert(s2[0] == digit_byte(lo));
        assert(is_digit(s2[0]));
        assert(acc2 * 10 + lo == acc * pow10(dec_rep(n).len()) + n);
        assert(s2.skip(1) =~= rest);
    }
}

proof fn lemma_pow10_pos(k: nat)
    ensures
        pow10(k) >= 1,
    decreases k,
{
    if k > 0 {
        lemma_pow10_pos((k - 1) as nat);
    }
}

/// Round trip of the decimal form: rendering a number and reading it back,
/// with anything that is not a digit after it, yields the number and leaves
/// the tail untouched.
pub proof fn lemma_parse_num_dec_rep(n: u32, rest: Seq<u8>)
    requires
        rest.len() == 0 || !is_digit(rest[0]),
    ensures
        parse_num(dec_rep(n as nat) + rest) == Some((n, rest)),
{
    lemma_dec_rep_digits(n as nat);
    let s = dec_rep(n as nat) + rest;
    assert(s[0] == dec_rep(n as nat)[0]);
    assert(pow10(dec_rep(n as nat).len()) >= 1) by {
        lemma_pow10_pos(dec_rep(n as nat).len());
    }
    lemma_parse_dec_rep_rec(n as nat, rest, 0);
    assert(parse_num_rec(rest, n) == Some((n, rest)));
}

/// Appends the decimal representation of `n` to `out`.
pub fn push_decimal(out: &mut Vec<u8>, n: u32)
    ensures
        final(out)@ == old(out)@ + dec_rep(n as nat),
    decreases n,
{
    if n >= 10 {
        push_decimal(out, n / 10);
        out.push(48 + (n % 10) as u8);
        assert(out@ =~= old(out)@ + dec_rep(n as nat));
    } else {
        out.push(48 + n as u8);
        assert(out@ =~= old(out)@ + dec_rep(n as nat));
    }
}

/// Reads a decimal number from `s` at position `i`, exactly as `parse_num`
/// describes on the bytes from `i` on.
pub fn parse_num_at(s: &[u8], i: usize) -> (r: Option<(u32, usize)>)
    requires
        i <= s@.len(),
    ensures
        match r {
            Some(p) => i < p.1 <= s@.len() && parse_num(s@.skip(i as int)) == Some(
                (p.0, s@.skip(p.1 as int)),
            ),
            None => parse_num(s@.skip(i as int)) == None::<(u32, Seq<u8>)>,
        },
{
    let n = s.len();
    if i == n || !(48 <= s[i] && s[i] <= 57) {
        return None;
    }
    let mut acc: u32 = 0;
    let mut j: usize = i;
    while j < n && 48 <= s[j] && s[j] <= 57
        invariant
            i <= j <= n == s@.len(),
            is_digit(s@[i as int]),
            parse_num_rec(s@.skip(i as int), 0) == parse_num_rec(s@.skip(j as int), acc),
            j == i ==> acc == 0,
        decreases n - j,
    {
        let d = s[j] - 48;
        let wide: u64 = acc as u64 * 10 + d as u64;
        if wide > u32::MAX as u64 {
            assert(parse_num_rec(s@.skip(j as int), acc) == None::<(u32, Seq<u8>)>);
            return None;
        }
        assert(s@.skip(j as int).skip(1) =~= s@.skip(j as int + 1));
        acc = wide as u32;
        j += 1;
    }
    assert(parse_num_rec(s@.skip(j as int), acc) == Some((acc, s@.skip(j as int))));
    assert(j != i);
    Some((acc, j))
}

/// The whole of `s` read as a decimal `u32`: digits only, at least one, and
/// a value that fits; anything else is nothing.
pub open spec fn u32_of_digits(s: Seq<u8>) -> Option<u32> {
    match parse_num(s) {
        Some(p) => if p.1.len() == 0 {
            Some(p.0)
        } else {
            None
        },
        None => None,
    }
}

/// Reads all of `s[lo..hi]` as a decimal `u32`.
pub fn parse_u32_range(s: &[u8], lo: usize, hi: usize) -> (r: Option<u32>)
    requires
        lo <= hi <= s@.len(),
    ensures
        r == u32_of_digits(s@.subrange(lo as int, hi as int)),
{
    let sub = slice_range_to_vec(s, lo, hi);
    match parse_num_at(sub.as_slice(), 0) {
        Some(p) => {
            assert(sub@.skip(0) =~= sub@);
            if p.1 == sub.len() {
                assert(sub@.skip(p.1 as int) =~= Seq::<u8>::empty());
                Some(p.0)
            } else {
                assert(sub@.skip(p.1 as int).len() > 0);
                None
            }
        },
        None => {
            assert(sub@.skip(0) =~= sub@);
            None
        },
    }
}

/// Copies `s[lo..hi]` out into a fresh vector.
pub fn slice_range_to_vec(s: &[u8], lo: usize, hi: usize) -> (out: Vec<u8>)
    requires
        lo <= hi <= s@.len(),
    ensures
        out@ == s@.subrange(lo as int, hi as int),
{
    let mut out: Vec<u8> = Vec::new();
    let mut k: usize = lo;
    while k < hi
        invariant
            lo <= k <= hi <= s@.len(),
            out@ == s@.subrange(lo as int, k as int),
        decreases hi - k,
    {
        out.push(s[k]);
        assert(out@ =~= s@.subrange(lo as int, k as int + 1));
        k += 1;
    }
    out
}

} // verus!
