//! Decimal text: the on-disk form of run counters and latest-run pointers.
//!
//! `next_run_id` and `latest_run_id` files hold an unsigned integer as
//! decimal ASCII text.  Writing is exact (`u64_to_dec`); reading tolerates
//! surrounding ASCII whitespace and an optional leading `+`, and fails on
//! anything else (`parse_text_u64`), so a corrupt file reads as "absent".

use vstd::prelude::*;

verus! {

/// ASCII decimal digits of `n`, most significant first, no sign, no padding.
pub open spec fn dec_spec(n: u64) -> Seq<u8>
    decreases n,
{
    if n < 10 {
        seq![(n + 0x30) as u8]
    } else {
        dec_spec((n / 10) as u64).push(((n % 10) + 0x30) as u8)
    }
}

pub open spec fn is_digit(b: u8) -> bool {
    0x30 <= b && b <= 0x39
}

pub open spec fn digit_val(b: u8) -> int {
    b - 0x30
}

/// ASCII whitespace, the bytes `str::trim` removes from decimal text.
pub open spec fn is_space(b: u8) -> bool {
    b == 0x20 || (0x09 <= b && b <= 0x0d)
}

/// Fold the digit bytes of `s` onto `acc`; `None` on a non-digit byte or
/// once the value leaves `u64` range.
pub open spec fn parse_digits_from(s: Seq<u8>, acc: int) -> Option<int>
    decreases s.len(),
{
    if s.len() == 0 {
        Some(acc)
    } else if !is_digit(s[0]) {
        None
    } else if acc * 10 + digit_val(s[0]) > u64::MAX {
        None
    } else {
        parse_digits_from(s.drop_first(), acc * 10 + digit_val(s[0]))
    }
}

/// A non-empty all-digit run as a `u64`.
pub open spec fn parse_u64_digits(s: Seq<u8>) -> Option<u64> {
    if s.len() == 0 {
        None
    } else {
        match parse_digits_from(s, 0) {
            Some(v) => Some(v as u64),
            None => None,
        }
    }
}

/// The grammar `u64::from_str` accepts: an optional `+`, then digits.
pub open spec fn parse_u64_spec(s: Seq<u8>) -> Option<u64> {
    if s.len() >= 1 && s[0] == 0x2b {
        parse_u64_digits(s.drop_first())
    } else {
        parse_u64_digits(s)
    }
}

pub open spec fn trim_front_spec(s: Seq<u8>) -> Seq<u8>
    decreases s.len(),
{
    if s.len() > 0 && is_space(s[0]) {
        trim_front_spec(s.drop_first())
    } else {
        s
    }
}

pub open spec fn trim_back_spec(s: Seq<u8>) -> Seq<u8>
    decreases s.len(),
{
    if s.len() > 0 && is_space(s[s.len() - 1]) {
        trim_back_spec(s.drop_last())
    } else {
        s
    }
}

pub open spec fn trim_spec(s: Seq<u8>) -> Seq<u8> {
    trim_back_spec(trim_front_spec(s))
}

/// What a decimal metadata file's content means: trim, then parse.
pub open spec fn parse_text_u64_spec(s: Seq<u8>) -> Option<u64> {
    parse_u64_spec(trim_spec(s))
}

fn push_dec(n: u64, out: &mut Vec<u8>)
    ensures
        final(out)@ == old(out)@ + dec_spec(n),
    decreases n,
{
    if n < 10 {
        out.push((n as u8) + 0x30);
        assert(out@ =~= old(out)@ + dec_spec(n));
    } else {
        push_dec(n / 10, out);
        out.push(((n % 10) as u8) + 0x30);
        assert(out@ =~= old(out)@ + dec_spec(n));
    }
}

/// Render `n` as decimal ASCII text.
pub fn u64_to_dec(n: u64) -> (r: Vec<u8>)
    ensures
        r@ == dec_spec(n),
{
    let mut out: Vec<u8> = Vec::new();
    push_dec(n, &mut out);
    proof {
        assert(out@ =~= dec_spec(n));
    }
    out
}

/// Parse trimmed-and-signed decimal text, exactly as `parse_text_u64_spec`
/// reads it.
pub fn parse_text_u64(s: &Vec<u8>) -> (r: Option<u64>)
    ensures
        r == parse_text_u64_spec(s@),
{
    let mut lo: usize = 0;
    let mut hi: usize = s.len();
    while lo < hi && is_space_exec(s[lo])
        invariant
            lo <= hi,
            hi <= s.len(),
            hi == s.len(),
            forall|k: int| 0 <= k < lo ==> is_space(s@[k]),
        decreases hi - lo,
    {
        lo = lo + 1;
    }
    while hi > lo && is_space_exec(s[hi - 1])
        invariant
            lo <= hi,
            hi <= s.len(),
            forall|k: int| 0 <= k < lo ==> is_space(s@[k]),
            forall|k: int| hi <= k < s.len() ==> is_space(s@[k]),
        decreases hi,
    {
        hi = hi - 1;
    }
    proof {
        lemma_trim_front_skip(s@, lo as int);
        lemma_trim_back_take(s@.skip(lo as int), (hi - lo) as int);
        assert(trim_spec(s@) == s@.skip(lo as int).take((hi - lo) as int));
    }
    let ghost t: Seq<u8> = trim_spec(s@);
    let mut i: usize = lo;
    if i < hi && s[i] == 0x2b {
        i = i + 1;
    }
    proof {
        assert(s@.skip(lo as int).take((hi - lo) as int) =~= s@.subrange(lo as int, hi as int));
        if lo < hi && s@[lo as int] == 0x2b {
            assert(t.drop_first() =~= s@.subrange(lo as int + 1, hi as int));
        }
    }
    let ghost d: Seq<u8> = s@.subrange(i as int, hi as int);
    // From here on, `parse_u64_spec(t)` equals `parse_u64_digits(d)`.
    assert(parse_u64_spec(t) == parse_u64_digits(d));
    if i == hi {
        return None;
    }
    let mut acc: u64 = 0;
    let start: usize = i;
    while i < hi
        invariant
            start <= i <= hi,
            hi <= s.len(),
            d == s@.subrange(start as int, hi as int),
            d.len() > 0,
            parse_u64_spec(trim_spec(s@)) == parse_u64_digits(d),
            parse_digits_from(d, 0) == parse_digits_from(
                s@.subrange(i as int, hi as int),
                acc as int,
            ),
        decreases hi - i,
    {
        let ghost rest: Seq<u8> = s@.subrange(i as int, hi as int);
        let b: u8 = s[i];
        assert(rest[0] == b);
        if b < 0x30 || b > 0x39 {
            proof {
                assert(parse_digits_from(rest, acc as int) == None::<int>);
                assert(parse_u64_digits(d) == None::<u64>);
            }
            return None;
        }
        let dv: u8 = b - 0x30;
        let m: u64 = match acc.checked_mul(10) {
            Some(m) => m,
            None => {
                proof {
                    assert(acc * 10 + digit_val(b) > u64::MAX);
                    assert(parse_digits_from(rest, acc as int) == None::<int>);
                    assert(parse_u64_digits(d) == None::<u64>);
                }
                return None;
            },
        };
        let v: u64 = match m.checked_add(dv as u64) {
            Some(v) => v,
            None => {
                proof {
                    assert(acc * 10 + digit_val(b) > u64::MAX);
                    assert(parse_digits_from(rest, acc as int) == None::<int>);
                    assert(parse_u64_digits(d) == None::<u64>);
                }
                return None;
            },
        };
        proof {
            assert(rest.drop_first() =~= s@.subrange(i as int + 1, hi as int));
        }
        acc = v;
        i = i + 1;
    }
    proof {
        assert(s@.subrange(i as int, hi as int) =~= Seq::<u8>::empty());
    }
    Some(acc)
}

fn is_space_exec(b: u8) -> (r: bool)
    ensures
        r == is_space(b),
{
    b == 0x20 || (0x09 <= b && b <= 0x0d)
}

proof fn lemma_trim_front_skip(s: Seq<u8>, lo: int)
    requires
        0 <= lo <= s.len(),
        forall|k: int| 0 <= k < lo ==> is_space(s[k]),
        lo < s.len() ==> !is_space(s[lo]),
    ensures
        trim_front_spec(s) == s.skip(lo),
    decreases lo,
{
    if lo == 0 {
        assert(s.skip(0) =~= s);
    } else {
        assert(s.drop_first() =~= s.skip(1));
        lemma_trim_front_skip(s.skip(1), lo - 1);
        assert(s.skip(1).skip(lo - 1) =~= s.skip(lo));
    }
}

proof fn lemma_trim_back_take(s: Seq<u8>, hi: int)
    requires
        0 <= hi <= s.len(),
        forall|k: int| hi <= k < s.len() ==> is_space(s[k]),
        hi > 0 ==> !is_space(s[hi - 1]),
    ensures
        trim_back_spec(s) == s.take(hi),
    decreases s.len(),
{
    if s.len() == hi {
        assert(s.take(hi) =~= s);
    } else {
        assert(s.drop_last() =~= s.take(s.len() - 1));
        lemma_trim_back_take(s.take(s.len() - 1), hi);
        assert(s.take(s.len() - 1).take(hi) =~= s.take(hi));
    }
}

proof fn lemma_parse_digits_append(a: Seq<u8>, b: Seq<u8>, acc: int)
    ensures
        parse_digits_from(a + b, acc) == match parse_digits_from(a, acc) {
            Some(v) => parse_digits_from(b, v),
            None => None::<int>,
        },
    decreases a.len(),
{
    if a.len() == 0 {
        assert(a + b =~= b);
    } else {
        assert((a + b)[0] == a[0]);
        if is_digit(a[0]) && acc * 10 + digit_val(a[0]) <= u64::MAX {
            assert((a + b).drop_first() =~= a.drop_first() + b);
            lemma_parse_digits_append(a.drop_first(), b, acc * 10 + digit_val(a[0]));
        }
    }
}

proof fn lemma_dec_digits(n: u64)
    ensures
        dec_spec(n).len() >= 1,
        forall|k: int| 0 <= k < dec_spec(n).len() ==> is_digit(dec_spec(n)[k]),
    decreases n,
{
    if n >= 10 {
        lemma_dec_digits(n / 10);
    }
}

proof fn lemma_parse_dec(n: u64, acc: int)
    requires
        acc >= 0,
        acc * pow10(dec_spec(n).len() as nat) + n <= u64::MAX,
    ensures
        parse_digits_from(dec_spec(n), acc) == Some(
            acc * pow10(dec_spec(n).len() as nat) + n,
        ),
    decreases n,
{
    lemma_dec_digits(n);
    if n < 10 {
        let b = (n + 0x30) as u8;
        assert(dec_spec(n) == seq![b]);
        assert(pow10(0) == 1);
        assert(pow10(1) == 10);
        assert(digit_val(b) == n);
        assert(acc * pow10(1) == acc * 10) by (nonlinear_arith)
            requires
                pow10(1) == 10,
        ;
        lemma_parse_one(b, acc);
    } else {
        let hd = dec_spec((n / 10) as u64);
        let last = (((n % 10) + 0x30)) as u8;
        assert(dec_spec(n) == hd.push(last));
        assert(hd.push(last) =~= hd + seq![last]);
        lemma_parse_digits_append(hd, seq![last], acc);
        let l = hd.len() as nat;
        lemma_pow10_pos(l);
        assert(pow10(l + 1) == pow10(l) * 10);
        assert(dec_spec(n).len() == l + 1);
        assert(acc * pow10(l + 1) == (acc * pow10(l)) * 10) by (nonlinear_arith)
            requires
                pow10(l + 1) == pow10(l) * 10,
        ;
        assert(acc * pow10(l) + n / 10 <= u64::MAX) by (nonlinear_arith)
            requires
                acc >= 0,
                pow10(l) >= 1,
                acc * pow10(l + 1) == (acc * pow10(l)) * 10,
                acc * pow10(l + 1) + n <= u64::MAX,
                n >= 10,
                n / 10 * 10 + n % 10 == n,
        ;
        lemma_parse_dec(n / 10, acc);
        let v = acc * pow10(l) + n / 10;
        assert(v * 10 + n % 10 == acc * pow10(l + 1) + n) by (nonlinear_arith)
            requires
                v == acc * pow10(l) + n / 10,
                acc * pow10(l + 1) == (acc * pow10(l)) * 10,
                n / 10 * 10 + n % 10 == n,
        ;
        assert(digit_val(last) == n % 10);
        lemma_parse_one(last, v);
        assert(parse_digits_from(seq![last], v) == Some(v * 10 + (n % 10)));
    }
}

proof fn lemma_parse_one(b: u8, acc: int)
    requires
        is_digit(b),
        acc * 10 + digit_val(b) <= u64::MAX,
    ensures
        parse_digits_from(seq![b], acc) == Some(acc * 10 + digit_val(b)),
{
    assert(seq![b].drop_first() =~= Seq::<u8>::empty());
    assert(parse_digits_from(Seq::<u8>::empty(), acc * 10 + digit_val(b)) == Some(
        acc * 10 + digit_val(b),
    ));
}

pub open spec fn pow10(k: nat) -> int
    decreases k,
{
    if k == 0 {
        1
    } else {
        pow10((k - 1) as nat) * 10
    }
}

proof fn lemma_pow10_pos(k: nat)
    ensures
        pow10(k) >= 1,
    decreases k,
{
    if k > 0 {
        lemma_pow10_pos((k - 1) as nat);
    }
}

/// Decimal text written by `u64_to_dec` reads back as the same number.
pub proof fn lemma_dec_round_trip(n: u64)
    ensures
        parse_text_u64_spec(dec_spec(n)) == Some(n),
{
    lemma_dec_digits(n);
    let d = dec_spec(n);
    assert(!is_space(d[0]));
    assert(!is_space(d[d.len() - 1]));
    lemma_trim_front_skip(d, 0);
    assert(d.skip(0) =~= d);
    lemma_trim_back_take(d, d.len() as int);
    assert(d.take(d.len() as int) =~= d);
    assert(trim_spec(d) == d);
    assert(d[0] != 0x2b);
    lemma_pow10_pos(d.len() as nat);
    assert(0 * pow10(d.len() as nat) + n == n) by (nonlinear_arith);
    lemma_parse_dec(n, 0);
}


/// Digit folding succeeds only on all-digit runs.
proof fn lemma_parse_digits_all(s: Seq<u8>, acc: int)
    requires
        parse_digits_from(s, acc) is Some,
    ensures
        forall|k: int| 0 <= k < s.len() ==> is_digit(#[trigger] s[k]),
    decreases s.len(),
{
    if s.len() > 0 {
        if is_digit(s[0]) && acc * 10 + digit_val(s[0]) <= u64::MAX {
            lemma_parse_digits_all(s.drop_first(), acc * 10 + digit_val(s[0]));
            assert forall|k: int| 0 <= k < s.len() implies is_digit(#[trigger] s[k]) by {
                if k > 0 {
                    assert(s.drop_first()[k - 1] == s[k]);
                }
            }
        }
    }
}

/// Text with no whitespace at either edge is its own trimmed form.
pub proof fn lemma_trim_noop(s: Seq<u8>)
    requires
        s.len() == 0 || (!is_space(s[0]) && !is_space(s[s.len() - 1])),
    ensures
        trim_spec(s) == s,
{
    assert(trim_front_spec(s) == s);
    assert(trim_back_spec(s) == s);
}

/// A name with whitespace at either edge is not a number: `u64::from_str`
/// rejects it.
pub proof fn lemma_ws_rejected(s: Seq<u8>)
    requires
        s.len() > 0,
        is_space(s[0]) || is_space(s[s.len() - 1]),
    ensures
        parse_u64_spec(s) is None,
{
    if s.len() >= 1 && s[0] == 0x2b {
        let d = s.drop_first();
        assert(!is_space(s[0]));
        assert(is_space(s[s.len() - 1]));
        if d.len() > 0 {
            assert(d[d.len() - 1] == s[s.len() - 1]);
            if parse_digits_from(d, 0) is Some {
                lemma_parse_digits_all(d, 0);
                assert(is_digit(d[d.len() - 1]));
                assert(false);
            }
        }
    } else {
        if is_space(s[0]) {
            assert(!is_digit(s[0]));
        } else {
            assert(is_space(s[s.len() - 1]));
            if parse_digits_from(s, 0) is Some {
                lemma_parse_digits_all(s, 0);
                assert(is_digit(s[s.len() - 1]));
                assert(false);
            }
        }
    }
}

} // verus!
