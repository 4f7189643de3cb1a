//! JSON string escaping for the metadata records.
//!
//! Status and metadata files hold JSON objects whose values are strings or
//! `null`.  `esc_spec` defines how a byte string is written inside JSON
//! quotes; `unesc_from` defines how the reader takes it back out.  The
//! round-trip lemma says the reader always recovers exactly what the writer
//! put in.

use vstd::prelude::*;

verus! {

pub open spec fn hex_digit(n: int) -> u8 {
    if n < 10 {
        (0x30 + n) as u8
    } else {
        (0x61 + n - 10) as u8
    }
}

pub open spec fn is_hex(b: u8) -> bool {
    (0x30 <= b && b <= 0x39) || (0x61 <= b && b <= 0x66)
}

pub open spec fn hex_val(b: u8) -> int {
    if b <= 0x39 {
        b - 0x30
    } else {
        b - 0x61 + 10
    }
}

/// How one byte is written inside a JSON string: quote and backslash are
/// escaped, the common control characters by name, the rest of the control
/// range as `\u00XX`, everything else stands as itself.
pub open spec fn esc1(b: u8) -> Seq<u8> {
    if b == 0x22 {
        seq![0x5cu8, 0x22]
    } else if b == 0x5c {
        seq![0x5cu8, 0x5c]
    } else if b == 0x0a {
        seq![0x5cu8, 0x6e]
    } else if b == 0x0d {
        seq![0x5cu8, 0x72]
    } else if b == 0x09 {
        seq![0x5cu8, 0x74]
    } else if b < 0x20 {
        seq![0x5cu8, 0x75, 0x30, 0x30, hex_digit(b as int / 16), hex_digit(b as int % 16)]
    } else {
        seq![b]
    }
}

/// A whole byte string, escaped.
pub open spec fn esc_spec(s: Seq<u8>) -> Seq<u8>
    decreases s.len(),
{
    if s.len() == 0 {
        Seq::empty()
    } else {
        esc_spec(s.drop_last()) + esc1(s.last())
    }
}

/// Read an escaped string starting at `i`, up to and over its closing
/// quote: `Some((content, index after the quote))`, or `None` on a
/// malformed escape or a missing quote.
pub open spec fn unesc_from(s: Seq<u8>, i: int) -> Option<(Seq<u8>, int)>
    decreases s.len() - i,
{
    if i < 0 || i >= s.len() {
        None
    } else if s[i] == 0x22 {
        Some((Seq::empty(), i + 1))
    } else if s[i] == 0x5c {
        if i + 1 < s.len() {
            let c = s[i + 1];
            if c == 0x22 || c == 0x5c {
                unesc_cons(c, unesc_from(s, i + 2))
            } else if c == 0x6e {
                unesc_cons(0x0a, unesc_from(s, i + 2))
            } else if c == 0x72 {
                unesc_cons(0x0d, unesc_from(s, i + 2))
            } else if c == 0x74 {
                unesc_cons(0x09, unesc_from(s, i + 2))
            } else if c == 0x75 {
                if i + 5 < s.len() && s[i + 2] == 0x30 && s[i + 3] == 0x30 && is_hex(s[i + 4])
                    && is_hex(s[i + 5]) {
                    unesc_cons((hex_val(s[i + 4]) * 16 + hex_val(s[i + 5])) as u8, unesc_from(s, i + 6))
                } else {
                    None
                }
            } else {
                None
            }
        } else {
            None
        }
    } else {
        unesc_cons(s[i], unesc_from(s, i + 1))
    }
}

pub open spec fn unesc_cons(b: u8, rest: Option<(Seq<u8>, int)>) -> Option<(Seq<u8>, int)> {
    match rest {
        Some(p) => Some((seq![b] + p.0, p.1)),
        None => None,
    }
}

/// `esc_spec` also unfolds from the front.
pub proof fn lemma_esc_left(e: Seq<u8>)
    requires
        e.len() > 0,
    ensures
        esc_spec(e) == esc1(e[0]) + esc_spec(e.drop_first()),
    decreases e.len(),
{
    if e.len() == 1 {
        assert(e.drop_last() =~= Seq::<u8>::empty());
        assert(e.drop_first() =~= Seq::<u8>::empty());
        assert(esc_spec(e) =~= esc1(e[0]) + esc_spec(e.drop_first()));
    } else {
        let d = e.drop_last();
        lemma_esc_left(d);
        assert(d[0] == e[0]);
        assert(d.drop_first() =~= e.drop_first().drop_last());
        assert(e.drop_first().last() == e.last());
        assert(e.drop_first().len() > 0);
        assert(esc_spec(e.drop_first()) == esc_spec(e.drop_first().drop_last()) + esc1(e.last()));
        assert(esc_spec(e) == esc_spec(d) + esc1(e.last()));
        assert(esc_spec(d) + esc1(e.last()) =~= esc1(e[0]) + (esc_spec(e.drop_first().drop_last())
            + esc1(e.last())));
    }
}

/// Reading back what the writer escaped yields the original content and
/// stops exactly past the closing quote, whatever follows it.
pub proof fn lemma_unesc_esc(s: Seq<u8>, i: int, e: Seq<u8>, tail: Seq<u8>)
    requires
        0 <= i <= s.len(),
        s.subrange(i, s.len() as int) == esc_spec(e) + seq![0x22u8] + tail,
    ensures
        unesc_from(s, i) == Some((e, i + esc_spec(e).len() + 1)),
    decreases e.len(),
{
    let suf = s.subrange(i, s.len() as int);
    assert(suf.len() == esc_spec(e).len() + 1 + tail.len());
    assert forall|k: int| 0 <= k < suf.len() implies s[i + k] == suf[k] by {
        assert(suf[k] == s[i + k]);
    }
    if e.len() == 0 {
        assert(esc_spec(e).len() == 0);
        assert(suf[0] == 0x22);
        assert(s[i] == 0x22);
    } else {
        let b = e[0];
        let chunk = esc1(b);
        lemma_esc_left(e);
        let erest = e.drop_first();
        assert(suf =~= chunk + (esc_spec(erest) + seq![0x22u8] + tail));
        assert forall|k: int| 0 <= k < chunk.len() implies s[i + k] == chunk[k] by {
            assert(suf[k] == chunk[k]);
        }
        let j = i + chunk.len();
        let rest_all = esc_spec(erest) + seq![0x22u8] + tail;
        assert forall|k: int| 0 <= k < s.len() - j implies s.subrange(j, s.len() as int)[k]
            == rest_all[k] by {
            assert(suf[chunk.len() + k] == s[i + chunk.len() + k]);
            assert(suf[chunk.len() + k] == rest_all[k]);
        }
        assert(s.subrange(j, s.len() as int) =~= esc_spec(erest) + seq![0x22u8] + tail);
        lemma_unesc_esc(s, j, erest, tail);
        if b == 0x22 || b == 0x5c {
            assert(s[i] == 0x5c && s[i + 1] == b);
            assert(unesc_from(s, i) == unesc_cons(b, unesc_from(s, i + 2)));
            assert(seq![b] + erest =~= e);
        } else if b == 0x0a {
            assert(s[i] == 0x5c && s[i + 1] == 0x6e);
            assert(unesc_from(s, i) == unesc_cons(0x0a, unesc_from(s, i + 2)));
            assert(seq![b] + erest =~= e);
        } else if b == 0x0d {
            assert(s[i] == 0x5c && s[i + 1] == 0x72);
            assert(unesc_from(s, i) == unesc_cons(0x0d, unesc_from(s, i + 2)));
            assert(seq![b] + erest =~= e);
        } else if b == 0x09 {
            assert(s[i] == 0x5c && s[i + 1] == 0x74);
            assert(unesc_from(s, i) == unesc_cons(0x09, unesc_from(s, i + 2)));
            assert(seq![b] + erest =~= e);
        } else if b < 0x20 {
            assert(s[i] == 0x5c && s[i + 1] == 0x75 && s[i + 2] == 0x30 && s[i + 3] == 0x30);
            assert(s[i + 4] == hex_digit(b as int / 16) && s[i + 5] == hex_digit(b as int % 16));
            assert(is_hex(hex_digit(b as int / 16)));
            assert(is_hex(hex_digit(b as int % 16)));
            assert(hex_val(hex_digit(b as int / 16)) == b as int / 16);
            assert(hex_val(hex_digit(b as int % 16)) == b as int % 16);
            assert((b as int / 16) * 16 + b as int % 16 == b);
            assert(i + 5 < s.len());
            assert(unesc_from(s, i) == unesc_cons(b, unesc_from(s, i + 6)));
            assert(seq![b] + erest =~= e);
        } else {
            assert(chunk == seq![b]);
            assert(s[i + 0] == chunk[0]);
            assert(s[i] == b);
            assert(b != 0x22 && b != 0x5c);
            assert(unesc_from(s, i) == unesc_cons(b, unesc_from(s, i + 1)));
            assert(seq![b] + erest =~= e);
        }
    }
}

/// Append the escaped form of `src` to `out`.
pub fn push_escaped(out: &mut Vec<u8>, src: &Vec<u8>)
    ensures
        final(out)@ == old(out)@ + esc_spec(src@),
{
    let mut i: usize = 0;
    while i < src.len()
        invariant
            i <= src@.len(),
            out@ == old(out)@ + esc_spec(src@.take(i as int)),
        decreases src@.len() - i,
    {
        let b: u8 = src[i];
        proof {
            assert(src@.take(i + 1).drop_last() =~= src@.take(i as int));
            assert(src@.take(i + 1).last() == b);
        }
        if b == 0x22 {
            out.push(0x5c);
            out.push(0x22);
        } else if b == 0x5c {
            out.push(0x5c);
            out.push(0x5c);
        } else if b == 0x0a {
            out.push(0x5c);
            out.push(0x6e);
        } else if b == 0x0d {
            out.push(0x5c);
            out.push(0x72);
        } else if b == 0x09 {
            out.push(0x5c);
            out.push(0x74);
        } else if b < 0x20 {
            out.push(0x5c);
            out.push(0x75);
            out.push(0x30);
            out.push(0x30);
            let hi: u8 = b / 16;
            let lo: u8 = b % 16;
            out.push(if hi < 10 {
                0x30 + hi
            } else {
                0x61 + (hi - 10)
            });
            out.push(if lo < 10 {
                0x30 + lo
            } else {
                0x61 + (lo - 10)
            });
        } else {
            out.push(b);
        }
        proof {
            assert(out@ =~= old(out)@ + esc_spec(src@.take(i + 1)));
        }
        i = i + 1;
    }
    proof {
        assert(src@.take(src@.len() as int) =~= src@);
    }
}

proof fn lemma_unesc_index(s: Seq<u8>, i: int)
    ensures
        match unesc_from(s, i) {
            Some(p) => i < p.1 && p.1 <= s.len(),
            None => true,
        },
    decreases s.len() - i,
{
    if i < 0 || i >= s.len() {
    } else if s[i] == 0x22 {
    } else if s[i] == 0x5c {
        if i + 1 < s.len() {
            let c = s[i + 1];
            if c == 0x22 || c == 0x5c || c == 0x6e || c == 0x72 || c == 0x74 {
                lemma_unesc_index(s, i + 2);
            } else if c == 0x75 {
                if i + 5 < s.len() && s[i + 2] == 0x30 && s[i + 3] == 0x30 && is_hex(s[i + 4])
                    && is_hex(s[i + 5]) {
                    lemma_unesc_index(s, i + 6);
                }
            }
        }
    } else {
        lemma_unesc_index(s, i + 1);
    }
}

/// Read an escaped string out of `s` starting at `from`, exactly as
/// `unesc_from` describes: the content and the index past the closing
/// quote, or `None` on malformed input.
pub fn unescape_from(s: &Vec<u8>, from: usize) -> (r: Option<(Vec<u8>, usize)>)
    requires
        from <= s@.len(),
    ensures
        match r {
            Some(p) => unesc_from(s@, from as int) == Some((p.0@, p.1 as int)) && p.1 <= s@.len(),
            None => unesc_from(s@, from as int) is None,
        },
{
    let mut acc: Vec<u8> = Vec::new();
    let mut cur: usize = from;
    proof {
        lemma_unesc_index(s@, from as int);
        match unesc_from(s@, from as int) {
            Some(p) => {
                assert(Seq::<u8>::empty() + p.0 =~= p.0);
            },
            None => {},
        }
    }
    loop
        invariant
            cur <= s@.len(),
            match unesc_from(s@, cur as int) {
                Some(p) => unesc_from(s@, from as int) == Some((acc@ + p.0, p.1)) && p.1
                    <= s@.len(),
                None => unesc_from(s@, from as int) is None,
            },
        decreases s@.len() - cur,
    {
        if cur >= s.len() {
            return None;
        }
        let b: u8 = s[cur];
        if b == 0x22 {
            proof {
                assert(acc@ + Seq::<u8>::empty() =~= acc@);
            }
            return Some((acc, cur + 1));
        }
        let d: u8;
        let inc: usize;
        if b == 0x5c {
            if cur + 1 >= s.len() {
                return None;
            }
            let c: u8 = s[cur + 1];
            if c == 0x22 || c == 0x5c {
                d = c;
                inc = 2;
            } else if c == 0x6e {
                d = 0x0a;
                inc = 2;
            } else if c == 0x72 {
                d = 0x0d;
                inc = 2;
            } else if c == 0x74 {
                d = 0x09;
                inc = 2;
            } else if c == 0x75 {
                if s.len() - cur > 5 && s[cur + 2] == 0x30 && s[cur + 3] == 0x30 && is_hex_exec(
                    s[cur + 4],
                ) && is_hex_exec(s[cur + 5]) {
                    let hi: u8 = hex_val_exec(s[cur + 4]);
                    let lo: u8 = hex_val_exec(s[cur + 5]);
                    d = hi * 16 + lo;
                    inc = 6;
                } else {
                    return None;
                }
            } else {
                return None;
            }
        } else {
            d = b;
            inc = 1;
        }
        let ghost acc_pre = acc@;
        push_decoded(&mut acc, d);
        proof {
            assert(unesc_from(s@, cur as int) == unesc_cons(d, unesc_from(s@, cur as int + inc)));
            match unesc_from(s@, cur as int + inc) {
                Some(q) => {
                    assert(acc_pre + (seq![d] + q.0) =~= acc@ + q.0);
                },
                None => {},
            }
        }
        cur = cur + inc;
    }
}

fn push_decoded(acc: &mut Vec<u8>, b: u8)
    ensures
        final(acc)@ == old(acc)@ + seq![b],
{
    acc.push(b);
    proof {
        assert(acc@ =~= old(acc)@ + seq![b]);
    }
}

fn is_hex_exec(b: u8) -> (r: bool)
    ensures
        r == is_hex(b),
{
    (0x30 <= b && b <= 0x39) || (0x61 <= b && b <= 0x66)
}

fn hex_val_exec(b: u8) -> (r: u8)
    requires
        is_hex(b),
    ensures
        r as int == hex_val(b),
        r < 16,
{
    if b <= 0x39 {
        b - 0x30
    } else {
        b - 0x61 + 10
    }
}

} // verus!
