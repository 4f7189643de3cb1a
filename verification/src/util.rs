//! Project-name validation and diagnostic-text clipping.

use vstd::prelude::*;

use crate::text::dec_spec;
use crate::text::u64_to_dec;

verus! {

/// Bytes a project name may contain: ASCII alphanumerics, `-`, `_`, `.`.
pub open spec fn name_byte_ok(b: u8) -> bool {
    (0x30 <= b && b <= 0x39) || (0x41 <= b && b <= 0x5a) || (0x61 <= b && b <= 0x7a) || b == 0x2d
        || b == 0x5f || b == 0x2e
}

/// A valid project name: 1 to 80 bytes, every byte from the safe set.
pub open spec fn valid_name(s: Seq<u8>) -> bool {
    1 <= s.len() && s.len() <= 80 && forall|k: int| 0 <= k < s.len() ==> name_byte_ok(s[k])
}

fn name_byte_ok_exec(b: u8) -> (r: bool)
    ensures
        r == name_byte_ok(b),
{
    (0x30 <= b && b <= 0x39) || (0x41 <= b && b <= 0x5a) || (0x61 <= b && b <= 0x7a) || b == 0x2d
        || b == 0x5f || b == 0x2e
}

/// Accept a client-supplied project name, or reject it before anything is
/// created for it.  Returns a copy of the name exactly when it is valid.
pub fn sanitize_name(s: &Vec<u8>) -> (r: Option<Vec<u8>>)
    ensures
        match r {
            Some(n) => valid_name(s@) && n@ == s@,
            None => !valid_name(s@),
        },
{
    if s.len() == 0 || s.len() > 80 {
        return None;
    }
    let mut i: usize = 0;
    let mut out: Vec<u8> = Vec::new();
    while i < s.len()
        invariant
            i <= s.len(),
            1 <= s@.len() <= 80,
            out@ == s@.take(i as int),
            forall|k: int| 0 <= k < i ==> name_byte_ok(s@[k]),
        decreases s.len() - i,
    {
        let b: u8 = s[i];
        if !name_byte_ok_exec(b) {
            return None;
        }
        out.push(b);
        proof {
            assert(out@ =~= s@.take(i + 1));
        }
        i = i + 1;
    }
    proof {
        assert(out@ =~= s@);
    }
    Some(out)
}

/// `"...[truncated "` as bytes.
pub open spec fn clip_mark() -> Seq<u8> {
    seq![0x2eu8, 0x2e, 0x2e, 0x5b, 0x74, 0x72, 0x75, 0x6e, 0x63, 0x61, 0x74, 0x65, 0x64, 0x20]
}

/// `" bytes]"` as bytes.
pub open spec fn clip_tail() -> Seq<u8> {
    seq![0x20u8, 0x62, 0x79, 0x74, 0x65, 0x73, 0x5d]
}

/// What `clip` produces: the text unchanged if short enough, else its first
/// `max` bytes followed by a note saying how many bytes were dropped.
pub open spec fn clip_spec(s: Seq<u8>, max: int) -> Seq<u8> {
    if s.len() <= max {
        s
    } else {
        s.take(max) + clip_mark() + dec_spec((s.len() - max) as u64) + clip_tail()
    }
}

/// Bound diagnostic text (renderer output, error messages) to `max` bytes
/// plus a short truncation note.
pub fn clip(s: &Vec<u8>, max: usize) -> (r: Vec<u8>)
    ensures
        r@ == clip_spec(s@, max as int),
{
    if s.len() <= max {
        let mut out: Vec<u8> = Vec::new();
        let mut i: usize = 0;
        while i < s.len()
            invariant
                i <= s.len(),
                out@ == s@.take(i as int),
            decreases s.len() - i,
        {
            out.push(s[i]);
            proof {
                assert(out@ =~= s@.take(i + 1));
            }
            i = i + 1;
        }
        proof {
            assert(out@ =~= s@);
        }
        out
    } else {
        let mut out: Vec<u8> = Vec::new();
        let mut i: usize = 0;
        while i < max
            invariant
                i <= max,
                max < s.len(),
                out@ == s@.take(i as int),
            decreases max - i,
        {
            out.push(s[i]);
            proof {
                assert(out@ =~= s@.take(i + 1));
            }
            i = i + 1;
        }
        out.push(0x2e);
        out.push(0x2e);
        out.push(0x2e);
        out.push(0x5b);
        out.push(0x74);
        out.push(0x72);
        out.push(0x75);
        out.push(0x6e);
        out.push(0x63);
        out.push(0x61);
        out.push(0x74);
        out.push(0x65);
        out.push(0x64);
        out.push(0x20);
        proof {
            assert(out@ =~= s@.take(max as int) + clip_mark());
        }
        let dropped: u64 = (s.len() - max) as u64;
        let dec: Vec<u8> = u64_to_dec(dropped);
        let mut j: usize = 0;
        while j < dec.len()
            invariant
                j <= dec@.len(),
                dec@ == dec_spec(((s@.len() - max) as u64)),
                max < s@.len(),
                out@ == s@.take(max as int) + clip_mark() + dec@.take(j as int),
            decreases dec.len() - j,
        {
            out.push(dec[j]);
            proof {
                assert(out@ =~= s@.take(max as int) + clip_mark() + dec@.take(j + 1));
            }
            j = j + 1;
        }
        proof {
            assert(dec@.take(dec@.len() as int) =~= dec@);
        }
        out.push(0x20);
        out.push(0x62);
        out.push(0x79);
        out.push(0x74);
        out.push(0x65);
        out.push(0x73);
        out.push(0x5d);
        proof {
            assert(out@ =~= s@.take(max as int) + clip_mark() + dec_spec(
                ((s@.len() - max) as u64),
            ) + clip_tail());
        }
        out
    }
}

} // verus!
