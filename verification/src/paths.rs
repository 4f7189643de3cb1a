//! Byte-level path model.
//!
//! Paths are byte strings with `/` separators.  `normalize_lexical` resolves
//! `.` and `..` purely lexically (no symlink resolution), and `is_within_dir`
//! checks component-wise containment of one normalized path in another.

use vstd::prelude::*;

verus! {

pub open spec fn is_sep(b: u8) -> bool {
    b == 0x2f
}

/// `split('/')` as a left fold: accumulated complete segments plus the
/// segment still being read.
pub open spec fn split_state(s: Seq<u8>) -> (Seq<Seq<u8>>, Seq<u8>)
    decreases s.len(),
{
    if s.len() == 0 {
        (Seq::empty(), Seq::empty())
    } else {
        let st = split_state(s.drop_last());
        if is_sep(s.last()) {
            (st.0.push(st.1), Seq::empty())
        } else {
            (st.0, st.1.push(s.last()))
        }
    }
}

/// The `/`-separated segments of `s`, empty segments included.
pub open spec fn split_spec(s: Seq<u8>) -> Seq<Seq<u8>> {
    split_state(s).0.push(split_state(s).1)
}

/// One step of lexical normalization: drop empty and `.` segments, let `..`
/// remove the previous kept segment, keep everything else.
pub open spec fn norm_push(acc: Seq<Seq<u8>>, c: Seq<u8>) -> Seq<Seq<u8>> {
    if c.len() == 0 || c == seq![0x2eu8] {
        acc
    } else if c == seq![0x2eu8, 0x2eu8] {
        if acc.len() > 0 {
            acc.drop_last()
        } else {
            acc
        }
    } else {
        acc.push(c)
    }
}

pub open spec fn norm_rec(cs: Seq<Seq<u8>>) -> Seq<Seq<u8>>
    decreases cs.len(),
{
    if cs.len() == 0 {
        Seq::empty()
    } else {
        norm_push(norm_rec(cs.drop_last()), cs.last())
    }
}

/// The components of `p` after lexical `.`/`..` resolution.
pub open spec fn normalize_spec(p: Seq<u8>) -> Seq<Seq<u8>> {
    norm_rec(split_spec(p))
}

pub open spec fn is_seq_prefix<A>(a: Seq<A>, b: Seq<A>) -> bool {
    a.len() <= b.len() && a == b.take(a.len() as int)
}

/// `a` joined to `b` with a single separator.
pub open spec fn join_spec(a: Seq<u8>, b: Seq<u8>) -> Seq<u8> {
    a + seq![0x2fu8] + b
}

/// Append a copy of every byte of `src` to `out`.
pub fn push_all(out: &mut Vec<u8>, src: &Vec<u8>)
    ensures
        final(out)@ == old(out)@ + src@,
{
    let mut i: usize = 0;
    while i < src.len()
        invariant
            i <= src@.len(),
            out@ == old(out)@ + src@.take(i as int),
        decreases src@.len() - i,
    {
        out.push(src[i]);
        proof {
            assert(out@ =~= old(out)@ + src@.take(i + 1));
        }
        i = i + 1;
    }
    proof {
        assert(out@ =~= old(out)@ + src@);
    }
}

/// `base/rel` as a byte path.
pub fn join(base: &Vec<u8>, rel: &Vec<u8>) -> (r: Vec<u8>)
    ensures
        r@ == join_spec(base@, rel@),
{
    let mut out: Vec<u8> = Vec::new();
    push_all(&mut out, base);
    out.push(0x2f);
    push_all(&mut out, rel);
    proof {
        assert(out@ =~= join_spec(base@, rel@));
    }
    out
}

pub fn bytes_eq(a: &Vec<u8>, b: &Vec<u8>) -> (r: bool)
    ensures
        r == (a@ == b@),
{
    if a.len() != b.len() {
        proof {
            assert(a@ != b@);
        }
        return false;
    }
    let mut i: usize = 0;
    while i < a.len()
        invariant
            i <= a@.len(),
            a@.len() == b@.len(),
            forall|k: int| 0 <= k < i ==> a@[k] == b@[k],
        decreases a@.len() - i,
    {
        if a[i] != b[i] {
            proof {
                assert(a@ != b@);
            }
            return false;
        }
        i = i + 1;
    }
    proof {
        assert(a@ =~= b@);
    }
    true
}

/// The `/`-separated segments of `p`, empty segments included.
pub fn split_components(p: &Vec<u8>) -> (r: Vec<Vec<u8>>)
    ensures
        r.deep_view() == split_spec(p@),
{
    let mut done: Vec<Vec<u8>> = Vec::new();
    let mut cur: Vec<u8> = Vec::new();
    let mut i: usize = 0;
    while i < p.len()
        invariant
            i <= p@.len(),
            done.deep_view() == split_state(p@.take(i as int)).0,
            cur@ == split_state(p@.take(i as int)).1,
        decreases p@.len() - i,
    {
        let ghost pre = p@.take(i as int);
        let b: u8 = p[i];
        proof {
            assert(p@.take(i + 1).drop_last() =~= pre);
            assert(p@.take(i + 1).last() == b);
        }
        if b == 0x2f {
            done.push(cur);
            cur = Vec::new();
            proof {
                assert(done.deep_view() =~~= split_state(p@.take(i + 1)).0);
            }
        } else {
            cur.push(b);
        }
        i = i + 1;
    }
    proof {
        assert(p@.take(p@.len() as int) =~= p@);
    }
    done.push(cur);
    proof {
        assert(done.deep_view() =~~= split_spec(p@));
    }
    done
}

/// Lexically normalize the components of `p`: empty and `.` segments vanish,
/// `..` removes the segment before it, nothing touches the filesystem.
pub fn normalize_lexical(p: &Vec<u8>) -> (r: Vec<Vec<u8>>)
    ensures
        r.deep_view() == normalize_spec(p@),
{
    let cs: Vec<Vec<u8>> = split_components(p);
    let mut out: Vec<Vec<u8>> = Vec::new();
    let mut i: usize = 0;
    while i < cs.len()
        invariant
            i <= cs.deep_view().len(),
            cs.deep_view() == split_spec(p@),
            cs@.len() == cs.deep_view().len(),
            out.deep_view() == norm_rec(cs.deep_view().take(i as int)),
        decreases cs@.len() - i,
    {
        let ghost pre = cs.deep_view().take(i as int);
        let c: &Vec<u8> = &cs[i];
        proof {
            assert(cs.deep_view().take(i + 1).drop_last() =~= pre);
            assert(cs.deep_view()[i as int] =~= cs@[i as int]@);
            assert(cs.deep_view().take(i + 1).last() == c@);
        }
        if c.len() == 0 || (c.len() == 1 && c[0] == 0x2e) {
            proof {
                if c@.len() == 1 && c@[0] == 0x2e {
                    assert(c@ =~= seq![0x2eu8]);
                }
            }
        } else if c.len() == 2 && c[0] == 0x2e && c[1] == 0x2e {
            proof {
                assert(c@ =~= seq![0x2eu8, 0x2eu8]);
            }
            if out.len() > 0 {
                out.pop();
            }
            proof {
                assert(out.deep_view() =~~= norm_rec(cs.deep_view().take(i + 1)));
            }
        } else {
            proof {
                assert(c@ != seq![0x2eu8]);
                assert(c@ != seq![0x2eu8, 0x2eu8]);
            }
            let copy: Vec<u8> = clone_bytes(c);
            out.push(copy);
            proof {
                assert(out.deep_view() =~~= norm_rec(cs.deep_view().take(i + 1)));
            }
        }
        i = i + 1;
    }
    proof {
        assert(cs.deep_view().take(cs.deep_view().len() as int) =~= cs.deep_view());
    }
    out
}

pub fn clone_bytes(src: &Vec<u8>) -> (r: Vec<u8>)
    ensures
        r@ == src@,
{
    let mut out: Vec<u8> = Vec::new();
    push_all(&mut out, src);
    proof {
        assert(out@ =~= src@);
    }
    out
}

/// Does `out_path` stay inside `base`?  Both are normalized lexically and
/// the containment is judged component by component, never by the
/// filesystem.  This is the extractor's second, independent escape check.
pub fn is_within_dir(out_path: &Vec<u8>, base: &Vec<u8>) -> (r: bool)
    ensures
        r == is_seq_prefix(normalize_spec(base@), normalize_spec(out_path@)),
{
    let o: Vec<Vec<u8>> = normalize_lexical(out_path);
    let b: Vec<Vec<u8>> = normalize_lexical(base);
    if b.len() > o.len() {
        return false;
    }
    let mut i: usize = 0;
    while i < b.len()
        invariant
            i <= b@.len(),
            b@.len() <= o@.len(),
            b.deep_view() == normalize_spec(base@),
            o.deep_view() == normalize_spec(out_path@),
            b@.len() == b.deep_view().len(),
            o@.len() == o.deep_view().len(),
            forall|k: int| 0 <= k < i ==> b.deep_view()[k] == o.deep_view()[k],
        decreases b@.len() - i,
    {
        let eq: bool = bytes_eq(&b[i], &o[i]);
        proof {
            assert(b.deep_view()[i as int] =~= b@[i as int]@);
            assert(o.deep_view()[i as int] =~= o@[i as int]@);
        }
        if !eq {
            proof {
                assert(b.deep_view()[i as int] != o.deep_view()[i as int]);
                assert(!is_seq_prefix(normalize_spec(base@), normalize_spec(out_path@)));
            }
            return false;
        }
        i = i + 1;
    }
    proof {
        assert(b.deep_view() =~= o.deep_view().take(b.deep_view().len() as int));
    }
    true
}

} // verus!
