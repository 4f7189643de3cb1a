//! Archive entry-path sanitization.
//!
//! An entry's stored path is untrusted.  Both `/` and `\` count as
//! separators; empty and `.` segments are dropped; a `..` segment, a leading
//! separator, or a drive designator rejects the entry outright — traversal
//! attempts are hard failures, never silently clamped.

use vstd::prelude::*;

use crate::paths::push_all;

verus! {

/// Separators an archive path may use.
pub open spec fn zsep(b: u8) -> bool {
    b == 0x2f || b == 0x5c
}

/// Closing out one segment: `(rejected, joined-so-far)`.  Empty and `.`
/// segments vanish; `..` rejects; anything else is appended under `/`.
pub open spec fn san_flush(done: Seq<u8>, cur: Seq<u8>) -> (bool, Seq<u8>) {
    if cur.len() == 0 || cur == seq![0x2eu8] {
        (false, done)
    } else if cur == seq![0x2eu8, 0x2eu8] {
        (true, done)
    } else if done.len() == 0 {
        (false, cur)
    } else {
        (false, done + seq![0x2fu8] + cur)
    }
}

/// Left-to-right sanitizer state over the raw path bytes:
/// `(rejected, joined segments, segment being read)`.
pub open spec fn san_state(s: Seq<u8>) -> (bool, Seq<u8>, Seq<u8>)
    decreases s.len(),
{
    if s.len() == 0 {
        (false, Seq::empty(), Seq::empty())
    } else {
        let st = san_state(s.drop_last());
        if st.0 {
            st
        } else if zsep(s.last()) {
            let f = san_flush(st.1, st.2);
            (f.0, f.1, Seq::empty())
        } else {
            (st.0, st.1, st.2.push(s.last()))
        }
    }
}

/// The sanitized relative path of a stored entry name, or `None` when the
/// name is empty, absolute, a drive path, traversing, or all-droppable.
pub open spec fn sanitize_entry_spec(s: Seq<u8>) -> Option<Seq<u8>> {
    if s.len() == 0 {
        None
    } else if zsep(s[0]) {
        None
    } else if s.len() >= 2 && s[1] == 0x3a {
        None
    } else {
        let st = san_state(s);
        if st.0 {
            None
        } else {
            let f = san_flush(st.1, st.2);
            if f.0 {
                None
            } else if f.1.len() == 0 {
                None
            } else {
                Some(f.1)
            }
        }
    }
}

/// Somewhere in `s` stands a whole `..` segment.
pub open spec fn has_dotdot(s: Seq<u8>) -> bool {
    exists|i: int|
        0 <= i && i + 2 <= s.len() && #[trigger] s[i] == 0x2e && s[i + 1] == 0x2e && (i == 0
            || zsep(s[i - 1])) && (i + 2 == s.len() || zsep(s[i + 2]))
}

proof fn lemma_san_bad_absorbs(s: Seq<u8>, i: int)
    requires
        0 <= i <= s.len(),
        san_state(s.take(i)).0,
    ensures
        san_state(s).0,
    decreases s.len() - i,
{
    if i == s.len() {
        assert(s.take(i) =~= s);
    } else {
        assert(s.take(i + 1).drop_last() =~= s.take(i));
        assert(san_state(s.take(i + 1)).0);
        lemma_san_bad_absorbs(s, i + 1);
    }
}

/// A path with a `..` segment never sanitizes: traversal is always rejected.
pub proof fn lemma_dotdot_rejected(s: Seq<u8>)
    requires
        has_dotdot(s),
    ensures
        sanitize_entry_spec(s) is None,
{
    let i = choose|i: int|
        0 <= i && i + 2 <= s.len() && #[trigger] s[i] == 0x2e && s[i + 1] == 0x2e && (i == 0
            || zsep(s[i - 1])) && (i + 2 == s.len() || zsep(s[i + 2]));
    if s.len() == 0 || zsep(s[0]) || (s.len() >= 2 && s[1] == 0x3a) {
    } else {
        let st_i = san_state(s.take(i));
        if st_i.0 {
            lemma_san_bad_absorbs(s, i);
        } else {
            // After a separator (or at the start) the current segment is empty.
            if i > 0 {
                assert(s.take(i).drop_last() =~= s.take(i - 1));
                assert(s.take(i).last() == s[i - 1]);
                assert(st_i.2 =~= Seq::<u8>::empty());
            } else {
                assert(s.take(0) =~= Seq::<u8>::empty());
            }
            assert(st_i.2 =~= Seq::<u8>::empty());
            assert(s.take(i + 1).drop_last() =~= s.take(i));
            assert(s.take(i + 1).last() == s[i]);
            let st1 = san_state(s.take(i + 1));
            assert(!zsep(0x2e));
            assert(st1 == (false, st_i.1, st_i.2.push(0x2eu8)));
            assert(s.take(i + 2).drop_last() =~= s.take(i + 1));
            assert(s.take(i + 2).last() == s[i + 1]);
            let st2 = san_state(s.take(i + 2));
            assert(st2.2 =~= seq![0x2eu8, 0x2eu8]);
            if i + 2 == s.len() {
                assert(s.take(i + 2) =~= s);
                assert(san_flush(st2.1, st2.2).0);
            } else {
                assert(zsep(s[i + 2]));
                assert(s.take(i + 3).drop_last() =~= s.take(i + 2));
                assert(s.take(i + 3).last() == s[i + 2]);
                assert(san_flush(st2.1, st2.2).0);
                assert(san_state(s.take(i + 3)).0);
                lemma_san_bad_absorbs(s, i + 3);
            }
        }
    }
}

/// Sanitize a stored entry path, exactly as `sanitize_entry_spec` describes.
pub fn sanitize_zip_entry_path(name: &Vec<u8>) -> (r: Option<Vec<u8>>)
    ensures
        match r {
            Some(p) => sanitize_entry_spec(name@) == Some(p@),
            None => sanitize_entry_spec(name@) is None,
        },
{
    if name.len() == 0 {
        return None;
    }
    let b0: u8 = name[0];
    if b0 == 0x2f || b0 == 0x5c {
        return None;
    }
    if name.len() >= 2 && name[1] == 0x3a {
        return None;
    }
    let mut done: Vec<u8> = Vec::new();
    let mut cur: Vec<u8> = Vec::new();
    let mut i: usize = 0;
    while i < name.len()
        invariant
            i <= name@.len(),
            san_state(name@.take(i as int)) == (false, done@, cur@),
        decreases name@.len() - i,
    {
        let ghost st = san_state(name@.take(i as int));
        let b: u8 = name[i];
        proof {
            assert(name@.take(i + 1).drop_last() =~= name@.take(i as int));
            assert(name@.take(i + 1).last() == b);
        }
        if b == 0x2f || b == 0x5c {
            if cur.len() == 0 || (cur.len() == 1 && cur[0] == 0x2e) {
                proof {
                    if cur@.len() == 1 && cur@[0] == 0x2e {
                        assert(cur@ =~= seq![0x2eu8]);
                    }
                    assert(san_flush(done@, cur@) == (false, done@));
                }
                cur = Vec::new();
            } else if cur.len() == 2 && cur[0] == 0x2e && cur[1] == 0x2e {
                proof {
                    assert(cur@ =~= seq![0x2eu8, 0x2eu8]);
                    assert(san_state(name@.take(i + 1)).0);
                    lemma_san_bad_absorbs(name@, i + 1);
                }
                return None;
            } else {
                proof {
                    assert(cur@ != seq![0x2eu8]);
                    assert(cur@ != seq![0x2eu8, 0x2eu8]);
                }
                if done.len() == 0 {
                    done = cur;
                } else {
                    done.push(0x2f);
                    push_all(&mut done, &cur);
                    proof {
                        assert(done@ =~= san_flush(st.1, st.2).1);
                    }
                }
                cur = Vec::new();
            }
        } else {
            cur.push(b);
        }
        i = i + 1;
    }
    proof {
        assert(name@.take(name@.len() as int) =~= name@);
    }
    // Final segment.
    if cur.len() == 0 || (cur.len() == 1 && cur[0] == 0x2e) {
        proof {
            if cur@.len() == 1 && cur@[0] == 0x2e {
                assert(cur@ =~= seq![0x2eu8]);
            }
        }
        if done.len() == 0 {
            return None;
        }
        return Some(done);
    }
    if cur.len() == 2 && cur[0] == 0x2e && cur[1] == 0x2e {
        proof {
            assert(cur@ =~= seq![0x2eu8, 0x2eu8]);
        }
        return None;
    }
    proof {
        assert(cur@ != seq![0x2eu8]);
        assert(cur@ != seq![0x2eu8, 0x2eu8]);
    }
    if done.len() == 0 {
        return Some(cur);
    }
    done.push(0x2f);
    push_all(&mut done, &cur);
    proof {
        assert(done@ =~= san_flush(san_state(name@).1, san_state(name@).2).1);
    }
    Some(done)
}

} // verus!
