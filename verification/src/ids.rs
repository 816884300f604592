//! Persistent identifiers for paths, and sets of them.
//!
//! A persistent identifier is an opaque `u64` token derived from a path. The
//! deriving strategy is chosen by the caller through [`PersistentIdMaker`]:
//! the trait's contract pins the exec method to its own pure spec function,
//! so equal paths always yield equal identifiers. [`DefaultIdMaker`] is a
//! ready-made strategy folding the path through an FNV-style mix.
//! [`IdSet`] is the deduplicated set the search collects identifiers in.

use vstd::prelude::*;

use crate::tree::{path_view, JsonPointerSegment, SegView};

verus! {

/// A caller-chosen, pure strategy turning a path into a persistent `u64`
/// identifier. The exec method must return exactly what the spec function
/// says, so the mapping is deterministic across calls.
pub trait PersistentIdMaker {
    /// The identifier of a path, as a mathematical function.
    spec fn id_spec(&self, path: Seq<SegView>) -> u64;

    /// Computes the identifier of `path`.
    fn make_persistent_id(&self, path: &[JsonPointerSegment]) -> (r: u64)
        ensures
            r == self.id_spec(path_view(path@)),
    ;
}

pub const FNV_OFFSET: u64 = 0xcbf29ce484222325;

pub const FNV_PRIME: u64 = 0x100000001b3;

/// One mixing step: fold `x` into the running state `h`.
pub open spec fn mix(h: u64, x: u64) -> u64 {
    vstd::wrapping::u64_specs::wrapping_mul(h ^ x, FNV_PRIME)
}

/// Fold every character of `s` into `h`.
pub open spec fn mix_chars(h: u64, s: Seq<char>) -> u64
    decreases s.len(),
{
    if s.len() == 0 {
        h
    } else {
        mix_chars(mix(h, s[0] as u64), s.drop_first())
    }
}

/// Fold one path segment into `h`; keys and indices are tagged apart.
pub open spec fn mix_seg(h: u64, s: SegView) -> u64 {
    match s {
        SegView::Key(k) => mix_chars(mix(h, 1), k),
        SegView::Index(i) => mix(mix(h, 2), i as u64),
    }
}

/// Fold a whole path into `h`, segment by segment.
pub open spec fn mix_path(h: u64, p: Seq<SegView>) -> u64
    decreases p.len(),
{
    if p.len() == 0 {
        h
    } else {
        mix_path(mix_seg(h, p[0]), p.drop_first())
    }
}

/// The default identifier strategy: an FNV-style fold over the path.
pub struct DefaultIdMaker;

impl DefaultIdMaker {
    fn mix_exec(h: u64, x: u64) -> (r: u64)
        ensures
            r == mix(h, x),
    {
        (h ^ x).wrapping_mul(FNV_PRIME)
    }

    fn mix_seg_exec(h: u64, seg: &JsonPointerSegment) -> (r: u64)
        ensures
            r == mix_seg(h, seg@),
    {
        match seg {
            JsonPointerSegment::Key(k) => {
                let mut h2 = Self::mix_exec(h, 1);
                let cs = crate::text::chars_of(k.as_str());
                let n = cs.len();
                let mut i: usize = 0;
                proof {
                    assert(cs@.skip(0) =~= cs@);
                }
                while i < n
                    invariant
                        n == cs@.len(),
                        i <= n,
                        cs@ == k@,
                        mix_chars(h2, cs@.skip(i as int)) == mix_chars(Self::mix_exec_start(h), k@),
                    decreases n - i,
                {
                    proof {
                        assert(cs@.skip(i as int)[0] == cs@[i as int]);
                        assert(cs@.skip(i as int).drop_first() =~= cs@.skip(i as int + 1));
                    }
                    h2 = Self::mix_exec(h2, cs[i] as u64);
                    i = i + 1;
                }
                proof {
                    assert(cs@.skip(n as int) =~= Seq::<char>::empty());
                }
                h2
            },
            JsonPointerSegment::Index(idx) => {
                let h2 = Self::mix_exec(h, 2);
                Self::mix_exec(h2, *idx as u64)
            },
        }
    }

    /// The state a key fold starts from.
    spec fn mix_exec_start(h: u64) -> u64 {
        mix(h, 1)
    }
}

impl PersistentIdMaker for DefaultIdMaker {
    open spec fn id_spec(&self, path: Seq<SegView>) -> u64 {
        mix_path(FNV_OFFSET, path)
    }

    fn make_persistent_id(&self, path: &[JsonPointerSegment]) -> (r: u64) {
        let ghost pv = path_view(path@);
        let n = path.len();
        let mut h: u64 = FNV_OFFSET;
        let mut i: usize = 0;
        proof {
            assert(pv.skip(0) =~= pv);
        }
        while i < n
            invariant
                n == path@.len(),
                i <= n,
                pv == path_view(path@),
                pv.len() == n,
                mix_path(h, pv.skip(i as int)) == mix_path(FNV_OFFSET, pv),
            decreases n - i,
        {
            proof {
                assert(pv.skip(i as int)[0] == pv[i as int]);
                assert(pv.skip(i as int).drop_first() =~= pv.skip(i as int + 1));
            }
            h = Self::mix_seg_exec(h, vstd::slice::slice_index_get(path, i));
            i = i + 1;
        }
        proof {
            assert(pv.skip(n as int) =~= Seq::<SegView>::empty());
        }
        h
    }
}

/// A deduplicated set of persistent identifiers.
#[derive(Debug)]
pub struct IdSet {
    ids: Vec<u64>,
}

impl View for IdSet {
    type V = Set<u64>;

    closed spec fn view(&self) -> Set<u64> {
        self.ids@.to_set()
    }
}

impl IdSet {
    #[verifier::type_invariant]
    spec fn inv(self) -> bool {
        self.ids@.no_duplicates()
    }

    /// The empty set.
    pub fn new() -> (r: Self)
        ensures
            r@ == Set::<u64>::empty(),
    {
        let r = IdSet { ids: Vec::new() };
        proof {
            assert(r@ =~= Set::<u64>::empty());
        }
        r
    }

    /// Whether `x` is a member.
    pub fn contains(&self, x: u64) -> (r: bool)
        ensures
            r == self@.contains(x),
    {
        let n = self.ids.len();
        let mut i: usize = 0;
        while i < n
            invariant
                n == self.ids@.len(),
                i <= n,
                forall|j: int| 0 <= j < i ==> self.ids@[j] != x,
            decreases n - i,
        {
            if self.ids[i] == x {
                return true;
            }
            i = i + 1;
        }
        proof {
            assert(!self.ids@.contains(x));
        }
        false
    }

    /// Adds `x`; the set afterwards is the old set with `x` inserted.
    pub fn insert(&mut self, x: u64)
        ensures
            final(self)@ == old(self)@.insert(x),
    {
        proof {
            use_type_invariant(&*self);
        }
        if self.contains(x) {
            proof {
                assert(self@ =~= self@.insert(x));
            }
        } else {
            let ghost oldids = self.ids@;
            let mut v: Vec<u64> = Vec::new();
            core::mem::swap(&mut v, &mut self.ids);
            v.push(x);
            self.ids = v;
            proof {
                assert forall|p: int, q: int|
                    0 <= p < self.ids@.len() && 0 <= q < self.ids@.len() && p != q implies self.ids@[p]
                    != self.ids@[q] by {
                    if p < oldids.len() && q < oldids.len() {
                    } else {
                        assert(oldids.contains(x) == false);
                    }
                }
                oldids.lemma_push_to_set_commute(x);
                assert(self.ids@ =~= oldids.push(x));
                assert(self.ids@.to_set() =~= oldids.to_set().insert(x));
            }
        }
    }

    /// The number of members.
    pub fn len(&self) -> (r: usize)
        ensures
            r == self@.len(),
    {
        proof {
            use_type_invariant(&*self);
            self.ids@.unique_seq_to_set();
        }
        self.ids.len()
    }

    /// The members, in some order and each exactly once.
    pub fn to_vec(&self) -> (r: Vec<u64>)
        ensures
            r@.to_set() == self@,
            r@.no_duplicates(),
    {
        proof {
            use_type_invariant(self);
        }
        let n = self.ids.len();
        let mut r: Vec<u64> = Vec::new();
        let mut i: usize = 0;
        while i < n
            invariant
                n == self.ids@.len(),
                i <= n,
                r@ == self.ids@.take(i as int),
            decreases n - i,
        {
            r.push(self.ids[i]);
            proof {
                assert(r@ =~= self.ids@.take(i as int + 1));
            }
            i = i + 1;
        }
        proof {
            assert(r@ =~= self.ids@);
        }
        r
    }

    /// Removes every member.
    pub fn clear(&mut self)
        ensures
            final(self)@ == Set::<u64>::empty(),
    {
        self.ids = Vec::new();
        proof {
            assert(self@ =~= Set::<u64>::empty());
        }
    }
}

} // verus!
