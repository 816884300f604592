//! The search term, and the path-matching traversal.
//!
//! [`SearchTerm`] holds a validated, ASCII-lowercased query. Its
//! [`SearchTerm::find_matching_paths_in`] walks a tree depth-first and
//! returns the persistent identifiers of every prefix of every matching
//! path — the containers that must stay expanded to reveal all matches —
//! while registering in a second set the identifier of every expandable
//! node below the root, so the caller can reset unrelated expansion state.

use vstd::prelude::*;
use vstd::slice::slice_subrange;

use crate::ids::{IdSet, PersistentIdMaker};
use crate::text::{
    contains_pattern, contains_seq, find_indices, lemma_lower_seq_idempotent, lower_chars_of,
    lower_seq, nonoverlap_indices,
};
use crate::tree::{
    is_expandable_path, is_match_path, path_view, seg_key_matches, ExpandableType,
    JsonPointerSegment, SegView, TreeValue,
};

verus! {

/// A non-empty, ASCII-lowercased search query. Its view is the stored
/// character sequence.
#[derive(Debug, Hash)]
pub struct SearchTerm {
    chars: Vec<char>,
}

impl View for SearchTerm {
    type V = Seq<char>;

    closed spec fn view(&self) -> Seq<char> {
        self.chars@
    }
}

/// The identifiers of every prefix of `p` shorter than `n` segments: the
/// empty prefix and, for `n` past the length, `p` itself.
pub open spec fn prefix_ids_below<M: PersistentIdMaker>(maker: &M, p: Seq<SegView>, n: int) -> Set<
    u64,
>
    decreases n,
{
    if n <= 0 {
        Set::<u64>::empty()
    } else {
        prefix_ids_below(maker, p, n - 1).insert(maker.id_spec(p.take(n - 1)))
    }
}

/// The identifiers of every prefix of `p`, the empty and the full path
/// included.
pub open spec fn prefix_ids<M: PersistentIdMaker>(maker: &M, p: Seq<SegView>) -> Set<u64> {
    prefix_ids_below(maker, p, p.len() as int + 1)
}

/// The match identifiers contributed by the entries of an expandable node
/// from index `i` on: for each entry, the prefix identifiers of the entry's
/// path when its key matches in an object, and the identifiers from the
/// child's own subtree.
pub open spec fn match_ids_entries<M: PersistentIdMaker>(
    maker: &M,
    entries: Seq<(JsonPointerSegment, TreeValue)>,
    ty: ExpandableType,
    term: Seq<char>,
    prefix: Seq<SegView>,
    i: int,
) -> Set<u64>
    decreases entries, entries.len() - i,
{
    if i < 0 || i >= entries.len() {
        Set::<u64>::empty()
    } else {
        let seg = entries[i].0;
        let child = entries[i].1;
        let key_part = if ty == ExpandableType::Object && seg_key_matches(seg, term) {
            prefix_ids(maker, prefix.push(seg@))
        } else {
            Set::<u64>::empty()
        };
        key_part + match_ids(maker, child, term, prefix.push(seg@)) + match_ids_entries(
            maker,
            entries,
            ty,
            term,
            prefix,
            i + 1,
        )
    }
}

/// The identifiers the traversal of `value` under the ancestry `prefix`
/// records: for every match, the identifier of every prefix of the full path
/// to it.
pub open spec fn match_ids<M: PersistentIdMaker>(
    maker: &M,
    value: TreeValue,
    term: Seq<char>,
    prefix: Seq<SegView>,
) -> Set<u64>
    decreases value, 0int,
{
    match value {
        TreeValue::Base(display) => if contains_seq(lower_seq(display@), term) {
            prefix_ids(maker, prefix)
        } else {
            Set::<u64>::empty()
        },
        TreeValue::Expandable(entries, ty) => match_ids_entries(maker, entries@, ty, term, prefix, 0),
    }
}

/// The reset identifiers contributed by the entries of an expandable node
/// from index `i` on: each entry whose child is itself expandable registers
/// the child's path, and the child's subtree contributes recursively.
pub open spec fn reset_ids_entries<M: PersistentIdMaker>(
    maker: &M,
    entries: Seq<(JsonPointerSegment, TreeValue)>,
    prefix: Seq<SegView>,
    i: int,
) -> Set<u64>
    decreases entries, entries.len() - i,
{
    if i < 0 || i >= entries.len() {
        Set::<u64>::empty()
    } else {
        let seg = entries[i].0;
        let child = entries[i].1;
        let own = if child is Expandable {
            Set::<u64>::empty().insert(maker.id_spec(prefix.push(seg@)))
        } else {
            Set::<u64>::empty()
        };
        own + reset_ids(maker, child, prefix.push(seg@)) + reset_ids_entries(
            maker,
            entries,
            prefix,
            i + 1,
        )
    }
}

/// The identifiers of every expandable node strictly below `value`, under
/// the ancestry `prefix`; matching plays no part here.
pub open spec fn reset_ids<M: PersistentIdMaker>(
    maker: &M,
    value: TreeValue,
    prefix: Seq<SegView>,
) -> Set<u64>
    decreases value, 0int,
{
    match value {
        TreeValue::Base(_) => Set::<u64>::empty(),
        TreeValue::Expandable(entries, _) => reset_ids_entries(maker, entries@, prefix, 0),
    }
}

impl SearchTerm {
    #[verifier::type_invariant]
    spec fn inv(self) -> bool {
        self.chars@.len() > 0 && self.chars@ == lower_seq(self.chars@)
    }

    /// Validates and normalizes a raw query: an empty string yields no term,
    /// anything else yields a term holding the ASCII-lowercased input.
    pub fn parse(search_str: &str) -> (r: Option<SearchTerm>)
        ensures
            r is Some <==> search_str@.len() > 0,
            r is Some ==> r->0@ == lower_seq(search_str@),
    {
        if Self::is_valid(search_str) {
            let chars = lower_chars_of(search_str);
            proof {
                lemma_lower_seq_idempotent(search_str@);
            }
            Some(SearchTerm { chars })
        } else {
            None
        }
    }

    /// Whether a raw query is acceptable: only the empty string is refused.
    pub fn is_valid(search_str: &str) -> (r: bool)
        ensures
            r == (search_str@.len() > 0),
    {
        !search_str.is_empty()
    }

    /// Whether the lowercased `other` contains the term as a substring.
    pub fn matches(&self, other: &str) -> (r: bool)
        ensures
            r == contains_seq(lower_seq(other@), self@),
    {
        let text = lower_chars_of(other);
        contains_pattern(&text, &self.chars)
    }

    /// The start positions of every occurrence of the term in the lowercased
    /// `other`, scanned left to right without overlap.
    pub fn find_match_indices_in(&self, other: &str) -> (r: Vec<usize>)
        ensures
            r@.map_values(|u: usize| u as int) == nonoverlap_indices(
                lower_seq(other@),
                self@,
                0,
            ),
    {
        proof {
            use_type_invariant(self);
        }
        let text = lower_chars_of(other);
        find_indices(&text, &self.chars)
    }

    /// The length of the normalized term, in characters.
    pub fn len(&self) -> (r: usize)
        ensures
            r == self@.len(),
    {
        self.chars.len()
    }

    /// Walks `value` depth-first and returns the identifiers of every prefix
    /// of every matching path. As a side effect the identifier of every
    /// expandable node below the root is inserted into `reset_path_ids`.
    /// When `abbreviate_root` is false and exactly one identifier was
    /// recorded, the lone match sits at the top level and nothing needs
    /// revealing, so the result is emptied instead.
    pub fn find_matching_paths_in<M: PersistentIdMaker>(
        &self,
        value: &TreeValue,
        abbreviate_root: bool,
        make_persistent_id: &M,
        reset_path_ids: &mut IdSet,
    ) -> (r: IdSet)
        ensures
            final(reset_path_ids)@ == old(reset_path_ids)@ + reset_ids(
                make_persistent_id,
                *value,
                Seq::<SegView>::empty(),
            ),
            r@ == (if !abbreviate_root && match_ids(
                make_persistent_id,
                *value,
                self@,
                Seq::<SegView>::empty(),
            ).len() == 1 {
                Set::<u64>::empty()
            } else {
                match_ids(make_persistent_id, *value, self@, Seq::<SegView>::empty())
            }),
    {
        let ghost m_all = match_ids(make_persistent_id, *value, self@, Seq::<SegView>::empty());
        let mut search_match_path_ids = IdSet::new();
        let mut path_segments: Vec<JsonPointerSegment> = Vec::new();

        search_impl(
            value,
            self,
            &mut path_segments,
            &mut search_match_path_ids,
            make_persistent_id,
            reset_path_ids,
        );
        proof {
            assert(path_view(Seq::<JsonPointerSegment>::empty()) =~= Seq::<SegView>::empty());
            assert(search_match_path_ids@ =~= m_all);
        }

        if !abbreviate_root && search_match_path_ids.len() == 1 {
            // The only match was a top level key or value - no need to expand anything.
            search_match_path_ids.clear();
        }

        search_match_path_ids
    }
}

/// Records, for every prefix of the current path, its persistent identifier.
fn update_matches<M: PersistentIdMaker>(
    path_segments: &Vec<JsonPointerSegment>,
    search_match_path_ids: &mut IdSet,
    make_persistent_id: &M,
)
    ensures
        final(search_match_path_ids)@ == old(search_match_path_ids)@ + prefix_ids(
            make_persistent_id,
            path_view(path_segments@),
        ),
{
    let ghost pv = path_view(path_segments@);
    let n = path_segments.len();
    proof {
        assert(pv.len() == n);
        assert(old(search_match_path_ids)@ + prefix_ids_below(make_persistent_id, pv, 0) =~= old(
            search_match_path_ids,
        )@);
    }
    let mut i: usize = 0;
    while i < n
        invariant
            n == path_segments@.len(),
            i <= n,
            pv == path_view(path_segments@),
            pv.len() == n,
            search_match_path_ids@ == old(search_match_path_ids)@ + prefix_ids_below(
                make_persistent_id,
                pv,
                i as int,
            ),
        decreases n - i,
    {
        let id = make_persistent_id.make_persistent_id(
            slice_subrange(path_segments.as_slice(), 0, i),
        );
        proof {
            assert(path_view(path_segments@.subrange(0, i as int)) =~= pv.take(i as int));
        }
        search_match_path_ids.insert(id);
        proof {
            assert(search_match_path_ids@ =~= old(search_match_path_ids)@ + prefix_ids_below(
                make_persistent_id,
                pv,
                i as int + 1,
            ));
        }
        i = i + 1;
    }
    let id = make_persistent_id.make_persistent_id(path_segments.as_slice());
    proof {
        assert(path_view(path_segments@) =~= pv.take(n as int));
    }
    search_match_path_ids.insert(id);
    proof {
        assert(search_match_path_ids@ =~= old(search_match_path_ids)@ + prefix_ids_below(
            make_persistent_id,
            pv,
            n as int + 1,
        ));
    }
}

/// The recursive traversal: leaves match on their display text, object
/// entries additionally on their key, and every expandable child registers
/// its path for resetting.
fn search_impl<M: PersistentIdMaker>(
    value: &TreeValue,
    search_term: &SearchTerm,
    path_segments: &mut Vec<JsonPointerSegment>,
    search_match_path_ids: &mut IdSet,
    make_persistent_id: &M,
    reset_path_ids: &mut IdSet,
)
    ensures
        final(path_segments)@ == old(path_segments)@,
        final(search_match_path_ids)@ == old(search_match_path_ids)@ + match_ids(
            make_persistent_id,
            *value,
            search_term@,
            path_view(old(path_segments)@),
        ),
        final(reset_path_ids)@ == old(reset_path_ids)@ + reset_ids(
            make_persistent_id,
            *value,
            path_view(old(path_segments)@),
        ),
    decreases *value,
{
    let ghost prefix = path_view(path_segments@);
    match value {
        TreeValue::Base(display_value) => {
            if search_term.matches(display_value.as_str()) {
                update_matches(path_segments, search_match_path_ids, make_persistent_id);
            } else {
                proof {
                    assert(search_match_path_ids@ =~= search_match_path_ids@ + Set::<u64>::empty());
                }
            }
            proof {
                assert(reset_path_ids@ =~= reset_path_ids@ + Set::<u64>::empty());
            }
        },
        TreeValue::Expandable(entries, expandable_type) => {
            let ghost ev = entries@;
            let ghost ty = *expandable_type;
            let ghost term = search_term@;
            let n = entries.len();
            proof {
                assert(search_match_path_ids@ + match_ids_entries(
                    make_persistent_id,
                    ev,
                    ty,
                    term,
                    prefix,
                    0,
                ) =~= old(search_match_path_ids)@ + match_ids_entries(
                    make_persistent_id,
                    ev,
                    ty,
                    term,
                    prefix,
                    0,
                ));
                assert(reset_path_ids@ + reset_ids_entries(make_persistent_id, ev, prefix, 0)
                    =~= old(reset_path_ids)@ + reset_ids_entries(make_persistent_id, ev, prefix, 0));
            }
            let mut j: usize = 0;
            while j < n
                invariant
                    n == ev.len(),
                    j <= n,
                    ev == entries@,
                    *value == (TreeValue::Expandable(*entries, *expandable_type)),
                    ty == *expandable_type,
                    term == search_term@,
                    prefix == path_view(old(path_segments)@),
                    path_segments@ == old(path_segments)@,
                    search_match_path_ids@ + match_ids_entries(
                        make_persistent_id,
                        ev,
                        ty,
                        term,
                        prefix,
                        j as int,
                    ) == old(search_match_path_ids)@ + match_ids_entries(
                        make_persistent_id,
                        ev,
                        ty,
                        term,
                        prefix,
                        0,
                    ),
                    reset_path_ids@ + reset_ids_entries(make_persistent_id, ev, prefix, j as int)
                        == old(reset_path_ids)@ + reset_ids_entries(
                        make_persistent_id,
                        ev,
                        prefix,
                        0,
                    ),
                decreases n - j,
            {
                let ghost match_before = search_match_path_ids@;
                let ghost reset_before = reset_path_ids@;
                let ghost segv = ev[j as int].0@;
                let ghost child = ev[j as int].1;

                let property = entries[j].0.duplicate();
                path_segments.push(property);
                proof {
                    assert(path_view(path_segments@) =~= prefix.push(segv));
                }

                if entries[j].1.is_expandable() {
                    let id = make_persistent_id.make_persistent_id(path_segments.as_slice());
                    reset_path_ids.insert(id);
                }

                // Ignore matches for indices in an array.
                if holds_object_key_match(entries, j, expandable_type, search_term) {
                    update_matches(path_segments, search_match_path_ids, make_persistent_id);
                }
                proof {
                    assert(search_match_path_ids@ =~= match_before + (if ty
                        == ExpandableType::Object && seg_key_matches(ev[j as int].0, term) {
                        prefix_ids(make_persistent_id, prefix.push(segv))
                    } else {
                        Set::<u64>::empty()
                    }));
                }

                proof {
                    assert(*value == (TreeValue::Expandable(*entries, *expandable_type)));
                    assert(decreases_to!(*value => value->Expandable_0));
                    assert(value->Expandable_0 == *entries);
                    assert(decreases_to!(*entries => entries@));
                    assert(decreases_to!(entries@ => entries@[j as int]));
                    assert(decreases_to!(entries@[j as int] => entries@[j as int].1));
                }
                search_impl(
                    &entries[j].1,
                    search_term,
                    path_segments,
                    search_match_path_ids,
                    make_persistent_id,
                    reset_path_ids,
                );

                let _popped = path_segments.pop();
                proof {
                    assert(path_segments@ =~= old(path_segments)@);
                    assert(reset_path_ids@ =~= reset_before + ((if child is Expandable {
                        Set::<u64>::empty().insert(make_persistent_id.id_spec(prefix.push(segv)))
                    } else {
                        Set::<u64>::empty()
                    }) + reset_ids(make_persistent_id, child, prefix.push(segv))));
                    assert(search_match_path_ids@ + match_ids_entries(
                        make_persistent_id,
                        ev,
                        ty,
                        term,
                        prefix,
                        j as int + 1,
                    ) =~= match_before + match_ids_entries(
                        make_persistent_id,
                        ev,
                        ty,
                        term,
                        prefix,
                        j as int,
                    ));
                    assert(reset_path_ids@ + reset_ids_entries(
                        make_persistent_id,
                        ev,
                        prefix,
                        j as int + 1,
                    ) =~= reset_before + reset_ids_entries(
                        make_persistent_id,
                        ev,
                        prefix,
                        j as int,
                    ));
                }
                j = j + 1;
            }
            proof {
                assert(search_match_path_ids@ =~= search_match_path_ids@ + match_ids_entries(
                    make_persistent_id,
                    ev,
                    ty,
                    term,
                    prefix,
                    n as int,
                ));
                assert(reset_path_ids@ =~= reset_path_ids@ + reset_ids_entries(
                    make_persistent_id,
                    ev,
                    prefix,
                    n as int,
                ));
            }
        },
    }
}

/// The match identifiers a single entry of an expandable node contributes.
pub open spec fn entry_match_ids<M: PersistentIdMaker>(
    maker: &M,
    entry: (JsonPointerSegment, TreeValue),
    ty: ExpandableType,
    term: Seq<char>,
    prefix: Seq<SegView>,
) -> Set<u64> {
    let key_part = if ty == ExpandableType::Object && seg_key_matches(entry.0, term) {
        prefix_ids(maker, prefix.push(entry.0@))
    } else {
        Set::<u64>::empty()
    };
    key_part + match_ids(maker, entry.1, term, prefix.push(entry.0@))
}

/// The reset identifiers a single entry of an expandable node contributes.
pub open spec fn entry_reset_ids<M: PersistentIdMaker>(
    maker: &M,
    entry: (JsonPointerSegment, TreeValue),
    prefix: Seq<SegView>,
) -> Set<u64> {
    let own = if entry.1 is Expandable {
        Set::<u64>::empty().insert(maker.id_spec(prefix.push(entry.0@)))
    } else {
        Set::<u64>::empty()
    };
    own + reset_ids(maker, entry.1, prefix.push(entry.0@))
}

proof fn lemma_prefix_ids_below_contains<M: PersistentIdMaker>(
    maker: &M,
    p: Seq<SegView>,
    n: int,
    i: int,
)
    requires
        0 <= i < n,
    ensures
        prefix_ids_below(maker, p, n).contains(maker.id_spec(p.take(i))),
    decreases n,
{
    if i < n - 1 {
        lemma_prefix_ids_below_contains(maker, p, n - 1, i);
    }
}

/// The prefix-identifier set of `p` holds the identifier of every prefix of
/// `p`, the empty and the full one included.
pub proof fn lemma_prefix_ids_contains<M: PersistentIdMaker>(maker: &M, p: Seq<SegView>, i: int)
    requires
        0 <= i <= p.len(),
    ensures
        prefix_ids(maker, p).contains(maker.id_spec(p.take(i))),
{
    lemma_prefix_ids_below_contains(maker, p, p.len() as int + 1, i);
}

proof fn lemma_match_entries_cover<M: PersistentIdMaker>(
    maker: &M,
    entries: Seq<(JsonPointerSegment, TreeValue)>,
    ty: ExpandableType,
    term: Seq<char>,
    prefix: Seq<SegView>,
    k: int,
    j: int,
    x: u64,
)
    requires
        0 <= k <= j < entries.len(),
        entry_match_ids(maker, entries[j], ty, term, prefix).contains(x),
    ensures
        match_ids_entries(maker, entries, ty, term, prefix, k).contains(x),
    decreases j - k,
{
    if k < j {
        lemma_match_entries_cover(maker, entries, ty, term, prefix, k + 1, j, x);
    }
}

proof fn lemma_reset_entries_cover<M: PersistentIdMaker>(
    maker: &M,
    entries: Seq<(JsonPointerSegment, TreeValue)>,
    prefix: Seq<SegView>,
    k: int,
    j: int,
    x: u64,
)
    requires
        0 <= k <= j < entries.len(),
        entry_reset_ids(maker, entries[j], prefix).contains(x),
    ensures
        reset_ids_entries(maker, entries, prefix, k).contains(x),
    decreases j - k,
{
    if k < j {
        lemma_reset_entries_cover(maker, entries, prefix, k + 1, j, x);
    }
}

/// Ancestor closure: when the path `p` leads to a match, the match set under
/// the ancestry `prefix` holds the identifier of every prefix of the full
/// path `prefix + p`, the empty and the full one included.
pub proof fn lemma_ancestor_closure<M: PersistentIdMaker>(
    maker: &M,
    value: TreeValue,
    term: Seq<char>,
    prefix: Seq<SegView>,
    p: Seq<SegView>,
    i: int,
)
    requires
        is_match_path(value, term, p),
        0 <= i <= prefix.len() + p.len(),
    ensures
        match_ids(maker, value, term, prefix).contains(maker.id_spec((prefix + p).take(i))),
    decreases value,
{
    match value {
        TreeValue::Base(_) => {
            assert(prefix + p =~= prefix);
            lemma_prefix_ids_contains(maker, prefix, i);
        },
        TreeValue::Expandable(entries, ty) => {
            let j = choose|j: int|
                {
                    &&& 0 <= j < entries@.len()
                    &&& p.len() >= 1
                    &&& p[0] == (#[trigger] entries@[j]).0@
                    &&& {
                        ||| is_match_path(entries@[j].1, term, p.drop_first())
                        ||| {
                            &&& p.len() == 1
                            &&& ty == ExpandableType::Object
                            &&& seg_key_matches(entries@[j].0, term)
                        }
                    }
                };
            let seg = entries@[j].0;
            let child = entries@[j].1;
            let p2 = p.drop_first();
            let prefix2 = prefix.push(seg@);
            assert(prefix + p =~= prefix2 + p2);
            let x = maker.id_spec((prefix + p).take(i));
            if is_match_path(child, term, p2) {
                lemma_ancestor_closure(maker, child, term, prefix2, p2, i);
                assert(entry_match_ids(maker, entries@[j], ty, term, prefix).contains(x));
            } else {
                assert(prefix + p =~= prefix2);
                lemma_prefix_ids_contains(maker, prefix2, i);
                assert(entry_match_ids(maker, entries@[j], ty, term, prefix).contains(x));
            }
            lemma_match_entries_cover(maker, entries@, ty, term, prefix, 0, j, x);
        },
    }
}

/// Reset completeness: the reset set under the ancestry `prefix` holds the
/// identifier of the path to every expandable node strictly below `value`.
pub proof fn lemma_reset_closure<M: PersistentIdMaker>(
    maker: &M,
    value: TreeValue,
    prefix: Seq<SegView>,
    q: Seq<SegView>,
)
    requires
        q.len() >= 1,
        is_expandable_path(value, q),
    ensures
        reset_ids(maker, value, prefix).contains(maker.id_spec(prefix + q)),
    decreases value,
{
    match value {
        TreeValue::Base(_) => {
        },
        TreeValue::Expandable(entries, ty) => {
            let j = choose|j: int|
                {
                    &&& 0 <= j < entries@.len()
                    &&& q[0] == (#[trigger] entries@[j]).0@
                    &&& is_expandable_path(entries@[j].1, q.drop_first())
                };
            let seg = entries@[j].0;
            let child = entries@[j].1;
            let q2 = q.drop_first();
            let prefix2 = prefix.push(seg@);
            let x = maker.id_spec(prefix + q);
            if q2.len() == 0 {
                assert(child is Expandable);
                assert(prefix + q =~= prefix2);
                assert(entry_reset_ids(maker, entries@[j], prefix).contains(x));
            } else {
                lemma_reset_closure(maker, child, prefix2, q2);
                assert(prefix + q =~= prefix2 + q2);
                assert(entry_reset_ids(maker, entries@[j], prefix).contains(x));
            }
            lemma_reset_entries_cover(maker, entries@, prefix, 0, j, x);
        },
    }
}

proof fn lemma_reset_entries_sound<M: PersistentIdMaker>(
    maker: &M,
    entries: Seq<(JsonPointerSegment, TreeValue)>,
    prefix: Seq<SegView>,
    k: int,
    x: u64,
)
    requires
        reset_ids_entries(maker, entries, prefix, k).contains(x),
    ensures
        exists|j: int|
            0 <= j < entries.len() && #[trigger] entry_reset_ids(maker, entries[j], prefix).contains(
                x,
            ),
    decreases entries.len() - k,
{
    if entry_reset_ids(maker, entries[k], prefix).contains(x) {
    } else {
        lemma_reset_entries_sound(maker, entries, prefix, k + 1, x);
    }
}

/// Reset soundness: nothing but the identifier of a path to an expandable
/// node below `value` is ever in the reset set — in particular no leaf path
/// contributes one of its own.
pub proof fn lemma_reset_sound<M: PersistentIdMaker>(
    maker: &M,
    value: TreeValue,
    prefix: Seq<SegView>,
    x: u64,
)
    requires
        reset_ids(maker, value, prefix).contains(x),
    ensures
        exists|q: Seq<SegView>|
            q.len() >= 1 && #[trigger] is_expandable_path(value, q) && x == maker.id_spec(
                prefix + q,
            ),
    decreases value,
{
    match value {
        TreeValue::Base(_) => {
        },
        TreeValue::Expandable(entries, ty) => {
            lemma_reset_entries_sound(maker, entries@, prefix, 0, x);
            let j = choose|j: int|
                0 <= j < entries@.len() && #[trigger] entry_reset_ids(
                    maker,
                    entries@[j],
                    prefix,
                ).contains(x);
            let seg = entries@[j].0;
            let child = entries@[j].1;
            let prefix2 = prefix.push(seg@);
            if child is Expandable && x == maker.id_spec(prefix2) {
                let q = seq![seg@];
                assert(q.drop_first() =~= Seq::<SegView>::empty());
                assert(is_expandable_path(child, q.drop_first()));
                assert(is_expandable_path(value, q));
                assert(prefix + q =~= prefix2);
            } else {
                assert(reset_ids(maker, child, prefix2).contains(x));
                lemma_reset_sound(maker, child, prefix2, x);
                let q2 = choose|q2: Seq<SegView>|
                    q2.len() >= 1 && #[trigger] is_expandable_path(child, q2) && x
                        == maker.id_spec(prefix2 + q2);
                let q = seq![seg@] + q2;
                assert(q.drop_first() =~= q2);
                assert(q[0] == seg@);
                assert(is_expandable_path(value, q));
                assert(prefix + q =~= prefix2 + q2);
            }
        },
    }
}

proof fn lemma_prefix_ids_below_sound<M: PersistentIdMaker>(
    maker: &M,
    p: Seq<SegView>,
    n: int,
    x: u64,
)
    requires
        prefix_ids_below(maker, p, n).contains(x),
    ensures
        exists|i: int| 0 <= i < n && x == maker.id_spec(#[trigger] p.take(i)),
    decreases n,
{
    if x == maker.id_spec(p.take(n - 1)) {
    } else {
        lemma_prefix_ids_below_sound(maker, p, n - 1, x);
    }
}

proof fn lemma_match_entries_sound<M: PersistentIdMaker>(
    maker: &M,
    entries: Seq<(JsonPointerSegment, TreeValue)>,
    ty: ExpandableType,
    term: Seq<char>,
    prefix: Seq<SegView>,
    k: int,
    x: u64,
)
    requires
        match_ids_entries(maker, entries, ty, term, prefix, k).contains(x),
    ensures
        exists|j: int|
            0 <= j < entries.len() && #[trigger] entry_match_ids(
                maker,
                entries[j],
                ty,
                term,
                prefix,
            ).contains(x),
    decreases entries.len() - k,
{
    if entry_match_ids(maker, entries[k], ty, term, prefix).contains(x) {
    } else {
        lemma_match_entries_sound(maker, entries, ty, term, prefix, k + 1, x);
    }
}

/// Match soundness: everything in the match set is the identifier of a
/// prefix of a full path to a match — nothing else is ever recorded.
pub proof fn lemma_match_sound<M: PersistentIdMaker>(
    maker: &M,
    value: TreeValue,
    term: Seq<char>,
    prefix: Seq<SegView>,
    x: u64,
)
    requires
        match_ids(maker, value, term, prefix).contains(x),
    ensures
        exists|p: Seq<SegView>, i: int|
            is_match_path(value, term, p) && 0 <= i <= prefix.len() + p.len() && x
                == maker.id_spec(#[trigger] (prefix + p).take(i)),
    decreases value,
{
    match value {
        TreeValue::Base(_) => {
            lemma_prefix_ids_below_sound(maker, prefix, prefix.len() as int + 1, x);
            let i = choose|i: int|
                0 <= i < prefix.len() + 1 && x == maker.id_spec(#[trigger] prefix.take(i));
            let p = Seq::<SegView>::empty();
            assert(is_match_path(value, term, p));
            assert(prefix + p =~= prefix);
            assert(x == maker.id_spec((prefix + p).take(i)));
        },
        TreeValue::Expandable(entries, ty) => {
            lemma_match_entries_sound(maker, entries@, ty, term, prefix, 0, x);
            let j = choose|j: int|
                0 <= j < entries@.len() && #[trigger] entry_match_ids(
                    maker,
                    entries@[j],
                    ty,
                    term,
                    prefix,
                ).contains(x);
            let seg = entries@[j].0;
            let child = entries@[j].1;
            let prefix2 = prefix.push(seg@);
            if ty == ExpandableType::Object && seg_key_matches(seg, term) && prefix_ids(
                maker,
                prefix2,
            ).contains(x) {
                lemma_prefix_ids_below_sound(maker, prefix2, prefix2.len() as int + 1, x);
                let i = choose|i: int|
                    0 <= i < prefix2.len() + 1 && x == maker.id_spec(#[trigger] prefix2.take(i));
                let p = seq![seg@];
                assert(p.drop_first() =~= Seq::<SegView>::empty());
                assert(is_match_path(value, term, p));
                assert(prefix + p =~= prefix2);
                assert(x == maker.id_spec((prefix + p).take(i)));
            } else {
                assert(match_ids(maker, child, term, prefix2).contains(x));
                lemma_match_sound(maker, child, term, prefix2, x);
                let (p2, i) = choose|p2: Seq<SegView>, i: int|
                    is_match_path(child, term, p2) && 0 <= i <= prefix2.len() + p2.len() && x
                        == maker.id_spec(#[trigger] (prefix2 + p2).take(i));
                let p = seq![seg@] + p2;
                assert(p.drop_first() =~= p2);
                assert(p[0] == seg@);
                assert(is_match_path(value, term, p));
                assert(prefix + p =~= prefix2 + p2);
                assert(x == maker.id_spec((prefix + p).take(i)));
            }
        },
    }
}

/// A matching top-level leaf registers exactly one identifier, the root's.
/// Through the suppression rule of
/// [`SearchTerm::find_matching_paths_in`], such a lone match therefore
/// yields an empty result unless `abbreviate_root` is set, and exactly the
/// root identifier when it is.
pub proof fn lemma_root_leaf_match_ids<M: PersistentIdMaker>(
    maker: &M,
    display: String,
    term: Seq<char>,
)
    requires
        contains_seq(lower_seq(display@), term),
    ensures
        match_ids(maker, TreeValue::Base(display), term, Seq::<SegView>::empty())
            == Set::<u64>::empty().insert(maker.id_spec(Seq::<SegView>::empty())),
{
    let e = Seq::<SegView>::empty();
    assert(e.take(0) =~= e);
    assert(prefix_ids_below(maker, e, 0) == Set::<u64>::empty());
    assert(prefix_ids(maker, e) =~= Set::<u64>::empty().insert(maker.id_spec(e)));
    assert(match_ids(maker, TreeValue::Base(display), term, e) =~= Set::<u64>::empty().insert(
        maker.id_spec(e),
    ));
}

/// Whether entry `j` of an object container carries a key the term matches;
/// array containers and index segments never match.
fn holds_object_key_match(
    entries: &Vec<(JsonPointerSegment, TreeValue)>,
    j: usize,
    expandable_type: &ExpandableType,
    search_term: &SearchTerm,
) -> (r: bool)
    requires
        j < entries@.len(),
    ensures
        r == (*expandable_type == ExpandableType::Object && seg_key_matches(
            entries@[j as int].0,
            search_term@,
        )),
{
    if *expandable_type == ExpandableType::Object {
        match &entries[j].0 {
            JsonPointerSegment::Key(k) => search_term.matches(k.as_str()),
            JsonPointerSegment::Index(_) => false,
        }
    } else {
        false
    }
}

} // verus!
