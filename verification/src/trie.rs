//! A path trie: file paths stored component by component, each node one
//! directory or file name.  The model of a trie is the set of component
//! sequences it marks as files; insertion adds exactly one sequence and
//! the counters fold over the structure.

use crate::registry::sat_add_usize;
use crate::text::{first_index_of_char, spec_first_index_of_char, string_push_char};
use vstd::prelude::*;
use vstd::string::{StrSliceExecFns, StringExecFns};

verus! {

broadcast use vstd::seq::group_seq_axioms, vstd::std_specs::vec::group_vec_axioms;

/// A trie over path components.  Each child edge carries one component;
/// a node marked `is_file` ends a stored path.
#[derive(Debug)]
pub struct PathTrie {
    /// Whether this node ends a stored file path.
    pub is_file: bool,
    /// Child subtries, keyed by their path component.
    pub children: Vec<(String, PathTrie)>,
}

/// Whether a path segment names a component: empty segments and the
/// current- and parent-directory markers do not.
pub open spec fn spec_keep_segment(s: Seq<char>) -> bool {
    s.len() > 0 && s != "."@ && s != ".."@
}

/// The kept segments of a path, split on `'/'`.
pub open spec fn spec_segments(p: Seq<char>) -> Seq<Seq<char>>
    decreases p.len(),
    via spec_segments_dec
{
    if p.len() == 0 {
        Seq::<Seq<char>>::empty()
    } else {
        let k = spec_first_index_of_char(p, '/');
        if k < 0 {
            if spec_keep_segment(p) {
                seq![p]
            } else {
                Seq::<Seq<char>>::empty()
            }
        } else {
            let head = p.take(k);
            let rest = spec_segments(p.skip(k + 1));
            if spec_keep_segment(head) {
                seq![head] + rest
            } else {
                rest
            }
        }
    }
}

#[via_fn]
proof fn spec_segments_dec(p: Seq<char>) {
    crate::text::lemma_first_index_of_char(p, '/');
}

/// The components of a path: a leading separator becomes the root
/// component `"/"`, then the kept segments follow.
pub open spec fn spec_path_components(p: Seq<char>) -> Seq<Seq<char>> {
    if p.len() > 0 && p[0] == '/' {
        seq!["/"@] + spec_segments(p)
    } else {
        spec_segments(p)
    }
}

/// The views of a component list.
pub open spec fn component_views(s: Seq<String>) -> Seq<Seq<char>> {
    s.map_values(|c: String| c@)
}

/// Well-formedness: no node has two children with the same component.
pub open spec fn trie_wf(t: PathTrie) -> bool
    decreases t,
{
    &&& forall|i: int, j: int|
        0 <= i < j < t.children@.len() ==> t.children@[i].0@ != t.children@[j].0@
    &&& forall|i: int| 0 <= i < t.children@.len() ==> trie_wf((#[trigger] t.children@[i]).1)
}

/// The model: whether the trie stores the given component sequence.
pub open spec fn trie_contains(t: PathTrie, comps: Seq<Seq<char>>) -> bool
    decreases comps.len(),
{
    if comps.len() == 0 {
        t.is_file
    } else {
        exists|i: int|
            0 <= i < t.children@.len() && (#[trigger] t.children@[i]).0@ == comps.first()
                && trie_contains(t.children@[i].1, comps.drop_first())
    }
}

/// How many file paths a child list stores, saturating.
pub open spec fn trie_size_list(s: Seq<(String, PathTrie)>) -> nat
    decreases s, 1int,
{
    if s.len() == 0 {
        0
    } else {
        sat_add_usize(trie_size_list(s.drop_last()), trie_size(s.last().1))
    }
}

/// How many file paths the trie stores, saturating.
pub open spec fn trie_size(t: PathTrie) -> nat
    decreases t, 0int,
{
    sat_add_usize(
        trie_size_list(t.children@),
        if t.is_file {
            1nat
        } else {
            0nat
        },
    )
}

/// Saturating addition swaps its second arguments.
proof fn lemma_sat_swap(a: nat, b: nat, c: nat)
    ensures
        sat_add_usize(sat_add_usize(a, b), c) == sat_add_usize(sat_add_usize(a, c), b),
{
}

/// Saturating addition associates.
proof fn lemma_sat_assoc(a: nat, b: nat, c: nat)
    ensures
        sat_add_usize(sat_add_usize(a, b), c) == sat_add_usize(a, sat_add_usize(b, c)),
{
}

/// Every trie size fits the saturating bound.
proof fn lemma_trie_size_le_max(t: PathTrie)
    ensures
        trie_size(t) <= usize::MAX,
{
}

/// A child list's size likewise.
proof fn lemma_trie_size_list_le_max(s: Seq<(String, PathTrie)>)
    ensures
        trie_size_list(s) <= usize::MAX,
    decreases s.len(),
{
    if s.len() > 0 {
        lemma_trie_size_list_le_max(s.drop_last());
    }
}

/// Replacing one child with one of equal size leaves the list size alone.
proof fn lemma_size_list_update_equal(s: Seq<(String, PathTrie)>, j: int, e: (String, PathTrie))
    requires
        0 <= j < s.len(),
        trie_size(e.1) == trie_size(s[j].1),
    ensures
        trie_size_list(s.update(j, e)) == trie_size_list(s),
    decreases s.len(),
{
    let su = s.update(j, e);
    if j == s.len() - 1 {
        assert(su.drop_last() =~= s.drop_last());
        assert(su.last() == e);
    } else {
        assert(su.drop_last() =~= s.drop_last().update(j, e));
        assert(su.last() == s.last());
        lemma_size_list_update_equal(s.drop_last(), j, e);
    }
}

/// Replacing one child with one whose size grew by one (saturating) grows
/// the list size by one (saturating).
proof fn lemma_size_list_update_inc(s: Seq<(String, PathTrie)>, j: int, e: (String, PathTrie))
    requires
        0 <= j < s.len(),
        trie_size(e.1) == sat_add_usize(trie_size(s[j].1), 1),
    ensures
        trie_size_list(s.update(j, e)) == sat_add_usize(trie_size_list(s), 1),
    decreases s.len(),
{
    let su = s.update(j, e);
    lemma_trie_size_le_max(s[j].1);
    lemma_trie_size_le_max(e.1);
    if j == s.len() - 1 {
        assert(su.drop_last() =~= s.drop_last());
        assert(su.last() == e);
        lemma_trie_size_list_le_max(s.drop_last());
    } else {
        assert(su.drop_last() =~= s.drop_last().update(j, e));
        assert(su.last() == s.last());
        lemma_size_list_update_inc(s.drop_last(), j, e);
        lemma_trie_size_list_le_max(s.drop_last());
        lemma_trie_size_le_max(s.last().1);
    }
}

/// Appending a child adds its size (saturating).
proof fn lemma_size_list_push(s: Seq<(String, PathTrie)>, e: (String, PathTrie))
    ensures
        trie_size_list(s.push(e)) == sat_add_usize(trie_size_list(s), trie_size(e.1)),
{
    assert(s.push(e).drop_last() =~= s);
    assert(s.push(e).last() == e);
}

/// Splits a path into its kept segments.
fn split_segments(p: &str) -> (r: Vec<String>)
    ensures
        component_views(r@) == spec_segments(p@),
    decreases p@.len(),
{
    let n = p.unicode_len();
    if n == 0 {
        let r: Vec<String> = Vec::new();
        proof {
            assert(component_views(r@) =~= spec_segments(p@));
        }
        return r;
    }
    match first_index_of_char(p, '/') {
        None => {
            let seg = p.to_owned();
            let keep = seg.as_str().unicode_len() > 0 && !(seg == ".".to_owned()) && !(seg
                == "..".to_owned());
            if keep {
                let mut r: Vec<String> = Vec::new();
                r.push(seg);
                proof {
                    assert(component_views(r@) =~= spec_segments(p@));
                }
                r
            } else {
                let r: Vec<String> = Vec::new();
                proof {
                    assert(component_views(r@) =~= spec_segments(p@));
                }
                r
            }
        },
        Some(k) => {
            proof {
                crate::text::lemma_first_index_of_char(p@, '/');
            }
            let head = p.substring_char(0, k).to_owned();
            let tail = p.substring_char(k + 1, n);
            let mut rest = split_segments(tail);
            proof {
                assert(head@ =~= p@.take(k as int));
                assert(tail@ =~= p@.skip(k + 1));
            }
            let keep = head.as_str().unicode_len() > 0 && !(head == ".".to_owned()) && !(head
                == "..".to_owned());
            if keep {
                let mut r: Vec<String> = Vec::new();
                r.push(head);
                r.append(&mut rest);
                proof {
                    assert(component_views(r@) =~= spec_segments(p@));
                }
                r
            } else {
                proof {
                    assert(component_views(rest@) =~= spec_segments(p@));
                }
                rest
            }
        },
    }
}

/// Splits a path into its components, with the root component first for
/// an absolute path.
pub fn path_components(path: &str) -> (r: Vec<String>)
    ensures
        component_views(r@) == spec_path_components(path@),
{
    let n = path.unicode_len();
    let absolute = n > 0 && path.get_char(0) == '/';
    let mut segments = split_segments(path);
    if absolute {
        let mut r: Vec<String> = Vec::new();
        r.push("/".to_owned());
        r.append(&mut segments);
        proof {
            assert(component_views(r@) =~= spec_path_components(path@));
        }
        r
    } else {
        proof {
            assert(component_views(segments@) =~= spec_path_components(path@));
        }
        segments
    }
}

/// A subtrie that stores exactly the component suffix `comps[i..]`.
#[verifier::rlimit(60)]
fn build_suffix(comps: &Vec<String>, i: usize) -> (r: PathTrie)
    requires
        i <= comps@.len(),
    ensures
        trie_wf(r),
        forall|cs: Seq<Seq<char>>|
            trie_contains(r, cs) <==> cs =~= component_views(comps@).skip(i as int),
        trie_size(r) == 1,
    decreases comps@.len() - i,
{
    if i == comps.len() {
        let r = PathTrie { is_file: true, children: Vec::new() };
        proof {
            assert forall|cs: Seq<Seq<char>>|
                trie_contains(r, cs) <==> cs =~= component_views(comps@).skip(i as int) by {
                assert(component_views(comps@).skip(i as int) =~= Seq::<Seq<char>>::empty());
                if trie_contains(r, cs) {
                    if cs.len() > 0 {
                        assert(!trie_contains(r, cs));
                    }
                }
            }
        }
        r
    } else {
        let node = build_suffix(comps, i + 1);
        let mut children: Vec<(String, PathTrie)> = Vec::new();
        children.push((comps[i].clone(), node));
        let r = PathTrie { is_file: false, children };
        proof {
            assert(r.children@.drop_last() =~= Seq::<(String, PathTrie)>::empty());
            assert(r.children@.last().1 == node);
            assert(trie_size_list(Seq::<(String, PathTrie)>::empty()) == 0);
            assert(trie_size_list(r.children@) == sat_add_usize(0, trie_size(node)));
            assert(trie_size(r) == sat_add_usize(trie_size_list(r.children@), 0));
            assert(trie_size(r) == 1);
            let full = component_views(comps@).skip(i as int);
            assert(full.first() == comps@[i as int]@);
            assert(full.drop_first() =~= component_views(comps@).skip(i + 1));
            assert forall|cs: Seq<Seq<char>>|
                trie_contains(r, cs) <==> cs =~= full by {
                if trie_contains(r, cs) {
                    assert(cs.len() > 0);
                    let w = choose|w: int|
                        0 <= w < r.children@.len() && (#[trigger] r.children@[w]).0@ == cs.first()
                            && trie_contains(r.children@[w].1, cs.drop_first());
                    assert(w == 0);
                    assert(cs.drop_first() =~= component_views(comps@).skip(i + 1));
                    assert(cs =~= seq![cs.first()] + cs.drop_first());
                }
                if cs =~= full {
                    assert(r.children@[0].0@ == cs.first());
                    assert(trie_contains(r.children@[0].1, cs.drop_first()));
                }
            }
        }
        r
    }
}

impl PathTrie {
    /// An empty trie.
    pub fn new() -> (r: Self)
        ensures
            trie_wf(r),
            forall|cs: Seq<Seq<char>>| !trie_contains(r, cs),
            trie_size(r) == 0,
    {
        let r = PathTrie { is_file: false, children: Vec::new() };
        proof {
            assert forall|cs: Seq<Seq<char>>| !trie_contains(r, cs) by {
                if cs.len() > 0 {
                    assert(r.children@.len() == 0);
                }
            }
        }
        r
    }

    /// Inserts a path: afterwards the trie stores exactly what it stored
    /// before plus the path's component sequence, and the stored count
    /// grows by one exactly when that sequence was new.
    pub fn insert(&mut self, path: &str)
        requires
            trie_wf(*old(self)),
        ensures
            trie_wf(*final(self)),
            forall|cs: Seq<Seq<char>>|
                trie_contains(*final(self), cs) <==> trie_contains(*old(self), cs) || cs
                    =~= spec_path_components(path@),
            trie_contains(*old(self), spec_path_components(path@)) ==> trie_size(*final(self))
                == trie_size(*old(self)),
            !trie_contains(*old(self), spec_path_components(path@)) ==> trie_size(*final(self))
                == sat_add_usize(trie_size(*old(self)), 1),
    {
        let comps = path_components(path);
        proof {
            assert(component_views(comps@).skip(0) =~= spec_path_components(path@));
        }
        insert_components(self, &comps, 0);
        proof {
            assert(component_views(comps@).skip(0) =~= spec_path_components(path@));
        }
    }
}

/// Inserts the component suffix `comps[i..]` below `t`.
fn insert_components(t: &mut PathTrie, comps: &Vec<String>, i: usize)
    requires
        trie_wf(*old(t)),
        i <= comps@.len(),
    ensures
        trie_wf(*final(t)),
        forall|cs: Seq<Seq<char>>|
            trie_contains(*final(t), cs) <==> trie_contains(*old(t), cs) || cs =~= component_views(
                comps@,
            ).skip(i as int),
        trie_contains(*old(t), component_views(comps@).skip(i as int)) ==> trie_size(*final(t))
            == trie_size(*old(t)),
        !trie_contains(*old(t), component_views(comps@).skip(i as int)) ==> trie_size(*final(t))
            == sat_add_usize(trie_size(*old(t)), 1),
    decreases comps@.len() - i,
{
    if i == comps.len() {
        let ghost was_file = t.is_file;
        t.is_file = true;
        proof {
            let tail = component_views(comps@).skip(i as int);
            assert(tail =~= Seq::<Seq<char>>::empty());
            assert forall|cs: Seq<Seq<char>>|
                trie_contains(*t, cs) <==> trie_contains(*old(t), cs) || cs =~= tail by {
                if cs.len() > 0 {
                    assert(t.children@ == old(t).children@);
                }
            }
            if was_file {
                assert(*t == *old(t));
            } else {
                lemma_trie_size_list_le_max(old(t).children@);
                assert(trie_size(*old(t)) == trie_size_list(old(t).children@));
                assert(trie_size(*t) == sat_add_usize(trie_size_list(old(t).children@), 1));
            }
        }
        return ;
    }
    let key = &comps[i];
    let count = t.children.len();
    for j in 0..count
        invariant
            count == t.children@.len(),
            *t == *old(t),
            trie_wf(*old(t)),
            i < comps@.len(),
            comps@.len() <= usize::MAX,
            key@ == comps@[i as int]@,
            forall|k: int| 0 <= k < j ==> t.children@[k].0@ != comps@[i as int]@,
        decreases count - j,
    {
        if t.children[j].0 == *key {
            let ghost pre = *t;
            let child = &mut t.children[j].1;
            proof {
                assert(trie_wf(pre.children@[j as int].1));
            }
            insert_components(child, comps, i + 1);
            proof {
                assert(component_views(comps@)[i as int] == comps@[i as int]@);
                assert(pre.children@[j as int].0@ == comps@[i as int]@);
                lemma_insert_found(pre, *t, j as int, component_views(comps@), i as int);
            }
            return ;
        }
    }
    // no child carries this component: graft a fresh chain
    let node = build_suffix(comps, i + 1);
    let ghost pre = *t;
    t.children.push((key.clone(), node));
    proof {
        assert(component_views(comps@)[i as int] == comps@[i as int]@);
        assert(t.children@.last().0@ == comps@[i as int]@);
        assert(forall|k: int| 0 <= k < pre.children@.len() ==> t.children@[k] == pre.children@[k]);
        assert forall|cs: Seq<Seq<char>>|
            trie_contains(t.children@.last().1, cs) <==> cs =~= component_views(comps@).skip(
            i + 1,
        ) by {
            assert(t.children@.last().1 == node);
        }
        assert(trie_size(t.children@.last().1) == 1);
        lemma_insert_grafted(pre, *t, component_views(comps@), i as int);
    }
}

/// After recursing into the matching child, the trie stores the old
/// contents plus the inserted suffix.
proof fn lemma_insert_found(
    pre: PathTrie,
    post: PathTrie,
    j: int,
    comps: Seq<Seq<char>>,
    i: int,
)
    requires
        trie_wf(pre),
        0 <= i < comps.len(),
        0 <= j < pre.children@.len(),
        pre.children@[j].0@ == comps[i],
        forall|k: int| 0 <= k < j ==> pre.children@[k].0@ != comps[i],
        post.is_file == pre.is_file,
        post.children@.len() == pre.children@.len(),
        forall|k: int| 0 <= k < pre.children@.len() && k != j ==> post.children@[k]
            == pre.children@[k],
        post.children@[j].0 == pre.children@[j].0,
        trie_wf(post.children@[j].1),
        forall|cs: Seq<Seq<char>>|
            trie_contains(post.children@[j].1, cs) <==> trie_contains(pre.children@[j].1, cs)
                || cs =~= comps.skip(i + 1),
        trie_contains(pre.children@[j].1, comps.skip(i + 1)) ==> trie_size(post.children@[j].1)
            == trie_size(pre.children@[j].1),
        !trie_contains(pre.children@[j].1, comps.skip(i + 1)) ==> trie_size(post.children@[j].1)
            == sat_add_usize(trie_size(pre.children@[j].1), 1),
    ensures
        trie_wf(post),
        forall|cs: Seq<Seq<char>>|
            trie_contains(post, cs) <==> trie_contains(pre, cs) || cs =~= comps.skip(i),
        trie_contains(pre, comps.skip(i)) ==> trie_size(post) == trie_size(pre),
        !trie_contains(pre, comps.skip(i)) ==> trie_size(post) == sat_add_usize(
            trie_size(pre),
            1,
        ),
{
    assert forall|a: int, b: int|
        0 <= a < b < post.children@.len() implies post.children@[a].0@ != post.children@[b].0@ by {
        assert(post.children@[a].0@ == pre.children@[a].0@);
        assert(post.children@[b].0@ == pre.children@[b].0@);
    }
    assert forall|k: int| 0 <= k < post.children@.len() implies trie_wf(
        (#[trigger] post.children@[k]).1,
    ) by {
        if k != j {
            assert(post.children@[k] == pre.children@[k]);
        }
    }
    let inserted = comps.skip(i);
    assert(inserted.len() > 0);
    assert(inserted.first() == comps[i]);
    assert(inserted.drop_first() =~= comps.skip(i + 1));
    assert forall|cs: Seq<Seq<char>>|
        trie_contains(post, cs) <==> trie_contains(pre, cs) || cs =~= inserted by {
        if cs.len() == 0 {
        } else {
            if trie_contains(post, cs) {
                let w = choose|w: int|
                    0 <= w < post.children@.len() && (#[trigger] post.children@[w]).0@
                        == cs.first() && trie_contains(post.children@[w].1, cs.drop_first());
                if w == j {
                    if trie_contains(pre.children@[j].1, cs.drop_first()) {
                        assert(trie_contains(pre, cs));
                    } else {
                        assert(cs.drop_first() =~= comps.skip(i + 1));
                        assert(cs =~= seq![cs.first()] + cs.drop_first());
                        assert(cs =~= inserted);
                    }
                } else {
                    assert(post.children@[w] == pre.children@[w]);
                    assert(trie_contains(pre, cs));
                }
            }
            if trie_contains(pre, cs) {
                let w = choose|w: int|
                    0 <= w < pre.children@.len() && (#[trigger] pre.children@[w]).0@ == cs.first()
                        && trie_contains(pre.children@[w].1, cs.drop_first());
                if w == j {
                    assert(trie_contains(post.children@[j].1, cs.drop_first()));
                    assert((post.children@[j]).0@ == cs.first());
                } else {
                    assert(post.children@[w] == pre.children@[w]);
                }
                assert(trie_contains(post, cs));
            }
            if cs =~= inserted {
                assert(cs.first() == comps[i]);
                assert((post.children@[j]).0@ == cs.first());
                assert(cs.drop_first() =~= comps.skip(i + 1));
                assert(trie_contains(post.children@[j].1, cs.drop_first()));
                assert(trie_contains(post, cs));
            }
        }
    }
    // size accounting: the suffix lives below child j alone
    assert(post.children@ =~= pre.children@.update(j, post.children@[j]));
    if trie_contains(pre, inserted) {
        let w = choose|w: int|
            0 <= w < pre.children@.len() && (#[trigger] pre.children@[w]).0@ == inserted.first()
                && trie_contains(pre.children@[w].1, inserted.drop_first());
        if w < j {
            assert(pre.children@[w].0@ != pre.children@[j].0@);
        }
        if w > j {
            assert(pre.children@[j].0@ != pre.children@[w].0@);
        }
        assert(w == j);
        assert(trie_contains(pre.children@[j].1, comps.skip(i + 1)));
        lemma_size_list_update_equal(pre.children@, j, post.children@[j]);
        assert(trie_size(post) == trie_size(pre));
    } else {
        assert(!trie_contains(pre.children@[j].1, comps.skip(i + 1))) by {
            if trie_contains(pre.children@[j].1, comps.skip(i + 1)) {
                assert(trie_contains(pre.children@[j].1, inserted.drop_first()));
                assert((pre.children@[j]).0@ == inserted.first());
                assert(trie_contains(pre, inserted));
            }
        }
        lemma_size_list_update_inc(pre.children@, j, post.children@[j]);
        let file_part: nat = if pre.is_file {
            1
        } else {
            0
        };
        lemma_sat_swap(trie_size_list(pre.children@), 1, file_part);
        assert(trie_size(post) == sat_add_usize(trie_size(pre), 1));
    }
}

/// After grafting a fresh chain for an unknown component, the trie stores
/// the old contents plus the inserted suffix.
proof fn lemma_insert_grafted(pre: PathTrie, post: PathTrie, comps: Seq<Seq<char>>, i: int)
    requires
        trie_wf(pre),
        0 <= i < comps.len(),
        forall|k: int| 0 <= k < pre.children@.len() ==> pre.children@[k].0@ != comps[i],
        post.is_file == pre.is_file,
        post.children@.len() == pre.children@.len() + 1,
        forall|k: int| 0 <= k < pre.children@.len() ==> post.children@[k] == pre.children@[k],
        post.children@.last().0@ == comps[i],
        trie_wf(post.children@.last().1),
        forall|cs: Seq<Seq<char>>|
            trie_contains(post.children@.last().1, cs) <==> cs =~= comps.skip(i + 1),
        trie_size(post.children@.last().1) == 1,
    ensures
        trie_wf(post),
        forall|cs: Seq<Seq<char>>|
            trie_contains(post, cs) <==> trie_contains(pre, cs) || cs =~= comps.skip(i),
        !trie_contains(pre, comps.skip(i)),
        trie_size(post) == sat_add_usize(trie_size(pre), 1),
{
    let last = post.children@.len() - 1;
    assert forall|a: int, b: int|
        0 <= a < b < post.children@.len() implies post.children@[a].0@ != post.children@[b].0@ by {
        if b < last {
            assert(post.children@[a] == pre.children@[a]);
            assert(post.children@[b] == pre.children@[b]);
        } else {
            assert(post.children@[a] == pre.children@[a]);
            assert(pre.children@[a].0@ != comps[i]);
        }
    }
    assert forall|k: int| 0 <= k < post.children@.len() implies trie_wf(
        (#[trigger] post.children@[k]).1,
    ) by {
        if k < last {
            assert(post.children@[k] == pre.children@[k]);
        }
    }
    let inserted = comps.skip(i);
    assert(inserted.len() > 0);
    assert(inserted.first() == comps[i]);
    assert(inserted.drop_first() =~= comps.skip(i + 1));
    assert forall|cs: Seq<Seq<char>>|
        trie_contains(post, cs) <==> trie_contains(pre, cs) || cs =~= inserted by {
        if cs.len() == 0 {
        } else {
            if trie_contains(post, cs) {
                let w = choose|w: int|
                    0 <= w < post.children@.len() && (#[trigger] post.children@[w]).0@
                        == cs.first() && trie_contains(post.children@[w].1, cs.drop_first());
                if w == last {
                    assert(cs.drop_first() =~= comps.skip(i + 1));
                    assert(cs =~= seq![cs.first()] + cs.drop_first());
                    assert(cs =~= inserted);
                } else {
                    assert(post.children@[w] == pre.children@[w]);
                    assert(trie_contains(pre, cs));
                }
            }
            if trie_contains(pre, cs) {
                let w = choose|w: int|
                    0 <= w < pre.children@.len() && (#[trigger] pre.children@[w]).0@ == cs.first()
                        && trie_contains(pre.children@[w].1, cs.drop_first());
                assert(post.children@[w] == pre.children@[w]);
                assert(trie_contains(post, cs));
            }
            if cs =~= inserted {
                assert((post.children@[last]).0@ == cs.first());
                assert(cs.drop_first() =~= comps.skip(i + 1));
                assert(trie_contains(post.children@[last].1, cs.drop_first()));
                assert(trie_contains(post, cs));
            }
        }
    }
    // the suffix was not stored: no child carries its first component
    assert(!trie_contains(pre, inserted)) by {
        if trie_contains(pre, inserted) {
            let w = choose|w: int|
                0 <= w < pre.children@.len() && (#[trigger] pre.children@[w]).0@
                    == inserted.first() && trie_contains(pre.children@[w].1, inserted.drop_first());
            assert(pre.children@[w].0@ == comps[i]);
        }
    }
    // size accounting: one fresh chain holds exactly one path
    assert(post.children@ =~= pre.children@.push(post.children@.last()));
    lemma_size_list_push(pre.children@, post.children@.last());
    let file_part: nat = if pre.is_file {
        1
    } else {
        0
    };
    lemma_sat_swap(trie_size_list(pre.children@), 1, file_part);
    assert(trie_size(post) == sat_add_usize(trie_size(pre), 1));
}

/// Structural statistics of a trie.
#[derive(Debug)]
pub struct TrieStats {
    /// Total number of nodes.
    pub node_count: usize,
    /// Number of nodes that end a stored file path.
    pub leaf_count: usize,
    /// Length of the longest edge chain below the root.
    pub max_depth: usize,
    /// Total number of child edges.
    pub component_count: usize,
}

/// The larger of two naturals.
pub open spec fn spec_max(a: nat, b: nat) -> nat {
    if a >= b {
        a
    } else {
        b
    }
}

/// Folds the statistics of a child list onto a running total.
pub open spec fn spec_stats_fold(
    s: Seq<(String, PathTrie)>,
    acc: (nat, nat, nat, nat),
) -> (nat, nat, nat, nat)
    decreases s, 1int,
{
    if s.len() == 0 {
        acc
    } else {
        let pre = spec_stats_fold(s.drop_last(), acc);
        let c = spec_trie_stats(s.last().1);
        (
            sat_add_usize(pre.0, c.0),
            sat_add_usize(pre.1, c.1),
            spec_max(pre.2, sat_add_usize(c.2, 1)),
            sat_add_usize(pre.3, c.3),
        )
    }
}

/// The (nodes, leaves, depth, edges) statistics of a trie, saturating.
pub open spec fn spec_trie_stats(t: PathTrie) -> (nat, nat, nat, nat)
    decreases t, 0int,
{
    spec_stats_fold(
        t.children@,
        (
            1,
            if t.is_file {
                1nat
            } else {
                0nat
            },
            0,
            t.children@.len(),
        ),
    )
}

/// Path components joined with separators.
pub open spec fn spec_join_components(s: Seq<Seq<char>>) -> Seq<char>
    decreases s.len(),
{
    if s.len() == 0 {
        Seq::<char>::empty()
    } else if s.len() == 1 {
        s[0]
    } else {
        spec_join_components(s.drop_last()) + "/"@ + s.last()
    }
}

/// A component sequence rendered back into a path string: the root
/// component supplies the leading separator, everything else is joined
/// with separators.
pub open spec fn spec_render_path(comps: Seq<Seq<char>>) -> Seq<char> {
    if comps.len() > 0 && comps[0] == "/"@ {
        "/"@ + spec_join_components(comps.drop_first())
    } else {
        spec_join_components(comps)
    }
}

/// Whether `s` renders one of the paths stored in `t`.
pub open spec fn lists_stored_path(t: PathTrie, s: Seq<char>) -> bool {
    exists|cs: Seq<Seq<char>>| #[trigger] trie_contains(t, cs) && s == spec_render_path(cs)
}

/// Whether `s` renders some stored path of `t` below `prefix`.
pub open spec fn renders_some(t: PathTrie, prefix: Seq<Seq<char>>, s: Seq<char>) -> bool {
    exists|cs: Seq<Seq<char>>|
        #[trigger] trie_contains(t, cs) && s == spec_render_path(prefix + cs)
}

/// Whether some entry of `out` holds exactly the text `s`.
pub open spec fn rendered_at(out: Seq<String>, s: Seq<char>) -> bool {
    exists|k: int| 0 <= k < out.len() && (#[trigger] out[k])@ == s
}

/// Whether every path of the child at `w` is rendered in `out`.
pub open spec fn child_covered(
    t: PathTrie,
    w: int,
    out: Seq<String>,
    prefix: Seq<Seq<char>>,
) -> bool {
    forall|cs: Seq<Seq<char>>|
        #[trigger] trie_contains(t.children@[w].1, cs) ==> rendered_at(
            out,
            spec_render_path(prefix.push(t.children@[w].0@) + cs),
        )
}

/// Joins the components from position `from` on with separators.
fn join_from(comps: &Vec<String>, from: usize) -> (r: String)
    requires
        from <= comps@.len(),
    ensures
        r@ == spec_join_components(component_views(comps@).skip(from as int)),
{
    let mut out = String::new();
    let n = comps.len();
    for i in from..n
        invariant
            from <= i <= n,
            n == comps@.len(),
            out@ == spec_join_components(component_views(comps@).subrange(from as int, i as int)),
    {
        let ghost out_before = out@;
        if i > from {
            string_push_char(&mut out, '/');
        }
        out.append(comps[i].as_str());
        proof {
            reveal_strlit("/");
            let cv = component_views(comps@);
            let here = cv.subrange(from as int, i + 1);
            assert(here.drop_last() =~= cv.subrange(from as int, i as int));
            assert(here.last() == cv[i as int]);
            assert(cv[i as int] == comps@[i as int]@);
            if i == from {
                assert(here[0] == cv[i as int]);
                assert(out@ =~= spec_join_components(here));
            } else {
                assert(out_before.push('/') =~= out_before + "/"@);
                assert(out@ =~= spec_join_components(here));
            }
        }
    }
    proof {
        assert(component_views(comps@).subrange(from as int, comps@.len() as int)
            =~= component_views(comps@).skip(from as int));
    }
    out
}

/// Renders a component sequence back into a path string.
fn render_path(comps: &Vec<String>) -> (r: String)
    ensures
        r@ == spec_render_path(component_views(comps@)),
{
    let absolute = comps.len() > 0 && comps[0] == "/".to_owned();
    if absolute {
        proof {
            assert(component_views(comps@)[0] == "/"@);
        }
        let mut out = "/".to_owned();
        let rest = join_from(comps, 1);
        out.append(rest.as_str());
        proof {
            assert(component_views(comps@).skip(1) =~= component_views(comps@).drop_first());
        }
        out
    } else {
        let r = join_from(comps, 0);
        proof {
            assert(component_views(comps@).skip(0) =~= component_views(comps@));
            if comps@.len() > 0 {
                assert(component_views(comps@)[0] == comps@[0]@);
            }
        }
        r
    }
}

impl PathTrie {
    /// Number of stored file paths (saturating at the integer limit).
    pub fn len(&self) -> (n: usize)
        ensures
            n as nat == trie_size(*self),
        decreases *self,
    {
        let mut acc: usize = 0;
        let count = self.children.len();
        for idx in 0..count
            invariant
                count == self.children@.len(),
                acc as nat == trie_size_list(self.children@.subrange(0, idx as int)),
        {
            let c = self.children[idx].1.len();
            acc = acc.saturating_add(c);
            proof {
                assert(self.children@.subrange(0, idx + 1).drop_last() =~= self.children@.subrange(
                    0,
                    idx as int,
                ));
                assert(self.children@.subrange(0, idx + 1).last() == self.children@[idx as int]);
            }
        }
        proof {
            assert(self.children@.subrange(0, count as int) =~= self.children@);
        }
        if self.is_file {
            acc.saturating_add(1)
        } else {
            acc
        }
    }

    /// Whether the trie stores nothing and has no children.
    pub fn is_empty(&self) -> (r: bool)
        ensures
            r == (!self.is_file && self.children@.len() == 0),
    {
        !self.is_file && self.children.len() == 0
    }

    /// Structural statistics: node, leaf and edge counts and the maximum
    /// depth, all saturating.
    pub fn memory_stats(&self) -> (r: TrieStats)
        ensures
            ({
                let expected = spec_trie_stats(*self);
                r.node_count as nat == expected.0 && r.leaf_count as nat == expected.1
                    && r.max_depth as nat == expected.2 && r.component_count as nat == expected.3
            }),
        decreases *self,
    {
        let mut stats = TrieStats {
            node_count: 1,
            leaf_count: if self.is_file {
                1
            } else {
                0
            },
            max_depth: 0,
            component_count: self.children.len(),
        };
        let count = self.children.len();
        for idx in 0..count
            invariant
                count == self.children@.len(),
                ({
                    let acc = spec_stats_fold(
                        self.children@.subrange(0, idx as int),
                        (
                            1,
                            if self.is_file {
                                1nat
                            } else {
                                0nat
                            },
                            0,
                            self.children@.len(),
                        ),
                    );
                    stats.node_count as nat == acc.0 && stats.leaf_count as nat == acc.1
                        && stats.max_depth as nat == acc.2 && stats.component_count as nat
                        == acc.3
                }),
        {
            let child_stats = self.children[idx].1.memory_stats();
            stats.node_count = stats.node_count.saturating_add(child_stats.node_count);
            stats.leaf_count = stats.leaf_count.saturating_add(child_stats.leaf_count);
            stats.component_count = stats.component_count.saturating_add(
                child_stats.component_count,
            );
            let deeper = child_stats.max_depth.saturating_add(1);
            if deeper > stats.max_depth {
                stats.max_depth = deeper;
            }
            proof {
                assert(self.children@.subrange(0, idx + 1).drop_last() =~= self.children@.subrange(
                    0,
                    idx as int,
                ));
                assert(self.children@.subrange(0, idx + 1).last() == self.children@[idx as int]);
            }
        }
        proof {
            assert(self.children@.subrange(0, count as int) =~= self.children@);
        }
        stats
    }

    /// Every stored path, rendered back into a string: each returned
    /// string renders a stored path, and every stored path is returned.
    pub fn get_all_paths(&self) -> (r: Vec<String>)
        ensures
            forall|k: int| 0 <= k < r@.len() ==> lists_stored_path(*self, (#[trigger] r@[k])@),
            forall|cs: Seq<Seq<char>>|
                #[trigger] trie_contains(*self, cs) ==> rendered_at(r@, spec_render_path(cs)),
            r@.len() as nat == trie_size(*self),
    {
        let prefix: Vec<String> = Vec::new();
        let mut result: Vec<String> = Vec::new();
        collect_paths(self, &prefix, &mut result);
        proof {
            lemma_trie_size_le_max(*self);
            assert(component_views(prefix@) =~= Seq::<Seq<char>>::empty());
            assert forall|k: int| 0 <= k < result@.len() implies lists_stored_path(
                *self,
                (#[trigger] result@[k])@,
            ) by {
                assert(renders_some(*self, component_views(prefix@), result@[k]@));
                let cs = choose|cs: Seq<Seq<char>>|
                    #[trigger] trie_contains(*self, cs) && result@[k]@ == spec_render_path(
                        Seq::<Seq<char>>::empty() + cs,
                    );
                assert(Seq::<Seq<char>>::empty() + cs =~= cs);
                assert(result@[k]@ == spec_render_path(cs));
            }
            assert forall|cs: Seq<Seq<char>>| #[trigger] trie_contains(*self, cs) implies
                rendered_at(result@, spec_render_path(cs)) by {
                assert(Seq::<Seq<char>>::empty() + cs =~= cs);
                assert(rendered_at(result@, spec_render_path(Seq::<Seq<char>>::empty() + cs)));
            }
        }
        result
    }

    /// An iterator over the rendered stored paths.
    pub fn iter(&self) -> (r: PathTrieIter)
        ensures
            r.index == 0,
            forall|k: int|
                0 <= k < r.paths@.len() ==> lists_stored_path(*self, (#[trigger] r.paths@[k])@),
            forall|cs: Seq<Seq<char>>|
                #[trigger] trie_contains(*self, cs) ==> rendered_at(
                    r.paths@,
                    spec_render_path(cs),
                ),
    {
        PathTrieIter { paths: self.get_all_paths(), index: 0 }
    }
}

/// Walks the trie below `prefix`, appending every rendered stored path.
fn collect_paths(t: &PathTrie, prefix: &Vec<String>, result: &mut Vec<String>)
    ensures
        final(result)@.len() >= old(result)@.len(),
        final(result)@.len() as nat == sat_add_usize(old(result)@.len() as nat, trie_size(*t)),
        forall|k: int| 0 <= k < old(result)@.len() ==> final(result)@[k] == old(result)@[k],
        forall|k: int|
            old(result)@.len() <= k < final(result)@.len() ==> renders_some(
                *t,
                component_views(prefix@),
                (#[trigger] final(result)@[k])@,
            ),
        forall|cs: Seq<Seq<char>>|
            #[trigger] trie_contains(*t, cs) ==> rendered_at(
                final(result)@,
                spec_render_path(component_views(prefix@) + cs),
            ),
    decreases *t,
{
    let ghost pv = component_views(prefix@);
    let ghost base = old(result)@.len() as nat;
    let ghost file_part: nat = if t.is_file {
        1
    } else {
        0
    };
    if t.is_file {
        let rendered = render_path(prefix);
        let ghost pre = result@;
        result.push(rendered);
        proof {
            assert(forall|k: int| 0 <= k < pre.len() ==> result@[k] == pre[k]);
            assert(pv + Seq::<Seq<char>>::empty() =~= pv);
            assert(trie_contains(*t, Seq::<Seq<char>>::empty()));
            assert((result@[result@.len() - 1])@ == spec_render_path(
                pv + Seq::<Seq<char>>::empty(),
            ));
            assert(renders_some(*t, pv, result@[result@.len() - 1]@));
        }
    }
    let len_after_file = result.len();
    proof {
        assert(t.children@.subrange(0, 0) =~= Seq::<(String, PathTrie)>::empty());
        assert(trie_size_list(Seq::<(String, PathTrie)>::empty()) == 0);
        assert(len_after_file as nat == base + file_part);
        assert(result@.len() as nat == sat_add_usize(base, file_part));
        assert(result@.len() as nat == sat_add_usize(sat_add_usize(base, file_part), 0));
    }
    let count = t.children.len();
    for idx in 0..count
        invariant
            count == t.children@.len(),
            pv == component_views(prefix@),
            base == old(result)@.len() as nat,
            file_part == (if t.is_file {
                1nat
            } else {
                0nat
            }),
            result@.len() as nat == sat_add_usize(
                sat_add_usize(base, file_part),
                trie_size_list(t.children@.subrange(0, idx as int)),
            ),
            result@.len() >= old(result)@.len(),
            forall|k: int| 0 <= k < old(result)@.len() ==> result@[k] == old(result)@[k],
            forall|k: int|
                old(result)@.len() <= k < result@.len() ==> renders_some(
                    *t,
                    pv,
                    (#[trigger] result@[k])@,
                ),
            t.is_file ==> rendered_at(result@, spec_render_path(pv)),
            forall|w: int| 0 <= w < idx ==> child_covered(*t, w, result@, pv),
    {
        let mut new_prefix = duplicate_components(prefix);
        new_prefix.push(t.children[idx].0.clone());
        proof {
            assert(component_views(new_prefix@) =~= pv.push(t.children@[idx as int].0@));
        }
        let ghost before = result@;
        collect_paths(&t.children[idx].1, &new_prefix, result);
        proof {
            // count accounting: the child appended exactly its stored count
            assert(t.children@.subrange(0, idx + 1).drop_last() =~= t.children@.subrange(
                0,
                idx as int,
            ));
            assert(t.children@.subrange(0, idx + 1).last() == t.children@[idx as int]);
            lemma_sat_assoc(
                sat_add_usize(base, file_part),
                trie_size_list(t.children@.subrange(0, idx as int)),
                trie_size(t.children@[idx as int].1),
            );
            let key = t.children@[idx as int].0@;
            // entries appended by the child render paths of this trie
            assert forall|k: int|
                before.len() <= k < result@.len() implies renders_some(
                *t,
                pv,
                (#[trigger] result@[k])@,
            ) by {
                assert(renders_some(t.children@[idx as int].1, pv.push(key), result@[k]@));
                let cs = choose|cs: Seq<Seq<char>>|
                    #[trigger] trie_contains(t.children@[idx as int].1, cs) && result@[k]@
                        == spec_render_path(pv.push(key) + cs);
                let full = seq![key] + cs;
                assert(full.first() == key);
                assert(full.drop_first() =~= cs);
                assert(trie_contains(*t, full));
                assert(pv.push(key) + cs =~= pv + full);
            }
            // entries appended earlier are still renders of this trie
            assert forall|k: int|
                old(result)@.len() <= k < before.len() implies renders_some(
                *t,
                pv,
                (#[trigger] result@[k])@,
            ) by {
                assert(result@[k] == before[k]);
                assert(renders_some(*t, pv, before[k]@));
            }
            // this child is now fully covered, earlier children stay covered
            assert forall|w: int| 0 <= w < idx + 1 implies child_covered(
                *t,
                w,
                result@,
                pv,
            ) by {
                if w < idx {
                    assert(child_covered(*t, w, before, pv));
                    assert forall|cs: Seq<Seq<char>>|
                        #[trigger] trie_contains(t.children@[w].1, cs) implies rendered_at(
                        result@,
                        spec_render_path(pv.push(t.children@[w].0@) + cs),
                    ) by {
                        assert(rendered_at(before, spec_render_path(
                            pv.push(t.children@[w].0@) + cs,
                        )));
                        let k0 = choose|k0: int|
                            0 <= k0 < before.len() && (#[trigger] before[k0])@
                                == spec_render_path(pv.push(t.children@[w].0@) + cs);
                        assert(result@[k0] == before[k0]);
                    }
                } else {
                    assert forall|cs: Seq<Seq<char>>|
                        #[trigger] trie_contains(t.children@[w].1, cs) implies rendered_at(
                        result@,
                        spec_render_path(pv.push(t.children@[w].0@) + cs),
                    ) by {
                        assert(rendered_at(result@, spec_render_path(
                            component_views(new_prefix@) + cs,
                        )));
                        assert(component_views(new_prefix@) + cs =~= pv.push(t.children@[w].0@)
                            + cs);
                    }
                }
            }
            // the file mark stays rendered
            if t.is_file {
                let k0 = choose|k0: int|
                    0 <= k0 < before.len() && (#[trigger] before[k0])@ == spec_render_path(pv);
                assert(result@[k0] == before[k0]);
                assert(rendered_at(result@, spec_render_path(pv)));
            }
        }
    }
    proof {
        assert(t.children@.subrange(0, count as int) =~= t.children@);
        lemma_sat_assoc(base, file_part, trie_size_list(t.children@));
        lemma_sat_assoc(base, trie_size_list(t.children@), file_part);
        lemma_sat_swap(base, file_part, trie_size_list(t.children@));
        assert(trie_size(*t) == sat_add_usize(trie_size_list(t.children@), file_part));
        assert(result@.len() as nat == sat_add_usize(base, trie_size(*t)));
        assert forall|cs: Seq<Seq<char>>| #[trigger] trie_contains(*t, cs) implies rendered_at(
            result@,
            spec_render_path(pv + cs),
        ) by {
            if cs.len() == 0 {
                assert(pv + cs =~= pv);
            } else {
                let w = choose|w: int|
                    0 <= w < t.children@.len() && (#[trigger] t.children@[w]).0@ == cs.first()
                        && trie_contains(t.children@[w].1, cs.drop_first());
                assert(child_covered(*t, w, result@, pv));
                assert(trie_contains(t.children@[w].1, cs.drop_first()));
                assert(rendered_at(result@, spec_render_path(
                    pv.push(t.children@[w].0@) + cs.drop_first(),
                )));
                assert(pv.push(t.children@[w].0@) + cs.drop_first() =~= pv + cs);
            }
        }
    }
}

/// A copy of a component list with the same views.
fn duplicate_components(v: &Vec<String>) -> (r: Vec<String>)
    ensures
        component_views(r@) == component_views(v@),
        r@.len() == v@.len(),
        forall|k: int| 0 <= k < v@.len() ==> r@[k]@ == v@[k]@,
{
    let mut r: Vec<String> = Vec::new();
    let n = v.len();
    for i in 0..n
        invariant
            n == v@.len(),
            r@.len() == i,
            forall|k: int| 0 <= k < i ==> r@[k]@ == v@[k]@,
    {
        r.push(v[i].clone());
    }
    proof {
        assert(component_views(r@) =~= component_views(v@));
    }
    r
}

/// An iterator over the rendered paths of a trie, front to back.
#[derive(Debug)]
pub struct PathTrieIter {
    pub paths: Vec<String>,
    pub index: usize,
}

impl PathTrieIter {
    /// The next rendered path, or `None` when all have been yielded.
    pub fn next(&mut self) -> (r: Option<String>)
        ensures
            final(self).paths == old(self).paths,
            old(self).index < old(self).paths@.len() ==> (r matches Some(p) && p@
                == old(self).paths@[old(self).index as int]@ && final(self).index == old(
                self,
            ).index + 1),
            old(self).index >= old(self).paths@.len() ==> r is None && final(self).index == old(
                self,
            ).index,
    {
        if self.index < self.paths.len() {
            let path = self.paths[self.index].clone();
            self.index = self.index + 1;
            Some(path)
        } else {
            None
        }
    }
}

} // verus!
