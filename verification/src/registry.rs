//! The path registry: a deterministic bidirectional mapping between file
//! paths and small integer indices.  Indices are assigned in first
//! registration order, and registering a known path returns its existing
//! index, so the mapping is a pure function of the registration sequence.

use crate::text::push_decimal;
use vstd::prelude::*;
use vstd::string::StringExecFns;
use vstd::utf8::encode_utf8;

verus! {

/// An ordered list of unique paths; a path's index is its position.
#[derive(Debug)]
pub struct PathRegistry {
    paths: Vec<String>,
}

/// Saturating addition capped at `usize::MAX`, as a plain spec value.
pub open spec fn sat_add_usize(a: nat, b: nat) -> nat {
    if a + b > usize::MAX {
        usize::MAX as nat
    } else {
        a + b
    }
}

/// The byte length of a path as `str::len` reports it.
pub open spec fn path_byte_len(p: Seq<char>) -> nat {
    (encode_utf8(p).len() as usize) as nat
}

/// Total byte size of the given paths, accumulated with saturation.
pub open spec fn spec_total_path_bytes(paths: Seq<Seq<char>>) -> nat
    decreases paths.len(),
{
    if paths.len() == 0 {
        0
    } else {
        sat_add_usize(spec_total_path_bytes(paths.drop_last()), path_byte_len(paths.last()))
    }
}

/// The first index at which `p` occurs in `paths`, or `-1` if it does not.
pub open spec fn spec_first_index_of(paths: Seq<Seq<char>>, p: Seq<char>) -> int
    decreases paths.len(),
{
    if paths.len() == 0 {
        -1
    } else if paths.first() == p {
        0
    } else if spec_first_index_of(paths.drop_first(), p) == -1 {
        -1
    } else {
        1 + spec_first_index_of(paths.drop_first(), p)
    }
}

/// What `spec_first_index_of` returns: the first occurrence, or `-1`.
pub proof fn lemma_first_index_of(paths: Seq<Seq<char>>, p: Seq<char>)
    ensures
        -1 <= spec_first_index_of(paths, p) < paths.len(),
        spec_first_index_of(paths, p) >= 0 ==> paths[spec_first_index_of(paths, p)] == p,
        forall|k: int| 0 <= k < spec_first_index_of(paths, p) ==> paths[k] != p,
        spec_first_index_of(paths, p) == -1 ==> !paths.contains(p),
        paths.contains(p) ==> spec_first_index_of(paths, p) >= 0,
    decreases paths.len(),
{
    if paths.len() > 0 && paths.first() != p {
        lemma_first_index_of(paths.drop_first(), p);
        assert(forall|k: int| 0 <= k < paths.len() - 1 ==> paths.drop_first()[k] == paths[k + 1]);
        assert forall|k: int| 0 <= k < spec_first_index_of(paths, p) implies paths[k] != p by {
            if k > 0 {
                assert(paths.drop_first()[k - 1] == paths[k]);
                assert(paths.drop_first()[k - 1] != p);
            }
        }
        if paths.contains(p) {
            let w = choose|w: int| 0 <= w < paths.len() && paths[w] == p;
            assert(paths.drop_first()[w - 1] == p);
        }
        if spec_first_index_of(paths.drop_first(), p) == -1 {
            assert forall|k: int| 0 <= k < paths.len() implies paths[k] != p by {
                if k > 0 {
                    assert(paths.drop_first()[k - 1] == paths[k]);
                }
            }
        }
    }
}

impl View for PathRegistry {
    type V = Seq<Seq<char>>;

    closed spec fn view(&self) -> Seq<Seq<char>> {
        self.paths@.map_values(|p: String| p@)
    }
}

impl PathRegistry {
    /// Every registered path occurs exactly once.
    pub open spec fn wf(self) -> bool {
        forall|i: int, j: int| 0 <= i < j < self@.len() ==> self@[i] != self@[j]
    }

    /// A copy of the registered paths in index order, for persistence.
    /// The copy also witnesses that registered paths are pairwise distinct.
    pub fn export_paths(&self) -> (r: Vec<String>)
        ensures
            r@.map_values(|p: String| p@) == self@,
    {
        let mut r: Vec<String> = Vec::new();
        let n = self.paths.len();
        for i in 0..n
            invariant
                n == self.paths@.len(),
                r@.len() == i,
                forall|k: int| 0 <= k < i ==> r@[k]@ == self.paths@[k]@,
        {
            r.push(self.paths[i].clone());
        }
        proof {
            assert forall|k: int| 0 <= k < n implies r@.map_values(|p: String| p@)[k]
                == self@[k] by {
                assert(r@[k]@ == self.paths@[k]@);
            }
            assert(r@.map_values(|p: String| p@) =~= self@);
        }
        r
    }

    /// An empty registry.
    pub fn new() -> (r: Self)
        ensures
            r@ == Seq::<Seq<char>>::empty(),
            r.wf(),
    {
        let r = Self { paths: Vec::new() };
        proof {
            assert(r@ =~= Seq::<Seq<char>>::empty());
        }
        r
    }

    /// Number of registered paths.
    pub fn path_count(&self) -> (n: usize)
        ensures
            n == self@.len(),
    {
        self.paths.len()
    }

    /// Insert-or-lookup: a known path keeps its index, a new path is
    /// appended and gets the next index.
    pub fn register_path(&mut self, path: String) -> (idx: usize)
        requires
            old(self).wf(),
        ensures
            final(self).wf(),
            idx < final(self)@.len(),
            final(self)@[idx as int] == path@,
            old(self)@.contains(path@) ==> final(self)@ == old(self)@,
            !old(self)@.contains(path@) ==> final(self)@ == old(self)@.push(path@) && idx == old(
                self,
            )@.len(),
            idx as int == spec_first_index_of(final(self)@, path@),
    {
        proof {
            lemma_first_index_of(old(self)@, path@);
        }
        let n = self.paths.len();
        for i in 0..n
            invariant
                n == self.paths@.len(),
                *self == *old(self),
                old(self).wf(),
                -1 <= spec_first_index_of(self@, path@) < self@.len(),
                spec_first_index_of(self@, path@) >= 0 ==> self@[spec_first_index_of(self@, path@)]
                    == path@,
                spec_first_index_of(self@, path@) == -1 ==> !self@.contains(path@),
                forall|k: int| 0 <= k < spec_first_index_of(self@, path@) ==> self@[k] != path@,
                forall|k: int| 0 <= k < i ==> self.paths@[k]@ != path@,
        {
            if self.paths[i] == path {
                proof {
                    assert(self@[i as int] == path@);
                    assert(self@.contains(path@));
                    let r = spec_first_index_of(self@, path@);
                    if 0 <= r < i as int {
                        assert(self@[r] == path@);
                        assert(self@[r] != path@);
                    }
                    if r > i as int {
                        assert(self@[i as int] != path@);
                    }
                }
                return i;
            }
        }
        assert(forall|k: int| 0 <= k < self@.len() ==> self@[k] != path@);
        assert(!old(self)@.contains(path@));
        let idx = self.paths.len();
        self.paths.push(path);
        proof {
            assert(self@ =~= old(self)@.push(path@));
            let np = old(self)@.push(path@);
            lemma_first_index_of(np, path@);
            assert(np[old(self)@.len() as int] == path@);
            assert(np.contains(path@));
            let r = spec_first_index_of(np, path@);
            if r < old(self)@.len() {
                assert(np[r] == old(self)@[r]);
                assert(old(self)@[r] == path@);
                assert(old(self)@.contains(path@));
            }
        }
        idx
    }

    /// Looks a path up without inserting; `Some` exactly for registered paths.
    pub fn lookup_path(&self, path: &String) -> (r: Option<usize>)
        ensures
            match r {
                Some(i) => i < self@.len() && self@[i as int] == path@,
                None => !self@.contains(path@),
            },
            r is Some <==> self@.contains(path@),
    {
        let n = self.paths.len();
        for i in 0..n
            invariant
                n == self.paths@.len(),
                forall|k: int| 0 <= k < i ==> self.paths@[k]@ != path@,
        {
            if self.paths[i] == *path {
                assert(self@[i as int] == path@);
                return Some(i);
            }
        }
        assert(forall|k: int| 0 <= k < self@.len() ==> self@[k] != path@);
        None
    }

    /// The path stored at `index`; the caller must know the index is in
    /// range (resolution of an out-of-range index is reported by
    /// `debug_path_info` instead of defaulting).
    pub fn get_path(&self, index: usize) -> (path: &String)
        requires
            index < self@.len(),
        ensures
            path@ == self@[index as int],
    {
        &self.paths[index]
    }

    /// Drops every registered path.
    pub fn clear(&mut self)
        ensures
            final(self)@ == Seq::<Seq<char>>::empty(),
            final(self).wf(),
    {
        self.paths.clear();
        proof {
            assert(self@ =~= Seq::<Seq<char>>::empty());
        }
    }

    /// A saturating estimate of the bytes held by the registered paths.
    pub fn total_path_bytes(&self) -> (n: usize)
        ensures
            n == spec_total_path_bytes(self@),
    {
        let mut acc: usize = 0;
        let count = self.paths.len();
        for i in 0..count
            invariant
                count == self.paths@.len(),
                acc == spec_total_path_bytes(self@.subrange(0, i as int)),
        {
            let len = self.paths[i].as_str().len();
            acc = acc.saturating_add(len);
            proof {
                assert(self@[i as int] == self.paths@[i as int]@);
                assert(self@.subrange(0, i + 1).drop_last() =~= self@.subrange(0, i as int));
                assert(self@.subrange(0, i + 1).last() == self@[i as int]);
            }
        }
        proof {
            assert(self@.subrange(0, self@.len() as int) =~= self@);
        }
        acc
    }

    /// Renders the registry's summary counters: how many unique paths are
    /// registered and the byte estimate.
    pub fn print_stats(&self) -> (r: String)
        ensures
            r@ == "unique paths: "@ + crate::text::dec_str(self@.len()) + ", estimated path bytes: "@
                + crate::text::dec_str(spec_total_path_bytes(self@)),
    {
        let mut out = String::new();
        out.append("unique paths: ");
        push_decimal(&mut out, self.path_count());
        out.append(", estimated path bytes: ");
        push_decimal(&mut out, self.total_path_bytes());
        out
    }

    /// Renders what is known about one path index, tolerating an
    /// out-of-range index so that suspicious symbol records can be reported.
    pub fn debug_path_info(&self, file_path_index: usize) -> (r: String)
        ensures
            file_path_index < self@.len() ==> r@ == "Path["@ + crate::text::dec_str(
                file_path_index as nat,
            ) + "]: '"@ + self@[file_path_index as int] + "'"@,
            file_path_index >= self@.len() ==> r@ == "ERROR: index "@ + crate::text::dec_str(
                file_path_index as nat,
            ) + " out of bounds (path count: "@ + crate::text::dec_str(self@.len()) + ")"@,
    {
        let mut out = String::new();
        if file_path_index < self.paths.len() {
            out.append("Path[");
            push_decimal(&mut out, file_path_index);
            out.append("]: '");
            out.append(self.paths[file_path_index].as_str());
            out.append("'");
        } else {
            out.append("ERROR: index ");
            push_decimal(&mut out, file_path_index);
            out.append(" out of bounds (path count: ");
            push_decimal(&mut out, self.paths.len());
            out.append(")");
        }
        out
    }
}

} // verus!
