//! The collision resolver: given the names already present in a destination
//! folder, picks the first free destination name for a file, trying the
//! plain name first and then `stem_1`, `stem_2`, and so on with the
//! extension reattached.  A counting argument shows a free name is always
//! found among the first `len + 1` numbered candidates.

use vstd::prelude::*;
use vstd::relations::injective_on;
use vstd::seq_lib::seq_to_set_is_finite;
use vstd::set_lib::lemma_int_range;
use vstd::set_lib::lemma_len_subset;
use vstd::set_lib::lemma_map_size;
use vstd::set_lib::set_int_range;

use crate::naming::candidate;
use crate::naming::lemma_candidate_injective;
use crate::naming::make_candidate;
use crate::naming::split_filename;
use crate::naming::stem_of;
use crate::naming::str_eq;
use crate::naming::suffix_of;

verus! {

/// The views of a list of names.
pub open spec fn names_of(existing: Seq<String>) -> Seq<Seq<char>> {
    existing.map_values(|s: String| s@)
}

/// Whether a name is already present in the folder.
pub open spec fn taken(names: Seq<Seq<char>>, name: Seq<char>) -> bool {
    names.contains(name)
}

/// Whether `r` is the name the resolver must return for `filename`: the
/// first candidate, in counter order, that is not taken.
pub open spec fn is_resolved(names: Seq<Seq<char>>, filename: Seq<char>, r: Seq<char>) -> bool {
    exists|n: nat|
        {
            &&& r == candidate(filename, n)
            &&& !taken(names, candidate(filename, n))
            &&& forall|m: nat| m < n ==> taken(names, candidate(filename, m))
        }
}

/// Whether a folder listing holds a given name.
pub fn contains_name(existing: &Vec<String>, name: &str) -> (r: bool)
    ensures
        r == taken(names_of(existing@), name@),
{
    let mut i: usize = 0;
    while i < existing.len()
        invariant
            i <= existing@.len(),
            forall|k: int| 0 <= k < i ==> names_of(existing@)[k] != name@,
        decreases existing@.len() - i,
    {
        if str_eq(existing[i].as_str(), name) {
            proof {
                assert(names_of(existing@)[i as int] == name@);
            }
            return true;
        }
        i += 1;
    }
    proof {
        if taken(names_of(existing@), name@) {
            let w = choose|w: int|
                0 <= w < names_of(existing@).len() && names_of(existing@)[w] == name@;
            assert(false);
        }
    }
    false
}

/// Among the first `names.len() + 1` numbered candidates, at least one is
/// free: the candidates are pairwise distinct, and there are more of them
/// than there are names in the folder.
pub proof fn lemma_free_candidate(names: Seq<Seq<char>>, filename: Seq<char>)
    ensures
        exists|n: nat| 1 <= n <= names.len() + 1 && !taken(names, candidate(filename, n)),
{
    if forall|n: nat|
        1 <= n <= names.len() + 1 ==> #[trigger] taken(names, candidate(filename, n)) {
        let l = names.len() as int;
        let x = set_int_range(1, l + 2);
        lemma_int_range(1, l + 2);
        let f = |k: int| candidate(filename, k as nat);
        assert(injective_on(f, x)) by {
            assert forall|k1: int, k2: int|
                x.contains(k1) && x.contains(k2) && #[trigger] f(k1) == #[trigger] f(
                    k2,
                ) implies k1 == k2 by {
                lemma_candidate_injective(filename, k1 as nat, k2 as nat);
            }
        }
        let y = x.map(f);
        lemma_map_size(x, y, f);
        let ns = names.to_set();
        assert(y.subset_of(ns)) by {
            assert forall|s: Seq<char>| y.contains(s) implies ns.contains(s) by {
                let k = choose|k: int| x.contains(k) && f(k) == s;
                assert(taken(names, candidate(filename, k as nat)));
            }
        }
        broadcast use seq_to_set_is_finite;

        lemma_len_subset(y, ns);
        names.lemma_cardinality_of_set();
        assert(false);
    }
}

/// Picks the destination name for `filename` inside a folder whose current
/// entries are `existing`: the filename itself when that is free, else the
/// first free `stem_n` with the extension reattached.  The length bound is a
/// machine limit: a folder cannot hold more entries.
pub fn get_unique_path(existing: &Vec<String>, filename: &str) -> (r: String)
    requires
        existing@.len() < usize::MAX,
    ensures
        is_resolved(names_of(existing@), filename@, r@),
        !taken(names_of(existing@), r@),
{
    let ghost names = names_of(existing@);
    if !contains_name(existing, filename) {
        proof {
            assert(candidate(filename@, 0) == filename@);
            assert(is_resolved(names, filename@, filename@));
        }
        return filename.to_owned();
    }
    let parts = split_filename(filename);
    let stem = parts.0;
    let suffix = parts.1;
    proof {
        lemma_free_candidate(names, filename@);
    }
    let ghost n0: nat = choose|k: nat|
        1 <= k <= names.len() + 1 && !taken(names, candidate(filename@, k));
    let mut n: u64 = 1;
    loop
        invariant
            names == names_of(existing@),
            existing@.len() < usize::MAX,
            stem@ == stem_of(filename@),
            suffix@ == suffix_of(filename@),
            1 <= n <= n0,
            n0 <= names.len() + 1,
            !taken(names, candidate(filename@, n0)),
            forall|m: nat| m < n as nat ==> taken(names, candidate(filename@, m)),
        decreases n0 - n,
    {
        let cand = make_candidate(stem.as_str(), suffix.as_str(), n);
        proof {
            assert(cand@ == candidate(filename@, n as nat));
        }
        if !contains_name(existing, cand.as_str()) {
            proof {
                assert(is_resolved(names, filename@, cand@)) by {
                    assert(cand@ == candidate(filename@, n as nat) && !taken(
                        names,
                        candidate(filename@, n as nat),
                    ) && (forall|m: nat| m < n as nat ==> taken(names, candidate(filename@, m))));
                }
            }
            return cand;
        }
        proof {
            assert(n as nat != n0);
        }
        n += 1;
    }
}

/// The resolver's contract pins the result: two names resolved for the same
/// folder and file are equal.
pub proof fn lemma_resolved_unique(
    names: Seq<Seq<char>>,
    filename: Seq<char>,
    r1: Seq<char>,
    r2: Seq<char>,
)
    requires
        is_resolved(names, filename, r1),
        is_resolved(names, filename, r2),
    ensures
        r1 == r2,
{
    let n1 = choose|n: nat|
        {
            &&& r1 == candidate(filename, n)
            &&& !taken(names, candidate(filename, n))
            &&& forall|m: nat| m < n ==> taken(names, candidate(filename, m))
        };
    let n2 = choose|n: nat|
        {
            &&& r2 == candidate(filename, n)
            &&& !taken(names, candidate(filename, n))
            &&& forall|m: nat| m < n ==> taken(names, candidate(filename, m))
        };
    if n1 < n2 {
        assert(taken(names, candidate(filename, n1)));
        assert(false);
    }
    if n2 < n1 {
        assert(taken(names, candidate(filename, n2)));
        assert(false);
    }
}

/// A source whose name is free in the destination folder keeps its name.
pub proof fn lemma_fresh_name_kept(names: Seq<Seq<char>>, filename: Seq<char>, r: Seq<char>)
    requires
        !taken(names, filename),
        is_resolved(names, filename, r),
    ensures
        r == filename,
{
    assert(candidate(filename, 0) == filename);
    assert(is_resolved(names, filename, filename));
    lemma_resolved_unique(names, filename, r, filename);
}

/// With the plain name taken and `stem_1` free, the resolver names the file
/// `stem_1` with the extension reattached.
pub proof fn lemma_first_suffix(names: Seq<Seq<char>>, filename: Seq<char>, r: Seq<char>)
    requires
        taken(names, filename),
        !taken(names, candidate(filename, 1)),
        is_resolved(names, filename, r),
    ensures
        r == stem_of(filename) + seq!['_', '1'] + suffix_of(filename),
{
    assert(forall|m: nat| m < 1 ==> #[trigger] taken(names, candidate(filename, m)));
    assert(is_resolved(names, filename, candidate(filename, 1)));
    lemma_resolved_unique(names, filename, r, candidate(filename, 1));
    assert(candidate(filename, 1) =~= stem_of(filename) + seq!['_', '1'] + suffix_of(filename));
}

/// With the plain name and `stem_1` both taken and `stem_2` free, the
/// resolver names the file `stem_2` with the extension reattached.
pub proof fn lemma_second_suffix(names: Seq<Seq<char>>, filename: Seq<char>, r: Seq<char>)
    requires
        taken(names, filename),
        taken(names, candidate(filename, 1)),
        !taken(names, candidate(filename, 2)),
        is_resolved(names, filename, r),
    ensures
        r == stem_of(filename) + seq!['_', '2'] + suffix_of(filename),
{
    assert(forall|m: nat| m < 2 ==> #[trigger] taken(names, candidate(filename, m)));
    assert(is_resolved(names, filename, candidate(filename, 2)));
    lemma_resolved_unique(names, filename, r, candidate(filename, 2));
    assert(candidate(filename, 2) =~= stem_of(filename) + seq!['_', '2'] + suffix_of(filename));
}

} // verus!
