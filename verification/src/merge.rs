//! The merge engine: set-based reconciliation of multi-valued
//! properties. Values are compared as strings; the target of a merge
//! is either the union of what exists with the patch, or the patch
//! alone when overwriting is asked for.

use vstd::prelude::*;

use crate::strutil::str_eq;

verus! {

/// The set of strings a list holds.
pub open spec fn spec_strset(v: Seq<String>) -> Set<Seq<char>> {
    Set::new(|x: Seq<char>| exists|i: int| 0 <= i < v.len() && (#[trigger] v[i])@ == x)
}

/// No two entries read the same.
pub open spec fn spec_distinct_strs(v: Seq<String>) -> bool {
    forall|i: int, j: int| 0 <= i < j < v.len() ==> (#[trigger] v[i])@ != (#[trigger] v[j])@
}

/// Whether some entry of `v` reads `x`.
pub fn contains_str(v: &Vec<String>, x: &str) -> (r: bool)
    ensures
        r == spec_strset(v@).contains(x@),
{
    let n = v.len();
    let mut i: usize = 0;
    while i < n
        invariant
            n == v@.len(),
            i <= n,
            forall|j: int| 0 <= j < i ==> (#[trigger] v@[j])@ != x@,
        decreases n - i,
    {
        if str_eq(v[i].as_str(), x) {
            proof {
                assert(spec_strset(v@).contains(x@));
            }
            return true;
        }
        i = i + 1;
    }
    proof {
        if spec_strset(v@).contains(x@) {
            let j = choose|j: int| 0 <= j < v@.len() && (#[trigger] v@[j])@ == x@;
            assert((v@[j])@ != x@);
        }
    }
    false
}

/// Appends every entry of `src` that is not yet present in `dst`,
/// first occurrence first; `dst` stays duplicate-free and ends up
/// holding the union of the two sets.
fn extend_missing(dst: &mut Vec<String>, src: &Vec<String>)
    requires
        spec_distinct_strs(old(dst)@),
    ensures
        spec_distinct_strs(final(dst)@),
        spec_strset(final(dst)@) == spec_strset(old(dst)@) + spec_strset(src@),
{
    let n = src.len();
    let mut i: usize = 0;
    while i < n
        invariant
            n == src@.len(),
            i <= n,
            spec_distinct_strs(dst@),
            spec_strset(dst@) =~= spec_strset(old(dst)@) + spec_strset(src@.take(i as int)),
        decreases n - i,
    {
        proof {
            assert(src@.take(i as int + 1).drop_last() =~= src@.take(i as int));
            assert(src@.take(i as int + 1).last() == src@[i as int]);
            assert forall|x: Seq<char>| #[trigger] spec_strset(src@.take(i as int + 1)).contains(
                x,
            ) implies spec_strset(src@.take(i as int)).contains(x) || x == (src@[i as int])@ by {
                let j = choose|j: int|
                    0 <= j < src@.take(i as int + 1).len() && (#[trigger] src@.take(
                        i as int + 1,
                    )[j])@ == x;
                if j < i {
                    assert(src@.take(i as int)[j] == src@.take(i as int + 1)[j]);
                }
            }
            assert forall|x: Seq<char>| spec_strset(src@.take(i as int)).contains(x) || x == (
            src@[i as int])@ implies #[trigger] spec_strset(src@.take(i as int + 1)).contains(
                x,
            ) by {
                if spec_strset(src@.take(i as int)).contains(x) {
                    let j = choose|j: int|
                        0 <= j < src@.take(i as int).len() && (#[trigger] src@.take(i as int)[j])@
                            == x;
                    assert(src@.take(i as int + 1)[j] == src@.take(i as int)[j]);
                } else {
                    assert(src@.take(i as int + 1)[i as int] == src@[i as int]);
                }
            }
        }
        let x = &src[i];
        if !contains_str(dst, x.as_str()) {
            let ghost prior = dst@;
            dst.push(x.clone());
            proof {
                assert forall|p: int, q: int| 0 <= p < q < dst@.len() implies (
                #[trigger] dst@[p])@ != (#[trigger] dst@[q])@ by {
                    if q == dst@.len() - 1 {
                        assert(dst@[q]@ == x@);
                        assert(spec_strset(prior).contains(dst@[p]@));
                    }
                }
                assert forall|z: Seq<char>| #[trigger] spec_strset(dst@).contains(z) implies
                    spec_strset(prior).contains(z) || z == x@ by {
                    let j = choose|j: int| 0 <= j < dst@.len() && (#[trigger] dst@[j])@ == z;
                    if j < prior.len() {
                        assert(prior[j] == dst@[j]);
                    }
                }
                assert forall|z: Seq<char>|
                    spec_strset(prior).contains(z) || z == x@ implies #[trigger] spec_strset(
                    dst@,
                ).contains(z) by {
                    if spec_strset(prior).contains(z) {
                        let j = choose|j: int| 0 <= j < prior.len() && (#[trigger] prior[j])@ == z;
                        assert(dst@[j] == prior[j]);
                    } else {
                        assert(dst@[dst@.len() - 1]@ == x@);
                    }
                }
            }
        } else {
            proof {
                assert(spec_strset(dst@).contains((src@[i as int])@));
            }
        }
        i = i + 1;
    }
    proof {
        assert(src@.take(n as int) =~= src@);
    }
}

/// The target of one merge: with `overwrite` the patch alone, else
/// everything that exists joined with the patch. The result carries
/// each value once, existing values first, in first-occurrence order.
pub fn merge_values(existing: &Vec<String>, patch: &Vec<String>, overwrite: bool) -> (r: Vec<
    String,
>)
    ensures
        spec_distinct_strs(r@),
        spec_strset(r@) == if overwrite {
            spec_strset(patch@)
        } else {
            spec_strset(existing@) + spec_strset(patch@)
        },
{
    let mut out: Vec<String> = Vec::new();
    proof {
        assert(spec_strset(out@) =~= Set::<Seq<char>>::empty());
    }
    if !overwrite {
        extend_missing(&mut out, existing);
        proof {
            assert(spec_strset(out@) =~= spec_strset(existing@));
        }
    }
    extend_missing(&mut out, patch);
    proof {
        if overwrite {
            assert(spec_strset(out@) =~= spec_strset(patch@));
        }
    }
    out
}

/// Whether two lists hold the same set of strings.
pub fn same_strset(a: &Vec<String>, b: &Vec<String>) -> (r: bool)
    ensures
        r == (spec_strset(a@) == spec_strset(b@)),
{
    let na = a.len();
    let mut i: usize = 0;
    while i < na
        invariant
            na == a@.len(),
            i <= na,
            forall|j: int| 0 <= j < i ==> spec_strset(b@).contains((#[trigger] a@[j])@),
        decreases na - i,
    {
        if !contains_str(b, a[i].as_str()) {
            proof {
                assert(spec_strset(a@).contains((a@[i as int])@));
            }
            return false;
        }
        i = i + 1;
    }
    let nb = b.len();
    let mut k: usize = 0;
    while k < nb
        invariant
            na == a@.len(),
            nb == b@.len(),
            k <= nb,
            forall|j: int| 0 <= j < na ==> spec_strset(b@).contains((#[trigger] a@[j])@),
            forall|j: int| 0 <= j < k ==> spec_strset(a@).contains((#[trigger] b@[j])@),
        decreases nb - k,
    {
        if !contains_str(a, b[k].as_str()) {
            proof {
                assert(spec_strset(b@).contains((b@[k as int])@));
            }
            return false;
        }
        k = k + 1;
    }
    proof {
        assert forall|x: Seq<char>| #[trigger] spec_strset(a@).contains(x) implies spec_strset(
            b@,
        ).contains(x) by {
            let j = choose|j: int| 0 <= j < a@.len() && (#[trigger] a@[j])@ == x;
        }
        assert forall|x: Seq<char>| #[trigger] spec_strset(b@).contains(x) implies spec_strset(
            a@,
        ).contains(x) by {
            let j = choose|j: int| 0 <= j < b@.len() && (#[trigger] b@[j])@ == x;
        }
        assert(spec_strset(a@) =~= spec_strset(b@));
    }
    true
}

/// Union semantics, stated once for every pair of sets: without
/// overwrite the merge target is the union; with overwrite it is the
/// patch set alone.
pub proof fn lemma_union_semantics(existing: Seq<String>, patch: Seq<String>)
    ensures
        spec_strset(existing) + spec_strset(patch) == spec_strset(patch) + spec_strset(existing),
        spec_strset(existing) + spec_strset(patch) =~= Set::new(
            |x: Seq<char>| spec_strset(existing).contains(x) || spec_strset(patch).contains(x),
        ),
{
    assert(spec_strset(existing) + spec_strset(patch) =~= spec_strset(patch) + spec_strset(
        existing,
    ));
}

/// Merging the same patch twice without overwrite reaches the same
/// set as merging it once: the union operation is idempotent in the
/// patch argument.
pub proof fn lemma_merge_idempotent(existing: Set<Seq<char>>, patch: Set<Seq<char>>)
    ensures
        (existing + patch) + patch == existing + patch,
{
    assert((existing + patch) + patch =~= existing + patch);
}


/// The set a list of texts holds.
pub open spec fn spec_set_of(texts: Seq<Seq<char>>) -> Set<Seq<char>> {
    Set::new(|x: Seq<char>| exists|i: int| 0 <= i < texts.len() && #[trigger] texts[i] == x)
}

/// The string set of a list is the text set of its views.
pub proof fn lemma_strset_is_set_of_views(v: Seq<String>)
    ensures
        spec_strset(v) == spec_set_of(v.map_values(|s: String| s@)),
{
    let m = v.map_values(|s: String| s@);
    assert forall|x: Seq<char>| #[trigger] spec_strset(v).contains(x) implies spec_set_of(
        m,
    ).contains(x) by {
        let i = choose|i: int| 0 <= i < v.len() && (#[trigger] v[i])@ == x;
        assert(m[i] == x);
    }
    assert forall|x: Seq<char>| #[trigger] spec_set_of(m).contains(x) implies spec_strset(
        v,
    ).contains(x) by {
        let i = choose|i: int| 0 <= i < m.len() && #[trigger] m[i] == x;
        assert(v[i]@ == x);
    }
    assert(spec_strset(v) =~= spec_set_of(m));
}

/// No two texts in a list read the same.
pub open spec fn spec_distinct_texts(ts: Seq<Seq<char>>) -> bool {
    forall|i: int, j: int| 0 <= i < j < ts.len() ==> #[trigger] ts[i] != #[trigger] ts[j]
}

/// A list of distinct strings views to a list of distinct texts.
pub proof fn lemma_distinct_strs_views(v: Seq<String>)
    requires
        spec_distinct_strs(v),
    ensures
        spec_distinct_texts(v.map_values(|s: String| s@)),
{
    let m = v.map_values(|s: String| s@);
    assert forall|i: int, j: int| 0 <= i < j < m.len() implies #[trigger] m[i] != #[trigger] m[j] by {
        assert(v[i]@ != v[j]@);
    }
}
} // verus!
