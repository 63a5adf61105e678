//! Merging a resource's native verb set with augmented verbs.
//!
//! Verb collections travel as `Vec<String>`, but their meaning is a set:
//! consumers of the catalog must not depend on verb order.

use vstd::prelude::*;

verus! {

/// The views of the strings in a sequence, in order.
pub open spec fn views_of(s: Seq<String>) -> Seq<Seq<char>> {
    s.map_values(|x: String| x@)
}

/// The set of strings (as character sequences) held by a vector of verbs.
pub open spec fn view_set(s: Seq<String>) -> Set<Seq<char>> {
    views_of(s).to_set()
}

/// What merging two verb vectors means: the union of the two sets of verbs.
pub open spec fn merged_verbs(a: Seq<String>, b: Seq<String>) -> Set<Seq<char>> {
    view_set(a).union(view_set(b))
}

proof fn lemma_view_set_contains(s: Seq<String>, y: Seq<char>)
    ensures
        view_set(s).contains(y) <==> (exists|i: int| 0 <= i < s.len() && s[i]@ == y),
{
    broadcast use vstd::seq_lib::group_seq_properties;

    if view_set(s).contains(y) {
        assert(views_of(s).contains(y));
        let i = choose|i: int| 0 <= i < views_of(s).len() && views_of(s)[i] == y;
        assert(s[i]@ == y);
    }
    if exists|i: int| 0 <= i < s.len() && s[i]@ == y {
        let i = choose|i: int| 0 <= i < s.len() && s[i]@ == y;
        assert(views_of(s)[i] == y);
        assert(views_of(s).contains(y));
    }
}

/// What membership in a verb vector's view set means, for every candidate.
pub proof fn lemma_view_set_elems(s: Seq<String>)
    ensures
        forall|z: Seq<char>|
            #[trigger] view_set(s).contains(z) <==> (exists|i: int|
                0 <= i < s.len() && s[i]@ == z),
{
    assert forall|z: Seq<char>| #[trigger] view_set(s).contains(z) <==> (exists|i: int|
        0 <= i < s.len() && s[i]@ == z) by {
        lemma_view_set_contains(s, z);
    }
}

/// Whether the verb vector `v` holds a string equal to `x`.
pub fn has_verb(v: &Vec<String>, x: &String) -> (r: bool)
    ensures
        r == view_set(v@).contains(x@),
{
    proof {
        lemma_view_set_contains(v@, x@);
    }
    let mut i: usize = 0;
    while i < v.len()
        invariant
            0 <= i <= v@.len(),
            forall|j: int| 0 <= j < i ==> v@[j]@ != x@,
        decreases v@.len() - i,
    {
        if v[i].eq(x) {
            proof {
                assert(v@[i as int]@ == x@);
                assert(exists|k: int| 0 <= k < v@.len() && v@[k]@ == x@);
                lemma_view_set_contains(v@, x@);
                assert(view_set(v@).contains(x@));
            }
            return true;
        }
        i = i + 1;
    }
    false
}

/// Merge two verb vectors into one with set semantics: the result lists each
/// verb of either input exactly once, in an order consumers must not rely on.
pub fn merge_vecs(vec1: Vec<String>, vec2: Vec<String>) -> (r: Vec<String>)
    ensures
        views_of(r@).no_duplicates(),
        view_set(r@) == merged_verbs(vec1@, vec2@),
        r@.len() <= vec1@.len() + vec2@.len(),
{
    let mut out: Vec<String> = Vec::new();
    proof {
        assert(view_set(out@) =~= Set::<Seq<char>>::empty());
    }
    let mut i: usize = 0;
    while i < vec1.len()
        invariant
            0 <= i <= vec1@.len(),
            views_of(out@).no_duplicates(),
            view_set(out@) == view_set(vec1@.take(i as int)),
            out@.len() <= i,
        decreases vec1@.len() - i,
    {
        push_if_new(&mut out, &vec1[i]);
        proof {
            lemma_take_one_more(vec1@, i as int);
        }
        i = i + 1;
    }
    proof {
        assert(vec1@.take(vec1@.len() as int) =~= vec1@);
    }
    let mut j: usize = 0;
    while j < vec2.len()
        invariant
            0 <= j <= vec2@.len(),
            views_of(out@).no_duplicates(),
            view_set(out@) == view_set(vec1@).union(view_set(vec2@.take(j as int))),
            out@.len() <= vec1@.len() + j,
        decreases vec2@.len() - j,
    {
        proof {
            lemma_take_one_more(vec2@, j as int);
        }
        push_if_new(&mut out, &vec2[j]);
        proof {
            assert(view_set(vec1@).union(view_set(vec2@.take(j + 1))) =~= if view_set(
                vec1@,
            ).union(view_set(vec2@.take(j as int))).contains(vec2@[j as int]@) {
                view_set(vec1@).union(view_set(vec2@.take(j as int)))
            } else {
                view_set(vec1@).union(view_set(vec2@.take(j as int))).insert(vec2@[j as int]@)
            });
        }
        j = j + 1;
    }
    proof {
        assert(vec2@.take(vec2@.len() as int) =~= vec2@);
    }
    out
}

/// Append `x` to `out` unless an equal string is already present.
fn push_if_new(out: &mut Vec<String>, x: &String)
    requires
        views_of(old(out)@).no_duplicates(),
    ensures
        views_of(final(out)@).no_duplicates(),
        view_set(final(out)@) == if view_set(old(out)@).contains(x@) {
            view_set(old(out)@)
        } else {
            view_set(old(out)@).insert(x@)
        },
        final(out)@.len() <= old(out)@.len() + 1,
{
    let present = has_verb(out, x);
    if !present {
        let ghost before = out@;
        out.push(x.clone());
        proof {
            lemma_view_set_push(before, x@);
            lemma_view_set_contains(before, x@);
            assert(views_of(out@) =~= views_of(before).push(x@));
        }
    }
}

proof fn lemma_view_set_push(s: Seq<String>, y: Seq<char>)
    ensures
        forall|x: String| x@ == y ==> view_set(s.push(x)) =~= view_set(s).insert(y),
        forall|x: String| x@ == y ==> views_of(s.push(x)) =~= views_of(s).push(y),
{
    broadcast use vstd::seq_lib::group_seq_properties;

    assert forall|x: String| x@ == y implies view_set(s.push(x)) =~= view_set(s).insert(y) by {
        assert(views_of(s.push(x)) =~= views_of(s).push(y));
        lemma_view_set_contains(s.push(x), y);
        assert forall|z: Seq<char>| view_set(s).insert(y).contains(z) implies view_set(
            s.push(x),
        ).contains(z) by {
            lemma_view_set_contains(s, z);
            lemma_view_set_contains(s.push(x), z);
        }
        assert forall|z: Seq<char>| view_set(s.push(x)).contains(z) implies view_set(
            s,
        ).insert(y).contains(z) by {
            lemma_view_set_contains(s, z);
            lemma_view_set_contains(s.push(x), z);
        }
    }
    assert forall|x: String| x@ == y implies views_of(s.push(x)) =~= views_of(s).push(y) by {
    }
}

proof fn lemma_take_one_more(s: Seq<String>, i: int)
    requires
        0 <= i < s.len(),
    ensures
        view_set(s.take(i + 1)) =~= if view_set(s.take(i)).contains(s[i]@) {
            view_set(s.take(i))
        } else {
            view_set(s.take(i)).insert(s[i]@)
        },
{
    assert(s.take(i + 1) =~= s.take(i).push(s[i]));
    lemma_view_set_push(s.take(i), s[i]@);
    lemma_view_set_contains(s.take(i), s[i]@);
}

/// Law: merging is commutative — the merged verb set does not depend on the
/// order of the two inputs.
pub proof fn lemma_merge_commutative(a: Seq<String>, b: Seq<String>)
    ensures
        merged_verbs(a, b) == merged_verbs(b, a),
{
    assert(merged_verbs(a, b) =~= merged_verbs(b, a));
}

/// Law: merging is idempotent on repeated application — merging the already
/// merged verbs with either input again adds nothing.
pub proof fn lemma_merge_repeated(a: Seq<String>, b: Seq<String>)
    ensures
        merged_verbs(a, b).union(view_set(b)) == merged_verbs(a, b),
        merged_verbs(a, b).union(view_set(a)) == merged_verbs(a, b),
        merged_verbs(a, b).union(merged_verbs(a, b)) == merged_verbs(a, b),
{
    assert(merged_verbs(a, b).union(view_set(b)) =~= merged_verbs(a, b));
    assert(merged_verbs(a, b).union(view_set(a)) =~= merged_verbs(a, b));
    assert(merged_verbs(a, b).union(merged_verbs(a, b)) =~= merged_verbs(a, b));
}

/// Whether two verb vectors denote the same verb set, ignoring order and
/// multiplicity.
pub fn verb_sets_equal(x: &Vec<String>, y: &Vec<String>) -> (r: bool)
    ensures
        r == (view_set(x@) == view_set(y@)),
{
    let mut i: usize = 0;
    while i < x.len()
        invariant
            0 <= i <= x@.len(),
            forall|j: int| 0 <= j < i ==> view_set(y@).contains(x@[j]@),
        decreases x@.len() - i,
    {
        if !has_verb(y, &x[i]) {
            proof {
                lemma_view_set_contains(x@, x@[i as int]@);
                assert(view_set(x@).contains(x@[i as int]@));
            }
            return false;
        }
        i = i + 1;
    }
    let mut j: usize = 0;
    while j < y.len()
        invariant
            0 <= j <= y@.len(),
            forall|k: int| 0 <= k < x@.len() ==> view_set(y@).contains(x@[k]@),
            forall|k: int| 0 <= k < j ==> view_set(x@).contains(y@[k]@),
        decreases y@.len() - j,
    {
        if !has_verb(x, &y[j]) {
            proof {
                lemma_view_set_contains(y@, y@[j as int]@);
                assert(view_set(y@).contains(y@[j as int]@));
            }
            return false;
        }
        j = j + 1;
    }
    proof {
        assert forall|z: Seq<char>| view_set(x@).contains(z) implies view_set(y@).contains(z) by {
            lemma_view_set_contains(x@, z);
        }
        assert forall|z: Seq<char>| view_set(y@).contains(z) implies view_set(x@).contains(z) by {
            lemma_view_set_contains(y@, z);
        }
        assert(view_set(x@) =~= view_set(y@));
    }
    true
}

} // verus!
