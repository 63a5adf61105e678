//! Lexicographic order on strings by character code point, and a verified
//! sort for the version strings listed in the metadata document. For valid
//! UTF-8 this order coincides with the byte-wise order the standard string
//! comparison uses.

use vstd::prelude::*;
use vstd::multiset::Multiset;
use vstd::string::StrSliceExecFns;
use crate::verbs::views_of;

verus! {

/// Whether `a` comes at or before `b` in lexicographic code-point order.
pub open spec fn lex_le(a: Seq<char>, b: Seq<char>) -> bool
    decreases a.len(),
{
    if a.len() == 0 {
        true
    } else if b.len() == 0 {
        false
    } else if (a[0] as u32) < (b[0] as u32) {
        true
    } else if (a[0] as u32) > (b[0] as u32) {
        false
    } else {
        lex_le(a.drop_first(), b.drop_first())
    }
}

/// The order is total.
pub proof fn lemma_lex_total(a: Seq<char>, b: Seq<char>)
    ensures
        lex_le(a, b) || lex_le(b, a),
    decreases a.len(),
{
    if a.len() == 0 {
    } else if b.len() == 0 {
    } else if (a[0] as u32) == (b[0] as u32) {
        lemma_lex_total(a.drop_first(), b.drop_first());
    }
}

/// The order is transitive.
pub proof fn lemma_lex_trans(a: Seq<char>, b: Seq<char>, c: Seq<char>)
    requires
        lex_le(a, b),
        lex_le(b, c),
    ensures
        lex_le(a, c),
    decreases a.len(),
{
    if a.len() == 0 {
    } else {
        if (a[0] as u32) == (b[0] as u32) && (b[0] as u32) == (c[0] as u32) {
            lemma_lex_trans(a.drop_first(), b.drop_first(), c.drop_first());
        }
    }
}

/// Compare two strings in lexicographic code-point order.
pub fn str_le(a: &String, b: &String) -> (r: bool)
    ensures
        r == lex_le(a@, b@),
{
    let alen = a.as_str().unicode_len();
    let blen = b.as_str().unicode_len();
    let mut i: usize = 0;
    proof {
        assert(a@.skip(0) =~= a@);
        assert(b@.skip(0) =~= b@);
    }
    while i < alen && i < blen
        invariant
            0 <= i <= alen,
            0 <= i <= blen,
            alen == a@.len(),
            blen == b@.len(),
            lex_le(a@, b@) == lex_le(a@.skip(i as int), b@.skip(i as int)),
        decreases alen - i,
    {
        let ca = a.as_str().get_char(i);
        let cb = b.as_str().get_char(i);
        proof {
            assert(a@.skip(i as int)[0] == a@[i as int]);
            assert(b@.skip(i as int)[0] == b@[i as int]);
            assert(a@.skip(i as int).drop_first() =~= a@.skip(i + 1));
            assert(b@.skip(i as int).drop_first() =~= b@.skip(i + 1));
        }
        if (ca as u32) < (cb as u32) {
            return true;
        }
        if (ca as u32) > (cb as u32) {
            return false;
        }
        i = i + 1;
    }
    proof {
        if i == alen {
            assert(a@.skip(i as int).len() == 0);
        } else {
            assert(b@.skip(i as int).len() == 0);
            assert(a@.skip(i as int).len() > 0);
        }
    }
    i == alen
}

/// Whether the strings of `s` stand in non-decreasing lexicographic order.
pub open spec fn sorted_views(s: Seq<String>) -> bool {
    forall|i: int, j: int| 0 <= i < j < s.len() ==> lex_le(s[i]@, s[j]@)
}

/// The position where `x` belongs in the sorted vector `out`.
fn insert_position(out: &Vec<String>, x: &String) -> (j: usize)
    requires
        sorted_views(out@),
    ensures
        j <= out@.len(),
        forall|k: int| 0 <= k < j ==> lex_le(out@[k]@, x@),
        forall|k: int| j <= k < out@.len() ==> lex_le(x@, out@[k]@),
{
    let mut j: usize = 0;
    while j < out.len()
        invariant
            0 <= j <= out@.len(),
            sorted_views(out@),
            forall|k: int| 0 <= k < j ==> lex_le(out@[k]@, x@),
        decreases out@.len() - j,
    {
        if !str_le(&out[j], x) {
            proof {
                lemma_lex_total(out@[j as int]@, x@);
                assert forall|k: int| j <= k < out@.len() implies lex_le(x@, out@[k]@) by {
                    if k > j {
                        lemma_lex_trans(x@, out@[j as int]@, out@[k]@);
                    }
                }
            }
            return j;
        }
        j = j + 1;
    }
    j
}

/// Sort a vector of strings in lexicographic code-point order, keeping
/// exactly the same strings (with multiplicity).
pub fn sort_strings(v: Vec<String>) -> (r: Vec<String>)
    ensures
        sorted_views(r@),
        views_of(r@).to_multiset() == views_of(v@).to_multiset(),
{
    let mut src = v;
    let mut out: Vec<String> = Vec::new();
    let ghost total = views_of(src@).to_multiset();
    proof {
        assert(views_of(out@) =~= Seq::<Seq<char>>::empty());
        vstd::seq_lib::lemma_multiset_commutative(views_of(out@), views_of(src@));
        assert(views_of(out@) + views_of(src@) =~= views_of(src@));
    }
    while src.len() > 0
        invariant
            sorted_views(out@),
            views_of(out@).to_multiset().add(views_of(src@).to_multiset()) == total,
        decreases src@.len(),
    {
        let ghost src_views_before = views_of(src@);
        let x = match src.pop() {
            Some(x) => x,
            None => vstd::pervasive::unreached(),
        };
        proof {
            assert(src_views_before =~= views_of(src@).push(x@));
            vstd::seq_lib::to_multiset_build(views_of(src@), x@);
        }
        let j = insert_position(&out, &x);
        let ghost out_views_before = views_of(out@);
        out.insert(j, x);
        proof {
            assert(views_of(out@) =~= out_views_before.insert(j as int, x@));
            vstd::seq_lib::to_multiset_insert(out_views_before, j as int, x@);
            assert(views_of(out@).to_multiset().add(views_of(src@).to_multiset()) =~= total);
            assert forall|p: int, q: int| 0 <= p < q < out@.len() implies lex_le(
                out@[p]@,
                out@[q]@,
            ) by {
                if q < j {
                } else if p < j && q == j {
                } else if p < j && q > j {
                } else if p == j {
                } else {
                }
            }
        }
    }
    proof {
        broadcast use vstd::seq_lib::group_to_multiset_ensures;

        assert(views_of(src@) =~= Seq::<Seq<char>>::empty());
        assert(views_of(src@).to_multiset().len() == 0);
        assert(views_of(src@).to_multiset() =~= Multiset::<Seq<char>>::empty());
        assert(views_of(out@).to_multiset() =~= total);
    }
    out
}

} // verus!
