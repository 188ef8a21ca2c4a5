//! Sorting texts by code point, and the uniqueness of a sorted arrangement.
use vstd::prelude::*;
use vstd::relations::*;
use vstd::multiset::Multiset;
use crate::text::{code_point_leq, code_point_order, lemma_code_point_order_total, text_leq};

verus! {

broadcast use vstd::seq_lib::group_to_multiset_ensures;

/// The texts held by a vector of character vectors.
pub open spec fn texts(v: Seq<Vec<char>>) -> Seq<Seq<char>> {
    v.map_values(|x: Vec<char>| x@)
}

/// The texts of `s` in ascending code-point order.
pub open spec fn sorted_texts(s: Seq<Seq<char>>) -> Seq<Seq<char>> {
    s.sort_by(code_point_order())
}

/// Two arrangements of one multiset of texts that are both in ascending
/// code-point order are the same sequence.
pub proof fn lemma_sorted_unique(a: Seq<Seq<char>>, b: Seq<Seq<char>>)
    requires
        sorted_by(a, code_point_order()),
        sorted_by(b, code_point_order()),
        a.to_multiset() == b.to_multiset(),
    ensures
        a == b,
    decreases a.len(),
{
    lemma_code_point_order_total();
    let leq = code_point_order();
    assert(a.len() == a.to_multiset().len());
    assert(b.len() == b.to_multiset().len());
    if a.len() == 0 {
        assert(b.len() == 0);
        assert(a =~= b);
    } else {
        let n = a.len() - 1;
        let x = a.last();
        let y = b.last();
        assert(a.to_multiset().count(x) > 0);
        assert(b.contains(x));
        let j = choose|j: int| 0 <= j < b.len() && b[j] == x;
        if j < n {
            assert(leq(b[j], b[n]));
        }
        assert(b.to_multiset().count(y) > 0);
        assert(a.contains(y));
        let k = choose|k: int| 0 <= k < a.len() && a[k] == y;
        if k < n {
            assert(leq(a[k], a[n]));
        }
        assert(leq(x, y) && leq(y, x));
        assert(x == y);
        let a0 = a.drop_last();
        let b0 = b.drop_last();
        assert(a0.push(x) =~= a);
        assert(b0.push(y) =~= b);
        assert(a0.to_multiset() =~= b0.to_multiset()) by {
            assert(a0.to_multiset().insert(x) == b0.to_multiset().insert(x));
            assert forall|e: Seq<char>| a0.to_multiset().count(e) == b0.to_multiset().count(e) by {
                assert(a0.to_multiset().insert(x).count(e) == b0.to_multiset().insert(x).count(e));
            };
        };
        assert(sorted_by(a0, leq));
        assert(sorted_by(b0, leq));
        lemma_sorted_unique(a0, b0);
        assert(a =~= b);
    }
}

proof fn lemma_insert_keeps_sorted(s: Seq<Seq<char>>, x: Seq<char>, p: int)
    requires
        sorted_by(s, code_point_order()),
        0 <= p <= s.len(),
        forall|k: int| 0 <= k < p ==> code_point_leq(#[trigger] s[k], x),
        p < s.len() ==> !code_point_leq(s[p], x),
    ensures
        sorted_by(s.insert(p, x), code_point_order()),
        s.insert(p, x).to_multiset() == s.to_multiset().insert(x),
{
    lemma_code_point_order_total();
    let leq = code_point_order();
    let t = s.insert(p, x);
    if p < s.len() {
        assert(!leq(s[p], x));
        assert(leq(x, s[p]));
    }
    assert forall|i: int, j: int| 0 <= i < j < t.len() implies #[trigger] leq(t[i], t[j]) by {
        if j < p {
            assert(leq(s[i], s[j]));
        } else if j == p {
        } else if i < p {
            assert(leq(s[i], x));
            assert(leq(x, s[p]));
            if j - 1 > p {
                assert(leq(s[p], s[j - 1]));
            }
        } else if i == p {
            if j - 1 > p {
                assert(leq(s[p], s[j - 1]));
            }
        } else {
            assert(leq(s[i - 1], s[j - 1]));
        }
    };
    assert(t.remove(p) =~= s);
    assert(t.contains(x)) by {
        assert(t[p] == x);
    };
    assert(t.to_multiset() =~= s.to_multiset().insert(x)) by {
        assert(t.to_multiset().count(x) > 0);
        assert(s.to_multiset() == t.to_multiset().remove(x));
    };
}

/// Sorts texts in ascending code-point order.
pub fn sort_texts(v: Vec<Vec<char>>) -> (r: Vec<Vec<char>>)
    ensures
        texts(r@) == sorted_texts(texts(v@)),
{
    let ghost orig = texts(v@);
    let mut rest = v;
    let mut out: Vec<Vec<char>> = Vec::new();
    proof {
        lemma_code_point_order_total();
        assert(texts(out@).to_multiset() =~= Multiset::empty());
    }
    while rest.len() > 0
        invariant
            sorted_by(texts(out@), code_point_order()),
            texts(out@).to_multiset().add(texts(rest@).to_multiset()) == orig.to_multiset(),
        decreases rest.len(),
    {
        let ghost before = rest@;
        let x = rest.pop().unwrap();
        proof {
            assert(texts(before) =~= texts(rest@).push(x@));
        }
        let mut p: usize = 0;
        while p < out.len() && text_leq(&out[p], &x)
            invariant
                p <= out@.len(),
                forall|k: int| 0 <= k < p ==> code_point_leq(#[trigger] texts(out@)[k], x@),
            decreases out.len() - p,
        {
            p += 1;
        }
        let ghost old_out = texts(out@);
        proof {
            lemma_insert_keeps_sorted(old_out, x@, p as int);
        }
        out.insert(p, x);
        proof {
            assert(texts(out@) =~= old_out.insert(p as int, x@));
            assert(texts(out@).to_multiset().add(texts(rest@).to_multiset()) =~= orig.to_multiset());
        }
    }
    proof {
        assert(texts(rest@).to_multiset() =~= Multiset::empty());
        assert(texts(out@).to_multiset() =~= orig.to_multiset());
        orig.lemma_sort_by_ensures(code_point_order());
        lemma_sorted_unique(texts(out@), sorted_texts(orig));
    }
    out
}

} // verus!
