//! Texts in the order `str` compares them: character by character, a prefix
//! before the longer text.

use vstd::prelude::*;

verus! {

broadcast use vstd::seq_lib::group_to_multiset_ensures;

/// `a` comes before `b`.
pub open spec fn text_less(a: Seq<char>, b: Seq<char>) -> bool
    decreases a.len(),
{
    if a.len() == 0 {
        b.len() > 0
    } else if b.len() == 0 {
        false
    } else if a[0] != b[0] {
        a[0] < b[0]
    } else {
        text_less(a.drop_first(), b.drop_first())
    }
}

/// Texts of the list in order, each no later than the next.
pub open spec fn ascending(s: Seq<Seq<char>>) -> bool {
    forall|i: int, j: int| 0 <= i < j < s.len() ==> !text_less(s[j], s[i])
}

/// Texts of the list in reverse order, each no earlier than the next.
pub open spec fn descending(s: Seq<Seq<char>>) -> bool {
    forall|i: int, j: int| 0 <= i < j < s.len() ==> !text_less(s[i], s[j])
}

pub open spec fn texts_of(v: Seq<Vec<char>>) -> Seq<Seq<char>> {
    v.map_values(|t: Vec<char>| t@)
}

proof fn lemma_less_total(a: Seq<char>, b: Seq<char>)
    ensures
        text_less(a, b) || a == b || text_less(b, a),
        !(text_less(a, b) && text_less(b, a)),
    decreases a.len(),
{
    if a.len() > 0 && b.len() > 0 && a[0] == b[0] {
        lemma_less_total(a.drop_first(), b.drop_first());
        if a.drop_first() == b.drop_first() {
            assert(a =~= seq![a[0]] + a.drop_first());
            assert(b =~= seq![b[0]] + b.drop_first());
        }
    } else if a.len() == 0 && b.len() == 0 {
        assert(a =~= b);
    }
}

proof fn lemma_less_transitive(a: Seq<char>, b: Seq<char>, c: Seq<char>)
    requires
        text_less(a, b),
        text_less(b, c),
    ensures
        text_less(a, c),
    decreases a.len(),
{
    if a.len() > 0 && b.len() > 0 && c.len() > 0 && a[0] == b[0] && b[0] == c[0] {
        lemma_less_transitive(a.drop_first(), b.drop_first(), c.drop_first());
    }
}

/// Whether `a` comes before `b`.
pub fn is_less(a: &Vec<char>, b: &Vec<char>) -> (r: bool)
    ensures
        r == text_less(a@, b@),
{
    let mut i: usize = 0;
    proof {
        assert(a@.skip(0) =~= a@);
        assert(b@.skip(0) =~= b@);
    }
    while i < a.len() && i < b.len()
        invariant
            i <= a@.len(),
            i <= b@.len(),
            a@.subrange(0, i as int) == b@.subrange(0, i as int),
            text_less(a@, b@) == text_less(a@.skip(i as int), b@.skip(i as int)),
        decreases a.len() - i,
    {
        proof {
            assert(a@.skip(i as int).drop_first() =~= a@.skip(i + 1));
            assert(b@.skip(i as int).drop_first() =~= b@.skip(i + 1));
        }
        if a[i] != b[i] {
            return a[i] < b[i];
        }
        i = i + 1;
        proof {
            assert(a@.subrange(0, i as int) =~= a@.subrange(0, i - 1).push(a@[i - 1]));
            assert(b@.subrange(0, i as int) =~= b@.subrange(0, i - 1).push(b@[i - 1]));
        }
    }
    i < b.len()
}

/// The texts of `v` in ascending order.
pub fn sort_texts(v: Vec<Vec<char>>) -> (out: Vec<Vec<char>>)
    ensures
        ascending(texts_of(out@)),
        texts_of(out@).to_multiset() == texts_of(v@).to_multiset(),
{
    let mut out: Vec<Vec<char>> = Vec::new();
    let mut rest = v;
    let ghost all = texts_of(rest@);
    proof {
        assert(texts_of(out@) =~= Seq::<Seq<char>>::empty());
        assert(rest@.skip(0) =~= rest@);
    }
    let n = rest.len();
    let mut k: usize = 0;
    while rest.len() > 0
        invariant
            k <= n,
            all.len() == n,
            texts_of(rest@) == all.skip(k as int),
            ascending(texts_of(out@)),
            texts_of(out@).to_multiset() == all.take(k as int).to_multiset(),
        decreases rest.len(),
    {
        let ghost rv = texts_of(rest@);
        let ghost rs = rest@;
        proof {
            assert(rv.len() == rest@.len());
        }
        let x = rest.remove(0);
        proof {
            assert(x@ == rv[0]);
            assert(rv[0] == all[k as int]);
            assert forall|j: int| 0 <= j < rest@.len() implies #[trigger] texts_of(rest@)[j] == all.skip(k + 1)[j] by {
                assert(rest@[j] == rs[j + 1]);
                assert(rv[j + 1] == all[k + 1 + j]);
            }
            assert(texts_of(rest@) =~= all.skip(k + 1));
        }
        let ghost ov = texts_of(out@);
        let mut pos: usize = 0;
        while pos < out.len() && !is_less(&x, &out[pos])
            invariant
                pos <= out@.len(),
                ov == texts_of(out@),
                forall|j: int| 0 <= j < pos ==> !text_less(x@, #[trigger] ov[j]),
            decreases out.len() - pos,
        {
            proof {
                assert(ov[pos as int] == out@[pos as int]@);
            }
            pos = pos + 1;
        }
        proof {
            if pos < out@.len() {
                assert(ov[pos as int] == out@[pos as int]@);
                assert(text_less(x@, ov[pos as int]));
            }
        }
        out.insert(pos, x);
        k = k + 1;
        proof {
            let nv = texts_of(out@);
            assert(nv =~= ov.insert(pos as int, all[k - 1]));
            assert forall|i: int, j: int| 0 <= i < j < nv.len() implies !text_less(#[trigger] nv[j], #[trigger] nv[i]) by {
                if j < pos {
                    assert(nv[i] == ov[i] && nv[j] == ov[j]);
                } else if j == pos {
                    assert(nv[i] == ov[i]);
                    lemma_less_total(x@, ov[i]);
                } else if i == pos {
                    assert(nv[j] == ov[j - 1]);
                    if pos < ov.len() {
                        if j - 1 > pos {
                            lemma_less_total(ov[pos as int], ov[j - 1]);
                            if text_less(ov[j - 1], x@) {
                                if ov[pos as int] == ov[j - 1] {
                                } else {
                                    lemma_less_transitive(ov[j - 1], x@, ov[pos as int]);
                                }
                            }
                        }
                        lemma_less_total(x@, ov[j - 1]);
                    }
                } else if i < pos {
                    assert(nv[i] == ov[i] && nv[j] == ov[j - 1]);
                } else {
                    assert(nv[i] == ov[i - 1] && nv[j] == ov[j - 1]);
                }
            }
            assert(all.take(k as int) =~= all.take(k - 1).push(all[k - 1]));
        }
    }
    proof {
        assert(all.take(n as int) =~= all);
    }
    out
}

} // verus!
