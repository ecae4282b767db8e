//! Lists of names: their character views, sorting without repeats, and
//! lookups by name.
use crate::order::{chars_lt, lemma_chars_lt_irrefl, lemma_chars_lt_total, lemma_chars_lt_trans, str_less};
use vstd::prelude::*;

verus! {

/// The character views of a list of strings.
pub open spec fn name_views(v: Seq<String>) -> Seq<Seq<char>> {
    v.map_values(|s: String| s@)
}

/// A copy of a list of strings.
pub fn copy_strings(v: &Vec<String>) -> (r: Vec<String>)
    ensures
        name_views(r@) == name_views(v@),
{
    let mut r: Vec<String> = Vec::new();
    append_strings(&mut r, v);
    proof {
        assert(name_views(Seq::<String>::empty()) + name_views(v@) =~= name_views(v@));
    }
    r
}

/// Appends copies of the strings of `v`.
pub fn append_strings(out: &mut Vec<String>, v: &Vec<String>)
    ensures
        name_views(final(out)@) == name_views(old(out)@) + name_views(v@),
{
    let ghost start = name_views(out@);
    let mut i: usize = 0;
    while i < v.len()
        invariant
            i <= v@.len(),
            name_views(out@) == start + name_views(v@).subrange(0, i as int),
        decreases v@.len() - i,
    {
        let ghost before = out@;
        out.push(v[i].clone());
        proof {
            assert(name_views(out@) =~= name_views(before).push(v@[i as int]@));
            assert(name_views(v@).subrange(0, i + 1) =~= name_views(v@).subrange(0, i as int).push(v@[i as int]@));
        }
        i += 1;
    }
    proof {
        assert(name_views(v@).subrange(0, v@.len() as int) =~= name_views(v@));
    }
}

/// Strictly increasing in the order of `str`.
pub open spec fn strictly_sorted(v: Seq<Seq<char>>) -> bool {
    forall|i: int, j: int| 0 <= i < j < v.len() ==> #[trigger] chars_lt(v[i], v[j])
}

/// Two strictly increasing lists of the same names are one list.
pub proof fn lemma_strictly_sorted_unique(a: Seq<Seq<char>>, b: Seq<Seq<char>>)
    requires
        strictly_sorted(a),
        strictly_sorted(b),
        forall|x: Seq<char>| a.contains(x) <==> b.contains(x),
    ensures
        a == b,
    decreases a.len() + b.len(),
{
    if a.len() == 0 {
        if b.len() > 0 {
            assert(b.contains(b[0]));
        }
        assert(a =~= b);
    } else if b.len() == 0 {
        assert(a.contains(a[0]));
    } else {
        if a[0] != b[0] {
            assert(a.contains(a[0]));
            assert(b.contains(b[0]));
            let j = choose|j: int| 0 <= j < b.len() && b[j] == a[0];
            let i = choose|i: int| 0 <= i < a.len() && a[i] == b[0];
            assert(chars_lt(b[0], b[j]));
            assert(chars_lt(a[0], a[i]));
            lemma_chars_lt_trans(a[0], b[0], a[0]);
            lemma_chars_lt_irrefl(a[0]);
        }
        let ta = a.drop_first();
        let tb = b.drop_first();
        assert forall|p: int, q: int| 0 <= p < q < ta.len() implies #[trigger] chars_lt(ta[p], ta[q]) by {
            assert(chars_lt(a[p + 1], a[q + 1]));
        }
        assert forall|p: int, q: int| 0 <= p < q < tb.len() implies #[trigger] chars_lt(tb[p], tb[q]) by {
            assert(chars_lt(b[p + 1], b[q + 1]));
        }
        assert forall|x: Seq<char>| ta.contains(x) <==> tb.contains(x) by {
            if ta.contains(x) {
                let k = choose|k: int| 0 <= k < ta.len() && ta[k] == x;
                assert(a[k + 1] == x);
                assert(a.contains(x));
                assert(chars_lt(a[0], a[k + 1]));
                lemma_chars_lt_irrefl(x);
                let m = choose|m: int| 0 <= m < b.len() && b[m] == x;
                assert(m != 0);
                assert(tb[m - 1] == x);
            }
            if tb.contains(x) {
                let k = choose|k: int| 0 <= k < tb.len() && tb[k] == x;
                assert(b[k + 1] == x);
                assert(b.contains(x));
                assert(chars_lt(b[0], b[k + 1]));
                lemma_chars_lt_irrefl(x);
                let m = choose|m: int| 0 <= m < a.len() && a[m] == x;
                assert(m != 0);
                assert(ta[m - 1] == x);
            }
        }
        lemma_strictly_sorted_unique(ta, tb);
        assert(a =~= seq![a[0]] + ta);
        assert(b =~= seq![b[0]] + tb);
    }
}

/// The distinct names of `names`, sorted: what `sort_unstable` followed by
/// `dedup` leaves.
pub fn sorted_unique(names: Vec<String>) -> (out: Vec<String>)
    ensures
        strictly_sorted(name_views(out@)),
        forall|x: Seq<char>| name_views(out@).contains(x) <==> name_views(names@).contains(x),
{
    let mut out: Vec<String> = Vec::new();
    let mut i: usize = 0;
    while i < names.len()
        invariant
            i <= names@.len(),
            strictly_sorted(name_views(out@)),
            forall|x: Seq<char>| name_views(out@).contains(x) <==> name_views(names@).subrange(0, i as int).contains(x),
        decreases names@.len() - i,
    {
        let x = names[i].clone();
        let ghost xv = x@;
        let mut p: usize = 0;
        while p < out.len() && str_less(out[p].as_str(), x.as_str())
            invariant
                p <= out@.len(),
                x@ == xv,
                forall|k: int| 0 <= k < p ==> chars_lt(#[trigger] name_views(out@)[k], xv),
            decreases out@.len() - p,
        {
            p += 1;
        }
        let ghost before = name_views(out@);
        proof {
            assert(name_views(names@).subrange(0, i + 1) =~= name_views(names@).subrange(0, i as int).push(xv));
        }
        if p < out.len() && out[p] == x {
            proof {
                assert forall|y: Seq<char>| name_views(out@).contains(y) <==> name_views(names@).subrange(0, i + 1).contains(y) by {
                    if y == xv {
                        assert(name_views(out@)[p as int] == y);
                    }
                }
            }
        } else {
            let ghost ov = out@;
            assert(forall|k: int| 0 <= k < p ==> chars_lt(#[trigger] name_views(ov)[k], xv));
            out.insert(p, x);
            proof {
                let after = name_views(out@);
                assert(after =~= before.insert(p as int, xv)) by {
                    assert forall|k: int| 0 <= k < after.len() implies after[k] == before.insert(p as int, xv)[k] by {
                        if k < p {
                            assert(out@[k] == ov[k]);
                        } else if k > p {
                            assert(out@[k] == ov[k - 1]);
                        }
                    }
                }
                before.insert_ensures(p as int, xv);
                if p < before.len() {
                    lemma_chars_lt_total(before[p as int], xv);
                    assert(!chars_lt(before[p as int], xv));
                    assert(before[p as int] != xv);
                    assert(chars_lt(xv, before[p as int]));
                }
                assert forall|a: int, b: int| 0 <= a < b < after.len() implies #[trigger] chars_lt(after[a], after[b]) by {
                    if a < p && b < p {
                    } else if a < p && b == p {
                        assert(chars_lt(name_views(ov)[a], xv));
                    } else if a < p {
                        assert(chars_lt(before[a], before[b - 1]));
                    } else if a == p {
                        if b - 1 > p {
                            assert(chars_lt(before[p as int], before[b - 1]));
                            lemma_chars_lt_trans(xv, before[p as int], before[b - 1]);
                        }
                    } else {
                        assert(chars_lt(before[a - 1], before[b - 1]));
                    }
                }
                assert forall|y: Seq<char>| after.contains(y) <==> name_views(names@).subrange(0, i + 1).contains(y) by {
                    if after.contains(y) {
                        let k = choose|k: int| 0 <= k < after.len() && after[k] == y;
                        if k < p {
                            assert(before[k] == y);
                        } else if k > p {
                            assert(before[k - 1] == y);
                        }
                    }
                    if before.contains(y) {
                        let k = choose|k: int| 0 <= k < before.len() && before[k] == y;
                        if k < p {
                            assert(after[k] == y);
                        } else {
                            assert(after[k + 1] == y);
                        }
                    }
                    if y == xv {
                        assert(after[p as int] == xv);
                    }
                    let pre_i = name_views(names@).subrange(0, i as int);
                    let pre_n = name_views(names@).subrange(0, i + 1);
                    if pre_n.contains(y) && y != xv {
                        let m = choose|m: int| 0 <= m < pre_n.len() && pre_n[m] == y;
                        assert(pre_i[m] == y);
                    }
                    if pre_i.contains(y) {
                        let m = choose|m: int| 0 <= m < pre_i.len() && pre_i[m] == y;
                        assert(pre_n[m] == y);
                    }
                    assert(pre_n[i as int] == xv);
                }
            }
        }
        i += 1;
    }
    proof {
        assert(name_views(names@).subrange(0, names@.len() as int) =~= name_views(names@));
    }
    out
}

} // verus!
