//! Lexicographic order on character sequences (the order of `str`'s `Ord`,
//! which compares UTF-8 bytes and so code points), and a stable insertion
//! sort of indices under a strict total order.
use crate::text::chars_of;
use vstd::prelude::*;

verus! {

/// `a` sorts strictly before `b`.
pub open spec fn chars_lt(a: Seq<char>, b: Seq<char>) -> bool
    decreases a.len(),
{
    if b.len() == 0 {
        false
    } else if a.len() == 0 {
        true
    } else if a[0] < b[0] {
        true
    } else if a[0] == b[0] {
        chars_lt(a.subrange(1, a.len() as int), b.subrange(1, b.len() as int))
    } else {
        false
    }
}

pub proof fn lemma_chars_lt_irrefl(a: Seq<char>)
    ensures
        !chars_lt(a, a),
    decreases a.len(),
{
    if a.len() > 0 {
        lemma_chars_lt_irrefl(a.subrange(1, a.len() as int));
    }
}

pub proof fn lemma_chars_lt_trans(a: Seq<char>, b: Seq<char>, c: Seq<char>)
    requires
        chars_lt(a, b),
        chars_lt(b, c),
    ensures
        chars_lt(a, c),
    decreases a.len(),
{
    if a.len() > 0 && b.len() > 0 && c.len() > 0 {
        if a[0] == b[0] && b[0] == c[0] {
            lemma_chars_lt_trans(
                a.subrange(1, a.len() as int),
                b.subrange(1, b.len() as int),
                c.subrange(1, c.len() as int),
            );
        }
    }
}

pub proof fn lemma_chars_lt_total(a: Seq<char>, b: Seq<char>)
    ensures
        chars_lt(a, b) || chars_lt(b, a) || a == b,
    decreases a.len(),
{
    if a.len() > 0 && b.len() > 0 {
        if a[0] == b[0] {
            let ta = a.subrange(1, a.len() as int);
            let tb = b.subrange(1, b.len() as int);
            lemma_chars_lt_total(ta, tb);
            if ta == tb {
                assert(a =~= seq![a[0]] + ta);
                assert(b =~= seq![b[0]] + tb);
            }
        }
    } else if a.len() == 0 && b.len() == 0 {
        assert(a =~= b);
    }
}

pub fn chars_less(a: &[char], b: &[char]) -> (r: bool)
    ensures
        r == chars_lt(a@, b@),
{
    let mut i: usize = 0;
    proof {
        assert(a@.subrange(0, a@.len() as int) =~= a@);
        assert(b@.subrange(0, b@.len() as int) =~= b@);
    }
    while i < a.len() && i < b.len() && a[i] == b[i]
        invariant
            i <= a@.len(),
            i <= b@.len(),
            chars_lt(a@, b@) == chars_lt(a@.subrange(i as int, a@.len() as int), b@.subrange(i as int, b@.len() as int)),
        decreases a@.len() - i,
    {
        proof {
            let ta = a@.subrange(i as int, a@.len() as int);
            let tb = b@.subrange(i as int, b@.len() as int);
            assert(ta.subrange(1, ta.len() as int) =~= a@.subrange(i + 1, a@.len() as int));
            assert(tb.subrange(1, tb.len() as int) =~= b@.subrange(i + 1, b@.len() as int));
        }
        i += 1;
    }
    if i == b.len() {
        false
    } else if i == a.len() {
        true
    } else {
        a[i] < b[i]
    }
}

pub fn str_less(a: &str, b: &str) -> (r: bool)
    ensures
        r == chars_lt(a@, b@),
{
    let ca = chars_of(a);
    let cb = chars_of(b);
    chars_less(&ca, &cb)
}

/// `lt` is a strict total order on the elements of `s`.
pub open spec fn strict_total_on(s: Seq<usize>, lt: spec_fn(usize, usize) -> bool) -> bool {
    &&& forall|x: usize| s.contains(x) ==> !#[trigger] lt(x, x)
    &&& forall|x: usize, y: usize, z: usize| s.contains(x) && s.contains(y) && s.contains(z) && #[trigger] lt(x, y) && #[trigger] lt(y, z) ==> lt(x, z)
    &&& forall|x: usize, y: usize| s.contains(x) && s.contains(y) && x != y ==> #[trigger] lt(x, y) || #[trigger] lt(y, x)
}

/// `s` is strictly increasing under `lt`.
pub open spec fn sorted_by(s: Seq<usize>, lt: spec_fn(usize, usize) -> bool) -> bool {
    forall|i: int, j: int| 0 <= i < j < s.len() ==> #[trigger] lt(s[i], s[j])
}

/// The elements of `items`, sorted increasingly under the strict total order
/// `lt` that `less` decides.
pub fn sort_indices<F: Fn(usize, usize) -> bool>(items: &Vec<usize>, less: &F, lt: Ghost<spec_fn(usize, usize) -> bool>) -> (out: Vec<usize>)
    requires
        items@.no_duplicates(),
        strict_total_on(items@, lt@),
        forall|x: usize, y: usize| items@.contains(x) && items@.contains(y) ==> #[trigger] less.requires((x, y)),
        forall|x: usize, y: usize, r: bool| less.ensures((x, y), r) ==> r == lt@(x, y),
    ensures
        out@.len() == items@.len(),
        forall|x: usize| out@.contains(x) <==> items@.contains(x),
        sorted_by(out@, lt@),
{
    let mut out: Vec<usize> = Vec::new();
    let mut i: usize = 0;
    while i < items.len()
        invariant
            i <= items@.len(),
            items@.no_duplicates(),
            strict_total_on(items@, lt@),
            forall|x: usize, y: usize| items@.contains(x) && items@.contains(y) ==> #[trigger] less.requires((x, y)),
            forall|x: usize, y: usize, r: bool| less.ensures((x, y), r) ==> r == lt@(x, y),
            out@.len() == i,
            forall|x: usize| out@.contains(x) <==> items@.subrange(0, i as int).contains(x),
            sorted_by(out@, lt@),
        decreases items@.len() - i,
    {
        let x = items[i];
        proof {
            assert(items@.contains(x));
        }
        let mut p: usize = 0;
        while p < out.len() && !less(x, out[p])
            invariant
                p <= out@.len(),
                items@.contains(x),
                forall|y: usize| out@.contains(y) ==> items@.contains(y),
                forall|x: usize, y: usize| items@.contains(x) && items@.contains(y) ==> #[trigger] less.requires((x, y)),
                forall|x: usize, y: usize, r: bool| less.ensures((x, y), r) ==> r == lt@(x, y),
                forall|k: int| 0 <= k < p ==> !lt@(x, #[trigger] out@[k]),
            decreases out@.len() - p,
        {
            proof {
                assert(out@.contains(out@[p as int]));
            }
            p += 1;
        }
        let ghost before = out@;
        proof {
            assert(!items@.subrange(0, i as int).contains(x)) by {
                if items@.subrange(0, i as int).contains(x) {
                    let k = choose|k: int| 0 <= k < i && items@.subrange(0, i as int)[k] == x;
                    assert(items@[k] == items@[i as int]);
                }
            }
            assert(!before.contains(x));
            if p < before.len() {
                assert(before.contains(before[p as int]));
                assert(lt@(x, before[p as int]));
            }
        }
        out.insert(p, x);
        proof {
            before.insert_ensures(p as int, x);
            let pre = items@.subrange(0, i + 1);
            assert forall|y: usize| out@.contains(y) <==> pre.contains(y) by {
                if out@.contains(y) {
                    let k = choose|k: int| 0 <= k < out@.len() && out@[k] == y;
                    if k < p {
                        assert(before[k] == y);
                        assert(before.contains(y));
                    } else if k > p {
                        assert(before[k - 1] == y);
                        assert(before.contains(y));
                    }
                    if y != x {
                        let m = choose|m: int| 0 <= m < i && items@.subrange(0, i as int)[m] == y;
                        assert(pre[m] == y);
                    } else {
                        assert(pre[i as int] == x);
                    }
                }
                if pre.contains(y) {
                    let m = choose|m: int| 0 <= m < i + 1 && pre[m] == y;
                    if m < i {
                        assert(items@.subrange(0, i as int)[m] == y);
                        assert(before.contains(y));
                        let k = choose|k: int| 0 <= k < before.len() && before[k] == y;
                        if k < p {
                            assert(out@[k] == y);
                        } else {
                            assert(out@[k + 1] == y);
                        }
                    } else {
                        assert(out@[p as int] == x);
                    }
                }
            }
            assert forall|a: int, b: int| 0 <= a < b < out@.len() implies #[trigger] lt@(out@[a], out@[b]) by {
                if a < p && b < p {
                    assert(lt@(before[a], before[b]));
                } else if a < p && b == p {
                    assert(before.contains(before[a]));
                    assert(!lt@(x, before[a]));
                    assert(lt@(before[a], x) || lt@(x, before[a]));
                } else if a < p {
                    assert(lt@(before[a], before[b - 1]));
                } else if a == p {
                    assert(before.contains(before[b - 1]));
                    if b - 1 > p {
                        assert(lt@(before[p as int], before[b - 1]));
                        assert(before.contains(before[p as int]));
                    }
                } else {
                    assert(lt@(before[a - 1], before[b - 1]));
                }
            }
        }
        i += 1;
    }
    proof {
        assert(items@.subrange(0, items@.len() as int) =~= items@);
    }
    out
}

} // verus!
