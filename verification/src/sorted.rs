//! Sets of texts kept as strictly ascending lists, the order in which the
//! catalog and the methodology reports list ids, paths and warnings.
use vstd::prelude::*;

use crate::text::{compare_str, lemma_text_lt_transitive, lemma_text_lt_trichotomy, str_eq, text_lt};

verus! {

/// The texts of a list of strings.
pub open spec fn texts(v: Seq<String>) -> Seq<Seq<char>> {
    v.map_values(|s: String| s@)
}

/// Strictly ascending texts (so also free of repeats).
pub open spec fn ascending(s: Seq<Seq<char>>) -> bool {
    forall|i: int, j: int| 0 <= i < j < s.len() ==> text_lt(#[trigger] s[i], #[trigger] s[j])
}

/// The ascending list of a set of texts.
pub open spec fn ascending_list(s: Set<Seq<char>>) -> Seq<Seq<char>> {
    choose|l: Seq<Seq<char>>| ascending(l) && l.to_set() == s
}

/// An ascending list of a set's members is the ascending list of the set.
pub proof fn lemma_ascending_list(l: Seq<Seq<char>>, s: Set<Seq<char>>)
    requires
        ascending(l),
        l.to_set() == s,
    ensures
        ascending_list(s) == l,
{
    let c = ascending_list(s);
    assert(ascending(c) && c.to_set() == s);
    lemma_ascending_unique(c, l);
}

/// Two ascending lists with the same members are the same list.
pub proof fn lemma_ascending_unique(a: Seq<Seq<char>>, b: Seq<Seq<char>>)
    requires
        ascending(a),
        ascending(b),
        a.to_set() == b.to_set(),
    ensures
        a == b,
    decreases a.len() + b.len(),
{
    if a.len() == 0 {
        if b.len() > 0 {
            assert(b.to_set().contains(b[0]));
        }
        assert(a =~= b);
    } else if b.len() == 0 {
        assert(a.to_set().contains(a[0]));
    } else {
        assert(a.to_set().contains(a[0]));
        assert(b.to_set().contains(b[0]));
        let i = choose|i: int| 0 <= i < b.len() && b[i] == a[0];
        let j = choose|j: int| 0 <= j < a.len() && a[j] == b[0];
        if i > 0 && j > 0 {
            lemma_text_lt_transitive(a[0], a[j], a[0]);
            crate::text::lemma_text_lt_irreflexive(a[0]);
        } else if i > 0 {
            assert(text_lt(b[0], b[i]));
            crate::text::lemma_text_lt_irreflexive(b[0]);
        } else if j > 0 {
            assert(text_lt(a[0], a[j]));
            crate::text::lemma_text_lt_irreflexive(a[0]);
        }
        assert(a[0] == b[0]);
        let ra = a.drop_first();
        let rb = b.drop_first();
        assert forall|x: Seq<char>| ra.to_set().contains(x) == rb.to_set().contains(x) by {
            if ra.to_set().contains(x) {
                let k = choose|k: int| 0 <= k < ra.len() && ra[k] == x;
                assert(a[k + 1] == x);
                assert(a.to_set().contains(x));
                let m = choose|m: int| 0 <= m < b.len() && b[m] == x;
                if m == 0 {
                    assert(text_lt(a[0], a[k + 1]));
                    crate::text::lemma_text_lt_irreflexive(a[0]);
                }
                assert(rb[m - 1] == x);
            }
            if rb.to_set().contains(x) {
                let k = choose|k: int| 0 <= k < rb.len() && rb[k] == x;
                assert(b[k + 1] == x);
                assert(b.to_set().contains(x));
                let m = choose|m: int| 0 <= m < a.len() && a[m] == x;
                if m == 0 {
                    assert(text_lt(b[0], b[k + 1]));
                    crate::text::lemma_text_lt_irreflexive(b[0]);
                }
                assert(ra[m - 1] == x);
            }
        }
        assert(ra.to_set() =~= rb.to_set());
        lemma_ascending_unique(ra, rb);
        assert(a =~= seq![a[0]] + ra);
        assert(b =~= seq![b[0]] + rb);
    }
}

/// Where `key` is, or would go, in an ascending list: the number of texts
/// before it, and whether it is there.
pub fn locate(v: &Vec<String>, key: &str) -> (r: (usize, bool))
    requires
        ascending(texts(v@)),
    ensures
        r.0 <= v@.len(),
        forall|k: int| 0 <= k < r.0 ==> text_lt(#[trigger] texts(v@)[k], key@),
        r.1 <==> (r.0 < v@.len() && v@[r.0 as int]@ == key@),
        r.1 <==> texts(v@).contains(key@),
        !r.1 ==> forall|k: int| r.0 <= k < v@.len() ==> text_lt(key@, #[trigger] texts(v@)[k]),
{
    let ghost ks = texts(v@);
    let mut lo: usize = 0;
    let mut hi: usize = v.len();
    while lo < hi
        invariant
            ks == texts(v@),
            ascending(ks),
            lo <= hi <= ks.len(),
            ks.len() == v@.len(),
            forall|k: int| 0 <= k < lo ==> text_lt(#[trigger] ks[k], key@),
            forall|k: int| hi <= k < ks.len() ==> !text_lt(#[trigger] ks[k], key@),
        decreases hi - lo,
    {
        let mid = lo + (hi - lo) / 2;
        assert(ks[mid as int] == v@[mid as int]@);
        let c = compare_str(v[mid].as_str(), key);
        if c == -1 {
            proof {
                assert forall|k: int| 0 <= k <= mid implies text_lt(#[trigger] ks[k], key@) by {
                    if k < mid {
                        lemma_text_lt_transitive(ks[k], ks[mid as int], key@);
                    }
                }
            }
            lo = mid + 1;
        } else {
            proof {
                assert forall|k: int| mid <= k < ks.len() implies !text_lt(#[trigger] ks[k], key@) by {
                    lemma_text_lt_trichotomy(ks[mid as int], key@);
                    if k > mid {
                        lemma_text_lt_trichotomy(ks[k], key@);
                        if text_lt(ks[k], key@) {
                            if ks[mid as int] == key@ {
                                lemma_text_lt_trichotomy(ks[mid as int], ks[k]);
                            } else {
                                lemma_text_lt_transitive(key@, ks[mid as int], ks[k]);
                                lemma_text_lt_trichotomy(key@, ks[k]);
                            }
                        }
                    }
                }
            }
            hi = mid;
        }
    }
    let found = if lo < v.len() {
        assert(ks[lo as int] == v@[lo as int]@);
        str_eq(v[lo].as_str(), key)
    } else {
        false
    };
    proof {
        if !found {
            if lo < ks.len() {
                lemma_text_lt_trichotomy(ks[lo as int], key@);
            }
            assert forall|k: int| lo <= k < ks.len() implies text_lt(key@, #[trigger] ks[k]) by {
                lemma_text_lt_trichotomy(ks[k], key@);
                lemma_text_lt_trichotomy(ks[lo as int], key@);
                if k > lo && ks[k] == key@ {
                    assert(text_lt(ks[lo as int], ks[k]));
                }
            }
            if ks.contains(key@) {
                let m = choose|m: int| 0 <= m < ks.len() && ks[m] == key@;
                if m < lo {
                    crate::text::lemma_text_lt_irreflexive(key@);
                } else {
                    crate::text::lemma_text_lt_irreflexive(key@);
                }
            }
        } else {
            assert(ks[lo as int] == key@);
        }
    }
    (lo, found)
}

/// Adds a text to an ascending list, at its place; nothing changes where it
/// is there already. Whether it was added.
pub fn insert_text(v: &mut Vec<String>, s: String) -> (r: bool)
    requires
        ascending(texts(old(v)@)),
    ensures
        ascending(texts(final(v)@)),
        r == !texts(old(v)@).contains(s@),
        texts(final(v)@).to_set() == texts(old(v)@).to_set().insert(s@),
        final(v)@.len() == old(v)@.len() + if r { 1int } else { 0int },
{
    let ghost ks = texts(v@);
    let (p, found) = locate(v, s.as_str());
    if found {
        proof {
            assert(ks.to_set().insert(s@) =~= ks.to_set());
        }
        return false;
    }
    let ghost key = s@;
    v.insert(p, s);
    proof {
        assert(texts(v@) =~= ks.insert(p as int, key));
        let nk = texts(v@);
        assert forall|i: int, j: int| 0 <= i < j < nk.len() implies text_lt(#[trigger] nk[i], #[trigger] nk[j]) by {
            if i < p && j == p {
            } else if i < p && j > p {
                assert(nk[j] == ks[j - 1]);
                lemma_text_lt_transitive(nk[i], key, nk[j]);
            } else if i == p {
                assert(nk[j] == ks[j - 1]);
            } else if i > p {
                assert(nk[i] == ks[i - 1]);
                assert(nk[j] == ks[j - 1]);
            } else {
                assert(nk[i] == ks[i]);
                assert(nk[j] == ks[j]);
            }
        }
        crate::release::lemma_insert_to_set(ks, p as int, key);
    }
    true
}

} // verus!
