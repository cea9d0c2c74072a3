//! Counting texts: the distinct texts of a list in text order, each with the
//! number of times it occurs (used to sum up the moves of a position by
//! their descriptions).
use vstd::prelude::*;
use vstd::string::StrSliceExecFns;
use crate::text::texts;

verus! {

/// Text order: by the first character that differs, a proper prefix first.
pub open spec fn text_lt(a: Seq<char>, b: Seq<char>) -> bool
    decreases a.len(),
{
    if a.len() == 0 {
        b.len() > 0
    } else if b.len() == 0 {
        false
    } else if a[0] != b[0] {
        (a[0] as int) < (b[0] as int)
    } else {
        text_lt(a.drop_first(), b.drop_first())
    }
}

/// Of two different texts, one comes first.
pub proof fn lemma_text_total(a: Seq<char>, b: Seq<char>)
    requires
        a != b,
    ensures
        text_lt(a, b) || text_lt(b, a),
    decreases a.len(),
{
    if a.len() > 0 && b.len() > 0 && a[0] == b[0] {
        if a.drop_first() == b.drop_first() {
            assert(a =~= seq![a[0]] + a.drop_first());
            assert(b =~= seq![b[0]] + b.drop_first());
        }
        lemma_text_total(a.drop_first(), b.drop_first());
    } else if a.len() == 0 && b.len() == 0 {
        assert(a =~= b);
    }
}

/// No text comes before itself.
pub proof fn lemma_text_irreflexive(a: Seq<char>)
    ensures
        !text_lt(a, a),
    decreases a.len(),
{
    if a.len() > 0 {
        lemma_text_irreflexive(a.drop_first());
    }
}

/// Whether a text is `d`, as a predicate.
pub open spec fn same_text(d: Seq<char>) -> spec_fn(Seq<char>) -> bool {
    |x: Seq<char>| x == d
}

/// How often text `d` occurs in `ds`.
pub open spec fn occurrences(ds: Seq<Seq<char>>, d: Seq<char>) -> nat {
    ds.filter(same_text(d)).len()
}

/// `keys` and `counts` sum up `ds`: the distinct texts of `ds`, each once,
/// in text order, each with the number of times it occurs in `ds`.
pub open spec fn is_tally(ds: Seq<Seq<char>>, keys: Seq<Seq<char>>, counts: Seq<usize>) -> bool {
    &&& keys.len() == counts.len()
    &&& forall|i: int| 0 <= i < keys.len() - 1 ==> text_lt(#[trigger] keys[i], keys[i + 1])
    &&& forall|i: int, j: int| 0 <= i < keys.len() && 0 <= j < keys.len() && i != j ==> #[trigger] keys[i] != #[trigger] keys[j]
    &&& forall|i: int| 0 <= i < keys.len() ==> #[trigger] counts[i] == occurrences(ds, keys[i]) && counts[i] >= 1
    &&& forall|k: int| 0 <= k < ds.len() ==> keys.contains(#[trigger] ds[k])
}

/// Whether text `a` comes before text `b`.
pub fn text_less(a: &String, b: &String) -> (r: bool)
    ensures
        r == text_lt(a@, b@),
{
    let sa = a.as_str();
    let sb = b.as_str();
    let na = sa.unicode_len();
    let nb = sb.unicode_len();
    let mut i: usize = 0;
    assert(a@.skip(0) =~= a@);
    assert(b@.skip(0) =~= b@);
    while i < na && i < nb
        invariant
            na == a@.len(),
            nb == b@.len(),
            sa@ == a@,
            sb@ == b@,
            i <= na,
            i <= nb,
            text_lt(a@, b@) == text_lt(a@.skip(i as int), b@.skip(i as int)),
        decreases na - i,
    {
        let ca = sa.get_char(i);
        let cb = sb.get_char(i);
        let ghost xa = a@.skip(i as int);
        let ghost xb = b@.skip(i as int);
        assert(xa[0] == ca);
        assert(xb[0] == cb);
        if ca != cb {
            return (ca as u32) < (cb as u32);
        }
        assert(xa.drop_first() =~= a@.skip(i + 1));
        assert(xb.drop_first() =~= b@.skip(i + 1));
        i += 1;
    }
    assert(a@.skip(i as int).len() == na - i);
    assert(b@.skip(i as int).len() == nb - i);
    i < nb
}

/// Adding one occurrence of `d` adds one to its count and nothing to the others.
proof fn lemma_occurrences_push(ds: Seq<Seq<char>>, d: Seq<char>, x: Seq<char>)
    ensures
        occurrences(ds.push(d), x) == occurrences(ds, x) + if d == x {
            1nat
        } else {
            0nat
        },
{
    ds.lemma_filter_push(d, same_text(x));
}

/// A text that is none of `keys` does not occur in a list whose texts are all keys.
proof fn lemma_occurrences_none(ds: Seq<Seq<char>>, keys: Seq<Seq<char>>, d: Seq<char>)
    requires
        forall|k: int| 0 <= k < ds.len() ==> keys.contains(#[trigger] ds[k]),
        !keys.contains(d),
    ensures
        occurrences(ds, d) == 0,
{
    let f = ds.filter(same_text(d));
    if f.len() > 0 {
        assert(f.contains(f[0]));
        ds.lemma_filter_contains_rev(same_text(d), f[0]);
        let k = choose|k: int| 0 <= k < ds.len() && ds[k] == f[0];
        assert(keys.contains(ds[k]));
    }
}

/// The distinct texts of `descs` in text order, each with the number of
/// times it occurs (see `is_tally`).
pub fn tally(descs: &Vec<String>) -> (r: (Vec<String>, Vec<usize>))
    ensures
        is_tally(texts(descs@), texts(r.0@), r.1@),
{
    let ghost ds = texts(descs@);
    let mut keys: Vec<String> = Vec::new();
    let mut counts: Vec<usize> = Vec::new();
    let mut i: usize = 0;
    assert(ds.take(0) =~= Seq::<Seq<char>>::empty());
    while i < descs.len()
        invariant
            i <= descs@.len(),
            ds == texts(descs@),
            is_tally(ds.take(i as int), texts(keys@), counts@),
            forall|j: int| 0 <= j < counts@.len() ==> #[trigger] counts@[j] <= i,
        decreases descs@.len() - i,
    {
        let d = &descs[i];
        let ghost before = ds.take(i as int);
        let ghost after = ds.take(i as int + 1);
        assert(after =~= before.push(d@));
        let ghost ks = texts(keys@);
        // look for the text among the keys
        let mut j: usize = 0;
        let mut found = false;
        while j < keys.len() && !found
            invariant
                j <= keys@.len(),
                ks == texts(keys@),
                !found ==> forall|m: int| 0 <= m < j ==> #[trigger] ks[m] != d@,
                found ==> j < keys@.len() && ks[j as int] == d@,
            decreases keys@.len() - j + if found { 0int } else { 1int },
        {
            if keys[j] == *d {
                found = true;
            } else {
                j += 1;
            }
        }
        if found {
            let c = counts[j];
            counts.set(j, c + 1);
            proof {
                assert forall|m: int| 0 <= m < ks.len() implies #[trigger] counts@[m] == occurrences(
                    after,
                    ks[m],
                ) && counts@[m] >= 1 by {
                    lemma_occurrences_push(before, d@, ks[m]);
                    if m != j {
                        assert(ks[m] != ks[j as int]);
                    }
                }
                assert forall|k: int| 0 <= k < after.len() implies ks.contains(#[trigger] after[k]) by {
                    if k < before.len() {
                        assert(after[k] == before[k]);
                    } else {
                        assert(ks[j as int] == after[k]);
                    }
                }
            }
        } else {
            // insert the new text before the first key that comes after it
            let mut p: usize = 0;
            while p < keys.len() && !text_less(d, &keys[p])
                invariant
                    p <= keys@.len(),
                    ks == texts(keys@),
                    forall|m: int| 0 <= m < p ==> !text_lt(d@, #[trigger] ks[m]),
                decreases keys@.len() - p,
            {
                p += 1;
            }
            proof {
                assert(!ks.contains(d@)) by {
                    if ks.contains(d@) {
                        let m = choose|m: int| 0 <= m < ks.len() && ks[m] == d@;
                        assert(ks[m] != d@);
                    }
                }
                lemma_occurrences_none(before, ks, d@);
                if p > 0 {
                    assert(ks[p - 1] != d@);
                    lemma_text_total(ks[p - 1], d@);
                }
            }
            let ghost cs0 = counts@;
            let dc = d.clone();
            keys.insert(p, dc);
            counts.insert(p, 1);
            proof {
                let nk = texts(keys@);
                assert(nk =~= ks.insert(p as int, d@));
                assert forall|m: int| 0 <= m < nk.len() - 1 implies text_lt(#[trigger] nk[m], nk[m + 1]) by {
                    if m < p - 1 {
                        assert(nk[m] == ks[m] && nk[m + 1] == ks[m + 1]);
                    } else if m == p - 1 {
                        assert(nk[m] == ks[m] && nk[m + 1] == d@);
                    } else if m == p {
                        assert(nk[m] == d@ && nk[m + 1] == ks[m]);
                    } else {
                        assert(nk[m] == ks[m - 1] && nk[m + 1] == ks[m]);
                    }
                }
                assert forall|a: int, b: int|
                    0 <= a < nk.len() && 0 <= b < nk.len() && a != b implies #[trigger] nk[a]
                    != #[trigger] nk[b] by {
                    let ia = if a < p { a } else if a == p { -1 } else { a - 1 };
                    let ib = if b < p { b } else if b == p { -1 } else { b - 1 };
                    if ia >= 0 && ib >= 0 {
                        assert(nk[a] == ks[ia] && nk[b] == ks[ib]);
                    } else if ia >= 0 {
                        assert(nk[a] == ks[ia]);
                    } else if ib >= 0 {
                        assert(nk[b] == ks[ib]);
                    }
                }
                assert forall|m: int| 0 <= m < nk.len() implies #[trigger] counts@[m] == occurrences(
                    after,
                    nk[m],
                ) && counts@[m] >= 1 by {
                    if m == p {
                        lemma_occurrences_push(before, d@, d@);
                    } else {
                        let im = if m < p { m } else { m - 1 };
                        assert(nk[m] == ks[im]);
                        assert(counts@[m] == cs0[im]);
                        lemma_occurrences_push(before, d@, ks[im]);
                    }
                }
                assert forall|k: int| 0 <= k < after.len() implies nk.contains(#[trigger] after[k]) by {
                    if k < before.len() {
                        assert(after[k] == before[k]);
                        let m = choose|m: int| 0 <= m < ks.len() && ks[m] == before[k];
                        if m < p {
                            assert(nk[m] == ks[m]);
                        } else {
                            assert(nk[m + 1] == ks[m]);
                        }
                    } else {
                        assert(nk[p as int] == after[k]);
                    }
                }
            }
        }
        i += 1;
    }
    assert(ds.take(descs@.len() as int) =~= ds);
    (keys, counts)
}

} // verus!
