//! Ordering of font records by family name, and optionally by style name
//! within a family, with a stable insertion sort.

use vstd::prelude::*;
use crate::record::{FontInfo, FontView};
use crate::text::{lex_lt, lemma_lex_lt_asymmetric, lemma_lex_lt_between, lemma_lex_lt_connected, str_lt};

verus! {

/// The values of a list of records, in order.
pub open spec fn views(s: Seq<FontInfo>) -> Seq<FontView> {
    s.map_values(|f: FontInfo| f@)
}

/// What a record is ordered by: its family name, and its style name where
/// styles take part in the order.
pub open spec fn sort_key(v: FontView, by_style: bool) -> (Seq<char>, Seq<char>) {
    (
        v.family_name,
        if by_style {
            v.style_name
        } else {
            Seq::<char>::empty()
        },
    )
}

/// Strict order of keys: by the first text, then by the second.
pub open spec fn key_lt(a: (Seq<char>, Seq<char>), b: (Seq<char>, Seq<char>)) -> bool {
    lex_lt(a.0, b.0) || (a.0 == b.0 && lex_lt(a.1, b.1))
}

/// `a` sorts strictly before `b`.
pub open spec fn comes_before(a: FontView, b: FontView, by_style: bool) -> bool {
    key_lt(sort_key(a, by_style), sort_key(b, by_style))
}

/// No record of the list sorts strictly before an earlier one.
pub open spec fn is_sorted(s: Seq<FontView>, by_style: bool) -> bool {
    forall|i: int, j: int| 0 <= i < j < s.len() ==> !comes_before(s[j], s[i], by_style)
}

/// The records of `s` whose key is `k`, in the order in which `s` holds them.
pub open spec fn keyed(s: Seq<FontView>, k: (Seq<char>, Seq<char>), by_style: bool) -> Seq<
    FontView,
> {
    s.filter(|v: FontView| sort_key(v, by_style) == k)
}

/// `out` is `inp` sorted, and records with equal keys keep the order that
/// they had in `inp`.
pub open spec fn is_stable_sort_of(out: Seq<FontView>, inp: Seq<FontView>, by_style: bool) -> bool {
    &&& is_sorted(out, by_style)
    &&& forall|k: (Seq<char>, Seq<char>)| #[trigger]
        keyed(out, k, by_style) == keyed(inp, k, by_style)
}

/// `out` holds the records of `inp` in some order: whatever property is
/// asked for, as many records of `out` have it as of `inp`.
pub open spec fn is_rearrangement(out: Seq<FontView>, inp: Seq<FontView>) -> bool {
    forall|pred: spec_fn(FontView) -> bool| #[trigger]
        out.filter(pred).len() == inp.filter(pred).len()
}

/// In a sorted list the family names never decrease, whether or not
/// styles take part in the order.
pub proof fn lemma_sorted_families(s: Seq<FontView>, by_style: bool, i: int, j: int)
    requires
        is_sorted(s, by_style),
        0 <= i < j < s.len(),
    ensures
        !lex_lt(s[j].family_name, s[i].family_name),
{
    assert(!comes_before(s[j], s[i], by_style));
}

/// In a list sorted by family and style, the style names never decrease
/// within a family.
pub proof fn lemma_sorted_styles(s: Seq<FontView>, i: int, j: int)
    requires
        is_sorted(s, true),
        0 <= i < j < s.len(),
        s[i].family_name == s[j].family_name,
    ensures
        !lex_lt(s[j].style_name, s[i].style_name),
{
    assert(!comes_before(s[j], s[i], true));
}

/// In every record of `s` the variable flag agrees with the axis description.
pub open spec fn all_consistent(s: Seq<FontView>) -> bool {
    forall|i: int| 0 <= i < s.len() ==> (#[trigger] s[i]).consistent()
}

/// What holds of every record of a list holds of every record of a
/// rearrangement of it.
pub proof fn lemma_rearranged_all(
    out: Seq<FontView>,
    inp: Seq<FontView>,
    pred: spec_fn(FontView) -> bool,
)
    requires
        is_rearrangement(out, inp),
        forall|i: int| 0 <= i < inp.len() ==> pred(#[trigger] inp[i]),
    ensures
        forall|i: int| 0 <= i < out.len() ==> pred(#[trigger] out[i]),
{
    let fails = |v: FontView| !pred(v);
    if inp.filter(fails).len() > 0 {
        let e = inp.filter(fails)[0];
        inp.lemma_filter_pred(fails, 0);
        assert(inp.filter(fails).contains(e));
        inp.lemma_filter_contains_rev(fails, e);
        let j = choose|j: int| 0 <= j < inp.len() && inp[j] == e;
        assert(pred(inp[j]));
    }
    assert(out.filter(fails).len() == inp.filter(fails).len());
    assert forall|i: int| 0 <= i < out.len() implies pred(#[trigger] out[i]) by {
        if fails(out[i]) {
            out.lemma_filter_contains(fails, i);
        }
    }
}

/// No key is both before and after another.
pub proof fn lemma_key_lt_asymmetric(a: (Seq<char>, Seq<char>), b: (Seq<char>, Seq<char>))
    ensures
        !(key_lt(a, b) && key_lt(b, a)),
{
    lemma_lex_lt_asymmetric(a.0, b.0);
    lemma_lex_lt_asymmetric(a.1, b.1);
    lemma_lex_lt_asymmetric(a.0, a.0);
}

/// Whatever comes before `c` comes before `b`, unless `b` comes before `c`.
pub proof fn lemma_key_lt_between(
    a: (Seq<char>, Seq<char>),
    b: (Seq<char>, Seq<char>),
    c: (Seq<char>, Seq<char>),
)
    requires
        key_lt(a, c),
    ensures
        key_lt(a, b) || key_lt(b, c),
{
    if lex_lt(a.0, c.0) {
        lemma_lex_lt_between(a.0, b.0, c.0);
    } else if !lex_lt(a.0, b.0) && !lex_lt(b.0, c.0) {
        lemma_lex_lt_asymmetric(a.0, a.0);
        if lex_lt(b.0, a.0) {
            lemma_lex_lt_between(b.0, c.0, a.0);
        }
        lemma_lex_lt_connected(a.0, b.0);
        lemma_lex_lt_between(a.1, b.1, c.1);
    }
}

/// Two keys of which neither comes before the other are the same key.
pub proof fn lemma_key_lt_connected(a: (Seq<char>, Seq<char>), b: (Seq<char>, Seq<char>))
    requires
        !key_lt(a, b),
        !key_lt(b, a),
    ensures
        a == b,
{
    lemma_lex_lt_connected(a.0, b.0);
    lemma_lex_lt_connected(a.1, b.1);
}

/// A list with a record of key `k` in its run for `k` holds such a
/// record at some position.
proof fn lemma_run_member(s: Seq<FontView>, k: (Seq<char>, Seq<char>), by_style: bool) -> (i: int)
    requires
        keyed(s, k, by_style).len() > 0,
    ensures
        0 <= i < s.len(),
        sort_key(s[i], by_style) == k,
{
    let pred = |v: FontView| sort_key(v, by_style) == k;
    let e = s.filter(pred)[0];
    s.lemma_filter_pred(pred, 0);
    assert(s.filter(pred).contains(e));
    s.lemma_filter_contains_rev(pred, e);
    choose|i: int| 0 <= i < s.len() && s[i] == e
}

/// The run of the last record's key ends with that record, and without
/// the last record that run is shorter by it and all others are as they were.
proof fn lemma_run_of_last(s: Seq<FontView>, k: (Seq<char>, Seq<char>), by_style: bool)
    requires
        s.len() > 0,
    ensures
        keyed(s, k, by_style) == if sort_key(s.last(), by_style) == k {
            keyed(s.drop_last(), k, by_style).push(s.last())
        } else {
            keyed(s.drop_last(), k, by_style)
        },
{
    let pred = |v: FontView| sort_key(v, by_style) == k;
    assert(s =~= s.drop_last().push(s.last()));
    s.drop_last().lemma_filter_push(s.last(), pred);
}

/// Sorting has one result: two sorted lists with the same run for every
/// key are the same list.
pub proof fn lemma_sorted_runs_unique(a: Seq<FontView>, b: Seq<FontView>, by_style: bool)
    requires
        is_sorted(a, by_style),
        is_sorted(b, by_style),
        forall|k: (Seq<char>, Seq<char>)| #[trigger]
            keyed(a, k, by_style) == keyed(b, k, by_style),
    ensures
        a == b,
    decreases a.len(),
{
    if a.len() == 0 {
        if b.len() > 0 {
            let kb = sort_key(b.last(), by_style);
            lemma_run_of_last(b, kb, by_style);
            reveal_with_fuel(Seq::filter, 1);
            assert(keyed(a, kb, by_style).len() == 0);
            assert(keyed(b, kb, by_style).len() > 0);
        }
        assert(a =~= b);
    } else {
        let x = a.last();
        let ka = sort_key(x, by_style);
        lemma_run_of_last(a, ka, by_style);
        assert(keyed(b, ka, by_style) == keyed(a, ka, by_style));
        if b.len() == 0 {
            reveal_with_fuel(Seq::filter, 1);
            assert(keyed(b, ka, by_style).len() == 0);
        }
        let y = b.last();
        let kb = sort_key(y, by_style);
        lemma_run_of_last(b, kb, by_style);
        assert(keyed(a, kb, by_style) == keyed(b, kb, by_style));
        let i = lemma_run_member(a, kb, by_style);
        let j = lemma_run_member(b, ka, by_style);
        if i < a.len() - 1 {
            assert(!comes_before(a[a.len() - 1], a[i], by_style));
        } else {
            lemma_key_lt_asymmetric(ka, ka);
        }
        if j < b.len() - 1 {
            assert(!comes_before(b[b.len() - 1], b[j], by_style));
        } else {
            lemma_key_lt_asymmetric(kb, kb);
        }
        lemma_key_lt_connected(ka, kb);
        assert(keyed(a, ka, by_style).last() == x);
        assert(keyed(b, ka, by_style).last() == y);
        assert(x == y);
        let a0 = a.drop_last();
        let b0 = b.drop_last();
        assert forall|k: (Seq<char>, Seq<char>)| #[trigger]
            keyed(a0, k, by_style) == keyed(b0, k, by_style) by {
            lemma_run_of_last(a, k, by_style);
            lemma_run_of_last(b, k, by_style);
            assert(keyed(a, k, by_style) == keyed(b, k, by_style));
            if ka == k {
                assert(keyed(a0, k, by_style) =~= keyed(a, k, by_style).drop_last());
                assert(keyed(b0, k, by_style) =~= keyed(b, k, by_style).drop_last());
            }
        }
        assert forall|i: int, j: int| 0 <= i < j < a0.len() implies !comes_before(
            a0[j],
            a0[i],
            by_style,
        ) by {
            assert(!comes_before(a[j], a[i], by_style));
        }
        assert forall|i: int, j: int| 0 <= i < j < b0.len() implies !comes_before(
            b0[j],
            b0[i],
            by_style,
        ) by {
            assert(!comes_before(b[j], b[i], by_style));
        }
        lemma_sorted_runs_unique(a0, b0, by_style);
        assert(a =~= a0.push(x));
        assert(b =~= b0.push(y));
    }
}

/// Two stable sorts of one list are the same list.
pub proof fn lemma_stable_sort_unique(
    a: Seq<FontView>,
    b: Seq<FontView>,
    inp: Seq<FontView>,
    by_style: bool,
)
    requires
        is_stable_sort_of(a, inp, by_style),
        is_stable_sort_of(b, inp, by_style),
    ensures
        a == b,
{
    assert forall|k: (Seq<char>, Seq<char>)| #[trigger]
        keyed(a, k, by_style) == keyed(b, k, by_style) by {
        assert(keyed(a, k, by_style) == keyed(inp, k, by_style));
        assert(keyed(b, k, by_style) == keyed(inp, k, by_style));
    }
    lemma_sorted_runs_unique(a, b, by_style);
}

/// Putting `x` into `s` at `p` adds `x` to the run of its own key, in
/// front of it where no record before `p` shares that key, and leaves
/// every other run as it was.
proof fn lemma_insert_run(
    s: Seq<FontView>,
    p: int,
    x: FontView,
    k: (Seq<char>, Seq<char>),
    by_style: bool,
)
    requires
        0 <= p <= s.len(),
        forall|j: int| 0 <= j < p ==> sort_key(#[trigger] s[j], by_style) != sort_key(x, by_style),
    ensures
        keyed(s.insert(p, x), k, by_style) == if sort_key(x, by_style) == k {
            seq![x] + keyed(s, k, by_style)
        } else {
            keyed(s, k, by_style)
        },
{
    let pred = |v: FontView| sort_key(v, by_style) == k;
    let a = s.subrange(0, p);
    let b = s.subrange(p, s.len() as int);
    assert(s =~= a + b);
    Seq::filter_distributes_over_add(a, b, pred);
    Seq::filter_distributes_over_add(a.push(x), b, pred);
    a.lemma_filter_push(x, pred);
    if sort_key(x, by_style) == k {
        if a.filter(pred).len() > 0 {
            let e = a.filter(pred)[0];
            a.lemma_filter_pred(pred, 0);
            assert(a.filter(pred).contains(e));
            a.lemma_filter_contains_rev(pred, e);
            let j = choose|j: int| 0 <= j < a.len() && a[j] == e;
            assert(s[j] == e);
        }
        assert(a.filter(pred) =~= Seq::<FontView>::empty());
        assert(keyed(s.insert(p, x), k, by_style) =~= seq![x] + keyed(s, k, by_style));
    }
}

/// Putting `x` into `s` adds one to the count of the records that have a
/// property if `x` has it, and nothing otherwise.
proof fn lemma_insert_count(s: Seq<FontView>, p: int, x: FontView, pred: spec_fn(FontView) -> bool)
    requires
        0 <= p <= s.len(),
    ensures
        s.insert(p, x).filter(pred).len() == s.filter(pred).len() + if pred(x) {
            1nat
        } else {
            0nat
        },
{
    let a = s.subrange(0, p);
    let b = s.subrange(p, s.len() as int);
    assert(s =~= a + b);
    Seq::filter_distributes_over_add(a, b, pred);
    Seq::filter_distributes_over_add(a.push(x), b, pred);
    a.lemma_filter_push(x, pred);
}

/// Putting `x` at `p` keeps a sorted list sorted when everything before
/// `p` sorts strictly before `x` and the record at `p`, if any, does not.
proof fn lemma_insert_sorted(s: Seq<FontView>, p: int, x: FontView, by_style: bool)
    requires
        is_sorted(s, by_style),
        0 <= p <= s.len(),
        forall|j: int| 0 <= j < p ==> comes_before(#[trigger] s[j], x, by_style),
        p < s.len() ==> !comes_before(s[p], x, by_style),
    ensures
        is_sorted(s.insert(p, x), by_style),
{
    let t = s.insert(p, x);
    let kx = sort_key(x, by_style);
    assert forall|i: int, j: int| 0 <= i < j < t.len() implies !comes_before(
        t[j],
        t[i],
        by_style,
    ) by {
        if j == p {
            assert(t[j] == x);
            assert(t[i] == s[i]);
            assert(comes_before(s[i], x, by_style));
            lemma_key_lt_asymmetric(sort_key(s[i], by_style), kx);
        } else if i == p {
            let y = s[j - 1];
            assert(t[i] == x);
            assert(t[j] == y);
            if comes_before(y, x, by_style) {
                lemma_key_lt_between(sort_key(y, by_style), sort_key(s[p], by_style), kx);
                assert(!comes_before(s[j - 1], s[p], by_style));
            }
        } else {
            let i0 = if i < p { i } else { i - 1 };
            let j0 = if j < p { j } else { j - 1 };
            assert(t[i] == s[i0]);
            assert(t[j] == s[j0]);
            assert(!comes_before(s[j0], s[i0], by_style));
        }
    }
}

/// Whether `a` sorts strictly before `b`.
pub fn record_lt(a: &FontInfo, b: &FontInfo, by_style: bool) -> (r: bool)
    ensures
        r == comes_before(a@, b@, by_style),
{
    proof {
        lemma_lex_lt_asymmetric(a@.family_name, a@.family_name);
    }
    if str_lt(a.family_name().as_str(), b.family_name().as_str()) {
        true
    } else if str_lt(b.family_name().as_str(), a.family_name().as_str()) {
        proof {
            lemma_lex_lt_asymmetric(b@.family_name, b@.family_name);
        }
        false
    } else {
        proof {
            lemma_lex_lt_connected(a@.family_name, b@.family_name);
        }
        by_style && str_lt(a.style_name().as_str(), b.style_name().as_str())
    }
}

/// Sorts records by family name, and by style name within a family when
/// `by_style` is set. Records that the order does not tell apart keep
/// their relative order.
pub fn sort_fonts(fonts: Vec<FontInfo>, by_style: bool) -> (out: Vec<FontInfo>)
    ensures
        is_stable_sort_of(views(out@), views(fonts@), by_style),
        is_rearrangement(views(out@), views(fonts@)),
        all_consistent(views(fonts@)) ==> all_consistent(views(out@)),
        out@.len() == fonts@.len(),
{
    let ghost whole = views(fonts@);
    let mut rest = fonts;
    let mut out: Vec<FontInfo> = Vec::new();
    proof {
        assert forall|k: (Seq<char>, Seq<char>)|
            keyed(views(rest@), k, by_style) + keyed(views(out@), k, by_style) == #[trigger] keyed(
                whole,
                k,
                by_style,
            ) by {
            let pred = |v: FontView| sort_key(v, by_style) == k;
            assert(views(out@) =~= Seq::<FontView>::empty());
            Seq::filter_distributes_over_add(views(rest@), views(out@), pred);
            assert(views(rest@) + views(out@) =~= views(rest@));
        }
    }
    proof {
        assert forall|pred: spec_fn(FontView) -> bool|
            views(rest@).filter(pred).len() + views(out@).filter(pred).len()
                == #[trigger] whole.filter(pred).len() by {
            assert(views(out@) =~= Seq::<FontView>::empty());
            Seq::filter_distributes_over_add(views(rest@), views(out@), pred);
            assert(views(rest@) + views(out@) =~= views(rest@));
        }
    }
    while rest.len() > 0
        invariant
            is_sorted(views(out@), by_style),
            rest@.len() + out@.len() == whole.len(),
            forall|pred: spec_fn(FontView) -> bool|
                views(rest@).filter(pred).len() + views(out@).filter(pred).len()
                    == #[trigger] whole.filter(pred).len(),
            forall|k: (Seq<char>, Seq<char>)|
                keyed(views(rest@), k, by_style) + keyed(views(out@), k, by_style)
                    == #[trigger] keyed(whole, k, by_style),
        decreases rest.len(),
    {
        let ghost rest_before = views(rest@);
        let ghost out_before = views(out@);
        let x = rest.pop().unwrap();
        let mut p: usize = 0;
        while p < out.len() && record_lt(&out[p], &x, by_style)
            invariant
                p <= out.len(),
                out_before == views(out@),
                forall|j: int| 0 <= j < p ==> comes_before(#[trigger] out_before[j], x@, by_style),
            decreases out.len() - p,
        {
            p += 1;
        }
        out.insert(p, x);
        proof {
            let kx = sort_key(x@, by_style);
            assert(views(out@) =~= out_before.insert(p as int, x@));
            assert(rest_before =~= views(rest@).push(x@));
            lemma_insert_sorted(out_before, p as int, x@, by_style);
            assert forall|j: int| 0 <= j < p implies sort_key(#[trigger] out_before[j], by_style)
                != kx by {
                lemma_key_lt_asymmetric(kx, kx);
            }
            assert forall|pred: spec_fn(FontView) -> bool|
                views(rest@).filter(pred).len() + views(out@).filter(pred).len()
                    == #[trigger] whole.filter(pred).len() by {
                lemma_insert_count(out_before, p as int, x@, pred);
                views(rest@).lemma_filter_push(x@, pred);
                assert(rest_before.filter(pred).len() + out_before.filter(pred).len()
                    == whole.filter(pred).len());
            }
            assert forall|k: (Seq<char>, Seq<char>)|
                keyed(views(rest@), k, by_style) + keyed(views(out@), k, by_style)
                    == #[trigger] keyed(whole, k, by_style) by {
                let pred = |v: FontView| sort_key(v, by_style) == k;
                lemma_insert_run(out_before, p as int, x@, k, by_style);
                views(rest@).lemma_filter_push(x@, pred);
                let r = keyed(views(rest@), k, by_style);
                let o = keyed(out_before, k, by_style);
                assert(keyed(rest_before, k, by_style) + o == keyed(whole, k, by_style));
                if kx == k {
                    assert(r + (seq![x@] + o) =~= r.push(x@) + o);
                }
            }
        }
    }
    proof {
        assert forall|pred: spec_fn(FontView) -> bool| #[trigger]
            views(out@).filter(pred).len() == whole.filter(pred).len() by {
            assert(views(rest@) =~= Seq::<FontView>::empty());
            Seq::filter_distributes_over_add(views(rest@), views(out@), pred);
            assert(views(rest@) + views(out@) =~= views(out@));
            assert(views(rest@).filter(pred).len() + views(out@).filter(pred).len()
                == whole.filter(pred).len());
        }
        if all_consistent(whole) {
            lemma_rearranged_all(views(out@), whole, |v: FontView| v.consistent());
        }
        assert forall|k: (Seq<char>, Seq<char>)| #[trigger]
            keyed(views(out@), k, by_style) == keyed(whole, k, by_style) by {
            assert(views(rest@) =~= Seq::<FontView>::empty());
            let pred = |v: FontView| sort_key(v, by_style) == k;
            Seq::filter_distributes_over_add(views(rest@), views(out@), pred);
            assert(views(rest@) + views(out@) =~= views(out@));
            assert(keyed(views(rest@), k, by_style) + keyed(views(out@), k, by_style) == keyed(
                whole,
                k,
                by_style,
            ));
        }
    }
    out
}

} // verus!
