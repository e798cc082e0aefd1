//! The filter: which records a query leaves visible.

use vstd::prelude::*;
use vstd::string::*;
use crate::record::{FontInfo, FontView};
use crate::sort::views;
use crate::text::{contains, is_substring, lowercase_of, to_lowercase};

verus! {

/// A record passes an empty query always, and any other query when the
/// lowercased query occurs in its lowercased family name or in its
/// lowercased style name.
pub open spec fn matches_query(v: FontView, query: Seq<char>) -> bool {
    query.len() == 0 || is_substring(lowercase_of(query), lowercase_of(v.family_name))
        || is_substring(lowercase_of(query), lowercase_of(v.style_name))
}

/// The positions of the records that pass the query, in increasing order.
pub open spec fn visible_indices(fonts: Seq<FontView>, query: Seq<char>) -> Seq<int> {
    Seq::new(fonts.len(), |i: int| i).filter(|i: int| matches_query(fonts[i], query))
}

/// A list of machine indices as a list of numbers.
pub open spec fn as_ints(s: Seq<usize>) -> Seq<int> {
    s.map_values(|i: usize| i as int)
}

/// The positions below `n` of the records that pass the query.
pub open spec fn visible_below(fonts: Seq<FontView>, query: Seq<char>, n: nat) -> Seq<int> {
    Seq::new(n, |i: int| i).filter(|i: int| matches_query(fonts[i], query))
}

/// The visible positions below `n` are positions below `n` of records
/// that pass the query, they increase strictly, none that passes is
/// missing, and an empty query leaves out none at all.
pub proof fn lemma_visible_below(fonts: Seq<FontView>, query: Seq<char>, n: nat)
    ensures
        forall|k: int|
            0 <= k < visible_below(fonts, query, n).len() ==> 0 <= (#[trigger] visible_below(
                fonts,
                query,
                n,
            )[k]) < n && matches_query(fonts[visible_below(fonts, query, n)[k]], query),
        forall|k: int, l: int|
            0 <= k < l < visible_below(fonts, query, n).len() ==> visible_below(fonts, query, n)[k]
                < visible_below(fonts, query, n)[l],
        forall|i: int|
            0 <= i < n && matches_query(fonts[i], query) ==> #[trigger] visible_below(
                fonts,
                query,
                n,
            ).contains(i),
        query.len() == 0 ==> visible_below(fonts, query, n) == Seq::new(n, |i: int| i),
    decreases n,
{
    let pred = |i: int| matches_query(fonts[i], query);
    let now = visible_below(fonts, query, n);
    if n == 0 {
        reveal_with_fuel(Seq::filter, 1);
        assert(Seq::new(0, |i: int| i) =~= Seq::<int>::empty());
        assert(now =~= Seq::<int>::empty());
    } else {
        let m = (n - 1) as nat;
        let before = visible_below(fonts, query, m);
        lemma_visible_below(fonts, query, m);
        assert(Seq::new(n, |i: int| i) =~= Seq::new(m, |i: int| i).push(m as int));
        Seq::new(m, |i: int| i).lemma_filter_push(m as int, pred);
        assert forall|i: int| 0 <= i < n && matches_query(fonts[i], query) implies now.contains(
            i,
        ) by {
            if i < m {
                assert(before.contains(i));
                let k = choose|k: int| 0 <= k < before.len() && before[k] == i;
                assert(now[k] == i);
            } else {
                assert(now[now.len() - 1] == i);
            }
        }
        if query.len() == 0 {
            assert(now =~= Seq::new(n, |i: int| i));
        }
    }
}

/// The visible positions form a subsequence of the positions of the
/// full list in their order: each is a position of a record that passes
/// the query, they increase strictly, and none that passes is missing.
/// An empty query yields every position.
pub proof fn lemma_visible_indices(fonts: Seq<FontView>, query: Seq<char>)
    ensures
        forall|k: int|
            0 <= k < visible_indices(fonts, query).len() ==> 0 <= (#[trigger] visible_indices(
                fonts,
                query,
            )[k]) < fonts.len() && matches_query(fonts[visible_indices(fonts, query)[k]], query),
        forall|k: int, l: int|
            0 <= k < l < visible_indices(fonts, query).len() ==> visible_indices(fonts, query)[k]
                < visible_indices(fonts, query)[l],
        forall|i: int|
            0 <= i < fonts.len() && matches_query(fonts[i], query) ==> #[trigger] visible_indices(
                fonts,
                query,
            ).contains(i),
        query.len() == 0 ==> visible_indices(fonts, query) == Seq::new(fonts.len(), |i: int| i),
{
    lemma_visible_below(fonts, query, fonts.len());
    assert(visible_indices(fonts, query) == visible_below(fonts, query, fonts.len()));
}

fn matches_lowered(font: &FontInfo, lowered: &str) -> (r: bool)
    ensures
        r == (is_substring(lowered@, lowercase_of(font@.family_name)) || is_substring(
            lowered@,
            lowercase_of(font@.style_name),
        )),
{
    let family = to_lowercase(font.family_name().as_str());
    if contains(family.as_str(), lowered) {
        return true;
    }
    let style = to_lowercase(font.style_name().as_str());
    contains(style.as_str(), lowered)
}

/// Whether a record passes a query.
pub fn font_matches(font: &FontInfo, query: &str) -> (r: bool)
    ensures
        r == matches_query(font@, query@),
{
    if query.is_empty() {
        return true;
    }
    let lowered = to_lowercase(query);
    matches_lowered(font, lowered.as_str())
}

/// Computes the visible positions anew: those of the records that pass
/// the query, in their order in `fonts`. An empty query leaves every
/// record visible.
pub fn apply_filter(fonts: &Vec<FontInfo>, filter_text: &str) -> (r: Vec<usize>)
    ensures
        as_ints(r@) == visible_indices(views(fonts@), filter_text@),
        forall|k: int|
            0 <= k < r@.len() ==> (#[trigger] r@[k]) < fonts@.len() && matches_query(
                views(fonts@)[r@[k] as int],
                filter_text@,
            ),
        forall|k: int, l: int| 0 <= k < l < r@.len() ==> r@[k] < r@[l],
        forall|i: int|
            0 <= i < fonts@.len() && matches_query(#[trigger] views(fonts@)[i], filter_text@)
                ==> r@.contains(i as usize),
        filter_text@.len() == 0 ==> r@.len() == fonts@.len() && forall|k: int|
            0 <= k < r@.len() ==> (#[trigger] r@[k]) == k,
{
    let everything = filter_text.is_empty();
    let lowered = to_lowercase(filter_text);
    let mut r: Vec<usize> = Vec::new();
    let mut i: usize = 0;
    proof {
        reveal_with_fuel(Seq::filter, 1);
        assert(as_ints(r@) =~= Seq::<int>::empty());
        assert(Seq::new(0, |i: int| i) =~= Seq::<int>::empty());
    }
    while i < fonts.len()
        invariant
            i <= fonts.len(),
            everything == (filter_text@.len() == 0),
            lowered@ == lowercase_of(filter_text@),
            as_ints(r@) == Seq::new(i as nat, |i: int| i).filter(
                |i: int| matches_query(views(fonts@)[i], filter_text@),
            ),
            forall|k: int|
                0 <= k < r@.len() ==> (#[trigger] r@[k]) < i && matches_query(
                    views(fonts@)[r@[k] as int],
                    filter_text@,
                ),
            forall|k: int, l: int| 0 <= k < l < r@.len() ==> r@[k] < r@[l],
            forall|j: int|
                0 <= j < i && matches_query(#[trigger] views(fonts@)[j], filter_text@)
                    ==> r@.contains(j as usize),
            everything ==> r@.len() == i && forall|k: int|
                0 <= k < r@.len() ==> (#[trigger] r@[k]) == k,
        decreases fonts.len() - i,
    {
        let ghost before = r@;
        let keep = everything || matches_lowered(&fonts[i], lowered.as_str());
        proof {
            assert(views(fonts@)[i as int] == fonts@[i as int]@);
            assert(keep == matches_query(views(fonts@)[i as int], filter_text@));
            let ids = Seq::new(i as nat, |i: int| i);
            assert(Seq::new((i + 1) as nat, |i: int| i) =~= ids.push(i as int));
            ids.lemma_filter_push(
                i as int,
                |i: int| matches_query(views(fonts@)[i], filter_text@),
            );
        }
        if keep {
            r.push(i);
            proof {
                assert(as_ints(r@) =~= as_ints(before).push(i as int));
                assert(r@[before.len() as int] == i);
                assert forall|j: int|
                    0 <= j < i + 1 && matches_query(
                        #[trigger] views(fonts@)[j],
                        filter_text@,
                    ) implies r@.contains(j as usize) by {
                    if j < i {
                        assert(before.contains(j as usize));
                        let k = choose|k: int| 0 <= k < before.len() && before[k] == j as usize;
                        assert(r@[k] == j as usize);
                    }
                }
            }
        }
        i += 1;
    }
    r
}

} // verus!
