//! The legacy table source: raw face records, which may report the same
//! face more than once, reduced to one record per family and style.

use vstd::prelude::*;
use vstd::string::*;
use crate::record::{FontInfo, FontView};
use crate::sort::{all_consistent, is_rearrangement, is_sorted, is_stable_sort_of, sort_fonts, views};

verus! {

/// One raw face record of the legacy table.
#[derive(Debug)]
pub struct GdiFace {
    pub face_name: String,
    pub style: String,
    pub weight: i32,
    pub italic: u8,
    pub pitch_and_family: u8,
}

/// A face is fixed-pitch when the low two bits of its pitch field hold 1.
pub open spec fn is_fixed_pitch(pitch_and_family: u8) -> bool {
    pitch_and_family & 0x03 == 1
}

/// Whether the pitch field marks a fixed-pitch face.
pub fn fixed_pitch_of(pitch_and_family: u8) -> (r: bool)
    ensures
        r == is_fixed_pitch(pitch_and_family),
{
    (pitch_and_family & 0x03) == 1
}

/// The record that a raw face gives: no file path and no axes.
pub open spec fn gdi_record(face: GdiFace) -> FontView {
    FontView::of_parts(
        face.face_name@,
        face.style@,
        Seq::<char>::empty(),
        Seq::<char>::empty(),
        face.weight as int,
        face.italic != 0,
        is_fixed_pitch(face.pitch_and_family),
    )
}

/// The property of being the face `style` of the family `family`.
pub open spec fn same_face(family: Seq<char>, style: Seq<char>) -> spec_fn(FontView) -> bool {
    |v: FontView| v.family_name == family && v.style_name == style
}

/// Some record of `s` is the face `style` of the family `family`.
pub open spec fn has_face(s: Seq<FontView>, family: Seq<char>, style: Seq<char>) -> bool {
    exists|j: int| 0 <= j < s.len() && same_face(family, style)(#[trigger] s[j])
}

/// How many records of `s` are the face `style` of the family `family`.
pub open spec fn occurrences(s: Seq<FontView>, family: Seq<char>, style: Seq<char>) -> nat {
    s.filter(same_face(family, style)).len()
}

/// No pair of family and style occurs more than once in `s`.
pub open spec fn faces_distinct(s: Seq<FontView>) -> bool {
    forall|family: Seq<char>, style: Seq<char>| #[trigger] occurrences(s, family, style) <= 1
}

/// The list after one more face was reported: unchanged where the list
/// already holds that family and style, else longer by its record.
pub open spec fn with_face(s: Seq<FontView>, face: GdiFace) -> Seq<FontView> {
    if has_face(s, face.face_name@, face.style@) {
        s
    } else {
        s.push(gdi_record(face))
    }
}

/// The records collected from a run of reported faces: the first report
/// of each family and style, in the order of the reports.
pub open spec fn gdi_collected(faces: Seq<GdiFace>) -> Seq<FontView>
    decreases faces.len(),
{
    if faces.len() == 0 {
        Seq::<FontView>::empty()
    } else {
        with_face(gdi_collected(faces.drop_last()), faces.last())
    }
}

/// A list without the face of `x` stays free of repeated faces when `x`
/// is added.
pub proof fn lemma_push_distinct(s: Seq<FontView>, x: FontView)
    requires
        faces_distinct(s),
        !has_face(s, x.family_name, x.style_name),
    ensures
        faces_distinct(s.push(x)),
{
    assert forall|family: Seq<char>, style: Seq<char>| #[trigger]
        occurrences(s.push(x), family, style) <= 1 by {
        let pred = same_face(family, style);
        s.lemma_filter_push(x, pred);
        assert(occurrences(s, family, style) <= 1);
        if pred(x) && s.filter(pred).len() > 0 {
            let e = s.filter(pred)[0];
            s.lemma_filter_pred(pred, 0);
            assert(s.filter(pred).contains(e));
            s.lemma_filter_contains_rev(pred, e);
            let j = choose|j: int| 0 <= j < s.len() && s[j] == e;
            assert(same_face(x.family_name, x.style_name)(s[j]));
        }
    }
}

/// In a list free of repeated faces, two records at different places
/// differ in family or in style.
pub proof fn lemma_distinct_by_index(s: Seq<FontView>, i: int, j: int)
    requires
        faces_distinct(s),
        0 <= i < j < s.len(),
    ensures
        !(s[i].family_name == s[j].family_name && s[i].style_name == s[j].style_name),
{
    let pred = same_face(s[i].family_name, s[i].style_name);
    if pred(s[j]) {
        let a = s.subrange(0, i);
        let b = s.subrange(i + 1, j);
        let c = s.subrange(j + 1, s.len() as int);
        assert(s =~= (a.push(s[i]) + b.push(s[j])) + c);
        Seq::filter_distributes_over_add(a.push(s[i]) + b.push(s[j]), c, pred);
        Seq::filter_distributes_over_add(a.push(s[i]), b.push(s[j]), pred);
        a.lemma_filter_push(s[i], pred);
        b.lemma_filter_push(s[j], pred);
        assert(occurrences(s, s[i].family_name, s[i].style_name) >= 2);
    }
}

/// A rearrangement of a list free of repeated faces is free of them too.
pub proof fn lemma_rearranged_distinct(out: Seq<FontView>, inp: Seq<FontView>)
    requires
        is_rearrangement(out, inp),
        faces_distinct(inp),
    ensures
        faces_distinct(out),
{
    assert forall|family: Seq<char>, style: Seq<char>| #[trigger]
        occurrences(out, family, style) <= 1 by {
        assert(occurrences(inp, family, style) <= 1);
        assert(out.filter(same_face(family, style)).len() == inp.filter(
            same_face(family, style),
        ).len());
    }
}

/// Takes one reported face into the list, unless the list already holds
/// its family and style. The result tells the source to go on.
pub fn enum_font_proc(fonts: &mut Vec<FontInfo>, face: &GdiFace) -> (go_on: i32)
    ensures
        go_on == 1,
        views(final(fonts)@) == with_face(views(old(fonts)@), *face),
        faces_distinct(views(old(fonts)@)) ==> faces_distinct(views(final(fonts)@)),
        all_consistent(views(old(fonts)@)) ==> all_consistent(views(final(fonts)@)),
{
    let ghost before = views(fonts@);
    let mut j: usize = 0;
    let mut exists = false;
    while j < fonts.len()
        invariant
            j <= fonts.len(),
            before == views(fonts@),
            exists ==> has_face(before, face.face_name@, face.style@),
            !exists ==> forall|k: int|
                0 <= k < j ==> !same_face(face.face_name@, face.style@)(#[trigger] before[k]),
        decreases fonts.len() - j,
    {
        let f = &fonts[j];
        if *f.family_name() == face.face_name && *f.style_name() == face.style {
            exists = true;
            assert(same_face(face.face_name@, face.style@)(before[j as int]));
        }
        j += 1;
    }
    if !exists {
        let record = FontInfo::new(
            face.face_name.clone(),
            face.style.clone(),
            String::new(),
            String::new(),
            face.weight,
            face.italic != 0,
            fixed_pitch_of(face.pitch_and_family),
        );
        fonts.push(record);
        proof {
            assert(views(fonts@) =~= before.push(gdi_record(*face)));
            if faces_distinct(before) {
                lemma_push_distinct(before, gdi_record(*face));
            }
        }
    }
    1
}

/// The legacy-table adapter: one record for each family and style that
/// was reported, sorted by family name. Records of one family keep the
/// order in which they were first reported.
pub fn gdi_fonts(faces: &Vec<GdiFace>) -> (out: Vec<FontInfo>)
    ensures
        is_stable_sort_of(views(out@), gdi_collected(faces@), false),
        is_rearrangement(views(out@), gdi_collected(faces@)),
        is_sorted(views(out@), false),
        faces_distinct(views(out@)),
        all_consistent(views(out@)),
{
    let mut fonts: Vec<FontInfo> = Vec::new();
    let mut i: usize = 0;
    proof {
        assert(faces@.take(0) =~= Seq::<GdiFace>::empty());
        assert(views(fonts@) =~= Seq::<FontView>::empty());
        reveal_with_fuel(Seq::filter, 1);
    }
    while i < faces.len()
        invariant
            i <= faces.len(),
            views(fonts@) == gdi_collected(faces@.take(i as int)),
            faces_distinct(views(fonts@)),
            all_consistent(views(fonts@)),
        decreases faces.len() - i,
    {
        proof {
            assert(faces@.take(i + 1).drop_last() =~= faces@.take(i as int));
        }
        let _ = enum_font_proc(&mut fonts, &faces[i]);
        i += 1;
    }
    proof {
        assert(faces@.take(faces@.len() as int) =~= faces@);
    }
    let ghost collected = views(fonts@);
    let out = sort_fonts(fonts, false);
    proof {
        lemma_rearranged_distinct(views(out@), collected);
    }
    out
}

} // verus!
