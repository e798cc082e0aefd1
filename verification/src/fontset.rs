//! The indexed-set source: flat face entries with string-valued
//! properties, an optional local file path and variable-axis ranges.

use vstd::prelude::*;
use vstd::string::*;
use crate::record::{FontInfo, FontView};
use crate::sort::{
    all_consistent, is_rearrangement, is_sorted, is_stable_sort_of, lemma_rearranged_all, sort_fonts,
    views,
};
use crate::text::{
    append_signed, owned_or_empty, parse_i32, parsed_i32, push_char, signed_decimal, text_or_empty,
};

verus! {

/// One design axis of a face: its four-byte tag, the bounds as they are
/// shown, and whether the two bounds that the source reported differ.
#[derive(Clone, Copy, Debug)]
pub struct AxisRange {
    pub tag: u32,
    pub min_value: i32,
    pub max_value: i32,
    pub varies: bool,
}

/// One entry of the indexed set, as read from the source. A property
/// that the source could not give is `None`; a face whose loader is not
/// a local-file loader has no path.
#[derive(Debug)]
pub struct FontSetFace {
    pub family_name: Option<String>,
    pub face_name: Option<String>,
    pub weight_text: Option<String>,
    pub style_text: Option<String>,
    pub local_file_path: Option<String>,
    pub axes: Vec<AxisRange>,
}

/// The four characters of an axis tag, lowest byte first.
pub open spec fn tag_text(tag: u32) -> Seq<char> {
    seq![
        ((tag & 0xFF) as u8) as char,
        (((tag >> 8) & 0xFF) as u8) as char,
        (((tag >> 16) & 0xFF) as u8) as char,
        (((tag >> 24) & 0xFF) as u8) as char,
    ]
}

/// What one axis contributes: tag, a space, the lower bound, a hyphen,
/// the upper bound.
pub open spec fn axis_fragment(r: AxisRange) -> Seq<char> {
    tag_text(r.tag) + seq![' '] + signed_decimal(r.min_value as int) + seq!['-'] + signed_decimal(
        r.max_value as int,
    )
}

/// The fragments of `parts`, joined by a comma and a space.
pub open spec fn joined_fragments(parts: Seq<AxisRange>) -> Seq<char>
    decreases parts.len(),
{
    if parts.len() == 0 {
        Seq::<char>::empty()
    } else if parts.len() == 1 {
        axis_fragment(parts[0])
    } else {
        joined_fragments(parts.drop_last()) + seq![',', ' '] + axis_fragment(parts.last())
    }
}

/// The axes whose bounds differ, in order.
pub open spec fn varying(ranges: Seq<AxisRange>) -> Seq<AxisRange> {
    ranges.filter(|r: AxisRange| r.varies)
}

/// Description of the variable axes of a face: one fragment for each
/// axis whose bounds differ.
pub open spec fn axes_text(ranges: Seq<AxisRange>) -> Seq<char> {
    joined_fragments(varying(ranges))
}

/// The description is empty exactly when no axis varies.
pub proof fn lemma_joined_nonempty(parts: Seq<AxisRange>)
    ensures
        joined_fragments(parts).len() == 0 <==> parts.len() == 0,
    decreases parts.len(),
{
    if parts.len() > 1 {
        lemma_joined_nonempty(parts.drop_last());
    }
}

/// Appends the four characters of an axis tag.
pub fn append_tag(out: &mut String, tag: u32)
    ensures
        final(out)@ == old(out)@ + tag_text(tag),
{
    assert(tag & 0xFF <= 255) by (bit_vector);
    assert((tag >> 8) & 0xFF <= 255) by (bit_vector);
    assert((tag >> 16) & 0xFF <= 255) by (bit_vector);
    assert((tag >> 24) & 0xFF <= 255) by (bit_vector);
    let b0: u8 = (tag & 0xFF) as u8;
    let b1: u8 = ((tag >> 8) & 0xFF) as u8;
    let b2: u8 = ((tag >> 16) & 0xFF) as u8;
    let b3: u8 = ((tag >> 24) & 0xFF) as u8;
    push_char(out, b0 as char);
    push_char(out, b1 as char);
    push_char(out, b2 as char);
    push_char(out, b3 as char);
    assert(out@ =~= old(out)@ + tag_text(tag));
}

/// Appends what one axis contributes to the description.
pub fn append_axis(out: &mut String, r: &AxisRange)
    ensures
        final(out)@ == old(out)@ + axis_fragment(*r),
{
    proof {
        reveal_strlit(" ");
        reveal_strlit("-");
    }
    append_tag(out, r.tag);
    out.append(" ");
    append_signed(out, r.min_value);
    out.append("-");
    append_signed(out, r.max_value);
    assert(out@ =~= old(out)@ + axis_fragment(*r));
}

/// Describes the variable axes of a face.
pub fn describe_axes(ranges: &Vec<AxisRange>) -> (out: String)
    ensures
        out@ == axes_text(ranges@),
{
    let mut out = String::new();
    let mut i: usize = 0;
    proof {
        reveal_strlit(", ");
        assert(ranges@.take(0) =~= Seq::<AxisRange>::empty());
        reveal_with_fuel(Seq::filter, 1);
    }
    while i < ranges.len()
        invariant
            i <= ranges.len(),
            out@ == axes_text(ranges@.take(i as int)),
            ", "@ == seq![',', ' '],
        decreases ranges.len() - i,
    {
        let r = &ranges[i];
        proof {
            let before = varying(ranges@.take(i as int));
            assert(ranges@.take(i + 1) =~= ranges@.take(i as int).push(*r));
            ranges@.take(i as int).lemma_filter_push(*r, |r: AxisRange| r.varies);
            lemma_joined_nonempty(before);
            if r.varies {
                assert(before.push(*r).drop_last() =~= before);
            }
        }
        if r.varies {
            if !out.as_str().is_empty() {
                out.append(", ");
            }
            append_axis(&mut out, r);
        }
        i += 1;
    }
    proof {
        assert(ranges@.take(ranges@.len() as int) =~= ranges@);
    }
    out
}

/// Weight of a face from its weight property: the normal weight, 400,
/// where the source gave none or the text is no number.
pub open spec fn weight_of(text: Option<String>) -> int {
    match text {
        None => 400,
        Some(t) => match parsed_i32(t@) {
            Some(w) => w as int,
            None => 400,
        },
    }
}

/// Italic flag of a face from its style property: any style code but
/// zero is italic or oblique; a missing or unreadable code counts as zero.
pub open spec fn italic_of(text: Option<String>) -> bool {
    match text {
        None => false,
        Some(t) => match parsed_i32(t@) {
            Some(code) => code != 0,
            None => false,
        },
    }
}

/// The record that a face of the indexed set gives: a name or a path
/// that the source could not give is empty.
pub open spec fn fontset_record(face: FontSetFace) -> FontView {
    FontView::of_parts(
        text_or_empty(face.family_name),
        text_or_empty(face.face_name),
        text_or_empty(face.local_file_path),
        axes_text(face.axes@),
        weight_of(face.weight_text),
        italic_of(face.style_text),
        false,
    )
}

/// The records of the faces that have a family name, in the order of the set.
pub open spec fn fontset_collected(faces: Seq<FontSetFace>) -> Seq<FontView> {
    faces.map_values(|f: FontSetFace| fontset_record(f)).filter(
        |v: FontView| v.family_name.len() > 0,
    )
}

/// Weight of a face from its weight property.
pub fn weight_from_text(text: &Option<String>) -> (w: i32)
    ensures
        w == weight_of(*text),
{
    match text {
        None => 400,
        Some(t) => match parse_i32(t.as_str()) {
            Some(w) => w,
            None => 400,
        },
    }
}

/// Italic flag of a face from its style property.
pub fn italic_from_text(text: &Option<String>) -> (r: bool)
    ensures
        r == italic_of(*text),
{
    match text {
        None => false,
        Some(t) => match parse_i32(t.as_str()) {
            Some(code) => code != 0,
            None => false,
        },
    }
}

/// Turns one face of the indexed set into a record. A face without a
/// family name gives none.
pub fn fontset_font(face: &FontSetFace) -> (r: Option<FontInfo>)
    ensures
        r is Some <==> text_or_empty(face.family_name).len() > 0,
        r is Some ==> r->0@ == fontset_record(*face),
{
    let family_name = owned_or_empty(&face.family_name);
    if family_name.as_str().is_empty() {
        return None;
    }
    Some(
        FontInfo::new(
            family_name,
            owned_or_empty(&face.face_name),
            owned_or_empty(&face.local_file_path),
            describe_axes(&face.axes),
            weight_from_text(&face.weight_text),
            italic_from_text(&face.style_text),
            false,
        ),
    )
}

/// Every record of `s` has a family name.
pub open spec fn families_named(s: Seq<FontView>) -> bool {
    forall|i: int| 0 <= i < s.len() ==> (#[trigger] s[i]).family_name.len() > 0
}

/// The indexed-set adapter: the records of all faces that have a family
/// name, sorted by family name and then by style name.
pub fn fontset_fonts(faces: &Vec<FontSetFace>) -> (out: Vec<FontInfo>)
    ensures
        is_stable_sort_of(views(out@), fontset_collected(faces@), true),
        is_rearrangement(views(out@), fontset_collected(faces@)),
        is_sorted(views(out@), true),
        families_named(views(out@)),
        all_consistent(views(out@)),
{
    let mut fonts: Vec<FontInfo> = Vec::new();
    let mut i: usize = 0;
    proof {
        assert(faces@.take(0) =~= Seq::<FontSetFace>::empty());
        assert(faces@.take(0).map_values(|f: FontSetFace| fontset_record(f)) =~= Seq::<
            FontView,
        >::empty());
        reveal_with_fuel(Seq::filter, 1);
        assert(views(fonts@) =~= Seq::<FontView>::empty());
    }
    while i < faces.len()
        invariant
            i <= faces.len(),
            views(fonts@) == fontset_collected(faces@.take(i as int)),
            all_consistent(views(fonts@)),
        decreases faces.len() - i,
    {
        let ghost before = views(fonts@);
        let made = fontset_font(&faces[i]);
        proof {
            let named = |v: FontView| v.family_name.len() > 0;
            let recs = faces@.take(i as int).map_values(|f: FontSetFace| fontset_record(f));
            assert(faces@.take(i + 1).map_values(|f: FontSetFace| fontset_record(f)) =~= recs.push(
                fontset_record(faces@[i as int]),
            ));
            recs.lemma_filter_push(fontset_record(faces@[i as int]), named);
        }
        match made {
            Some(font) => {
                fonts.push(font);
                assert(views(fonts@) =~= before.push(font@));
            },
            None => {},
        }
        i += 1;
    }
    proof {
        assert(faces@.take(faces@.len() as int) =~= faces@);
    }
    let ghost collected = views(fonts@);
    let out = sort_fonts(fonts, true);
    proof {
        let named = |v: FontView| v.family_name.len() > 0;
        let recs = faces@.map_values(|f: FontSetFace| fontset_record(f));
        assert forall|j: int| 0 <= j < collected.len() implies named(#[trigger] collected[j]) by {
            recs.lemma_filter_pred(named, j);
        }
        lemma_rearranged_all(views(out@), collected, named);
    }
    out
}

} // verus!
