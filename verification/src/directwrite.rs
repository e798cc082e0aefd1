//! The collection-based source: families, each with its faces.

use vstd::prelude::*;
use vstd::string::*;
use crate::record::{FontInfo, FontView};
use crate::sort::{all_consistent, is_rearrangement, is_sorted, is_stable_sort_of, sort_fonts, views};
use crate::text::{owned_or_empty, text_or_empty};

verus! {

/// One face of a family. The name is `None` where the source could not
/// give it, `monospaced` where the source lacks the extension that tells it.
#[derive(Debug)]
pub struct DwFace {
    pub face_name: Option<String>,
    pub weight: i32,
    pub style_code: i32,
    pub monospaced: Option<bool>,
}

/// One family of the collection with its faces, in the order of the
/// source. The name is `None` where the source could not give it.
#[derive(Debug)]
pub struct DwFamily {
    pub family_name: Option<String>,
    pub faces: Vec<DwFace>,
}

/// Which entry of a list of localized names to read: the one found for
/// the preferred locale, else the first.
pub fn preferred_locale_index(found: bool, index: u32) -> (r: u32)
    ensures
        r == if found {
            index
        } else {
            0
        },
{
    if found {
        index
    } else {
        0
    }
}

/// The monospace flag of a face: false where the source cannot tell.
pub open spec fn monospaced_of(capability: Option<bool>) -> bool {
    match capability {
        Some(b) => b,
        None => false,
    }
}

/// The monospace flag of a face.
pub fn monospaced_or_default(capability: Option<bool>) -> (r: bool)
    ensures
        r == monospaced_of(capability),
{
    match capability {
        Some(b) => b,
        None => false,
    }
}

/// The record of one face of the family `family`: no file path and no
/// axes; a missing name is empty; any style code but zero is italic or
/// oblique.
pub open spec fn dw_record(family: Seq<char>, face: DwFace) -> FontView {
    FontView::of_parts(
        family,
        text_or_empty(face.face_name),
        Seq::<char>::empty(),
        Seq::<char>::empty(),
        face.weight as int,
        face.style_code != 0,
        monospaced_of(face.monospaced),
    )
}

/// The records of one family, one for each face.
pub open spec fn family_records(family: DwFamily) -> Seq<FontView> {
    family.faces@.map_values(|face: DwFace| dw_record(text_or_empty(family.family_name), face))
}

/// The records of all families, family after family.
pub open spec fn dw_collected(families: Seq<DwFamily>) -> Seq<FontView>
    decreases families.len(),
{
    if families.len() == 0 {
        Seq::<FontView>::empty()
    } else {
        dw_collected(families.drop_last()) + family_records(families.last())
    }
}

/// Turns one face of a family into a record.
pub fn dw_font(family_name: &String, face: &DwFace) -> (r: FontInfo)
    ensures
        r@ == dw_record(family_name@, *face),
        r@.consistent(),
{
    FontInfo::new(
        family_name.clone(),
        owned_or_empty(&face.face_name),
        String::new(),
        String::new(),
        face.weight,
        face.style_code != 0,
        monospaced_or_default(face.monospaced),
    )
}

/// The collection-based adapter: one record for each face of each
/// family, sorted by family name and then by style name.
pub fn directwrite_fonts(families: &Vec<DwFamily>) -> (out: Vec<FontInfo>)
    ensures
        is_stable_sort_of(views(out@), dw_collected(families@), true),
        is_rearrangement(views(out@), dw_collected(families@)),
        is_sorted(views(out@), true),
        all_consistent(views(out@)),
{
    let mut fonts: Vec<FontInfo> = Vec::new();
    let mut i: usize = 0;
    proof {
        assert(families@.take(0) =~= Seq::<DwFamily>::empty());
        assert(views(fonts@) =~= Seq::<FontView>::empty());
    }
    while i < families.len()
        invariant
            i <= families.len(),
            views(fonts@) == dw_collected(families@.take(i as int)),
            all_consistent(views(fonts@)),
        decreases families.len() - i,
    {
        let family = &families[i];
        let family_name = owned_or_empty(&family.family_name);
        let ghost done = views(fonts@);
        let mut j: usize = 0;
        proof {
            assert(views(fonts@) =~= done + family_records(*family).take(0));
        }
        while j < family.faces.len()
            invariant
                j <= family.faces.len(),
                family_name@ == text_or_empty(family.family_name),
                views(fonts@) == done + family_records(*family).take(j as int),
                all_consistent(views(fonts@)),
            decreases family.faces.len() - j,
        {
            let ghost prev = views(fonts@);
            let font = dw_font(&family_name, &family.faces[j]);
            fonts.push(font);
            proof {
                assert(views(fonts@) =~= prev.push(font@));
                assert(family_records(*family)[j as int] == font@);
                assert(family_records(*family).take(j + 1) =~= family_records(*family).take(
                    j as int,
                ).push(font@));
                assert(views(fonts@) =~= done + family_records(*family).take(j + 1));
            }
            j += 1;
        }
        proof {
            assert(family_records(*family).take(j as int) =~= family_records(*family));
            assert(families@.take(i + 1).drop_last() =~= families@.take(i as int));
        }
        i += 1;
    }
    proof {
        assert(families@.take(families@.len() as int) =~= families@);
    }
    sort_fonts(fonts, true)
}

} // verus!
