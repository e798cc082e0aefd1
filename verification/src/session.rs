//! The enumeration session: the records of the last enumeration, the
//! filter and the selection, and what the table, the status line and the
//! preview show of them.

use vstd::prelude::*;
use vstd::string::*;
use crate::directwrite::{directwrite_fonts, dw_collected, DwFamily};
use crate::filter::{apply_filter, as_ints, lemma_visible_indices, visible_indices};
use crate::fontset::{families_named, fontset_collected, fontset_fonts, FontSetFace};
use crate::gdi::{faces_distinct, gdi_collected, gdi_fonts, GdiFace};
use crate::record::{mode_label, mode_label_text, EnumMode, FontInfo, FontView};
use crate::sort::{all_consistent, is_rearrangement, is_sorted, is_stable_sort_of, views};
use crate::text::{append_decimal, append_signed, decimal, signed_decimal};

verus! {

/// Why an enumeration did not take place.
#[derive(Clone, Copy, Debug, PartialEq, Eq, Structural)]
pub enum EnumError {
    /// The source that the adapter needs could not be initialized. The
    /// field tells which source it was.
    SourceUnavailable(EnumMode),
}

impl EnumError {
    /// The source that failed.
    pub open spec fn source_mode(self) -> EnumMode {
        match self {
            EnumError::SourceUnavailable(mode) => mode,
        }
    }

    /// The notice that tells the user of this failure.
    pub fn notice(&self) -> (r: Option<&'static str>)
        ensures
            r is Some <==> unavailable_notice_text(self.source_mode()) is Some,
            r is Some ==> r->0@ == unavailable_notice_text(self.source_mode())->0,
    {
        match self {
            EnumError::SourceUnavailable(mode) => unavailable_notice(*mode),
        }
    }
}

/// What the preview surface is asked to show for a selected record.
#[derive(Debug)]
pub struct Preview {
    pub family_name: String,
    pub weight: i32,
    pub italic: bool,
    pub text: String,
}

/// One row of the table: the seven cells, and the position of the
/// record in the full list.
#[derive(Debug)]
pub struct ListRow {
    pub family: String,
    pub style: String,
    pub weight: String,
    pub italic: String,
    pub fixed: String,
    pub file_path: String,
    pub variable_axes: String,
    pub font_index: usize,
}

/// Mathematical value of a session.
pub struct SessionView {
    pub fonts: Seq<FontView>,
    pub filtered_indices: Seq<int>,
    pub filter_text: Seq<char>,
    pub current_mode: EnumMode,
    pub selected_font: Seq<char>,
}

impl SessionView {
    /// The visible positions are those that the filter text selects from
    /// the records.
    pub open spec fn filter_current(self) -> bool {
        self.filtered_indices == visible_indices(self.fonts, self.filter_text)
    }

    /// The value after an enumeration in `mode` that gave `fonts`: the
    /// records are replaced, the selection is cleared, the filter text
    /// stays and is applied anew.
    pub open spec fn enumerated(self, fonts: Seq<FontView>, mode: EnumMode) -> SessionView {
        SessionView {
            fonts,
            filtered_indices: visible_indices(fonts, self.filter_text),
            filter_text: self.filter_text,
            current_mode: mode,
            selected_font: Seq::<char>::empty(),
        }
    }
}

/// The session. Its fields are private: the visible positions always
/// belong to the current records and filter text.
pub struct AppState {
    fonts: Vec<FontInfo>,
    filtered_indices: Vec<usize>,
    filter_text: String,
    current_mode: EnumMode,
    selected_font: String,
}

impl View for AppState {
    type V = SessionView;

    closed spec fn view(&self) -> SessionView {
        SessionView {
            fonts: views(self.fonts@),
            filtered_indices: as_ints(self.filtered_indices@),
            filter_text: self.filter_text@,
            current_mode: self.current_mode,
            selected_font: self.selected_font@,
        }
    }
}

/// "Yes" or "No".
pub open spec fn yes_no_text(b: bool) -> Seq<char> {
    if b {
        "Yes"@
    } else {
        "No"@
    }
}

/// The cell for the variable axes: empty for a static face.
pub open spec fn variable_cell_text(v: FontView) -> Seq<char> {
    if v.is_variable {
        "Yes: "@ + v.variable_axes
    } else {
        Seq::<char>::empty()
    }
}

/// `row` shows the record `v`, which stands at `index` in the full list.
pub open spec fn is_row_of(row: ListRow, v: FontView, index: int) -> bool {
    &&& row.family@ == v.family_name
    &&& row.style@ == v.style_name
    &&& row.weight@ == signed_decimal(v.weight)
    &&& row.italic@ == yes_no_text(v.italic)
    &&& row.fixed@ == yes_no_text(v.fixed_pitch)
    &&& row.file_path@ == v.file_path
    &&& row.variable_axes@ == variable_cell_text(v)
    &&& row.font_index == index
}

/// The status line: how many records were found, or how many of them
/// the filter shows.
pub open spec fn status_line(mode: EnumMode, query_empty: bool, shown: nat, total: nat) -> Seq<
    char,
> {
    if query_empty {
        mode_label_text(mode) + " Enumeration: Found "@ + decimal(total) + " fonts"@
    } else {
        mode_label_text(mode) + " Enumeration: Showing "@ + decimal(shown) + " of "@ + decimal(
            total,
        ) + " fonts"@
    }
}

/// The text of the preview: family and style, then two sample lines.
pub open spec fn preview_text(family: Seq<char>, style: Seq<char>) -> Seq<char> {
    family + " "@ + style + "\r\n\r\nAaBbCcDdEeFfGgHhIiJjKk\r\n\r\n0123456789 !@#$%"@
}

/// What a failed enumeration tells the user: each of the three sources
/// names what it needs.
pub open spec fn unavailable_notice_text(mode: EnumMode) -> Option<Seq<char>> {
    match mode {
        EnumMode::Gdi => Some(
            "Failed to enumerate fonts through GDI.\nThis feature requires a device context of the window."@,
        ),
        EnumMode::DirectWrite => Some(
            "Failed to open the DirectWrite font collection.\nThis feature requires Windows Vista or later."@,
        ),
        EnumMode::FontSet => Some(
            "Failed to create DirectWrite factory 3.\nThis feature requires Windows 10 or later."@,
        ),
        EnumMode::NoSource => None,
    }
}

/// The notice to show when the source of `mode` cannot be initialized.
/// Every source has one.
pub fn unavailable_notice(mode: EnumMode) -> (r: Option<&'static str>)
    ensures
        r is Some <==> mode != EnumMode::NoSource,
        r is Some <==> unavailable_notice_text(mode) is Some,
        r is Some ==> r->0@ == unavailable_notice_text(mode)->0,
{
    match mode {
        EnumMode::Gdi => Some(
            "Failed to enumerate fonts through GDI.\nThis feature requires a device context of the window.",
        ),
        EnumMode::DirectWrite => Some(
            "Failed to open the DirectWrite font collection.\nThis feature requires Windows Vista or later.",
        ),
        EnumMode::FontSet => Some(
            "Failed to create DirectWrite factory 3.\nThis feature requires Windows 10 or later.",
        ),
        EnumMode::NoSource => None,
    }
}

fn yes_no(b: bool) -> (r: String)
    ensures
        r@ == yes_no_text(b),
{
    if b {
        String::from_str("Yes")
    } else {
        String::from_str("No")
    }
}

/// Renders one record as a row of the table.
pub fn list_row(font: &FontInfo, index: usize) -> (row: ListRow)
    ensures
        is_row_of(row, font@, index as int),
{
    let mut weight = String::new();
    append_signed(&mut weight, font.weight());
    assert(weight@ =~= signed_decimal(font@.weight));
    let variable_axes = if font.is_variable() {
        String::from_str("Yes: ").concat(font.variable_axes().as_str())
    } else {
        String::new()
    };
    ListRow {
        family: font.family_name().clone(),
        style: font.style_name().clone(),
        weight,
        italic: yes_no(font.italic()),
        fixed: yes_no(font.fixed_pitch()),
        file_path: font.file_path().clone(),
        variable_axes,
        font_index: index,
    }
}

/// Renders the status line.
pub fn update_status_text(mode: EnumMode, query_empty: bool, shown: usize, total: usize) -> (r:
    String)
    ensures
        r@ == status_line(mode, query_empty, shown as nat, total as nat),
{
    let mut r = String::from_str(mode_label(mode));
    if query_empty {
        r.append(" Enumeration: Found ");
        append_decimal(&mut r, total as u64);
    } else {
        r.append(" Enumeration: Showing ");
        append_decimal(&mut r, shown as u64);
        r.append(" of ");
        append_decimal(&mut r, total as u64);
    }
    r.append(" fonts");
    r
}

/// Renders the text of the preview.
pub fn preview_string(family: &str, style: &str) -> (r: String)
    ensures
        r@ == preview_text(family@, style@),
{
    let mut r = String::from_str(family);
    r.append(" ");
    r.append(style);
    r.append("\r\n\r\nAaBbCcDdEeFfGgHhIiJjKk\r\n\r\n0123456789 !@#$%");
    r
}

impl Default for AppState {
    /// The session at startup.
    fn default() -> (r: Self)
        ensures
            r@.fonts.len() == 0,
            r@.filtered_indices.len() == 0,
            r@.filter_text.len() == 0,
            r@.current_mode == EnumMode::NoSource,
            r@.selected_font.len() == 0,
    {
        AppState::new()
    }
}

impl AppState {
    #[verifier::type_invariant]
    spec fn filter_applied(&self) -> bool {
        &&& as_ints(self.filtered_indices@) == visible_indices(
            views(self.fonts@),
            self.filter_text@,
        )
        &&& all_consistent(views(self.fonts@))
    }

    /// The session at startup: no records, no filter, no selection.
    pub fn new() -> (r: AppState)
        ensures
            r@.fonts.len() == 0,
            r@.filtered_indices.len() == 0,
            r@.filter_text.len() == 0,
            r@.current_mode == EnumMode::NoSource,
            r@.selected_font.len() == 0,
            r@.filter_current(),
    {
        let fonts: Vec<FontInfo> = Vec::new();
        let filter_text = String::new();
        let filtered_indices = apply_filter(&fonts, filter_text.as_str());
        AppState {
            fonts,
            filtered_indices,
            filter_text,
            current_mode: EnumMode::NoSource,
            selected_font: String::new(),
        }
    }

    /// Enumerates through the legacy table. Without a source the session
    /// stays as it is and the error names the source, which has a notice
    /// for the user; else the records
    /// are replaced by one record for each reported family and style,
    /// sorted by family name.
    pub fn enumerate_gdi_fonts(&mut self, source: Option<&Vec<GdiFace>>) -> (r: Result<
        (),
        EnumError,
    >)
        ensures
            r is Ok <==> source is Some,
            r is Err ==> r->Err_0 == EnumError::SourceUnavailable(EnumMode::Gdi) && final(self)@
                == old(self)@,
            r is Err ==> unavailable_notice_text(r->Err_0.source_mode()) is Some,
            r is Ok ==> {
                &&& final(self)@ == old(self)@.enumerated(final(self)@.fonts, EnumMode::Gdi)
                &&& is_stable_sort_of(final(self)@.fonts, gdi_collected(source->0@), false)
                &&& is_rearrangement(final(self)@.fonts, gdi_collected(source->0@))
                &&& is_sorted(final(self)@.fonts, false)
                &&& faces_distinct(final(self)@.fonts)
            },
    {
        match source {
            None => Err(EnumError::SourceUnavailable(EnumMode::Gdi)),
            Some(faces) => {
                let fonts = gdi_fonts(faces);
                self.commit(fonts, EnumMode::Gdi);
                Ok(())
            },
        }
    }

    /// Enumerates through the font collection. Without a source the
    /// session stays as it is and the error names the source, which has
    /// a notice for the user; else the records are replaced by one for
    /// each face of each family, sorted by family name and style name.
    pub fn enumerate_directwrite_fonts(&mut self, source: Option<&Vec<DwFamily>>) -> (r: Result<
        (),
        EnumError,
    >)
        ensures
            r is Ok <==> source is Some,
            r is Err ==> r->Err_0 == EnumError::SourceUnavailable(EnumMode::DirectWrite)
                && final(self)@ == old(self)@,
            r is Err ==> unavailable_notice_text(r->Err_0.source_mode()) is Some,
            r is Ok ==> {
                &&& final(self)@ == old(self)@.enumerated(final(self)@.fonts, EnumMode::DirectWrite)
                &&& is_stable_sort_of(final(self)@.fonts, dw_collected(source->0@), true)
                &&& is_rearrangement(final(self)@.fonts, dw_collected(source->0@))
                &&& is_sorted(final(self)@.fonts, true)
            },
    {
        match source {
            None => Err(EnumError::SourceUnavailable(EnumMode::DirectWrite)),
            Some(families) => {
                let fonts = directwrite_fonts(families);
                self.commit(fonts, EnumMode::DirectWrite);
                Ok(())
            },
        }
    }

    /// Enumerates through the indexed set. Without a source the session
    /// stays as it is and the error names the source, which has a notice
    /// for the user; else the records are replaced by those of the faces
    /// that have a family name, sorted by family name and style name.
    pub fn enumerate_fontset_fonts(&mut self, source: Option<&Vec<FontSetFace>>) -> (r: Result<
        (),
        EnumError,
    >)
        ensures
            r is Ok <==> source is Some,
            r is Err ==> r->Err_0 == EnumError::SourceUnavailable(EnumMode::FontSet)
                && final(self)@ == old(self)@,
            r is Err ==> unavailable_notice_text(r->Err_0.source_mode()) is Some,
            r is Ok ==> {
                &&& final(self)@ == old(self)@.enumerated(final(self)@.fonts, EnumMode::FontSet)
                &&& is_stable_sort_of(final(self)@.fonts, fontset_collected(source->0@), true)
                &&& is_rearrangement(final(self)@.fonts, fontset_collected(source->0@))
                &&& is_sorted(final(self)@.fonts, true)
                &&& families_named(final(self)@.fonts)
            },
    {
        match source {
            None => Err(EnumError::SourceUnavailable(EnumMode::FontSet)),
            Some(faces) => {
                let fonts = fontset_fonts(faces);
                self.commit(fonts, EnumMode::FontSet);
                Ok(())
            },
        }
    }

    /// Replaces the filter text and computes the visible positions anew.
    pub fn set_filter_text(&mut self, text: String)
        ensures
            final(self)@ == (SessionView {
                filter_text: text@,
                filtered_indices: visible_indices(old(self)@.fonts, text@),
                ..old(self)@
            }),
            final(self)@.filter_current(),
    {
        let filtered_indices = apply_filter(&self.fonts, text.as_str());
        let mut taken = AppState::new();
        core::mem::swap(self, &mut taken);
        proof {
            use_type_invariant(&taken);
        }
        *self = AppState {
            fonts: taken.fonts,
            filtered_indices,
            filter_text: text,
            current_mode: taken.current_mode,
            selected_font: taken.selected_font,
        };
    }

    /// Handles the selection of a row of the table. A row that the table
    /// does not have changes nothing and gives no preview. Else the
    /// record is the one at the position that the row stands for, its
    /// family becomes the selected family, and it is previewed unless
    /// its family name is empty.
    pub fn select_row(&mut self, row: usize) -> (r: Option<Preview>)
        ensures
            row >= old(self)@.filtered_indices.len() ==> r is None && final(self)@ == old(self)@,
            row < old(self)@.filtered_indices.len() ==> {
                let index = old(self)@.filtered_indices[row as int];
                let font = old(self)@.fonts[index];
                &&& 0 <= index < old(self)@.fonts.len()
                &&& final(self)@ == (SessionView {
                    selected_font: font.family_name,
                    ..old(self)@
                })
                &&& r is Some <==> font.family_name.len() > 0
                &&& r is Some ==> {
                    &&& r->0.family_name@ == font.family_name
                    &&& r->0.weight == font.weight
                    &&& r->0.italic == font.italic
                    &&& r->0.text@ == preview_text(font.family_name, font.style_name)
                }
            },
    {
        proof {
            use_type_invariant(&*self);
            lemma_visible_indices(views(self.fonts@), self.filter_text@);
        }
        if row >= self.filtered_indices.len() {
            return None;
        }
        let index = self.filtered_indices[row];
        assert(as_ints(self.filtered_indices@)[row as int] == index as int);
        if index >= self.fonts.len() {
            return None;
        }
        let font = &self.fonts[index];
        assert(views(self.fonts@)[index as int] == font@);
        let family_name = font.family_name().clone();
        let preview = if family_name.as_str().is_empty() {
            None
        } else {
            Some(
                Preview {
                    family_name: family_name.clone(),
                    weight: font.weight(),
                    italic: font.italic(),
                    text: preview_string(family_name.as_str(), font.style_name().as_str()),
                },
            )
        };
        self.selected_font = family_name;
        preview
    }

    /// The rows of the table: one for each visible position, in order,
    /// each showing the record at that position of the full list.
    pub fn populate_list_view(&self) -> (rows: Vec<ListRow>)
        ensures
            self@.filter_current(),
            rows@.len() == self@.filtered_indices.len(),
            forall|k: int|
                0 <= k < rows@.len() ==> 0 <= self@.filtered_indices[k] < self@.fonts.len()
                    && is_row_of(
                    #[trigger] rows@[k],
                    self@.fonts[self@.filtered_indices[k]],
                    self@.filtered_indices[k],
                ),
    {
        proof {
            use_type_invariant(self);
            lemma_visible_indices(views(self.fonts@), self.filter_text@);
        }
        let mut rows: Vec<ListRow> = Vec::new();
        let mut k: usize = 0;
        proof {
            assert forall|j: int| 0 <= j < self.filtered_indices@.len() implies 0 <= (
            #[trigger] self.filtered_indices@[j]) < self.fonts@.len() by {
                assert(as_ints(self.filtered_indices@)[j] == self.filtered_indices@[j] as int);
            }
        }
        while k < self.filtered_indices.len()
            invariant
                k <= self.filtered_indices.len(),
                rows@.len() == k,
                forall|j: int|
                    0 <= j < self.filtered_indices@.len() ==> 0 <= (
                    #[trigger] self.filtered_indices@[j]) < self.fonts@.len(),
                forall|j: int|
                    0 <= j < k ==> is_row_of(
                        #[trigger] rows@[j],
                        self.fonts@[self.filtered_indices@[j] as int]@,
                        self.filtered_indices@[j] as int,
                    ),
            decreases self.filtered_indices.len() - k,
        {
            let index = self.filtered_indices[k];
            rows.push(list_row(&self.fonts[index], index));
            k += 1;
        }
        rows
    }

    /// The status line of the session.
    pub fn status_text(&self) -> (r: String)
        ensures
            r@ == status_line(
                self@.current_mode,
                self@.filter_text.len() == 0,
                self@.filtered_indices.len(),
                self@.fonts.len(),
            ),
    {
        update_status_text(
            self.current_mode,
            self.filter_text.as_str().is_empty(),
            self.filtered_indices.len(),
            self.fonts.len(),
        )
    }

    /// The records of the last enumeration. In each of them the variable
    /// flag agrees with the axis description.
    pub fn fonts(&self) -> (r: &Vec<FontInfo>)
        ensures
            views(r@) == self@.fonts,
            all_consistent(self@.fonts),
    {
        proof {
            use_type_invariant(self);
        }
        &self.fonts
    }

    /// The visible positions. They are always those that the filter text
    /// selects from the records.
    pub fn filtered_indices(&self) -> (r: &Vec<usize>)
        ensures
            as_ints(r@) == self@.filtered_indices,
            self@.filter_current(),
    {
        proof {
            use_type_invariant(self);
        }
        &self.filtered_indices
    }

    /// The filter text.
    pub fn filter_text(&self) -> (r: &String)
        ensures
            r@ == self@.filter_text,
    {
        &self.filter_text
    }

    /// The source of the last enumeration.
    pub fn current_mode(&self) -> (r: EnumMode)
        ensures
            r == self@.current_mode,
    {
        self.current_mode
    }

    /// The family of the row selected last, empty if there is none.
    pub fn selected_font(&self) -> (r: &String)
        ensures
            r@ == self@.selected_font,
    {
        &self.selected_font
    }

    fn commit(&mut self, fonts: Vec<FontInfo>, mode: EnumMode)
        requires
            all_consistent(views(fonts@)),
        ensures
            final(self)@ == old(self)@.enumerated(views(fonts@), mode),
    {
        let filtered_indices = apply_filter(&fonts, self.filter_text.as_str());
        *self = AppState {
            fonts,
            filtered_indices,
            filter_text: self.filter_text.clone(),
            current_mode: mode,
            selected_font: String::new(),
        };
    }
}

} // verus!
