//! The font record: one physical font face, whichever source reported it.

use vstd::prelude::*;
use vstd::string::*;

verus! {

/// Mathematical value of a font record.
pub struct FontView {
    pub family_name: Seq<char>,
    pub style_name: Seq<char>,
    pub file_path: Seq<char>,
    pub variable_axes: Seq<char>,
    pub weight: int,
    pub italic: bool,
    pub fixed_pitch: bool,
    pub is_variable: bool,
}

impl FontView {
    /// A face counts as variable exactly when it describes at least one axis.
    pub open spec fn consistent(self) -> bool {
        self.is_variable <==> self.variable_axes.len() > 0
    }

    /// The value of a record made from these parts: the variable flag
    /// follows from the axis description.
    pub open spec fn of_parts(
        family_name: Seq<char>,
        style_name: Seq<char>,
        file_path: Seq<char>,
        variable_axes: Seq<char>,
        weight: int,
        italic: bool,
        fixed_pitch: bool,
    ) -> FontView {
        FontView {
            family_name,
            style_name,
            file_path,
            variable_axes,
            weight,
            italic,
            fixed_pitch,
            is_variable: variable_axes.len() > 0,
        }
    }
}

/// One font face. The fields are private so that the variable flag can
/// never disagree with the axis description.
#[derive(Debug)]
pub struct FontInfo {
    family_name: String,
    style_name: String,
    file_path: String,
    variable_axes: String,
    weight: i32,
    italic: bool,
    fixed_pitch: bool,
    is_variable: bool,
}

impl View for FontInfo {
    type V = FontView;

    closed spec fn view(&self) -> FontView {
        FontView {
            family_name: self.family_name@,
            style_name: self.style_name@,
            file_path: self.file_path@,
            variable_axes: self.variable_axes@,
            weight: self.weight as int,
            italic: self.italic,
            fixed_pitch: self.fixed_pitch,
            is_variable: self.is_variable,
        }
    }
}

impl Clone for FontInfo {
    fn clone(&self) -> (r: Self)
        ensures
            r@ == self@,
    {
        proof {
            use_type_invariant(self);
        }
        FontInfo {
            family_name: self.family_name.clone(),
            style_name: self.style_name.clone(),
            file_path: self.file_path.clone(),
            variable_axes: self.variable_axes.clone(),
            weight: self.weight,
            italic: self.italic,
            fixed_pitch: self.fixed_pitch,
            is_variable: self.is_variable,
        }
    }
}

impl Default for FontInfo {
    /// The record of a face of which nothing is known: no names, no
    /// path, no axes, the normal weight of 400, upright, not fixed-pitch.
    fn default() -> (r: Self)
        ensures
            r@ == FontView::of_parts(
                Seq::<char>::empty(),
                Seq::<char>::empty(),
                Seq::<char>::empty(),
                Seq::<char>::empty(),
                400,
                false,
                false,
            ),
            r@.consistent(),
    {
        FontInfo::new(String::new(), String::new(), String::new(), String::new(), 400, false, false)
    }
}

impl FontInfo {
    #[verifier::type_invariant]
    spec fn flag_matches_axes(&self) -> bool {
        self.is_variable <==> self.variable_axes@.len() > 0
    }

    /// Builds a record. The variable flag is set exactly when
    /// `variable_axes` is not empty.
    pub fn new(
        family_name: String,
        style_name: String,
        file_path: String,
        variable_axes: String,
        weight: i32,
        italic: bool,
        fixed_pitch: bool,
    ) -> (r: FontInfo)
        ensures
            r@ == FontView::of_parts(
                family_name@,
                style_name@,
                file_path@,
                variable_axes@,
                weight as int,
                italic,
                fixed_pitch,
            ),
            r@.consistent(),
    {
        let is_variable = !variable_axes.as_str().is_empty();
        FontInfo {
            family_name,
            style_name,
            file_path,
            variable_axes,
            weight,
            italic,
            fixed_pitch,
            is_variable,
        }
    }

    /// Display name grouping related styles.
    pub fn family_name(&self) -> (r: &String)
        ensures
            r@ == self@.family_name,
    {
        &self.family_name
    }

    /// Face variant within the family.
    pub fn style_name(&self) -> (r: &String)
        ensures
            r@ == self@.style_name,
    {
        &self.style_name
    }

    /// Path of the backing file, empty where the source gives none.
    pub fn file_path(&self) -> (r: &String)
        ensures
            r@ == self@.file_path,
    {
        &self.file_path
    }

    /// Description of the variable axes, empty for a static face.
    pub fn variable_axes(&self) -> (r: &String)
        ensures
            r@ == self@.variable_axes,
    {
        &self.variable_axes
    }

    /// Numeric weight class.
    pub fn weight(&self) -> (r: i32)
        ensures
            r == self@.weight,
    {
        self.weight
    }

    /// Italic or oblique flag.
    pub fn italic(&self) -> (r: bool)
        ensures
            r == self@.italic,
    {
        self.italic
    }

    /// Monospace flag.
    pub fn fixed_pitch(&self) -> (r: bool)
        ensures
            r == self@.fixed_pitch,
    {
        self.fixed_pitch
    }

    /// Whether the face is variable. Every record is consistent: the flag
    /// is set exactly when the axis description is not empty.
    pub fn is_variable(&self) -> (r: bool)
        ensures
            r == self@.is_variable,
            self@.consistent(),
    {
        proof {
            use_type_invariant(self);
        }
        self.is_variable
    }
}

/// Which source produced the current list of records.
#[derive(Clone, Copy, Debug, PartialEq, Eq, Structural)]
pub enum EnumMode {
    /// No enumeration has been performed yet.
    NoSource,
    /// The legacy table scan.
    Gdi,
    /// The collection-based scan.
    DirectWrite,
    /// The indexed-set scan.
    FontSet,
}

impl Default for EnumMode {
    /// Before the first enumeration there is no source.
    fn default() -> (r: Self)
        ensures
            r == EnumMode::NoSource,
    {
        EnumMode::NoSource
    }
}

/// Label of a source as the status line shows it.
pub open spec fn mode_label_text(mode: EnumMode) -> Seq<char> {
    match mode {
        EnumMode::Gdi => "GDI"@,
        EnumMode::DirectWrite => "DirectWrite"@,
        EnumMode::FontSet => "FontSet"@,
        EnumMode::NoSource => "No"@,
    }
}

/// Label of a source as the status line shows it.
pub fn mode_label(mode: EnumMode) -> (r: &'static str)
    ensures
        r@ == mode_label_text(mode),
{
    match mode {
        EnumMode::Gdi => "GDI",
        EnumMode::DirectWrite => "DirectWrite",
        EnumMode::FontSet => "FontSet",
        EnumMode::NoSource => "No",
    }
}

} // verus!
