//! The user interface as the session sees it: which action a command of
//! a control asks for, and the columns of the table.

use vstd::prelude::*;

verus! {

/// Control identifier of the button of the legacy-table source.
pub const IDC_GDI_BUTTON: u16 = 1002;

/// Control identifier of the button of the collection-based source.
pub const IDC_DWRITE_BUTTON: u16 = 1003;

/// Control identifier of the button of the indexed-set source.
pub const IDC_FONTSET_BUTTON: u16 = 1004;

/// Control identifier of the filter input.
pub const IDC_SEARCH_EDIT: u16 = 1007;

/// Notification code with which an edit control reports changed text.
pub const EN_CHANGE: u16 = 0x0300;

/// Control identifier of the table.
pub const IDC_LISTVIEW: u16 = 1001;

/// Notification code with which the table reports a changed item.
pub const LVN_ITEMCHANGED: u32 = 4294967195;

/// State bit of a selected item of the table.
pub const LVIS_SELECTED: u32 = 0x0002;

/// A notification reports a changed item of the table when it comes
/// from the table and carries the code for a changed item.
pub open spec fn item_change_of(id_from: usize, code: u32) -> bool {
    id_from == IDC_LISTVIEW as usize && code == LVN_ITEMCHANGED
}

/// A notification counts as a selection when it reports a changed item
/// of the table and the item's new state has the selected bit.
pub open spec fn selection_of(id_from: usize, code: u32, new_state: u32) -> bool {
    item_change_of(id_from, code) && new_state & LVIS_SELECTED != 0
}

/// Whether a notification reports a changed item of the table, so that
/// it carries the item's index and new state.
pub fn is_item_change(id_from: usize, code: u32) -> (r: bool)
    ensures
        r == item_change_of(id_from, code),
{
    id_from == IDC_LISTVIEW as usize && code == LVN_ITEMCHANGED
}

/// Whether a notification reports that a row of the table was selected.
/// A row that loses its selection does not count.
pub fn is_selection(id_from: usize, code: u32, new_state: u32) -> (r: bool)
    ensures
        r == selection_of(id_from, code, new_state),
{
    is_item_change(id_from, code) && (new_state & LVIS_SELECTED) != 0
}

/// What a command asks the application to do.
#[derive(Clone, Copy, Debug, PartialEq, Eq, Structural)]
pub enum UiAction {
    EnumerateGdi,
    EnumerateDirectWrite,
    EnumerateFontSet,
    FilterChanged,
    Nothing,
}

/// The action of a command: each button triggers its adapter whatever
/// the notification; the filter input counts only when its text changed.
pub open spec fn action_of(control_id: u16, notification: u16) -> UiAction {
    if control_id == IDC_GDI_BUTTON {
        UiAction::EnumerateGdi
    } else if control_id == IDC_DWRITE_BUTTON {
        UiAction::EnumerateDirectWrite
    } else if control_id == IDC_FONTSET_BUTTON {
        UiAction::EnumerateFontSet
    } else if control_id == IDC_SEARCH_EDIT && notification == EN_CHANGE {
        UiAction::FilterChanged
    } else {
        UiAction::Nothing
    }
}

/// Decides what a command asks for. The control identifier is the low
/// word of the command's parameter, the notification code the next word.
pub fn command_action(wparam: usize) -> (r: UiAction)
    ensures
        r == action_of((wparam & 0xFFFF) as u16, ((wparam >> 16) & 0xFFFF) as u16),
{
    assert(wparam & 0xFFFF <= 0xFFFF) by (bit_vector);
    assert((wparam >> 16) & 0xFFFF <= 0xFFFF) by (bit_vector);
    let control_id: u16 = (wparam & 0xFFFF) as u16;
    let notification: u16 = ((wparam >> 16) & 0xFFFF) as u16;
    if control_id == IDC_GDI_BUTTON {
        UiAction::EnumerateGdi
    } else if control_id == IDC_DWRITE_BUTTON {
        UiAction::EnumerateDirectWrite
    } else if control_id == IDC_FONTSET_BUTTON {
        UiAction::EnumerateFontSet
    } else if control_id == IDC_SEARCH_EDIT && notification == EN_CHANGE {
        UiAction::FilterChanged
    } else {
        UiAction::Nothing
    }
}

/// Title and width of one column of the table.
#[derive(Clone, Copy, Debug)]
pub struct ListColumn {
    pub title: &'static str,
    pub width: i32,
}

/// Title of a column of the table, for the seven columns that it has.
pub open spec fn column_title_text(index: int) -> Option<Seq<char>> {
    if index == 0 {
        Some("Font Family"@)
    } else if index == 1 {
        Some("Style"@)
    } else if index == 2 {
        Some("Weight"@)
    } else if index == 3 {
        Some("Italic"@)
    } else if index == 4 {
        Some("Fixed"@)
    } else if index == 5 {
        Some("File Path"@)
    } else if index == 6 {
        Some("Variable Axes"@)
    } else {
        None
    }
}

/// Width of a column of the table, for the seven columns that it has.
pub open spec fn column_width_of(index: int) -> Option<i32> {
    if index == 0 || index == 5 || index == 6 {
        Some(180i32)
    } else if index == 1 {
        Some(100i32)
    } else if index == 2 {
        Some(60i32)
    } else if index == 3 || index == 4 {
        Some(50i32)
    } else {
        None
    }
}

/// Title and width of the column `index`, or nothing where the table
/// has no such column.
pub fn list_column(index: usize) -> (r: Option<ListColumn>)
    ensures
        r is Some <==> index < 7,
        r is Some ==> Some(r->Some_0.title@) == column_title_text(index as int) && Some(
            r->Some_0.width,
        ) == column_width_of(index as int),
{
    match index {
        0 => Some(ListColumn { title: "Font Family", width: 180 }),
        1 => Some(ListColumn { title: "Style", width: 100 }),
        2 => Some(ListColumn { title: "Weight", width: 60 }),
        3 => Some(ListColumn { title: "Italic", width: 50 }),
        4 => Some(ListColumn { title: "Fixed", width: 50 }),
        5 => Some(ListColumn { title: "File Path", width: 180 }),
        6 => Some(ListColumn { title: "Variable Axes", width: 180 }),
        _ => None,
    }
}

} // verus!
