use font_enumerator::directwrite::{DwFace, DwFamily};
use font_enumerator::events::{
    command_action, is_item_change, is_selection, list_column, UiAction, EN_CHANGE,
    IDC_DWRITE_BUTTON, IDC_FONTSET_BUTTON, IDC_GDI_BUTTON, IDC_LISTVIEW, IDC_SEARCH_EDIT,
    LVIS_SELECTED, LVN_ITEMCHANGED,
};
use font_enumerator::fontset::FontSetFace;
use font_enumerator::gdi::GdiFace;
use font_enumerator::record::{mode_label, EnumMode, FontInfo};
use font_enumerator::session::{
    list_row, preview_string, unavailable_notice, update_status_text, AppState, EnumError,
};

fn set_face(family: &str, face: &str, weight: &str, style: &str) -> FontSetFace {
    FontSetFace {
        family_name: Some(family.to_string()),
        face_name: Some(face.to_string()),
        weight_text: Some(weight.to_string()),
        style_text: Some(style.to_string()),
        local_file_path: None,
        axes: Vec::new(),
    }
}

fn gdi_face(name: &str, style: &str) -> GdiFace {
    GdiFace {
        face_name: name.to_string(),
        style: style.to_string(),
        weight: 400,
        italic: 0,
        pitch_and_family: 0,
    }
}

fn fifty_faces() -> Vec<FontSetFace> {
    let mut faces = Vec::new();
    for i in 0..47 {
        faces.push(set_face(&format!("Family {:02}", i), "Regular", "400", "0"));
    }
    faces.push(set_face("Arial", "Bold", "700", "0"));
    faces.push(set_face("Segoe UI", "Semibold", "600", "0"));
    faces.push(set_face("Verdana", "Bold Italic", "700", "1"));
    faces
}

fn small_session() -> AppState {
    let mut state = AppState::new();
    let faces = vec![
        set_face("Segoe UI", "Regular", "400", "0"),
        set_face("Arial", "Regular", "400", "0"),
        set_face("Arial", "Bold Italic", "700", "1"),
        set_face("Consolas", "Regular", "400", "0"),
    ];
    assert_eq!(state.enumerate_fontset_fonts(Some(&faces)), Ok(()));
    state
}

#[test]
fn session_starts_empty() {
    let state = AppState::new();
    assert_eq!(state.fonts().len(), 0);
    assert_eq!(state.filtered_indices().len(), 0);
    assert_eq!(state.filter_text(), "");
    assert_eq!(state.current_mode(), EnumMode::NoSource);
    assert_eq!(state.selected_font(), "");
    assert_eq!(state.status_text(), "No Enumeration: Found 0 fonts");
}

#[test]
fn source_labels() {
    assert_eq!(mode_label(EnumMode::Gdi), "GDI");
    assert_eq!(mode_label(EnumMode::DirectWrite), "DirectWrite");
    assert_eq!(mode_label(EnumMode::FontSet), "FontSet");
    assert_eq!(mode_label(EnumMode::NoSource), "No");
}

#[test]
fn status_of_fifty_fonts_without_query() {
    assert_eq!(
        update_status_text(EnumMode::FontSet, true, 50, 50),
        "FontSet Enumeration: Found 50 fonts"
    );
    let mut state = AppState::new();
    assert_eq!(state.enumerate_fontset_fonts(Some(&fifty_faces())), Ok(()));
    assert_eq!(state.fonts().len(), 50);
    assert_eq!(state.status_text(), "FontSet Enumeration: Found 50 fonts");
}

#[test]
fn status_of_three_matches_among_fifty() {
    assert_eq!(
        update_status_text(EnumMode::FontSet, false, 3, 50),
        "FontSet Enumeration: Showing 3 of 50 fonts"
    );
    let mut state = AppState::new();
    assert_eq!(state.enumerate_fontset_fonts(Some(&fifty_faces())), Ok(()));
    state.set_filter_text("bold".to_string());
    assert_eq!(state.filtered_indices().len(), 3);
    assert_eq!(state.status_text(), "FontSet Enumeration: Showing 3 of 50 fonts");
}

#[test]
fn status_names_each_source() {
    assert_eq!(update_status_text(EnumMode::Gdi, true, 0, 7), "GDI Enumeration: Found 7 fonts");
    assert_eq!(
        update_status_text(EnumMode::DirectWrite, false, 0, 120),
        "DirectWrite Enumeration: Showing 0 of 120 fonts"
    );
    assert_eq!(
        update_status_text(EnumMode::NoSource, false, 0, 0),
        "No Enumeration: Showing 0 of 0 fonts"
    );
}

#[test]
fn enumeration_replaces_records_and_clears_selection() {
    let mut state = small_session();
    assert!(state.select_row(0).is_some());
    assert_eq!(state.selected_font(), "Arial");
    let faces = vec![gdi_face("Tahoma", "Regular"), gdi_face("Tahoma", "Regular")];
    assert_eq!(state.enumerate_gdi_fonts(Some(&faces)), Ok(()));
    assert_eq!(state.current_mode(), EnumMode::Gdi);
    assert_eq!(state.fonts().len(), 1);
    assert_eq!(state.fonts()[0].family_name(), "Tahoma");
    assert_eq!(state.selected_font(), "");
    assert_eq!(state.filtered_indices(), &vec![0]);
    assert_eq!(state.status_text(), "GDI Enumeration: Found 1 fonts");
}

#[test]
fn enumeration_applies_the_filter_that_is_set() {
    let mut state = AppState::new();
    state.set_filter_text("ARIAL".to_string());
    assert_eq!(state.filtered_indices().len(), 0);
    let families = vec![
        DwFamily {
            family_name: Some("Verdana".to_string()),
            faces: vec![DwFace {
                face_name: Some("Regular".to_string()),
                weight: 400,
                style_code: 0,
                monospaced: None,
            }],
        },
        DwFamily {
            family_name: Some("Arial".to_string()),
            faces: vec![DwFace {
                face_name: Some("Regular".to_string()),
                weight: 400,
                style_code: 0,
                monospaced: None,
            }],
        },
    ];
    assert_eq!(state.enumerate_directwrite_fonts(Some(&families)), Ok(()));
    assert_eq!(state.current_mode(), EnumMode::DirectWrite);
    assert_eq!(state.filter_text(), "ARIAL");
    assert_eq!(state.filtered_indices(), &vec![0]);
    assert_eq!(state.status_text(), "DirectWrite Enumeration: Showing 1 of 2 fonts");
}

#[test]
fn unavailable_source_leaves_the_session_as_it_is() {
    let mut state = small_session();
    state.set_filter_text("arial".to_string());
    assert!(state.select_row(1).is_some());
    assert_eq!(
        state.enumerate_fontset_fonts(None),
        Err(EnumError::SourceUnavailable(EnumMode::FontSet))
    );
    assert_eq!(
        state.enumerate_directwrite_fonts(None),
        Err(EnumError::SourceUnavailable(EnumMode::DirectWrite))
    );
    assert_eq!(state.enumerate_gdi_fonts(None), Err(EnumError::SourceUnavailable(EnumMode::Gdi)));
    assert_eq!(state.current_mode(), EnumMode::FontSet);
    assert_eq!(state.fonts().len(), 4);
    assert_eq!(state.filtered_indices(), &vec![0, 1]);
    assert_eq!(state.filter_text(), "arial");
    assert_eq!(state.selected_font(), "Arial");
}

#[test]
fn every_source_names_its_requirement() {
    assert_eq!(
        unavailable_notice(EnumMode::FontSet),
        Some("Failed to create DirectWrite factory 3.\nThis feature requires Windows 10 or later.")
    );
    assert_eq!(
        unavailable_notice(EnumMode::DirectWrite),
        Some(
            "Failed to open the DirectWrite font collection.\nThis feature requires Windows Vista or later."
        )
    );
    assert_eq!(
        unavailable_notice(EnumMode::Gdi),
        Some(
            "Failed to enumerate fonts through GDI.\nThis feature requires a device context of the window."
        )
    );
    assert_eq!(unavailable_notice(EnumMode::NoSource), None);
}

#[test]
fn failed_enumeration_carries_the_notice_of_its_source() {
    let mut state = AppState::new();
    let failed = state.enumerate_directwrite_fonts(None).unwrap_err();
    assert_eq!(failed.notice(), unavailable_notice(EnumMode::DirectWrite));
    assert!(failed.notice().is_some());
    let failed = state.enumerate_gdi_fonts(None).unwrap_err();
    assert_eq!(failed.notice(), unavailable_notice(EnumMode::Gdi));
    let failed = state.enumerate_fontset_fonts(None).unwrap_err();
    assert_eq!(failed.notice(), unavailable_notice(EnumMode::FontSet));
    assert_eq!(state.current_mode(), EnumMode::NoSource);
    assert_eq!(state.fonts().len(), 0);
}

#[test]
fn unavailable_legacy_source_leaves_the_session_as_it_is() {
    let mut state = small_session();
    state.set_filter_text("regular".to_string());
    assert!(state.select_row(0).is_some());
    assert_eq!(state.enumerate_gdi_fonts(None), Err(EnumError::SourceUnavailable(EnumMode::Gdi)));
    assert_eq!(state.current_mode(), EnumMode::FontSet);
    assert_eq!(state.fonts().len(), 4);
    assert_eq!(state.fonts()[0].style_name(), "Bold Italic");
    assert_eq!(state.filtered_indices(), &vec![1, 2, 3]);
    assert_eq!(state.selected_font(), "Arial");
    assert_eq!(state.status_text(), "FontSet Enumeration: Showing 3 of 4 fonts");
}

#[test]
fn selection_is_a_changed_item_of_the_table_with_the_selected_bit() {
    assert!(is_item_change(1001, 4294967195));
    assert!(!is_item_change(1002, 4294967195));
    assert!(!is_item_change(1001, 4294967194));
    assert!(!is_item_change(1001, 0));
    assert_eq!(IDC_LISTVIEW, 1001);
    assert_eq!(LVN_ITEMCHANGED, 0u32.wrapping_sub(101));
    assert_eq!(LVIS_SELECTED, 2);
    assert!(is_selection(1001, LVN_ITEMCHANGED, 2));
    assert!(is_selection(1001, LVN_ITEMCHANGED, 3));
    assert!(is_selection(1001, LVN_ITEMCHANGED, 0xFFFF_FFFF));
    assert!(!is_selection(1001, LVN_ITEMCHANGED, 0));
    assert!(!is_selection(1001, LVN_ITEMCHANGED, 1));
    assert!(!is_selection(1001, LVN_ITEMCHANGED, 4));
    assert!(!is_selection(1007, LVN_ITEMCHANGED, 2));
    assert!(!is_selection(1001, 0x0300, 2));
}

#[test]
fn selected_row_resolves_through_the_visible_indices() {
    let mut state = small_session();
    state.set_filter_text("regular".to_string());
    assert_eq!(state.filtered_indices(), &vec![1, 2, 3]);
    let preview = state.select_row(0).unwrap();
    assert_eq!(preview.family_name, "Arial");
    assert_eq!(preview.weight, 400);
    assert!(!preview.italic);
    let preview = state.select_row(2).unwrap();
    assert_eq!(preview.family_name, "Segoe UI");
    assert_eq!(state.selected_font(), "Segoe UI");
    assert_eq!(state.fonts()[2].family_name(), "Consolas");
}

#[test]
fn preview_carries_weight_italic_and_sample_text() {
    let mut state = small_session();
    let preview = state.select_row(0).unwrap();
    assert_eq!(preview.family_name, "Arial");
    assert_eq!(preview.weight, 700);
    assert!(preview.italic);
    assert_eq!(
        preview.text,
        "Arial Bold Italic\r\n\r\nAaBbCcDdEeFfGgHhIiJjKk\r\n\r\n0123456789 !@#$%"
    );
    assert_eq!(
        preview_string("Consolas", ""),
        "Consolas \r\n\r\nAaBbCcDdEeFfGgHhIiJjKk\r\n\r\n0123456789 !@#$%"
    );
}

#[test]
fn stale_selection_changes_nothing() {
    let mut state = small_session();
    assert!(state.select_row(1).is_some());
    assert_eq!(state.selected_font(), "Arial");
    state.set_filter_text("consolas".to_string());
    assert!(state.select_row(1).is_none());
    assert!(state.select_row(4).is_none());
    assert!(state.select_row(usize::MAX).is_none());
    assert_eq!(state.selected_font(), "Arial");
    let mut empty = AppState::new();
    assert!(empty.select_row(0).is_none());
    assert_eq!(empty.selected_font(), "");
}

#[test]
fn changing_the_filter_keeps_records_mode_and_selection() {
    let mut state = small_session();
    assert!(state.select_row(3).is_some());
    state.set_filter_text("zzz".to_string());
    assert_eq!(state.filtered_indices().len(), 0);
    assert_eq!(state.fonts().len(), 4);
    assert_eq!(state.current_mode(), EnumMode::FontSet);
    assert_eq!(state.selected_font(), "Segoe UI");
    state.set_filter_text(String::new());
    assert_eq!(state.filtered_indices(), &vec![0, 1, 2, 3]);
}

#[test]
fn row_shows_the_seven_cells() {
    let font = FontInfo::new(
        "Bahnschrift".to_string(),
        "SemiBold Condensed".to_string(),
        "C:\\Windows\\Fonts\\bahnschrift.ttf".to_string(),
        "wght 300-700, wdth 75-100".to_string(),
        600,
        false,
        true,
    );
    let row = list_row(&font, 12);
    assert_eq!(row.family, "Bahnschrift");
    assert_eq!(row.style, "SemiBold Condensed");
    assert_eq!(row.weight, "600");
    assert_eq!(row.italic, "No");
    assert_eq!(row.fixed, "Yes");
    assert_eq!(row.file_path, "C:\\Windows\\Fonts\\bahnschrift.ttf");
    assert_eq!(row.variable_axes, "Yes: wght 300-700, wdth 75-100");
    assert_eq!(row.font_index, 12);
}

#[test]
fn row_of_a_static_italic_face() {
    let font = FontInfo::new(
        "Arial".to_string(),
        "Italic".to_string(),
        String::new(),
        String::new(),
        -5,
        true,
        false,
    );
    let row = list_row(&font, 0);
    assert_eq!(row.weight, "-5");
    assert_eq!(row.italic, "Yes");
    assert_eq!(row.fixed, "No");
    assert_eq!(row.file_path, "");
    assert_eq!(row.variable_axes, "");
}

#[test]
fn table_has_one_row_for_each_visible_index() {
    let mut state = small_session();
    state.set_filter_text("regular".to_string());
    let rows = state.populate_list_view();
    assert_eq!(rows.len(), 3);
    assert_eq!(rows[0].family, "Arial");
    assert_eq!(rows[0].style, "Regular");
    assert_eq!(rows[0].font_index, 1);
    assert_eq!(rows[1].family, "Consolas");
    assert_eq!(rows[1].font_index, 2);
    assert_eq!(rows[2].family, "Segoe UI");
    assert_eq!(rows[2].font_index, 3);
    for (k, row) in rows.iter().enumerate() {
        assert_eq!(row.font_index, state.filtered_indices()[k]);
        assert_eq!(&row.family, state.fonts()[row.font_index].family_name());
    }
}

#[test]
fn commands_of_the_controls() {
    assert_eq!(command_action(IDC_GDI_BUTTON as usize), UiAction::EnumerateGdi);
    assert_eq!(command_action(IDC_DWRITE_BUTTON as usize), UiAction::EnumerateDirectWrite);
    assert_eq!(command_action(IDC_FONTSET_BUTTON as usize), UiAction::EnumerateFontSet);
    assert_eq!(command_action(0x0005_0000 | IDC_GDI_BUTTON as usize), UiAction::EnumerateGdi);
    assert_eq!(
        command_action(((EN_CHANGE as usize) << 16) | IDC_SEARCH_EDIT as usize),
        UiAction::FilterChanged
    );
    assert_eq!(command_action(IDC_SEARCH_EDIT as usize), UiAction::Nothing);
    assert_eq!(command_action((0x0100 << 16) | IDC_SEARCH_EDIT as usize), UiAction::Nothing);
    assert_eq!(command_action(1001), UiAction::Nothing);
    assert_eq!(command_action(0), UiAction::Nothing);
}

#[test]
fn columns_of_the_table() {
    let titles: Vec<&str> = (0..7).map(|i| list_column(i).unwrap().title).collect();
    assert_eq!(
        titles,
        vec!["Font Family", "Style", "Weight", "Italic", "Fixed", "File Path", "Variable Axes"]
    );
    let widths: Vec<i32> = (0..7).map(|i| list_column(i).unwrap().width).collect();
    assert_eq!(widths, vec![180, 100, 60, 50, 50, 180, 180]);
    assert!(list_column(7).is_none());
    assert!(list_column(usize::MAX).is_none());
}

#[test]
fn defaults_are_the_empty_values() {
    let state = AppState::default();
    assert_eq!(state.fonts().len(), 0);
    assert_eq!(state.current_mode(), EnumMode::NoSource);
    assert_eq!(state.filter_text(), "");
    assert_eq!(EnumMode::default(), EnumMode::NoSource);
    let font = FontInfo::default();
    assert_eq!(font.family_name(), "");
    assert_eq!(font.style_name(), "");
    assert_eq!(font.file_path(), "");
    assert_eq!(font.variable_axes(), "");
    assert_eq!(font.weight(), 400);
    assert!(!font.italic());
    assert!(!font.fixed_pitch());
    assert!(!font.is_variable());
}
