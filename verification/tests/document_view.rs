use papers::document_actions::{ActionParameter, ActionState, DocumentAction};
use papers::document_view::{
    caret_navigation_message, dual_odd_left_enabled, edit_toolbar, email_address, escape_step,
    format_by_extension, go_back_history, go_backwards, go_first_page, go_forward, go_last_page,
    image_format, initial_search, markup_change, markup_style, pen_color_value, print_all,
    rotate_left, rotate_right, set_default_actions, sizing_mode, text_markup, toggle_find,
    AnnotationTool, Capabilities, EditingState, EscapeStep, FindChange, ImageFormat, MarkupChange,
    PpsDocumentView, SizingMode, TextMarkup,
};

fn everything() -> Capabilities {
    Capabilities {
        has_info: true,
        selectable: true,
        searchable: true,
        can_add_annotation: true,
        can_sign: true,
        dual_page: true,
        can_zoom_in: true,
        can_zoom_out: true,
        history_frozen: false,
        can_go_back: true,
        can_go_forward: true,
        caret_navigation: true,
    }
}

#[test]
fn actions_have_names_and_states() {
    let view = PpsDocumentView {
        tool: AnnotationTool::Pencil,
        editing: EditingState::Nothing,
    };
    let entries = view.setup_actions();
    assert_eq!(entries.len(), 66);
    let mut names: Vec<&str> = entries.iter().map(|e| e.name.as_str()).collect();
    assert_eq!(names[0], "open-copy");
    assert_eq!(names[65], "go-backwards");
    names.sort();
    names.dedup();
    assert_eq!(names.len(), 66);
    let entry = |action| entries.iter().find(|e| e.action == action).unwrap();
    assert_eq!(entry(DocumentAction::Zoom).parameter, Some(ActionParameter::Number));
    assert!(entry(DocumentAction::Zoom).state.is_none());
    assert!(matches!(
        &entry(DocumentAction::SizingMode).state,
        Some(ActionState::Text(s)) if s == "free"
    ));
    assert!(matches!(
        entry(DocumentAction::ShowSidebar).state,
        Some(ActionState::Switch(true))
    ));
    assert!(matches!(
        entry(DocumentAction::EraserRadius).state,
        Some(ActionState::Number(5))
    ));
    assert!(matches!(
        entry(DocumentAction::AnnotColor).state,
        Some(ActionState::AnnotationColor)
    ));
    assert!(entry(DocumentAction::Print).parameter.is_none());
}

#[test]
fn actions_follow_the_document() {
    let (actions, palette) = set_default_actions(everything());
    assert!(palette);
    assert_eq!(actions.len(), 7);
    assert!(actions.iter().all(|(_, enabled)| *enabled));
    let (actions, palette) = set_default_actions(Capabilities {
        has_info: false,
        selectable: false,
        searchable: false,
        can_add_annotation: false,
        history_frozen: true,
        ..everything()
    });
    assert!(!palette);
    assert_eq!(
        actions[..6],
        [
            (DocumentAction::ShowProperties, false),
            (DocumentAction::SelectAll, false),
            (DocumentAction::Find, false),
            (DocumentAction::ToggleFind, false),
            (DocumentAction::AddTextAnnotation, false),
            (DocumentAction::AnnotTextmarkupType, false),
        ]
    );
    assert!(actions.contains(&(DocumentAction::GoBackHistory, false)));
    assert!(actions.contains(&(DocumentAction::GoForwardHistory, false)));
    assert!(actions.contains(&(DocumentAction::ZoomIn, true)));
}

#[test]
fn pages_are_gone_to() {
    let first = go_first_page(7);
    assert_eq!((first.page, first.history), (0, vec![7, 0]));
    assert!(go_first_page(-1).history.is_empty());
    let last = go_last_page(7, 20);
    assert_eq!((last.page, last.history), (20, vec![7, 20]));
    assert!(go_last_page(-1, 20).history.is_empty());
    assert_eq!(go_forward(3, 20), 13);
    assert_eq!(go_forward(10, 20), 19);
    assert_eq!(go_backwards(13), 3);
    assert_eq!(go_backwards(10), 0);
    assert_eq!(go_backwards(9), 0);
    assert_eq!(go_back_history(4), Some(4));
    assert_eq!(go_back_history(-1), None);
    assert_eq!(print_all(12), (1, 12));
}

#[test]
fn rotation_and_layout() {
    assert_eq!(rotate_left(0), -90);
    assert_eq!(rotate_right(270), 360);
    assert_eq!(rotate_left(rotate_right(90)), 90);
    assert_eq!(sizing_mode("fit-width"), Some(SizingMode::FitWidth));
    assert_eq!(sizing_mode("fit-page"), Some(SizingMode::FitPage));
    assert_eq!(sizing_mode("free"), Some(SizingMode::Free));
    assert_eq!(sizing_mode("automatic"), Some(SizingMode::Automatic));
    assert_eq!(sizing_mode("other"), None);
    assert!(dual_odd_left_enabled(true, Some(1)));
    assert!(!dual_odd_left_enabled(true, Some(0)));
    assert!(!dual_odd_left_enabled(true, None));
    assert!(!dual_odd_left_enabled(false, Some(1)));
}

#[test]
fn search_and_links() {
    assert_eq!(
        toggle_find(true, false),
        FindChange { show: true, activate: true, release: false }
    );
    assert_eq!(
        toggle_find(true, true),
        FindChange { show: true, activate: false, release: false }
    );
    assert_eq!(
        toggle_find(false, true),
        FindChange { show: false, activate: false, release: true }
    );
    assert_eq!(initial_search(Some("x".to_string())), Some("x".to_string()));
    assert_eq!(initial_search(Some(String::new())), None);
    assert_eq!(initial_search(None), None);
    assert_eq!(email_address("mailto:a@b.c"), Some("a@b.c".to_string()));
    assert_eq!(email_address("http://a"), None);
}

#[test]
fn escape_takes_the_first_step_that_applies() {
    assert_eq!(escape_step(true, true, true, true, true, true), EscapeStep::CloseFind);
    assert_eq!(escape_step(true, false, true, true, true, true), EscapeStep::LeaveFullscreen);
    assert_eq!(escape_step(false, true, false, true, true, true), EscapeStep::HideSidebar);
    assert_eq!(escape_step(false, true, false, true, false, true), EscapeStep::LeaveEditing);
    assert_eq!(escape_step(false, false, false, false, true, false), EscapeStep::Nothing);
}

#[test]
fn messages_and_styles() {
    assert_eq!(
        caret_navigation_message(false),
        "Caret navigation mode is now enabled, press F7 to disable."
    );
    assert_eq!(
        caret_navigation_message(true),
        "Caret navigation mode is now disabled, press F7 to enable."
    );
    assert_eq!(
        markup_style("rgb(1,2,3)"),
        "#annot-type-container {--annot-textmarkup-color: rgb(1,2,3); }"
    );
    let shown = edit_toolbar(true);
    assert!(shown.revealed && !shown.round_button);
    assert_eq!(shown.icon_name, "window-close-symbolic");
    assert_eq!(shown.tooltip, "Close Menu");
    let hidden = edit_toolbar(false);
    assert!(!hidden.revealed && hidden.round_button);
    assert_eq!(hidden.icon_name, "document-edit-symbolic");
    assert_eq!(hidden.tooltip, "Edit Document");
}

#[test]
fn markups_are_changed() {
    assert_eq!(text_markup("highlight"), Some(Some(TextMarkup::Highlight)));
    assert_eq!(text_markup("squiggly"), Some(Some(TextMarkup::Squiggly)));
    assert_eq!(text_markup("strikethrough"), Some(Some(TextMarkup::StrikeOut)));
    assert_eq!(text_markup("underline"), Some(Some(TextMarkup::Underline)));
    assert_eq!(text_markup("none"), Some(None));
    assert_eq!(text_markup("bold"), None);
    let under = Some(TextMarkup::Underline);
    let high = Some(TextMarkup::Highlight);
    assert_eq!(markup_change(None, true, high), MarkupChange::Nothing);
    assert_eq!(
        markup_change(under, true, under),
        MarkupChange::MarkSelection(TextMarkup::Underline)
    );
    assert_eq!(
        markup_change(under, false, high),
        MarkupChange::ChangeAnnotation(TextMarkup::Underline)
    );
    assert_eq!(markup_change(under, false, under), MarkupChange::Nothing);
    assert_eq!(markup_change(under, false, None), MarkupChange::Nothing);
}

#[test]
fn the_edit_mode_is_switched() {
    let mut view = PpsDocumentView {
        tool: AnnotationTool::Pencil,
        editing: EditingState::Nothing,
    };
    view.cmd_toggle_edit_mode();
    assert_eq!(view.editing, EditingState::Ink);
    view.cmd_toggle_edit_mode();
    assert_eq!(view.editing, EditingState::Nothing);
    view.tool = AnnotationTool::Text;
    view.editing = EditingState::Stamp;
    view.cmd_toggle_edit_mode();
    assert_eq!(view.editing, EditingState::Text);
    view.editing = EditingState::Other;
    view.cmd_toggle_edit_mode();
    assert_eq!(view.editing, EditingState::Nothing);
    view.tool = AnnotationTool::Eraser;
    assert_eq!(view.cmd_radius_state(), AnnotationTool::Eraser);
}

#[test]
fn colors_are_set_on_tools() {
    let view = PpsDocumentView {
        tool: AnnotationTool::Pencil,
        editing: EditingState::Nothing,
    };
    for (name, value) in [
        ("yellow", "#f5c211"),
        ("black", "#000000"),
        ("orange", "#ff7800"),
        ("red", "#ed333b"),
        ("purple", "#c061cb"),
        ("blue", "#3584e4"),
        ("green", "#33d17a"),
    ] {
        assert_eq!(pen_color_value(name), Some(value.to_string()));
        let pen = view.cmd_pen_color_state(AnnotationTool::Pencil, name);
        assert_eq!(pen.color, value);
        assert_eq!((pen.opacity, pen.tool), (100, Some(AnnotationTool::Pencil)));
    }
    assert_eq!(pen_color_value("pink"), None);
    let marker = view.cmd_pen_color_state(AnnotationTool::Highlight, "yellow");
    assert_eq!((marker.opacity, marker.tool), (70, Some(AnnotationTool::Highlight)));
    assert_eq!(view.cmd_pen_color_state(AnnotationTool::Eraser, "red").tool, None);
}

fn format(name: &str, disabled: bool, writable: bool, extensions: &[&str]) -> ImageFormat {
    ImageFormat {
        name: name.to_string(),
        disabled,
        writable,
        extensions: extensions.iter().map(|s| s.to_string()).collect(),
    }
}

#[test]
fn image_formats_are_chosen_by_extension() {
    let formats = vec![
        format("gif", false, false, &["gif"]),
        format("bmp", true, true, &["bmp"]),
        format("jpeg", false, true, &["jpeg", "jpg"]),
        format("png", false, true, &["png"]),
    ];
    assert_eq!(format_by_extension(&formats, "file:///a.jpg"), Some(2));
    assert_eq!(format_by_extension(&formats, "file:///a.png"), Some(3));
    assert_eq!(format_by_extension(&formats, "file:///a.gif"), None);
    assert_eq!(format_by_extension(&formats, "file:///a.bmp"), None);
    assert_eq!(format_by_extension(&formats, "g"), None);
    assert_eq!(image_format(&formats, "file:///a.jpg", true), Some(2));
    assert_eq!(image_format(&formats, "file:///a.xyz", true), None);
}

#[test]
fn images_without_an_extension_become_png_or_jpeg() {
    let gif = || format("gif", false, false, &["gif"]);
    let jpeg = || format("jpeg", false, true, &["jpeg", "jpg"]);
    let png = || format("png", false, true, &["png"]);
    assert_eq!(image_format(&vec![gif(), jpeg(), png()], "file:///tmp/picture", false), Some(2));
    assert_eq!(image_format(&vec![gif(), jpeg()], "file:///tmp/picture", false), Some(1));
    assert_eq!(image_format(&vec![gif()], "file:///tmp/picture", false), None);
    assert_eq!(image_format(&Vec::new(), "file:///tmp/picture", false), None);
}
