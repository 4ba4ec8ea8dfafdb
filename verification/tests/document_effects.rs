use papers::document_actions::DocumentAction;
use papers::document_effects::{
    activate, change_state, is_activatable, is_changeable, NewState, ViewState,
};
use papers::document_view::{AnnotationTool, EditingState, TextMarkup};

fn view() -> ViewState {
    ViewState {
        page: 3,
        n_pages: Some(20),
        rotation: 0,
        target_page: 7,
        target_rotation: 180,
        find_shown: false,
        find_focused: false,
        find_on: false,
        fullscreen: false,
        collapsed: false,
        sidebar_shown: false,
        tool: AnnotationTool::Pencil,
        editing: EditingState::Nothing,
        caret_navigation: false,
        has_link: false,
        link_has_action: false,
        link_has_destination: false,
        link_uri: None,
        has_image: false,
        has_annotation: false,
        has_attachment: false,
        markup: None,
        has_selection: false,
        selected_text: None,
        has_file: false,
    }
}

fn text(s: &str) -> NewState {
    NewState::Text(s.to_string())
}

/// What an action does, in words.
fn activated(action: DocumentAction, v: &ViewState) -> String {
    assert!(is_activatable(action, v));
    format!("{:?}", activate(action, v))
}

fn changed(action: DocumentAction, v: &ViewState, state: NewState) -> String {
    assert!(is_changeable(action, v, &state));
    format!("{:?}", change_state(action, v, state))
}

/// Effects in words, the last of which is that the action has its new state.
fn and_state(effects: &str, action: DocumentAction, state: &NewState) -> String {
    let separator = if effects.is_empty() { "" } else { ", " };
    format!("[{effects}{separator}SetState {{ action: {action:?}, state: {state:?} }}]")
}

#[test]
fn simple_actions_do_one_thing() {
    let v = view();
    assert_eq!(activated(DocumentAction::OpenCopy, &v), "[OpenCopy]");
    assert_eq!(activated(DocumentAction::SelectPage, &v), "[FocusPageSelector]");
    assert_eq!(activated(DocumentAction::SaveAs, &v), "[SaveAs]");
    assert_eq!(activated(DocumentAction::AddWatermark, &v), "[AskWatermark]");
    assert_eq!(activated(DocumentAction::ShowProperties, &v), "[ShowProperties]");
    assert_eq!(activated(DocumentAction::SelectAll, &v), "[SelectAll]");
    assert_eq!(activated(DocumentAction::GoPreviousPage, &v), "[PreviousPage]");
    assert_eq!(activated(DocumentAction::GoNextPage, &v), "[NextPage]");
    assert_eq!(activated(DocumentAction::Copy, &v), "[Copy]");
    assert_eq!(activated(DocumentAction::Undo, &v), "[Undo]");
    assert_eq!(activated(DocumentAction::Redo, &v), "[Redo]");
    assert_eq!(activated(DocumentAction::DigitalSigning, &v), "[Sign]");
    assert_eq!(activated(DocumentAction::AddTextAnnotation, &v), "[AddTextAnnotation]");
    assert_eq!(activated(DocumentAction::FindNext, &v), "[FindNext]");
    assert_eq!(activated(DocumentAction::FindPrevious, &v), "[FindPrevious]");
    assert_eq!(activated(DocumentAction::GoForwardHistory, &v), "[HistoryForward]");
}

#[test]
fn zooming_frees_the_size_first() {
    let v = view();
    assert_eq!(activated(DocumentAction::ZoomIn, &v), "[SetSizingMode(Free), ZoomIn]");
    assert_eq!(activated(DocumentAction::ZoomOut, &v), "[SetSizingMode(Free), ZoomOut]");
    assert_eq!(activated(DocumentAction::Zoom, &v), "[SetSizingMode(Free), SetScale]");
}

#[test]
fn pages_are_gone_to_and_noted() {
    let mut v = view();
    assert_eq!(
        activated(DocumentAction::GoFirstPage, &v),
        "[SetPage(0), AddHistory(3), AddHistory(0)]"
    );
    assert_eq!(
        activated(DocumentAction::GoLastPage, &v),
        "[SetPage(20), AddHistory(3), AddHistory(20)]"
    );
    assert_eq!(activated(DocumentAction::GoForward, &v), "[SetPage(13)]");
    assert_eq!(activated(DocumentAction::GoBackwards, &v), "[SetPage(0)]");
    assert_eq!(
        activated(DocumentAction::GoBackHistory, &v),
        "[AddHistory(3), HistoryBack]"
    );
    assert_eq!(
        activated(DocumentAction::Print, &v),
        "[CloseMenu, Print { first: 1, last: 20 }]"
    );
    v.page = 15;
    assert_eq!(activated(DocumentAction::GoForward, &v), "[SetPage(19)]");
    assert_eq!(activated(DocumentAction::GoBackwards, &v), "[SetPage(5)]");
    v.page = -1;
    assert_eq!(activated(DocumentAction::GoFirstPage, &v), "[SetPage(0)]");
    assert_eq!(activated(DocumentAction::GoBackHistory, &v), "[HistoryBack]");
    v.n_pages = None;
    assert!(!is_activatable(DocumentAction::Print, &v));
    assert!(!is_activatable(DocumentAction::GoLastPage, &v));
    assert!(!is_activatable(DocumentAction::GoForward, &v));
}

#[test]
fn rotations_turn_the_document_or_the_page() {
    let mut v = view();
    assert_eq!(activated(DocumentAction::RotateLeft, &v), "[SetRotation(-90)]");
    assert_eq!(activated(DocumentAction::RotateRight, &v), "[SetRotation(90)]");
    assert_eq!(
        activated(DocumentAction::RotatePageLeft, &v),
        "[SetPageRotation { page: 7, rotation: 90 }]"
    );
    assert_eq!(
        activated(DocumentAction::RotatePageRight, &v),
        "[SetPageRotation { page: 7, rotation: 270 }]"
    );
    assert_eq!(
        activated(DocumentAction::BookmarkPage, &v),
        "[SetBookmark { page: 7, bookmarked: true }]"
    );
    assert_eq!(
        activated(DocumentAction::RemoveBookmarkPage, &v),
        "[SetBookmark { page: 7, bookmarked: false }]"
    );
    v.rotation = i32::MAX;
    assert!(!is_activatable(DocumentAction::RotateRight, &v));
    assert!(is_activatable(DocumentAction::RotateLeft, &v));
}

#[test]
fn menus_act_on_what_they_were_opened_on() {
    let mut v = view();
    assert!(!is_activatable(DocumentAction::OpenLink, &v));
    for action in [
        DocumentAction::OpenLinkNewWindow,
        DocumentAction::CopyLinkAddress,
        DocumentAction::CopyEmailAddress,
        DocumentAction::CopyImage,
        DocumentAction::SaveImage,
        DocumentAction::RemoveAnnot,
        DocumentAction::EditAnnot,
        DocumentAction::OpenAttachment,
        DocumentAction::SaveAttachment,
        DocumentAction::AnnotProperties,
        DocumentAction::OpenWith,
    ] {
        assert_eq!(activated(action, &v), "[]");
    }
    v.has_link = true;
    v.link_has_action = true;
    v.link_has_destination = true;
    v.link_uri = Some("mailto:a@b".to_string());
    v.has_image = true;
    v.has_annotation = true;
    v.has_attachment = true;
    v.has_file = true;
    assert_eq!(activated(DocumentAction::OpenLink, &v), "[FollowLink]");
    assert_eq!(activated(DocumentAction::SendEmail, &v), "[FollowLink]");
    assert_eq!(activated(DocumentAction::GoToLink, &v), "[FollowLink]");
    assert_eq!(activated(DocumentAction::OpenLinkNewWindow, &v), "[OpenCopyAtLink]");
    assert_eq!(activated(DocumentAction::CopyLinkAddress, &v), "[CopyLinkAddress]");
    assert_eq!(
        activated(DocumentAction::CopyEmailAddress, &v),
        "[SetClipboard(\"a@b\")]"
    );
    assert_eq!(activated(DocumentAction::CopyImage, &v), "[CopyImage]");
    assert_eq!(activated(DocumentAction::SaveImage, &v), "[SaveImage]");
    assert_eq!(activated(DocumentAction::RemoveAnnot, &v), "[RemoveAnnotation]");
    assert_eq!(activated(DocumentAction::EditAnnot, &v), "[EditAnnotation]");
    assert_eq!(activated(DocumentAction::OpenAttachment, &v), "[OpenAttachment]");
    assert_eq!(activated(DocumentAction::SaveAttachment, &v), "[SaveAttachment]");
    assert_eq!(
        activated(DocumentAction::AnnotProperties, &v),
        "[ShowAnnotationProperties]"
    );
    assert_eq!(activated(DocumentAction::OpenWith, &v), "[OpenWith]");
    v.link_uri = Some("https://a.b".to_string());
    assert_eq!(activated(DocumentAction::CopyEmailAddress, &v), "[]");
}

#[test]
fn finding_starts_with_the_selection() {
    let mut v = view();
    assert_eq!(activated(DocumentAction::Find, &v), "[SwitchFind(true)]");
    v.selected_text = Some(String::new());
    assert_eq!(activated(DocumentAction::Find, &v), "[SwitchFind(true)]");
    v.selected_text = Some("abc".to_string());
    assert_eq!(
        activated(DocumentAction::Find, &v),
        "[SetSearchTerm(\"abc\"), RestartSearch, SwitchFind(true)]"
    );
    let on = || NewState::Switch(true);
    let off = || NewState::Switch(false);
    assert_eq!(
        changed(DocumentAction::ToggleFind, &v, on()),
        and_state("ShowFindBar, ActivateSearch", DocumentAction::ToggleFind, &on())
    );
    assert_eq!(
        changed(DocumentAction::ToggleFind, &v, off()),
        and_state("CloseFindBar", DocumentAction::ToggleFind, &off())
    );
    v.find_on = true;
    assert_eq!(
        changed(DocumentAction::ToggleFind, &v, on()),
        and_state("ShowFindBar", DocumentAction::ToggleFind, &on())
    );
    assert_eq!(
        changed(DocumentAction::ToggleFind, &v, off()),
        and_state("CloseFindBar, ReleaseSearch", DocumentAction::ToggleFind, &off())
    );
}

#[test]
fn escape_leaves_one_thing_after_the_other() {
    let mut v = view();
    assert_eq!(activated(DocumentAction::Escape, &v), "[]");
    v.editing = EditingState::Ink;
    assert_eq!(activated(DocumentAction::Escape, &v), "[SetEditing(Nothing)]");
    v.collapsed = true;
    v.sidebar_shown = true;
    assert_eq!(activated(DocumentAction::Escape, &v), "[ShowSidebar(false)]");
    v.fullscreen = true;
    assert_eq!(activated(DocumentAction::Escape, &v), "[LeaveFullscreen]");
    v.find_shown = true;
    v.find_focused = true;
    assert_eq!(activated(DocumentAction::Escape, &v), "[CloseFind]");
}

#[test]
fn editing_goes_with_the_tool() {
    let mut v = view();
    assert_eq!(activated(DocumentAction::ToggleEditMode, &v), "[SetEditing(Ink)]");
    v.tool = AnnotationTool::Text;
    assert_eq!(activated(DocumentAction::ToggleEditMode, &v), "[SetEditing(Text)]");
    assert!(!is_changeable(DocumentAction::PenStroke, &v, &NewState::Number));
    v.tool = AnnotationTool::Eraser;
    assert_eq!(
        changed(DocumentAction::EraserRadius, &v, NewState::Number),
        "[SetRadius(Eraser), SetState { action: EraserRadius, state: Number }, ClosePopover(EraserRadius)]"
    );
    assert_eq!(
        changed(DocumentAction::PenColor, &v, text("red")),
        "[SetColor { tool: Pencil, color: \"#ed333b\", opacity: 100 }, SetState { action: PenColor, state: Text(\"red\") }, ClosePopover(PenColor)]"
    );
    assert_eq!(
        changed(DocumentAction::HighlightColor, &v, text("yellow")),
        "[SetColor { tool: Highlight, color: \"#f5c211\", opacity: 70 }, SetState { action: HighlightColor, state: Text(\"yellow\") }, ClosePopover(HighlightColor)]"
    );
    assert_eq!(
        changed(DocumentAction::TextColor, &v, text("blue")),
        "[SetColor { tool: Text, color: \"#3584e4\", opacity: 100 }, SetState { action: TextColor, state: Text(\"blue\") }, ClosePopover(TextColor)]"
    );
    assert!(!is_changeable(DocumentAction::TextColor, &v, &text("pink")));
    assert_eq!(
        changed(DocumentAction::EraserModeObjects, &v, text("true")),
        and_state("SetEraserObjects(true)", DocumentAction::EraserModeObjects, &text("true"))
    );
    assert_eq!(
        changed(DocumentAction::EraserModeObjects, &v, text("false")),
        and_state("SetEraserObjects(false)", DocumentAction::EraserModeObjects, &text("false"))
    );
    assert_eq!(
        activated(DocumentAction::CaretNavigation, &v),
        "[SetCaretNavigation(true), Announce(\"Caret navigation mode is now enabled, press F7 to disable.\")]"
    );
}

#[test]
fn markup_goes_to_the_selection_or_the_annotation() {
    let mut v = view();
    let action = DocumentAction::AnnotTextmarkupType;
    assert_eq!(
        changed(action, &v, text("underline")),
        and_state("", action, &text("underline"))
    );
    v.markup = Some(TextMarkup::Highlight);
    assert_eq!(
        changed(action, &v, text("highlight")),
        and_state("", action, &text("highlight"))
    );
    assert_eq!(
        changed(action, &v, text("squiggly")),
        and_state("ChangeMarkup(Squiggly)", action, &text("squiggly"))
    );
    v.has_selection = true;
    assert_eq!(
        changed(action, &v, text("highlight")),
        and_state("MarkSelection(Highlight)", action, &text("highlight"))
    );
    assert_eq!(
        changed(action, &v, text("none")),
        and_state("", action, &text("none"))
    );
    assert!(!is_changeable(action, &v, &text("bold")));
    assert_eq!(
        changed(DocumentAction::AnnotColor, &v, text("red")),
        and_state("SetAnnotationColor(\"red\")", DocumentAction::AnnotColor, &text("red"))
    );
}

#[test]
fn switches_set_the_layout() {
    let mut v = view();
    let on = || NewState::Switch(true);
    assert_eq!(
        changed(DocumentAction::ShowSidebar, &v, on()),
        "[SetState { action: ShowSidebar, state: Switch(true) }, ShowSidebar(true)]"
    );
    assert_eq!(
        changed(DocumentAction::Continuous, &v, on()),
        and_state("SetContinuous(true)", DocumentAction::Continuous, &on())
    );
    assert_eq!(
        changed(DocumentAction::Rtl, &v, on()),
        and_state("SetRightToLeft(true)", DocumentAction::Rtl, &on())
    );
    assert_eq!(
        changed(DocumentAction::DualOddLeft, &v, on()),
        and_state("SetOddPagesLeft(true)", DocumentAction::DualOddLeft, &on())
    );
    assert_eq!(
        changed(DocumentAction::EnableSpellchecking, &v, on()),
        and_state("SetSpellchecking(true)", DocumentAction::EnableSpellchecking, &on())
    );
    assert_eq!(
        changed(DocumentAction::DualPage, &v, on()),
        and_state("SetDualPage(true), SetEnabled { action: DualOddLeft, enabled: true }", DocumentAction::DualPage, &on())
    );
    v.n_pages = Some(0);
    assert_eq!(
        changed(DocumentAction::DualPage, &v, on()),
        and_state("SetDualPage(true), SetEnabled { action: DualOddLeft, enabled: false }", DocumentAction::DualPage, &on())
    );
    assert_eq!(
        changed(DocumentAction::SizingMode, &v, text("fit-width")),
        and_state("SetSizingMode(FitWidth)", DocumentAction::SizingMode, &text("fit-width"))
    );
    assert!(!is_changeable(DocumentAction::SizingMode, &v, &text("huge")));
}

#[test]
fn every_action_is_activated_or_changed() {
    let mut v = view();
    v.has_link = true;
    for action in DocumentAction::all() {
        let stateful = action.initial_state().is_some();
        assert_eq!(is_activatable(action, &v), !stateful);
        let changeable = is_changeable(action, &v, &NewState::Switch(true))
            || is_changeable(action, &v, &NewState::Number)
            || is_changeable(action, &v, &text("none"))
            || is_changeable(action, &v, &text("red"))
            || is_changeable(action, &v, &text("free"));
        assert_eq!(changeable, stateful);
    }
}
