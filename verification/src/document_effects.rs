//! What each action of a document does: the effects on the document's view, in
//! order, when the action is activated or its state is changed.
use vstd::prelude::*;

use crate::document_actions::{initial_state, ActionStateModel, DocumentAction};
use crate::document_view::{
    caret_navigation_message, dual_odd_left_enabled, email_address, escape_step, go_back_history,
    go_backwards, go_first_page, go_forward, go_last_page, initial_search, markup_change,
    markup_named, noted, page_ahead, page_behind, pen_color, pen_color_value, print_all, rotate_left,
    rotate_right, sizing_mode, sizing_mode_named, text_markup, toggle_find, toggled_editing,
    AnnotationTool, EditingState, EscapeStep, MarkupChange, Navigation, PpsDocumentView, SizingMode,
    TextMarkup, HIGHLIGHT_OPACITY, PAGE_JUMP, QUARTER_TURN,
};
use crate::text::{chars_of, occurs_at, same_text};

verus! {

/// Something to do on the view of a document.
#[derive(Debug)]
pub enum Effect {
    /// Open the document in another window.
    OpenCopy,
    /// Open the document in another window, at the link's destination.
    OpenCopyAtLink,
    /// Switch the find bar off.
    CloseFind,
    /// Leave the full screen.
    LeaveFullscreen,
    /// Show the sidebar, or hide it.
    ShowSidebar(bool),
    /// Put the focus on the page selector.
    FocusPageSelector,
    /// Close the menu of actions.
    CloseMenu,
    /// Print these pages, counted from 1.
    Print { first: i32, last: i32 },
    /// Save the document under another name.
    SaveAs,
    /// Ask for a watermark.
    AskWatermark,
    /// Show the properties of the document.
    ShowProperties,
    /// Show the pages one behind the other, or one at a time.
    SetContinuous(bool),
    /// Lay the pages out from right to left, or from left to right.
    SetRightToLeft(bool),
    /// Put the odd pages on the left, or on the right.
    SetOddPagesLeft(bool),
    /// Show the pages in pairs, or one by one.
    SetDualPage(bool),
    /// Let an action be used, or not.
    SetEnabled { action: DocumentAction, enabled: bool },
    /// Select all.
    SelectAll,
    /// Zoom in.
    ZoomIn,
    /// Zoom out.
    ZoomOut,
    /// Set the scale to the one given.
    SetScale,
    /// Choose the size of a page so.
    SetSizingMode(SizingMode),
    /// Give annotations the color of that name.
    SetAnnotationColor(String),
    /// Mark each part of the selection up.
    MarkSelection(TextMarkup),
    /// Make the annotation at hand such a markup.
    ChangeMarkup(TextMarkup),
    /// Check the spelling, or not.
    SetSpellchecking(bool),
    /// Go to the previous page.
    PreviousPage,
    /// Go to the next page.
    NextPage,
    /// Go to that page.
    SetPage(i32),
    /// Note that page in the history.
    AddHistory(i32),
    /// Go back in the history.
    HistoryBack,
    /// Go forward in the history.
    HistoryForward,
    /// Rotate the document so.
    SetRotation(i32),
    /// Rotate that page so.
    SetPageRotation { page: i32, rotation: i32 },
    /// Bookmark that page, or take its bookmark away.
    SetBookmark { page: i32, bookmarked: bool },
    /// Copy the selection.
    Copy,
    /// Undo the last change of an annotation.
    Undo,
    /// Redo the change that was undone.
    Redo,
    /// Switch the caret navigation.
    SetCaretNavigation(bool),
    /// Say this, in place of what is being said.
    Announce(String),
    /// Follow the link.
    FollowLink,
    /// Copy the address of the link.
    CopyLinkAddress,
    /// Put this on the clipboard.
    SetClipboard(String),
    /// Copy the image.
    CopyImage,
    /// Save the image.
    SaveImage,
    /// Remove the annotation, and offer to undo that.
    RemoveAnnotation,
    /// Edit the annotation.
    EditAnnotation,
    /// Sign the document.
    Sign,
    /// Add a text annotation where the pointer is.
    AddTextAnnotation,
    /// Edit that.
    SetEditing(EditingState),
    /// Set the radius of the tool to the one given.
    SetRadius(AnnotationTool),
    /// Erase whole objects, or parts of them.
    SetEraserObjects(bool),
    /// Give a tool that color, as opaque as that, in percent.
    SetColor { tool: AnnotationTool, color: String, opacity: u32 },
    /// Close the popover that the action was chosen from.
    ClosePopover(DocumentAction),
    /// Open the attachment.
    OpenAttachment,
    /// Save the attachment.
    SaveAttachment,
    /// Show the properties of the annotation.
    ShowAnnotationProperties,
    /// Open the file with another application.
    OpenWith,
    /// Show the find bar.
    ShowFindBar,
    /// Close the find bar.
    CloseFindBar,
    /// Start the search.
    ActivateSearch,
    /// End the search.
    ReleaseSearch,
    /// Search for this.
    SetSearchTerm(String),
    /// Search from the start.
    RestartSearch,
    /// Go to the next match.
    FindNext,
    /// Go to the previous match.
    FindPrevious,
    /// Change the state of the action that shows the find bar.
    SwitchFind(bool),
    /// Take the new state of an action over.
    SetState { action: DocumentAction, state: NewState },
}

/// The state that an action is changed to: a switch, the number given, or a
/// text.
#[derive(Debug)]
pub enum NewState {
    Switch(bool),
    Number,
    Text(String),
}

/// A [`NewState`] as a mathematical value.
pub enum StateModel {
    Switch(bool),
    Number,
    Text(Seq<char>),
}

impl View for NewState {
    type V = StateModel;

    open spec fn view(&self) -> StateModel {
        match *self {
            NewState::Switch(on) => StateModel::Switch(on),
            NewState::Number => StateModel::Number,
            NewState::Text(s) => StateModel::Text(s@),
        }
    }
}

/// An [`Effect`] as a mathematical value.
pub enum EffectModel {
    OpenCopy,
    OpenCopyAtLink,
    CloseFind,
    LeaveFullscreen,
    ShowSidebar(bool),
    FocusPageSelector,
    CloseMenu,
    Print { first: i32, last: i32 },
    SaveAs,
    AskWatermark,
    ShowProperties,
    SetContinuous(bool),
    SetRightToLeft(bool),
    SetOddPagesLeft(bool),
    SetDualPage(bool),
    SetEnabled { action: DocumentAction, enabled: bool },
    SelectAll,
    ZoomIn,
    ZoomOut,
    SetScale,
    SetSizingMode(SizingMode),
    SetAnnotationColor(Seq<char>),
    MarkSelection(TextMarkup),
    ChangeMarkup(TextMarkup),
    SetSpellchecking(bool),
    PreviousPage,
    NextPage,
    SetPage(i32),
    AddHistory(i32),
    HistoryBack,
    HistoryForward,
    SetRotation(i32),
    SetPageRotation { page: i32, rotation: i32 },
    SetBookmark { page: i32, bookmarked: bool },
    Copy,
    Undo,
    Redo,
    SetCaretNavigation(bool),
    Announce(Seq<char>),
    FollowLink,
    CopyLinkAddress,
    SetClipboard(Seq<char>),
    CopyImage,
    SaveImage,
    RemoveAnnotation,
    EditAnnotation,
    Sign,
    AddTextAnnotation,
    SetEditing(EditingState),
    SetRadius(AnnotationTool),
    SetEraserObjects(bool),
    SetColor { tool: AnnotationTool, color: Seq<char>, opacity: u32 },
    ClosePopover(DocumentAction),
    OpenAttachment,
    SaveAttachment,
    ShowAnnotationProperties,
    OpenWith,
    ShowFindBar,
    CloseFindBar,
    ActivateSearch,
    ReleaseSearch,
    SetSearchTerm(Seq<char>),
    RestartSearch,
    FindNext,
    FindPrevious,
    SwitchFind(bool),
    SetState { action: DocumentAction, state: StateModel },
}

impl View for Effect {
    type V = EffectModel;

    open spec fn view(&self) -> EffectModel {
        match *self {
            Effect::OpenCopy => EffectModel::OpenCopy,
            Effect::OpenCopyAtLink => EffectModel::OpenCopyAtLink,
            Effect::CloseFind => EffectModel::CloseFind,
            Effect::LeaveFullscreen => EffectModel::LeaveFullscreen,
            Effect::ShowSidebar(x) => EffectModel::ShowSidebar(x),
            Effect::FocusPageSelector => EffectModel::FocusPageSelector,
            Effect::CloseMenu => EffectModel::CloseMenu,
            Effect::Print { first, last } => EffectModel::Print { first, last },
            Effect::SaveAs => EffectModel::SaveAs,
            Effect::AskWatermark => EffectModel::AskWatermark,
            Effect::ShowProperties => EffectModel::ShowProperties,
            Effect::SetContinuous(x) => EffectModel::SetContinuous(x),
            Effect::SetRightToLeft(x) => EffectModel::SetRightToLeft(x),
            Effect::SetOddPagesLeft(x) => EffectModel::SetOddPagesLeft(x),
            Effect::SetDualPage(x) => EffectModel::SetDualPage(x),
            Effect::SetEnabled { action, enabled } => EffectModel::SetEnabled { action, enabled },
            Effect::SelectAll => EffectModel::SelectAll,
            Effect::ZoomIn => EffectModel::ZoomIn,
            Effect::ZoomOut => EffectModel::ZoomOut,
            Effect::SetScale => EffectModel::SetScale,
            Effect::SetSizingMode(x) => EffectModel::SetSizingMode(x),
            Effect::SetAnnotationColor(x) => EffectModel::SetAnnotationColor(x@),
            Effect::MarkSelection(x) => EffectModel::MarkSelection(x),
            Effect::ChangeMarkup(x) => EffectModel::ChangeMarkup(x),
            Effect::SetSpellchecking(x) => EffectModel::SetSpellchecking(x),
            Effect::PreviousPage => EffectModel::PreviousPage,
            Effect::NextPage => EffectModel::NextPage,
            Effect::SetPage(x) => EffectModel::SetPage(x),
            Effect::AddHistory(x) => EffectModel::AddHistory(x),
            Effect::HistoryBack => EffectModel::HistoryBack,
            Effect::HistoryForward => EffectModel::HistoryForward,
            Effect::SetRotation(x) => EffectModel::SetRotation(x),
            Effect::SetPageRotation { page, rotation } => EffectModel::SetPageRotation {
                page,
                rotation,
            },
            Effect::SetBookmark { page, bookmarked } => EffectModel::SetBookmark {
                page,
                bookmarked,
            },
            Effect::Copy => EffectModel::Copy,
            Effect::Undo => EffectModel::Undo,
            Effect::Redo => EffectModel::Redo,
            Effect::SetCaretNavigation(x) => EffectModel::SetCaretNavigation(x),
            Effect::Announce(x) => EffectModel::Announce(x@),
            Effect::FollowLink => EffectModel::FollowLink,
            Effect::CopyLinkAddress => EffectModel::CopyLinkAddress,
            Effect::SetClipboard(x) => EffectModel::SetClipboard(x@),
            Effect::CopyImage => EffectModel::CopyImage,
            Effect::SaveImage => EffectModel::SaveImage,
            Effect::RemoveAnnotation => EffectModel::RemoveAnnotation,
            Effect::EditAnnotation => EffectModel::EditAnnotation,
            Effect::Sign => EffectModel::Sign,
            Effect::AddTextAnnotation => EffectModel::AddTextAnnotation,
            Effect::SetEditing(x) => EffectModel::SetEditing(x),
            Effect::SetRadius(x) => EffectModel::SetRadius(x),
            Effect::SetEraserObjects(x) => EffectModel::SetEraserObjects(x),
            Effect::SetColor { tool, color, opacity } => EffectModel::SetColor {
                tool,
                color: color@,
                opacity,
            },
            Effect::ClosePopover(x) => EffectModel::ClosePopover(x),
            Effect::OpenAttachment => EffectModel::OpenAttachment,
            Effect::SaveAttachment => EffectModel::SaveAttachment,
            Effect::ShowAnnotationProperties => EffectModel::ShowAnnotationProperties,
            Effect::OpenWith => EffectModel::OpenWith,
            Effect::ShowFindBar => EffectModel::ShowFindBar,
            Effect::CloseFindBar => EffectModel::CloseFindBar,
            Effect::ActivateSearch => EffectModel::ActivateSearch,
            Effect::ReleaseSearch => EffectModel::ReleaseSearch,
            Effect::SetSearchTerm(x) => EffectModel::SetSearchTerm(x@),
            Effect::RestartSearch => EffectModel::RestartSearch,
            Effect::FindNext => EffectModel::FindNext,
            Effect::FindPrevious => EffectModel::FindPrevious,
            Effect::SwitchFind(x) => EffectModel::SwitchFind(x),
            Effect::SetState { action, state } => EffectModel::SetState { action, state: state@ },
        }
    }
}

/// Effects as mathematical values.
pub open spec fn effects(list: Seq<Effect>) -> Seq<EffectModel> {
    list.map_values(|e: Effect| e@)
}

/// What the actions read of a document's view.
#[derive(Debug)]
pub struct ViewState {
    /// The current page, counted from 0.
    pub page: i32,
    /// How many pages the document has, where one is open.
    pub n_pages: Option<i32>,
    /// The rotation of the document.
    pub rotation: i32,
    /// The page that a menu was opened on, and its rotation.
    pub target_page: i32,
    pub target_rotation: i32,
    /// Whether the sidebar shows the search, and the focus is in it.
    pub find_shown: bool,
    pub find_focused: bool,
    /// Whether the find bar is switched on.
    pub find_on: bool,
    pub fullscreen: bool,
    /// Whether there is room for the document or the sidebar only, and whether
    /// the sidebar is shown.
    pub collapsed: bool,
    pub sidebar_shown: bool,
    /// The tool in hand, and what is being edited.
    pub tool: AnnotationTool,
    pub editing: EditingState,
    pub caret_navigation: bool,
    /// What a menu was opened on.
    pub has_link: bool,
    pub link_has_action: bool,
    pub link_has_destination: bool,
    pub link_uri: Option<String>,
    pub has_image: bool,
    pub has_annotation: bool,
    pub has_attachment: bool,
    /// The markup of the annotation at hand, where it is a markup of text.
    pub markup: Option<TextMarkup>,
    pub has_selection: bool,
    pub selected_text: Option<String>,
    /// Whether the document is a file.
    pub has_file: bool,
}

/// An effect, where it applies.
pub open spec fn only_if(applies: bool, effect: EffectModel) -> Seq<EffectModel> {
    if applies {
        seq![effect]
    } else {
        Seq::empty()
    }
}

/// Going from one page to another, with both noted in the history.
pub open spec fn going(from: i32, to: i32) -> Seq<EffectModel> {
    seq![EffectModel::SetPage(to)] + noted(from, to).map_values(
        |p: i32| EffectModel::AddHistory(p),
    )
}

/// What the escape key does.
pub open spec fn escaping(v: ViewState) -> Seq<EffectModel> {
    if v.find_shown && v.find_focused {
        seq![EffectModel::CloseFind]
    } else if v.fullscreen {
        seq![EffectModel::LeaveFullscreen]
    } else if v.collapsed && v.sidebar_shown {
        seq![EffectModel::ShowSidebar(false)]
    } else if v.editing !is Nothing {
        seq![EffectModel::SetEditing(toggled_editing(v.editing, v.tool))]
    } else {
        Seq::empty()
    }
}

/// What the action that switches the caret navigation does.
pub open spec fn switching_caret(enabled: bool) -> Seq<EffectModel> {
    seq![
        EffectModel::SetCaretNavigation(!enabled),
        EffectModel::Announce(
            if !enabled {
                "Caret navigation mode is now enabled, press F7 to disable."@
            } else {
                "Caret navigation mode is now disabled, press F7 to enable."@
            },
        ),
    ]
}

/// What the action that copies a mail address does: the address behind the mark
/// of a mail link goes to the clipboard.
pub open spec fn copying_address(uri: Option<String>) -> Seq<EffectModel> {
    match uri {
        Some(u) => only_if(
            occurs_at(u@, "mailto:"@, 0),
            EffectModel::SetClipboard(u@.skip("mailto:"@.len() as int)),
        ),
        None => Seq::empty(),
    }
}

/// What the action that finds does: it looks for the text that is selected,
/// where any is, and shows the find bar.
pub open spec fn finding(selected_text: Option<String>) -> Seq<EffectModel> {
    (match selected_text {
        Some(t) => if t@.len() > 0 {
            seq![EffectModel::SetSearchTerm(t@), EffectModel::RestartSearch]
        } else {
            Seq::empty()
        },
        None => Seq::empty(),
    }) + seq![EffectModel::SwitchFind(true)]
}

/// Whether an action can be activated: there is a document to count the pages
/// of, a link to follow, and no number leaves its range, where it matters.
pub open spec fn can_activate(action: DocumentAction, v: ViewState) -> bool {
    match action {
        DocumentAction::Print => v.n_pages is Some,
        DocumentAction::GoLastPage => v.n_pages is Some,
        DocumentAction::RotateLeft => v.rotation >= i32::MIN + QUARTER_TURN,
        DocumentAction::RotateRight => v.rotation <= i32::MAX - QUARTER_TURN,
        DocumentAction::RotatePageLeft => v.target_rotation >= i32::MIN + QUARTER_TURN,
        DocumentAction::RotatePageRight => v.target_rotation <= i32::MAX - QUARTER_TURN,
        DocumentAction::OpenLink => v.has_link,
        DocumentAction::SendEmail => v.has_link,
        DocumentAction::GoToLink => v.has_link,
        DocumentAction::GoForward => (v.n_pages matches Some(n) && n > i32::MIN) && v.page
            <= i32::MAX - PAGE_JUMP,
        DocumentAction::GoBackwards => v.page >= i32::MIN + PAGE_JUMP,
        _ => initial_state(action) is None,
    }
}

/// What an action does when it is activated, in order.
pub open spec fn activation(action: DocumentAction, v: ViewState) -> Seq<EffectModel> {
    match action {
        DocumentAction::OpenCopy => seq![EffectModel::OpenCopy],
        DocumentAction::Escape => escaping(v),
        DocumentAction::SelectPage => seq![EffectModel::FocusPageSelector],
        DocumentAction::Print => seq![
            EffectModel::CloseMenu,
            EffectModel::Print { first: 1, last: v.n_pages->Some_0 },
        ],
        DocumentAction::SaveAs => seq![EffectModel::SaveAs],
        DocumentAction::AddWatermark => seq![EffectModel::AskWatermark],
        DocumentAction::ShowProperties => seq![EffectModel::ShowProperties],
        DocumentAction::SelectAll => seq![EffectModel::SelectAll],
        DocumentAction::ZoomIn => seq![EffectModel::SetSizingMode(SizingMode::Free), EffectModel::ZoomIn],
        DocumentAction::ZoomOut => seq![EffectModel::SetSizingMode(SizingMode::Free), EffectModel::ZoomOut],
        DocumentAction::Zoom => seq![EffectModel::SetSizingMode(SizingMode::Free), EffectModel::SetScale],
        DocumentAction::GoPreviousPage => seq![EffectModel::PreviousPage],
        DocumentAction::GoNextPage => seq![EffectModel::NextPage],
        DocumentAction::GoFirstPage => going(v.page, 0),
        DocumentAction::GoLastPage => going(v.page, v.n_pages->Some_0),
        DocumentAction::RotateLeft => seq![EffectModel::SetRotation((v.rotation - QUARTER_TURN) as i32)],
        DocumentAction::RotateRight => seq![EffectModel::SetRotation((v.rotation + QUARTER_TURN) as i32)],
        DocumentAction::RotatePageLeft => seq![
            EffectModel::SetPageRotation {
                page: v.target_page,
                rotation: (v.target_rotation - QUARTER_TURN) as i32,
            },
        ],
        DocumentAction::RotatePageRight => seq![
            EffectModel::SetPageRotation {
                page: v.target_page,
                rotation: (v.target_rotation + QUARTER_TURN) as i32,
            },
        ],
        DocumentAction::BookmarkPage => seq![
            EffectModel::SetBookmark { page: v.target_page, bookmarked: true },
        ],
        DocumentAction::RemoveBookmarkPage => seq![
            EffectModel::SetBookmark { page: v.target_page, bookmarked: false },
        ],
        DocumentAction::Copy => seq![EffectModel::Copy],
        DocumentAction::Undo => seq![EffectModel::Undo],
        DocumentAction::Redo => seq![EffectModel::Redo],
        DocumentAction::CaretNavigation => switching_caret(v.caret_navigation),
        DocumentAction::OpenLink => seq![EffectModel::FollowLink],
        DocumentAction::SendEmail => seq![EffectModel::FollowLink],
        DocumentAction::GoToLink => seq![EffectModel::FollowLink],
        DocumentAction::OpenLinkNewWindow => only_if(
            v.link_has_destination,
            EffectModel::OpenCopyAtLink,
        ),
        DocumentAction::CopyLinkAddress => only_if(v.link_has_action, EffectModel::CopyLinkAddress),
        DocumentAction::CopyEmailAddress => copying_address(v.link_uri),
        DocumentAction::CopyImage => only_if(v.has_image, EffectModel::CopyImage),
        DocumentAction::SaveImage => only_if(v.has_image, EffectModel::SaveImage),
        DocumentAction::RemoveAnnot => only_if(v.has_annotation, EffectModel::RemoveAnnotation),
        DocumentAction::EditAnnot => only_if(v.has_annotation, EffectModel::EditAnnotation),
        DocumentAction::DigitalSigning => seq![EffectModel::Sign],
        DocumentAction::AddTextAnnotation => seq![EffectModel::AddTextAnnotation],
        DocumentAction::ToggleEditMode => seq![
            EffectModel::SetEditing(toggled_editing(v.editing, v.tool)),
        ],
        DocumentAction::OpenAttachment => only_if(v.has_attachment, EffectModel::OpenAttachment),
        DocumentAction::SaveAttachment => only_if(v.has_attachment, EffectModel::SaveAttachment),
        DocumentAction::AnnotProperties => only_if(
            v.has_annotation,
            EffectModel::ShowAnnotationProperties,
        ),
        DocumentAction::OpenWith => only_if(v.has_file, EffectModel::OpenWith),
        DocumentAction::Find => finding(v.selected_text),
        DocumentAction::FindNext => seq![EffectModel::FindNext],
        DocumentAction::FindPrevious => seq![EffectModel::FindPrevious],
        DocumentAction::GoBackHistory => only_if(v.page >= 0, EffectModel::AddHistory(v.page)) + seq![
            EffectModel::HistoryBack,
        ],
        DocumentAction::GoForwardHistory => seq![EffectModel::HistoryForward],
        DocumentAction::GoForward => seq![
            EffectModel::SetPage(page_ahead(v.page as int, v.n_pages->Some_0 as int) as i32),
        ],
        DocumentAction::GoBackwards => seq![EffectModel::SetPage(page_behind(v.page as int) as i32)],
        _ => Seq::empty(),
    }
}

/// What a change of the markup does.
pub open spec fn marking(
    markup: Option<TextMarkup>,
    has_selection: bool,
    current: Option<TextMarkup>,
) -> Seq<EffectModel> {
    match markup {
        None => Seq::empty(),
        Some(m) => if has_selection {
            seq![EffectModel::MarkSelection(m)]
        } else {
            match current {
                Some(old_markup) => only_if(old_markup != m, EffectModel::ChangeMarkup(m)),
                None => Seq::empty(),
            }
        },
    }
}

/// What a change of a tool's color does: the tool has the color before the
/// action has the state.
pub open spec fn coloring(
    action: DocumentAction,
    tool: AnnotationTool,
    name: Seq<char>,
) -> Seq<EffectModel> {
    seq![
        EffectModel::SetColor {
            tool,
            color: pen_color(name)->Some_0,
            opacity: if tool is Highlight {
                HIGHLIGHT_OPACITY
            } else {
                100
            },
        },
        EffectModel::SetState { action, state: StateModel::Text(name) },
        EffectModel::ClosePopover(action),
    ]
}

/// Whether the state of an action can be changed to that: it is one of the
/// action's kind, and names something that is known.
pub open spec fn can_change(action: DocumentAction, v: ViewState, state: NewState) -> bool {
    match action {
        DocumentAction::ShowSidebar => state is Switch,
        DocumentAction::Continuous => state is Switch,
        DocumentAction::Rtl => state is Switch,
        DocumentAction::DualOddLeft => state is Switch,
        DocumentAction::DualPage => state is Switch,
        DocumentAction::SizingMode => state matches NewState::Text(s) && sizing_mode_named(
            s@,
        ) is Some,
        DocumentAction::AnnotColor => state is Text,
        DocumentAction::AnnotTextmarkupType => state matches NewState::Text(s) && markup_named(
            s@,
        ) is Some,
        DocumentAction::EnableSpellchecking => state is Switch,
        DocumentAction::EraserRadius => state is Number && v.tool !is Text,
        DocumentAction::PenStroke => state is Number && v.tool !is Text,
        DocumentAction::HighlightStroke => state is Number && v.tool !is Text,
        DocumentAction::EraserModeObjects => state is Text,
        DocumentAction::PenColor => state matches NewState::Text(s) && pen_color(s@) is Some,
        DocumentAction::HighlightColor => state matches NewState::Text(s) && pen_color(s@) is Some,
        DocumentAction::TextColor => state matches NewState::Text(s) && pen_color(s@) is Some,
        DocumentAction::ToggleFind => state is Switch,
        _ => false,
    }
}

/// What a switch does when it is changed to `on`, in order: the sidebar is shown
/// after the action has its state, all else comes before.
pub open spec fn switching(action: DocumentAction, v: ViewState, on: bool) -> Seq<EffectModel> {
    let taken = EffectModel::SetState { action, state: StateModel::Switch(on) };
    match action {
        DocumentAction::ShowSidebar => seq![taken, EffectModel::ShowSidebar(on)],
        DocumentAction::Continuous => seq![EffectModel::SetContinuous(on), taken],
        DocumentAction::Rtl => seq![EffectModel::SetRightToLeft(on), taken],
        DocumentAction::DualOddLeft => seq![EffectModel::SetOddPagesLeft(on), taken],
        DocumentAction::DualPage => seq![
            EffectModel::SetDualPage(on),
            EffectModel::SetEnabled {
                action: DocumentAction::DualOddLeft,
                enabled: on && (v.n_pages matches Some(n) && n > 0),
            },
            taken,
        ],
        DocumentAction::EnableSpellchecking => seq![EffectModel::SetSpellchecking(on), taken],
        DocumentAction::ToggleFind => if on {
            seq![EffectModel::ShowFindBar] + only_if(!v.find_on, EffectModel::ActivateSearch)
                + seq![taken]
        } else {
            seq![EffectModel::CloseFindBar] + only_if(v.find_on, EffectModel::ReleaseSearch)
                + seq![taken]
        },
        _ => Seq::empty(),
    }
}

/// What an action does when its state is changed to a text, in order.
pub open spec fn naming(action: DocumentAction, v: ViewState, name: Seq<char>) -> Seq<EffectModel> {
    let taken = EffectModel::SetState { action, state: StateModel::Text(name) };
    match action {
        DocumentAction::SizingMode => seq![
            EffectModel::SetSizingMode(sizing_mode_named(name)->Some_0),
            taken,
        ],
        DocumentAction::AnnotColor => seq![EffectModel::SetAnnotationColor(name), taken],
        DocumentAction::AnnotTextmarkupType => marking(
            markup_named(name)->Some_0,
            v.has_selection,
            v.markup,
        ).push(taken),
        DocumentAction::EraserModeObjects => seq![
            EffectModel::SetEraserObjects(name == "true"@),
            taken,
        ],
        DocumentAction::PenColor => coloring(action, AnnotationTool::Pencil, name),
        DocumentAction::HighlightColor => coloring(action, AnnotationTool::Highlight, name),
        DocumentAction::TextColor => coloring(action, AnnotationTool::Text, name),
        _ => Seq::empty(),
    }
}

/// What an action does when its state is changed, in order. A radius is set
/// before the action has its state, and the popover closes after that.
pub open spec fn change(action: DocumentAction, v: ViewState, state: NewState) -> Seq<EffectModel> {
    match state {
        NewState::Switch(on) => switching(action, v, on),
        NewState::Number => seq![
            EffectModel::SetRadius(v.tool),
            EffectModel::SetState { action, state: StateModel::Number },
            EffectModel::ClosePopover(action),
        ],
        NewState::Text(s) => naming(action, v, s@),
    }
}

// ---------------------------------------------------------------------------
// The effects
// ---------------------------------------------------------------------------

fn one(effect: Effect) -> (v: Vec<Effect>)
    ensures
        effects(v@) == seq![effect@],
{
    let v = vec![effect];
    assert(effects(v@) =~= seq![effect@]);
    v
}

fn two(first: Effect, second: Effect) -> (v: Vec<Effect>)
    ensures
        effects(v@) == seq![first@, second@],
{
    let v = vec![first, second];
    assert(effects(v@) =~= seq![first@, second@]);
    v
}

fn three(first: Effect, second: Effect, third: Effect) -> (v: Vec<Effect>)
    ensures
        effects(v@) == seq![first@, second@, third@],
{
    let v = vec![first, second, third];
    assert(effects(v@) =~= seq![first@, second@, third@]);
    v
}

fn followed_by(list: Vec<Effect>, last: Effect) -> (v: Vec<Effect>)
    ensures
        effects(v@) == effects(list@).push(last@),
{
    let mut v = list;
    v.push(last);
    assert(effects(v@) =~= effects(list@).push(last@));
    v
}

fn when(applies: bool, effect: Effect) -> (v: Vec<Effect>)
    ensures
        effects(v@) == only_if(applies, effect@),
{
    if applies {
        one(effect)
    } else {
        let v: Vec<Effect> = Vec::new();
        assert(effects(v@) =~= Seq::<EffectModel>::empty());
        v
    }
}

fn go(from: i32, navigation: Navigation) -> (v: Vec<Effect>)
    requires
        navigation.history@ == noted(from, navigation.page),
    ensures
        effects(v@) == going(from, navigation.page),
{
    let mut v = one(Effect::SetPage(navigation.page));
    let ghost wanted = going(from, navigation.page);
    let mut i: usize = 0;
    while i < navigation.history.len()
        invariant
            i <= navigation.history@.len(),
            navigation.history@ == noted(from, navigation.page),
            wanted == going(from, navigation.page),
            v@.len() == i + 1,
            forall|k: int| 0 <= k < v@.len() ==> (#[trigger] v@[k])@ == wanted[k],
        decreases navigation.history@.len() - i,
    {
        v.push(Effect::AddHistory(navigation.history[i]));
        i = i + 1;
    }
    assert(effects(v@) =~= wanted);
    v
}

fn go_back(page: i32) -> (v: Vec<Effect>)
    ensures
        effects(v@) == only_if(page >= 0, EffectModel::AddHistory(page)) + seq![
            EffectModel::HistoryBack,
        ],
{
    let v = match go_back_history(page) {
        Some(p) => two(Effect::AddHistory(p), Effect::HistoryBack),
        None => one(Effect::HistoryBack),
    };
    assert(effects(v@) =~= only_if(page >= 0, EffectModel::AddHistory(page)) + seq![
        EffectModel::HistoryBack,
    ]);
    v
}

fn toggled(v: &ViewState) -> (e: EditingState)
    ensures
        e == toggled_editing(v.editing, v.tool),
{
    let mut view = PpsDocumentView { tool: v.tool, editing: v.editing };
    view.cmd_toggle_edit_mode();
    view.editing
}

fn escape(v: &ViewState) -> (r: Vec<Effect>)
    ensures
        effects(r@) == escaping(*v),
{
    let step = escape_step(
        v.find_shown,
        v.find_focused,
        v.fullscreen,
        v.collapsed,
        v.sidebar_shown,
        v.editing != EditingState::Nothing,
    );
    match step {
        EscapeStep::CloseFind => one(Effect::CloseFind),
        EscapeStep::LeaveFullscreen => one(Effect::LeaveFullscreen),
        EscapeStep::HideSidebar => one(Effect::ShowSidebar(false)),
        EscapeStep::LeaveEditing => one(Effect::SetEditing(toggled(v))),
        EscapeStep::Nothing => when(false, Effect::CloseFind),
    }
}

fn copy_address(uri: &Option<String>) -> (v: Vec<Effect>)
    ensures
        effects(v@) == copying_address(*uri),
{
    if let Some(u) = uri {
        if let Some(address) = email_address(u.as_str()) {
            assert(address@ =~= u@.skip("mailto:"@.len() as int));
            return one(Effect::SetClipboard(address));
        }
    }
    when(false, Effect::CopyLinkAddress)
}

fn find(selected_text: &Option<String>) -> (v: Vec<Effect>)
    ensures
        effects(v@) == finding(*selected_text),
{
    let ghost wanted = finding(*selected_text);
    match initial_search(selected_text.clone()) {
        Some(term) => {
            let mut v = two(Effect::SetSearchTerm(term), Effect::RestartSearch);
            let ghost before = effects(v@);
            v.push(Effect::SwitchFind(true));
            assert(effects(v@) =~= before.push(EffectModel::SwitchFind(true)));
            assert(effects(v@) =~= wanted);
            v
        },
        None => {
            let v = one(Effect::SwitchFind(true));
            assert(effects(v@) =~= wanted);
            v
        },
    }
}

/// What an action does when it is activated, in order.
pub fn activate(action: DocumentAction, v: &ViewState) -> (r: Vec<Effect>)
    requires
        can_activate(action, *v),
    ensures
        effects(r@) == activation(action, *v),
{
    match action {
        DocumentAction::OpenCopy => one(Effect::OpenCopy),
        DocumentAction::Escape => escape(v),
        DocumentAction::SelectPage => one(Effect::FocusPageSelector),
        DocumentAction::Print => {
            let (first, last): (i32, i32) = print_all(v.n_pages.unwrap());
            two(Effect::CloseMenu, Effect::Print { first, last })
        },
        DocumentAction::SaveAs => one(Effect::SaveAs),
        DocumentAction::AddWatermark => one(Effect::AskWatermark),
        DocumentAction::ShowProperties => one(Effect::ShowProperties),
        DocumentAction::SelectAll => one(Effect::SelectAll),
        DocumentAction::ZoomIn => two(Effect::SetSizingMode(SizingMode::Free), Effect::ZoomIn),
        DocumentAction::ZoomOut => two(Effect::SetSizingMode(SizingMode::Free), Effect::ZoomOut),
        DocumentAction::Zoom => two(Effect::SetSizingMode(SizingMode::Free), Effect::SetScale),
        DocumentAction::GoPreviousPage => one(Effect::PreviousPage),
        DocumentAction::GoNextPage => one(Effect::NextPage),
        DocumentAction::GoFirstPage => go(v.page, go_first_page(v.page)),
        DocumentAction::GoLastPage => go(v.page, go_last_page(v.page, v.n_pages.unwrap())),
        DocumentAction::RotateLeft => one(Effect::SetRotation(rotate_left(v.rotation))),
        DocumentAction::RotateRight => one(Effect::SetRotation(rotate_right(v.rotation))),
        DocumentAction::RotatePageLeft => one(
            Effect::SetPageRotation {
                page: v.target_page,
                rotation: rotate_left(v.target_rotation),
            },
        ),
        DocumentAction::RotatePageRight => one(
            Effect::SetPageRotation {
                page: v.target_page,
                rotation: rotate_right(v.target_rotation),
            },
        ),
        DocumentAction::BookmarkPage => one(
            Effect::SetBookmark { page: v.target_page, bookmarked: true },
        ),
        DocumentAction::RemoveBookmarkPage => one(
            Effect::SetBookmark { page: v.target_page, bookmarked: false },
        ),
        DocumentAction::Copy => one(Effect::Copy),
        DocumentAction::Undo => one(Effect::Undo),
        DocumentAction::Redo => one(Effect::Redo),
        DocumentAction::CaretNavigation => two(
            Effect::SetCaretNavigation(!v.caret_navigation),
            Effect::Announce(caret_navigation_message(v.caret_navigation)),
        ),
        DocumentAction::OpenLink => one(Effect::FollowLink),
        DocumentAction::SendEmail => one(Effect::FollowLink),
        DocumentAction::GoToLink => one(Effect::FollowLink),
        DocumentAction::OpenLinkNewWindow => when(v.link_has_destination, Effect::OpenCopyAtLink),
        DocumentAction::CopyLinkAddress => when(v.link_has_action, Effect::CopyLinkAddress),
        DocumentAction::CopyEmailAddress => copy_address(&v.link_uri),
        DocumentAction::CopyImage => when(v.has_image, Effect::CopyImage),
        DocumentAction::SaveImage => when(v.has_image, Effect::SaveImage),
        DocumentAction::RemoveAnnot => when(v.has_annotation, Effect::RemoveAnnotation),
        DocumentAction::EditAnnot => when(v.has_annotation, Effect::EditAnnotation),
        DocumentAction::DigitalSigning => one(Effect::Sign),
        DocumentAction::AddTextAnnotation => one(Effect::AddTextAnnotation),
        DocumentAction::ToggleEditMode => one(Effect::SetEditing(toggled(v))),
        DocumentAction::OpenAttachment => when(v.has_attachment, Effect::OpenAttachment),
        DocumentAction::SaveAttachment => when(v.has_attachment, Effect::SaveAttachment),
        DocumentAction::AnnotProperties => when(v.has_annotation, Effect::ShowAnnotationProperties),
        DocumentAction::OpenWith => when(v.has_file, Effect::OpenWith),
        DocumentAction::Find => find(&v.selected_text),
        DocumentAction::FindNext => one(Effect::FindNext),
        DocumentAction::FindPrevious => one(Effect::FindPrevious),
        DocumentAction::GoBackHistory => go_back(v.page),
        DocumentAction::GoForwardHistory => one(Effect::HistoryForward),
        DocumentAction::GoForward => one(
            Effect::SetPage(go_forward(v.page, v.n_pages.unwrap())),
        ),
        DocumentAction::GoBackwards => one(Effect::SetPage(go_backwards(v.page))),
        _ => when(false, Effect::OpenCopy),
    }
}

/// Whether an action can be activated.
pub fn is_activatable(action: DocumentAction, v: &ViewState) -> (r: bool)
    ensures
        r == can_activate(action, *v),
{
    match action {
        DocumentAction::Print => v.n_pages.is_some(),
        DocumentAction::GoLastPage => v.n_pages.is_some(),
        DocumentAction::RotateLeft => v.rotation >= i32::MIN + QUARTER_TURN,
        DocumentAction::RotateRight => v.rotation <= i32::MAX - QUARTER_TURN,
        DocumentAction::RotatePageLeft => v.target_rotation >= i32::MIN + QUARTER_TURN,
        DocumentAction::RotatePageRight => v.target_rotation <= i32::MAX - QUARTER_TURN,
        DocumentAction::OpenLink => v.has_link,
        DocumentAction::SendEmail => v.has_link,
        DocumentAction::GoToLink => v.has_link,
        DocumentAction::GoForward => v.page <= i32::MAX - PAGE_JUMP && match v.n_pages {
            Some(n) => n > i32::MIN,
            None => false,
        },
        DocumentAction::GoBackwards => v.page >= i32::MIN + PAGE_JUMP,
        _ => action.initial_state().is_none(),
    }
}

fn mark(markup: Option<TextMarkup>, has_selection: bool, current: Option<TextMarkup>) -> (v: Vec<
    Effect,
>)
    ensures
        effects(v@) == marking(markup, has_selection, current),
{
    match markup_change(markup, has_selection, current) {
        MarkupChange::Nothing => when(false, Effect::Undo),
        MarkupChange::MarkSelection(m) => one(Effect::MarkSelection(m)),
        MarkupChange::ChangeAnnotation(m) => one(Effect::ChangeMarkup(m)),
    }
}

fn color(action: DocumentAction, tool: AnnotationTool, name: String) -> (v: Vec<Effect>)
    requires
        pen_color(name@) is Some,
        tool !is Eraser,
    ensures
        effects(v@) == coloring(action, tool, name@),
{
    let view = PpsDocumentView { tool, editing: EditingState::Nothing };
    let pen = view.cmd_pen_color_state(tool, name.as_str());
    let v = three(
        Effect::SetColor { tool, color: pen.color, opacity: pen.opacity },
        Effect::SetState { action, state: NewState::Text(name) },
        Effect::ClosePopover(action),
    );
    assert(effects(v@) =~= coloring(action, tool, name@));
    v
}

fn switch(action: DocumentAction, v: &ViewState, on: bool) -> (r: Vec<Effect>)
    ensures
        effects(r@) == switching(action, *v, on),
{
    let taken = Effect::SetState { action, state: NewState::Switch(on) };
    match action {
        DocumentAction::ShowSidebar => two(taken, Effect::ShowSidebar(on)),
        DocumentAction::Continuous => two(Effect::SetContinuous(on), taken),
        DocumentAction::Rtl => two(Effect::SetRightToLeft(on), taken),
        DocumentAction::DualOddLeft => two(Effect::SetOddPagesLeft(on), taken),
        DocumentAction::DualPage => three(
            Effect::SetDualPage(on),
            Effect::SetEnabled {
                action: DocumentAction::DualOddLeft,
                enabled: dual_odd_left_enabled(on, v.n_pages),
            },
            taken,
        ),
        DocumentAction::EnableSpellchecking => two(Effect::SetSpellchecking(on), taken),
        DocumentAction::ToggleFind => {
            let change = toggle_find(on, v.find_on);
            let bar = if change.show {
                Effect::ShowFindBar
            } else {
                Effect::CloseFindBar
            };
            let r = if change.activate {
                three(bar, Effect::ActivateSearch, taken)
            } else if change.release {
                three(bar, Effect::ReleaseSearch, taken)
            } else {
                two(bar, taken)
            };
            assert(effects(r@) =~= switching(action, *v, on));
            r
        },
        _ => when(false, Effect::OpenCopy),
    }
}

fn name(action: DocumentAction, v: &ViewState, text: String) -> (r: Vec<Effect>)
    requires
        can_change(action, *v, NewState::Text(text)),
    ensures
        effects(r@) == naming(action, *v, text@),
{
    match action {
        DocumentAction::SizingMode => two(
            Effect::SetSizingMode(sizing_mode(text.as_str()).unwrap()),
            Effect::SetState { action, state: NewState::Text(text) },
        ),
        DocumentAction::AnnotColor => two(
            Effect::SetAnnotationColor(text.clone()),
            Effect::SetState { action, state: NewState::Text(text) },
        ),
        DocumentAction::AnnotTextmarkupType => followed_by(
            mark(text_markup(text.as_str()).unwrap(), v.has_selection, v.markup),
            Effect::SetState { action, state: NewState::Text(text) },
        ),
        DocumentAction::EraserModeObjects => two(
            Effect::SetEraserObjects(same_text(&chars_of(text.as_str()), &chars_of("true"))),
            Effect::SetState { action, state: NewState::Text(text) },
        ),
        DocumentAction::PenColor => color(action, AnnotationTool::Pencil, text),
        DocumentAction::HighlightColor => color(action, AnnotationTool::Highlight, text),
        DocumentAction::TextColor => color(action, AnnotationTool::Text, text),
        _ => when(false, Effect::OpenCopy),
    }
}

/// What an action does when its state is changed, in order.
pub fn change_state(action: DocumentAction, v: &ViewState, state: NewState) -> (r: Vec<Effect>)
    requires
        can_change(action, *v, state),
    ensures
        effects(r@) == change(action, *v, state),
{
    match state {
        NewState::Switch(on) => switch(action, v, on),
        NewState::Number => {
            let view = PpsDocumentView { tool: v.tool, editing: v.editing };
            three(
                Effect::SetRadius(view.cmd_radius_state()),
                Effect::SetState { action, state: NewState::Number },
                Effect::ClosePopover(action),
            )
        },
        NewState::Text(s) => name(action, v, s),
    }
}

/// Whether the state of an action can be changed to that.
pub fn is_changeable(action: DocumentAction, v: &ViewState, state: &NewState) -> (r: bool)
    ensures
        r == can_change(action, *v, *state),
{
    match state {
        NewState::Switch(_) => match action {
            DocumentAction::ShowSidebar => true,
            DocumentAction::Continuous => true,
            DocumentAction::Rtl => true,
            DocumentAction::DualOddLeft => true,
            DocumentAction::DualPage => true,
            DocumentAction::EnableSpellchecking => true,
            DocumentAction::ToggleFind => true,
            _ => false,
        },
        NewState::Number => match action {
            DocumentAction::EraserRadius => v.tool != AnnotationTool::Text,
            DocumentAction::PenStroke => v.tool != AnnotationTool::Text,
            DocumentAction::HighlightStroke => v.tool != AnnotationTool::Text,
            _ => false,
        },
        NewState::Text(s) => match action {
            DocumentAction::SizingMode => sizing_mode(s.as_str()).is_some(),
            DocumentAction::AnnotColor => true,
            DocumentAction::AnnotTextmarkupType => text_markup(s.as_str()).is_some(),
            DocumentAction::EraserModeObjects => true,
            DocumentAction::PenColor => pen_color_value(s.as_str()).is_some(),
            DocumentAction::HighlightColor => pen_color_value(s.as_str()).is_some(),
            DocumentAction::TextColor => pen_color_value(s.as_str()).is_some(),
            _ => false,
        },
    }
}

// ---------------------------------------------------------------------------
// Laws
// ---------------------------------------------------------------------------

/// An action is either one to activate or one whose state is changed, by
/// whether it starts with a state; it is never both.
pub proof fn activated_or_changed(action: DocumentAction, v: ViewState, state: NewState)
    ensures
        can_activate(action, v) ==> initial_state(action) is None,
        can_change(action, v, state) ==> initial_state(action) is Some,
{
}

/// Whether an effect takes over a state.
pub open spec fn takes_state(effect: EffectModel) -> bool {
    effect is SetState
}

/// A change of an action's state takes that state over, and no other, for that
/// action and no other, once; an activation takes none over.
pub proof fn state_is_taken_over(action: DocumentAction, v: ViewState, state: NewState)
    ensures
        can_change(action, v, state) ==> exists|i: int|
            0 <= i < change(action, v, state).len() && change(action, v, state)[i] == (
            EffectModel::SetState { action, state: state@ }) && forall|j: int|
                0 <= j < change(action, v, state).len() && #[trigger] takes_state(
                    change(action, v, state)[j],
                ) ==> j == i,
        forall|j: int|
            0 <= j < activation(action, v).len() ==> !takes_state(
                #[trigger] activation(action, v)[j],
            ),
{
    if can_change(action, v, state) {
        let list = change(action, v, state);
        let last = list.len() - 1;
        let i: int = match action {
            DocumentAction::ShowSidebar => 0,
            DocumentAction::EraserRadius => 1,
            DocumentAction::PenStroke => 1,
            DocumentAction::HighlightStroke => 1,
            DocumentAction::PenColor => 1,
            DocumentAction::HighlightColor => 1,
            DocumentAction::TextColor => 1,
            _ => last,
        };
        assert(list[i] == (EffectModel::SetState { action, state: state@ }));
        assert(takes_state(list[i]));
    }
}

/// The escape key does one thing at most, and only ever leaves something: it
/// does not show the sidebar, and starts to edit nothing, unless a stamp is
/// being placed.
pub proof fn escape_only_leaves(v: ViewState)
    requires
        v.editing !is Stamp,
    ensures
        escaping(v).len() <= 1,
        forall|i: int|
            0 <= i < escaping(v).len() ==> match #[trigger] escaping(v)[i] {
                EffectModel::ShowSidebar(shown) => !shown,
                EffectModel::SetEditing(e) => e is Nothing,
                EffectModel::CloseFind => true,
                EffectModel::LeaveFullscreen => true,
                _ => false,
            },
{
}

/// Turning to the left and turning to the right each set one rotation, a quarter turn
/// from the one before, to either side; a page that is turned is the one that the
/// menu was opened on.
pub proof fn turns_go_a_quarter(v: ViewState) -> (r: (i32, i32, i32, i32))
    requires
        can_activate(DocumentAction::RotateLeft, v),
        can_activate(DocumentAction::RotateRight, v),
        can_activate(DocumentAction::RotatePageLeft, v),
        can_activate(DocumentAction::RotatePageRight, v),
    ensures
        activation(DocumentAction::RotateLeft, v) == seq![EffectModel::SetRotation(r.0)],
        r.0 + 90 == v.rotation,
        activation(DocumentAction::RotateRight, v) == seq![EffectModel::SetRotation(r.1)],
        r.1 - 90 == v.rotation,
        activation(DocumentAction::RotatePageLeft, v) == seq![
            EffectModel::SetPageRotation { page: v.target_page, rotation: r.2 },
        ],
        r.2 + 90 == v.target_rotation,
        activation(DocumentAction::RotatePageRight, v) == seq![
            EffectModel::SetPageRotation { page: v.target_page, rotation: r.3 },
        ],
        r.3 - 90 == v.target_rotation,
{
    (
        (v.rotation - QUARTER_TURN) as i32,
        (v.rotation + QUARTER_TURN) as i32,
        (v.target_rotation - QUARTER_TURN) as i32,
        (v.target_rotation + QUARTER_TURN) as i32,
    )
}

/// Every action that goes to a page by number sets one page: the first, the end of
/// the document, or one up to ten pages on or back inside the document. Going to the
/// first or the end notes the page before and the page gone to, where both are pages.
pub proof fn going_sets_one_page(v: ViewState, n: i32) -> (r: (i32, i32))
    requires
        v.n_pages == Some(n),
        0 <= v.page < n,
        v.page <= i32::MAX - 10,
    ensures
        activation(DocumentAction::GoFirstPage, v) == seq![
            EffectModel::SetPage(0),
            EffectModel::AddHistory(v.page),
            EffectModel::AddHistory(0),
        ],
        activation(DocumentAction::GoLastPage, v) == seq![
            EffectModel::SetPage(n),
            EffectModel::AddHistory(v.page),
            EffectModel::AddHistory(n),
        ],
        activation(DocumentAction::GoForward, v) == seq![EffectModel::SetPage(r.0)],
        v.page <= r.0 < n,
        r.0 == v.page + 10 || (r.0 == n - 1 && r.0 < v.page + 10),
        activation(DocumentAction::GoBackwards, v) == seq![EffectModel::SetPage(r.1)],
        0 <= r.1 <= v.page,
        r.1 == v.page - 10 || (r.1 == 0 && r.1 > v.page - 10),
        activation(DocumentAction::GoBackHistory, v) == seq![
            EffectModel::AddHistory(v.page),
            EffectModel::HistoryBack,
        ],
{
    assert(activation(DocumentAction::GoFirstPage, v) =~= seq![
        EffectModel::SetPage(0),
        EffectModel::AddHistory(v.page),
        EffectModel::AddHistory(0),
    ]);
    assert(activation(DocumentAction::GoLastPage, v) =~= seq![
        EffectModel::SetPage(n),
        EffectModel::AddHistory(v.page),
        EffectModel::AddHistory(n),
    ]);
    assert(activation(DocumentAction::GoBackHistory, v) =~= seq![
        EffectModel::AddHistory(v.page),
        EffectModel::HistoryBack,
    ]);
    (
        page_ahead(v.page as int, n as int) as i32,
        page_behind(v.page as int) as i32,
    )
}

/// The mail address that is copied is what a mail link holds behind its mark, to the
/// letter; no other link has one.
pub proof fn copied_address_is_the_rest_of_the_link(v: ViewState, address: Seq<char>)
    ensures
        activation(DocumentAction::CopyEmailAddress, v).contains(
            EffectModel::SetClipboard(address),
        ) <==> (v.link_uri matches Some(u) && u@ == "mailto:"@ + address),
        activation(DocumentAction::CopyEmailAddress, v).len() <= 1,
{
    let mark = "mailto:"@;
    let list = activation(DocumentAction::CopyEmailAddress, v);
    if let Some(u) = v.link_uri {
        if occurs_at(u@, mark, 0) {
            assert(u@ =~= u@.subrange(0, mark.len() as int) + u@.skip(mark.len() as int));
            assert(list[0] == EffectModel::SetClipboard(u@.skip(mark.len() as int)));
        }
        if u@ == mark + address {
            assert(u@.subrange(0, mark.len() as int) =~= mark);
            assert(u@.skip(mark.len() as int) =~= address);
        }
    }
}

/// Finding shows the find bar; where a text is selected, it looks for that text, from
/// the start.
pub proof fn finding_looks_for_the_selected_text(v: ViewState, term: Seq<char>)
    ensures
        activation(DocumentAction::Find, v).contains(EffectModel::SetSearchTerm(term)) <==> (
        v.selected_text matches Some(t) && t@ == term && term.len() > 0),
        activation(DocumentAction::Find, v).contains(EffectModel::RestartSearch) <==> (
        v.selected_text matches Some(t) && t@.len() > 0),
        activation(DocumentAction::Find, v).last() == EffectModel::SwitchFind(true),
{
    let list = activation(DocumentAction::Find, v);
    if let Some(t) = v.selected_text {
        if t@.len() > 0 {
            assert(list[0] == EffectModel::SetSearchTerm(t@));
            assert(list[1] == EffectModel::RestartSearch);
        }
    }
}

/// What an action on something under the menu does, it does where there is such a
/// thing, and nothing where there is none.
pub proof fn nothing_is_done_on_what_is_not_there(v: ViewState)
    ensures
        activation(DocumentAction::CopyImage, v).contains(EffectModel::CopyImage) == v.has_image,
        activation(DocumentAction::SaveImage, v).contains(EffectModel::SaveImage) == v.has_image,
        activation(DocumentAction::RemoveAnnot, v).contains(EffectModel::RemoveAnnotation)
            == v.has_annotation,
        activation(DocumentAction::EditAnnot, v).contains(EffectModel::EditAnnotation)
            == v.has_annotation,
        activation(DocumentAction::AnnotProperties, v).contains(
            EffectModel::ShowAnnotationProperties,
        ) == v.has_annotation,
        activation(DocumentAction::OpenAttachment, v).contains(EffectModel::OpenAttachment)
            == v.has_attachment,
        activation(DocumentAction::SaveAttachment, v).contains(EffectModel::SaveAttachment)
            == v.has_attachment,
        activation(DocumentAction::OpenWith, v).contains(EffectModel::OpenWith) == v.has_file,
        activation(DocumentAction::CopyLinkAddress, v).contains(EffectModel::CopyLinkAddress)
            == v.link_has_action,
        activation(DocumentAction::OpenLinkNewWindow, v).contains(EffectModel::OpenCopyAtLink)
            == v.link_has_destination,
        !v.has_image ==> activation(DocumentAction::CopyImage, v).len() == 0 && activation(
            DocumentAction::SaveImage,
            v,
        ).len() == 0,
        !v.has_annotation ==> activation(DocumentAction::RemoveAnnot, v).len() == 0 && activation(
            DocumentAction::EditAnnot,
            v,
        ).len() == 0,
{
    lemma_only_if(v.has_image, EffectModel::CopyImage);
    lemma_only_if(v.has_image, EffectModel::SaveImage);
    lemma_only_if(v.has_annotation, EffectModel::RemoveAnnotation);
    lemma_only_if(v.has_annotation, EffectModel::EditAnnotation);
    lemma_only_if(v.has_annotation, EffectModel::ShowAnnotationProperties);
    lemma_only_if(v.has_attachment, EffectModel::OpenAttachment);
    lemma_only_if(v.has_attachment, EffectModel::SaveAttachment);
    lemma_only_if(v.has_file, EffectModel::OpenWith);
    lemma_only_if(v.link_has_action, EffectModel::CopyLinkAddress);
    lemma_only_if(v.link_has_destination, EffectModel::OpenCopyAtLink);
}

proof fn lemma_only_if(applies: bool, effect: EffectModel)
    ensures
        only_if(applies, effect).contains(effect) == applies,
{
    if applies {
        assert(only_if(applies, effect)[0] == effect);
    }
}

/// Bookmarking, and taking a bookmark away, is done on the page that the menu was
/// opened on.
pub proof fn bookmark_is_on_the_page_of_the_menu(v: ViewState, page: i32, bookmarked: bool)
    ensures
        activation(DocumentAction::BookmarkPage, v).contains(
            (EffectModel::SetBookmark { page, bookmarked }),
        ) <==> page == v.target_page && bookmarked,
        activation(DocumentAction::RemoveBookmarkPage, v).contains(
            (EffectModel::SetBookmark { page, bookmarked }),
        ) <==> page == v.target_page && !bookmarked,
{
    assert(activation(DocumentAction::BookmarkPage, v)[0] == (EffectModel::SetBookmark {
        page: v.target_page,
        bookmarked: true,
    }));
    assert(activation(DocumentAction::RemoveBookmarkPage, v)[0] == (EffectModel::SetBookmark {
        page: v.target_page,
        bookmarked: false,
    }));
}

/// The escape key closes the find bar where the focus is in it; else it leaves the
/// full screen; else it hides a sidebar that covers the document; else it ends the
/// editing; else it does nothing.
pub proof fn escape_leaves_what_is_nearest(v: ViewState)
    ensures
        v.find_shown && v.find_focused ==> escaping(v) == seq![EffectModel::CloseFind],
        !(v.find_shown && v.find_focused) && v.fullscreen ==> escaping(v) == seq![
            EffectModel::LeaveFullscreen,
        ],
        !(v.find_shown && v.find_focused) && !v.fullscreen && v.collapsed && v.sidebar_shown
            ==> escaping(v) == seq![EffectModel::ShowSidebar(false)],
        !(v.find_shown && v.find_focused) && !v.fullscreen && !(v.collapsed && v.sidebar_shown) ==> (
        escaping(v).len() == 0 <==> v.editing is Nothing),
{
}

/// A switch passes the state that it is changed to on, and not the other one.
pub proof fn switch_passes_its_state_on(v: ViewState, on: bool, other: bool)
    ensures
        change(DocumentAction::ShowSidebar, v, NewState::Switch(on)).contains(
            EffectModel::ShowSidebar(other),
        ) <==> on == other,
        change(DocumentAction::Continuous, v, NewState::Switch(on)).contains(
            EffectModel::SetContinuous(other),
        ) <==> on == other,
        change(DocumentAction::Rtl, v, NewState::Switch(on)).contains(
            EffectModel::SetRightToLeft(other),
        ) <==> on == other,
        change(DocumentAction::DualOddLeft, v, NewState::Switch(on)).contains(
            EffectModel::SetOddPagesLeft(other),
        ) <==> on == other,
        change(DocumentAction::DualPage, v, NewState::Switch(on)).contains(
            EffectModel::SetDualPage(other),
        ) <==> on == other,
        change(DocumentAction::EnableSpellchecking, v, NewState::Switch(on)).contains(
            EffectModel::SetSpellchecking(other),
        ) <==> on == other,
        change(DocumentAction::DualPage, v, NewState::Switch(on)).contains(
            (EffectModel::SetEnabled { action: DocumentAction::DualOddLeft, enabled: other }),
        ) <==> other == (on && (v.n_pages matches Some(n) && n > 0)),
{
    assert(change(DocumentAction::ShowSidebar, v, NewState::Switch(on))[1]
        == EffectModel::ShowSidebar(on));
    assert(change(DocumentAction::Continuous, v, NewState::Switch(on))[0]
        == EffectModel::SetContinuous(on));
    assert(change(DocumentAction::Rtl, v, NewState::Switch(on))[0] == EffectModel::SetRightToLeft(
        on,
    ));
    assert(change(DocumentAction::DualOddLeft, v, NewState::Switch(on))[0]
        == EffectModel::SetOddPagesLeft(on));
    assert(change(DocumentAction::DualPage, v, NewState::Switch(on))[0]
        == EffectModel::SetDualPage(on));
    assert(change(DocumentAction::DualPage, v, NewState::Switch(on))[1]
        == (EffectModel::SetEnabled {
        action: DocumentAction::DualOddLeft,
        enabled: on && (v.n_pages matches Some(n) && n > 0),
    }));
    assert(change(DocumentAction::EnableSpellchecking, v, NewState::Switch(on))[0]
        == EffectModel::SetSpellchecking(on));
}

/// The search starts when the find bar comes up and ends when it goes; where the bar
/// stays as it is, the search goes on as it was.
pub proof fn search_follows_the_find_bar(v: ViewState, on: bool)
    ensures
        ({
            let list = change(DocumentAction::ToggleFind, v, NewState::Switch(on));
            &&& list.contains(EffectModel::ShowFindBar) == on
            &&& list.contains(EffectModel::CloseFindBar) == !on
            &&& list.contains(EffectModel::ActivateSearch) == (on && !v.find_on)
            &&& list.contains(EffectModel::ReleaseSearch) == (!on && v.find_on)
        }),
{
    let list = change(DocumentAction::ToggleFind, v, NewState::Switch(on));
    if on {
        assert(list[0] == EffectModel::ShowFindBar);
        if !v.find_on {
            assert(list[1] == EffectModel::ActivateSearch);
        }
    } else {
        assert(list[0] == EffectModel::CloseFindBar);
        if v.find_on {
            assert(list[1] == EffectModel::ReleaseSearch);
        }
    }
}

/// A color that is chosen by name is given to the tool of the action and to no
/// other; the highlighter alone lets the page shine through.
pub proof fn color_goes_to_the_tool_of_the_action(
    v: ViewState,
    name: String,
    color: Seq<char>,
    tool: AnnotationTool,
    opacity: u32,
)
    requires
        pen_color(name@) == Some(color),
    ensures
        change(DocumentAction::PenColor, v, NewState::Text(name)).contains(
            (EffectModel::SetColor { tool, color, opacity }),
        ) <==> tool is Pencil && opacity == 100,
        change(DocumentAction::HighlightColor, v, NewState::Text(name)).contains(
            (EffectModel::SetColor { tool, color, opacity }),
        ) <==> tool is Highlight && opacity == 70,
        change(DocumentAction::TextColor, v, NewState::Text(name)).contains(
            (EffectModel::SetColor { tool, color, opacity }),
        ) <==> tool is Text && opacity == 100,
{
    assert(change(DocumentAction::PenColor, v, NewState::Text(name))[0] == (EffectModel::SetColor {
        tool: AnnotationTool::Pencil,
        color,
        opacity: 100,
    }));
    assert(change(DocumentAction::HighlightColor, v, NewState::Text(name))[0]
        == (EffectModel::SetColor { tool: AnnotationTool::Highlight, color, opacity: 70 }));
    assert(change(DocumentAction::TextColor, v, NewState::Text(name))[0]
        == (EffectModel::SetColor { tool: AnnotationTool::Text, color, opacity: 100 }));
}

/// A markup goes to the selection, where there is one; else to the annotation at
/// hand, where that is a markup of another kind; no markup goes nowhere.
pub proof fn markup_goes_to_the_selection_first(
    markup: TextMarkup,
    has_selection: bool,
    current: Option<TextMarkup>,
    other: TextMarkup,
)
    ensures
        marking(Some(markup), has_selection, current).contains(EffectModel::MarkSelection(other))
            <==> has_selection && other == markup,
        marking(Some(markup), has_selection, current).contains(EffectModel::ChangeMarkup(other))
            <==> !has_selection && other == markup && (current matches Some(m) && m != markup),
        marking(Some(markup), has_selection, current).len() <= 1,
        marking(None, has_selection, current).len() == 0,
{
    let list = marking(Some(markup), has_selection, current);
    if has_selection {
        assert(list[0] == EffectModel::MarkSelection(markup));
    } else if let Some(m) = current {
        if m != markup {
            assert(list[0] == EffectModel::ChangeMarkup(markup));
        }
    }
}

/// The state that an action starts with is one that it can be changed to, by kind and
/// by name.
pub proof fn action_starts_in_a_state_of_its_own(action: DocumentAction, v: ViewState, name: String)
    requires
        v.tool !is Text,
    ensures
        match initial_state(action) {
            Some(ActionStateModel::Switch(b)) => can_change(action, v, NewState::Switch(b)),
            Some(ActionStateModel::Number(_)) => can_change(action, v, NewState::Number),
            Some(ActionStateModel::Text(s)) => name@ == s ==> can_change(
                action,
                v,
                NewState::Text(name),
            ),
            Some(ActionStateModel::AnnotationColor) => can_change(action, v, NewState::Text(name)),
            None => !can_change(action, v, NewState::Text(name)) && !can_change(
                action,
                v,
                NewState::Number,
            ) && !can_change(action, v, NewState::Switch(true)),
        },
{
}

} // verus!
