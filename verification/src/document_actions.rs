//! The actions of a document: their names, what they take, and the state each
//! of them starts with.
use vstd::prelude::*;

verus! {

/// An action of a document.
#[derive(Clone, Copy, Debug, PartialEq, Eq, Structural)]
pub enum DocumentAction {
    OpenCopy,
    Escape,
    ShowSidebar,
    SelectPage,
    Print,
    SaveAs,
    AddWatermark,
    ShowProperties,
    Continuous,
    Rtl,
    DualOddLeft,
    DualPage,
    SelectAll,
    ZoomIn,
    ZoomOut,
    Zoom,
    SizingMode,
    AnnotColor,
    AnnotTextmarkupType,
    EnableSpellchecking,
    GoPreviousPage,
    GoNextPage,
    GoFirstPage,
    GoLastPage,
    RotateLeft,
    RotateRight,
    RotatePageLeft,
    RotatePageRight,
    BookmarkPage,
    RemoveBookmarkPage,
    Copy,
    Undo,
    Redo,
    CaretNavigation,
    OpenLink,
    SendEmail,
    GoToLink,
    OpenLinkNewWindow,
    CopyLinkAddress,
    CopyEmailAddress,
    CopyImage,
    SaveImage,
    RemoveAnnot,
    EditAnnot,
    DigitalSigning,
    AddTextAnnotation,
    ToggleEditMode,
    EraserRadius,
    PenStroke,
    HighlightStroke,
    EraserModeObjects,
    PenColor,
    HighlightColor,
    TextColor,
    OpenAttachment,
    SaveAttachment,
    AnnotProperties,
    OpenWith,
    ToggleFind,
    Find,
    FindNext,
    FindPrevious,
    GoBackHistory,
    GoForwardHistory,
    GoForward,
    GoBackwards,
}

/// What an action is activated with.
#[derive(Clone, Copy, Debug, PartialEq, Eq, Structural)]
pub enum ActionParameter {
    Number,
    Text,
}

/// The state that an action starts with.
#[derive(Debug)]
pub enum ActionState {
    Switch(bool),
    Number(u32),
    Text(String),
    /// The color that annotations start with.
    AnnotationColor,
}

/// An [`ActionState`] as a mathematical value.
pub enum ActionStateModel {
    Switch(bool),
    Number(u32),
    Text(Seq<char>),
    AnnotationColor,
}

impl View for ActionState {
    type V = ActionStateModel;

    open spec fn view(&self) -> ActionStateModel {
        match *self {
            ActionState::Switch(b) => ActionStateModel::Switch(b),
            ActionState::Number(n) => ActionStateModel::Number(n),
            ActionState::Text(s) => ActionStateModel::Text(s@),
            ActionState::AnnotationColor => ActionStateModel::AnnotationColor,
        }
    }
}

/// The actions of a document, in the order they are added in.
pub open spec fn all_actions() -> Seq<DocumentAction> {
    seq![
        DocumentAction::OpenCopy,
        DocumentAction::Escape,
        DocumentAction::ShowSidebar,
        DocumentAction::SelectPage,
        DocumentAction::Print,
        DocumentAction::SaveAs,
        DocumentAction::AddWatermark,
        DocumentAction::ShowProperties,
        DocumentAction::Continuous,
        DocumentAction::Rtl,
        DocumentAction::DualOddLeft,
        DocumentAction::DualPage,
        DocumentAction::SelectAll,
        DocumentAction::ZoomIn,
        DocumentAction::ZoomOut,
        DocumentAction::Zoom,
        DocumentAction::SizingMode,
        DocumentAction::AnnotColor,
        DocumentAction::AnnotTextmarkupType,
        DocumentAction::EnableSpellchecking,
        DocumentAction::GoPreviousPage,
        DocumentAction::GoNextPage,
        DocumentAction::GoFirstPage,
        DocumentAction::GoLastPage,
        DocumentAction::RotateLeft,
        DocumentAction::RotateRight,
        DocumentAction::RotatePageLeft,
        DocumentAction::RotatePageRight,
        DocumentAction::BookmarkPage,
        DocumentAction::RemoveBookmarkPage,
        DocumentAction::Copy,
        DocumentAction::Undo,
        DocumentAction::Redo,
        DocumentAction::CaretNavigation,
        DocumentAction::OpenLink,
        DocumentAction::SendEmail,
        DocumentAction::GoToLink,
        DocumentAction::OpenLinkNewWindow,
        DocumentAction::CopyLinkAddress,
        DocumentAction::CopyEmailAddress,
        DocumentAction::CopyImage,
        DocumentAction::SaveImage,
        DocumentAction::RemoveAnnot,
        DocumentAction::EditAnnot,
        DocumentAction::DigitalSigning,
        DocumentAction::AddTextAnnotation,
        DocumentAction::ToggleEditMode,
        DocumentAction::EraserRadius,
        DocumentAction::PenStroke,
        DocumentAction::HighlightStroke,
        DocumentAction::EraserModeObjects,
        DocumentAction::PenColor,
        DocumentAction::HighlightColor,
        DocumentAction::TextColor,
        DocumentAction::OpenAttachment,
        DocumentAction::SaveAttachment,
        DocumentAction::AnnotProperties,
        DocumentAction::OpenWith,
        DocumentAction::ToggleFind,
        DocumentAction::Find,
        DocumentAction::FindNext,
        DocumentAction::FindPrevious,
        DocumentAction::GoBackHistory,
        DocumentAction::GoForwardHistory,
        DocumentAction::GoForward,
        DocumentAction::GoBackwards,
    ]
}

/// The name of an action.
pub open spec fn action_name(action: DocumentAction) -> Seq<char> {
    match action {
        DocumentAction::OpenCopy => "open-copy"@,
        DocumentAction::Escape => "escape"@,
        DocumentAction::ShowSidebar => "show-sidebar"@,
        DocumentAction::SelectPage => "select-page"@,
        DocumentAction::Print => "print"@,
        DocumentAction::SaveAs => "save-as"@,
        DocumentAction::AddWatermark => "add-watermark"@,
        DocumentAction::ShowProperties => "show-properties"@,
        DocumentAction::Continuous => "continuous"@,
        DocumentAction::Rtl => "rtl"@,
        DocumentAction::DualOddLeft => "dual-odd-left"@,
        DocumentAction::DualPage => "dual-page"@,
        DocumentAction::SelectAll => "select-all"@,
        DocumentAction::ZoomIn => "zoom-in"@,
        DocumentAction::ZoomOut => "zoom-out"@,
        DocumentAction::Zoom => "zoom"@,
        DocumentAction::SizingMode => "sizing-mode"@,
        DocumentAction::AnnotColor => "annot-color"@,
        DocumentAction::AnnotTextmarkupType => "annot-textmarkup-type"@,
        DocumentAction::EnableSpellchecking => "enable-spellchecking"@,
        DocumentAction::GoPreviousPage => "go-previous-page"@,
        DocumentAction::GoNextPage => "go-next-page"@,
        DocumentAction::GoFirstPage => "go-first-page"@,
        DocumentAction::GoLastPage => "go-last-page"@,
        DocumentAction::RotateLeft => "rotate-left"@,
        DocumentAction::RotateRight => "rotate-right"@,
        DocumentAction::RotatePageLeft => "rotate-page-left"@,
        DocumentAction::RotatePageRight => "rotate-page-right"@,
        DocumentAction::BookmarkPage => "bookmark-page"@,
        DocumentAction::RemoveBookmarkPage => "remove-bookmark-page"@,
        DocumentAction::Copy => "copy"@,
        DocumentAction::Undo => "undo"@,
        DocumentAction::Redo => "redo"@,
        DocumentAction::CaretNavigation => "caret-navigation"@,
        DocumentAction::OpenLink => "open-link"@,
        DocumentAction::SendEmail => "send-email"@,
        DocumentAction::GoToLink => "go-to-link"@,
        DocumentAction::OpenLinkNewWindow => "open-link-new-window"@,
        DocumentAction::CopyLinkAddress => "copy-link-address"@,
        DocumentAction::CopyEmailAddress => "copy-email-address"@,
        DocumentAction::CopyImage => "copy-image"@,
        DocumentAction::SaveImage => "save-image"@,
        DocumentAction::RemoveAnnot => "remove-annot"@,
        DocumentAction::EditAnnot => "edit-annot"@,
        DocumentAction::DigitalSigning => "digital-signing"@,
        DocumentAction::AddTextAnnotation => "add-text-annotation"@,
        DocumentAction::ToggleEditMode => "toggle-edit-mode"@,
        DocumentAction::EraserRadius => "eraser-radius"@,
        DocumentAction::PenStroke => "pen-stroke"@,
        DocumentAction::HighlightStroke => "highlight-stroke"@,
        DocumentAction::EraserModeObjects => "eraser-mode-objects"@,
        DocumentAction::PenColor => "pen-color"@,
        DocumentAction::HighlightColor => "highlight-color"@,
        DocumentAction::TextColor => "text-color"@,
        DocumentAction::OpenAttachment => "open-attachment"@,
        DocumentAction::SaveAttachment => "save-attachment"@,
        DocumentAction::AnnotProperties => "annot-properties"@,
        DocumentAction::OpenWith => "open-with"@,
        DocumentAction::ToggleFind => "toggle-find"@,
        DocumentAction::Find => "find"@,
        DocumentAction::FindNext => "find-next"@,
        DocumentAction::FindPrevious => "find-previous"@,
        DocumentAction::GoBackHistory => "go-back-history"@,
        DocumentAction::GoForwardHistory => "go-forward-history"@,
        DocumentAction::GoForward => "go-forward"@,
        DocumentAction::GoBackwards => "go-backwards"@,
    }
}

/// What an action is activated with, where it is with anything.
pub open spec fn action_parameter(action: DocumentAction) -> Option<ActionParameter> {
    match action {
        DocumentAction::Zoom => Some(ActionParameter::Number),
        DocumentAction::SizingMode => Some(ActionParameter::Text),
        DocumentAction::AnnotColor => Some(ActionParameter::Text),
        DocumentAction::AnnotTextmarkupType => Some(ActionParameter::Text),
        DocumentAction::EraserRadius => Some(ActionParameter::Number),
        DocumentAction::PenStroke => Some(ActionParameter::Number),
        DocumentAction::HighlightStroke => Some(ActionParameter::Number),
        DocumentAction::EraserModeObjects => Some(ActionParameter::Text),
        DocumentAction::PenColor => Some(ActionParameter::Text),
        DocumentAction::HighlightColor => Some(ActionParameter::Text),
        DocumentAction::TextColor => Some(ActionParameter::Text),
        _ => None,
    }
}

/// The state that an action starts with, where it has any.
pub open spec fn initial_state(action: DocumentAction) -> Option<ActionStateModel> {
    match action {
        DocumentAction::ShowSidebar => Some(ActionStateModel::Switch(true)),
        DocumentAction::Continuous => Some(ActionStateModel::Switch(true)),
        DocumentAction::Rtl => Some(ActionStateModel::Switch(false)),
        DocumentAction::DualOddLeft => Some(ActionStateModel::Switch(false)),
        DocumentAction::DualPage => Some(ActionStateModel::Switch(false)),
        DocumentAction::SizingMode => Some(ActionStateModel::Text("free"@)),
        DocumentAction::AnnotColor => Some(ActionStateModel::AnnotationColor),
        DocumentAction::AnnotTextmarkupType => Some(ActionStateModel::Text("highlight"@)),
        DocumentAction::EnableSpellchecking => Some(ActionStateModel::Switch(false)),
        DocumentAction::EraserRadius => Some(ActionStateModel::Number(5)),
        DocumentAction::PenStroke => Some(ActionStateModel::Number(1)),
        DocumentAction::HighlightStroke => Some(ActionStateModel::Number(5)),
        DocumentAction::EraserModeObjects => Some(ActionStateModel::Text("true"@)),
        DocumentAction::PenColor => Some(ActionStateModel::Text("blue"@)),
        DocumentAction::HighlightColor => Some(ActionStateModel::Text("yellow"@)),
        DocumentAction::TextColor => Some(ActionStateModel::Text("blue"@)),
        DocumentAction::ToggleFind => Some(ActionStateModel::Switch(false)),
        _ => None,
    }
}

impl DocumentAction {
    /// The actions of a document, in the order they are added in.
    pub fn all() -> (v: Vec<DocumentAction>)
        ensures
            v@ == all_actions(),
    {
        let v = vec![
            DocumentAction::OpenCopy,
            DocumentAction::Escape,
            DocumentAction::ShowSidebar,
            DocumentAction::SelectPage,
            DocumentAction::Print,
            DocumentAction::SaveAs,
            DocumentAction::AddWatermark,
            DocumentAction::ShowProperties,
            DocumentAction::Continuous,
            DocumentAction::Rtl,
            DocumentAction::DualOddLeft,
            DocumentAction::DualPage,
            DocumentAction::SelectAll,
            DocumentAction::ZoomIn,
            DocumentAction::ZoomOut,
            DocumentAction::Zoom,
            DocumentAction::SizingMode,
            DocumentAction::AnnotColor,
            DocumentAction::AnnotTextmarkupType,
            DocumentAction::EnableSpellchecking,
            DocumentAction::GoPreviousPage,
            DocumentAction::GoNextPage,
            DocumentAction::GoFirstPage,
            DocumentAction::GoLastPage,
            DocumentAction::RotateLeft,
            DocumentAction::RotateRight,
            DocumentAction::RotatePageLeft,
            DocumentAction::RotatePageRight,
            DocumentAction::BookmarkPage,
            DocumentAction::RemoveBookmarkPage,
            DocumentAction::Copy,
            DocumentAction::Undo,
            DocumentAction::Redo,
            DocumentAction::CaretNavigation,
            DocumentAction::OpenLink,
            DocumentAction::SendEmail,
            DocumentAction::GoToLink,
            DocumentAction::OpenLinkNewWindow,
            DocumentAction::CopyLinkAddress,
            DocumentAction::CopyEmailAddress,
            DocumentAction::CopyImage,
            DocumentAction::SaveImage,
            DocumentAction::RemoveAnnot,
            DocumentAction::EditAnnot,
            DocumentAction::DigitalSigning,
            DocumentAction::AddTextAnnotation,
            DocumentAction::ToggleEditMode,
            DocumentAction::EraserRadius,
            DocumentAction::PenStroke,
            DocumentAction::HighlightStroke,
            DocumentAction::EraserModeObjects,
            DocumentAction::PenColor,
            DocumentAction::HighlightColor,
            DocumentAction::TextColor,
            DocumentAction::OpenAttachment,
            DocumentAction::SaveAttachment,
            DocumentAction::AnnotProperties,
            DocumentAction::OpenWith,
            DocumentAction::ToggleFind,
            DocumentAction::Find,
            DocumentAction::FindNext,
            DocumentAction::FindPrevious,
            DocumentAction::GoBackHistory,
            DocumentAction::GoForwardHistory,
            DocumentAction::GoForward,
            DocumentAction::GoBackwards,
        ];
        assert(v@ =~= all_actions());
        v
    }

    /// The name of the action.
    pub fn name(self) -> (s: String)
        ensures
            s@ == action_name(self),
    {
        match self {
            DocumentAction::OpenCopy => "open-copy".to_string(),
            DocumentAction::Escape => "escape".to_string(),
            DocumentAction::ShowSidebar => "show-sidebar".to_string(),
            DocumentAction::SelectPage => "select-page".to_string(),
            DocumentAction::Print => "print".to_string(),
            DocumentAction::SaveAs => "save-as".to_string(),
            DocumentAction::AddWatermark => "add-watermark".to_string(),
            DocumentAction::ShowProperties => "show-properties".to_string(),
            DocumentAction::Continuous => "continuous".to_string(),
            DocumentAction::Rtl => "rtl".to_string(),
            DocumentAction::DualOddLeft => "dual-odd-left".to_string(),
            DocumentAction::DualPage => "dual-page".to_string(),
            DocumentAction::SelectAll => "select-all".to_string(),
            DocumentAction::ZoomIn => "zoom-in".to_string(),
            DocumentAction::ZoomOut => "zoom-out".to_string(),
            DocumentAction::Zoom => "zoom".to_string(),
            DocumentAction::SizingMode => "sizing-mode".to_string(),
            DocumentAction::AnnotColor => "annot-color".to_string(),
            DocumentAction::AnnotTextmarkupType => "annot-textmarkup-type".to_string(),
            DocumentAction::EnableSpellchecking => "enable-spellchecking".to_string(),
            DocumentAction::GoPreviousPage => "go-previous-page".to_string(),
            DocumentAction::GoNextPage => "go-next-page".to_string(),
            DocumentAction::GoFirstPage => "go-first-page".to_string(),
            DocumentAction::GoLastPage => "go-last-page".to_string(),
            DocumentAction::RotateLeft => "rotate-left".to_string(),
            DocumentAction::RotateRight => "rotate-right".to_string(),
            DocumentAction::RotatePageLeft => "rotate-page-left".to_string(),
            DocumentAction::RotatePageRight => "rotate-page-right".to_string(),
            DocumentAction::BookmarkPage => "bookmark-page".to_string(),
            DocumentAction::RemoveBookmarkPage => "remove-bookmark-page".to_string(),
            DocumentAction::Copy => "copy".to_string(),
            DocumentAction::Undo => "undo".to_string(),
            DocumentAction::Redo => "redo".to_string(),
            DocumentAction::CaretNavigation => "caret-navigation".to_string(),
            DocumentAction::OpenLink => "open-link".to_string(),
            DocumentAction::SendEmail => "send-email".to_string(),
            DocumentAction::GoToLink => "go-to-link".to_string(),
            DocumentAction::OpenLinkNewWindow => "open-link-new-window".to_string(),
            DocumentAction::CopyLinkAddress => "copy-link-address".to_string(),
            DocumentAction::CopyEmailAddress => "copy-email-address".to_string(),
            DocumentAction::CopyImage => "copy-image".to_string(),
            DocumentAction::SaveImage => "save-image".to_string(),
            DocumentAction::RemoveAnnot => "remove-annot".to_string(),
            DocumentAction::EditAnnot => "edit-annot".to_string(),
            DocumentAction::DigitalSigning => "digital-signing".to_string(),
            DocumentAction::AddTextAnnotation => "add-text-annotation".to_string(),
            DocumentAction::ToggleEditMode => "toggle-edit-mode".to_string(),
            DocumentAction::EraserRadius => "eraser-radius".to_string(),
            DocumentAction::PenStroke => "pen-stroke".to_string(),
            DocumentAction::HighlightStroke => "highlight-stroke".to_string(),
            DocumentAction::EraserModeObjects => "eraser-mode-objects".to_string(),
            DocumentAction::PenColor => "pen-color".to_string(),
            DocumentAction::HighlightColor => "highlight-color".to_string(),
            DocumentAction::TextColor => "text-color".to_string(),
            DocumentAction::OpenAttachment => "open-attachment".to_string(),
            DocumentAction::SaveAttachment => "save-attachment".to_string(),
            DocumentAction::AnnotProperties => "annot-properties".to_string(),
            DocumentAction::OpenWith => "open-with".to_string(),
            DocumentAction::ToggleFind => "toggle-find".to_string(),
            DocumentAction::Find => "find".to_string(),
            DocumentAction::FindNext => "find-next".to_string(),
            DocumentAction::FindPrevious => "find-previous".to_string(),
            DocumentAction::GoBackHistory => "go-back-history".to_string(),
            DocumentAction::GoForwardHistory => "go-forward-history".to_string(),
            DocumentAction::GoForward => "go-forward".to_string(),
            DocumentAction::GoBackwards => "go-backwards".to_string(),
        }
    }

    /// What the action is activated with, where it is with anything.
    pub fn parameter(self) -> (r: Option<ActionParameter>)
        ensures
            r == action_parameter(self),
    {
        match self {
            DocumentAction::Zoom => Some(ActionParameter::Number),
            DocumentAction::SizingMode => Some(ActionParameter::Text),
            DocumentAction::AnnotColor => Some(ActionParameter::Text),
            DocumentAction::AnnotTextmarkupType => Some(ActionParameter::Text),
            DocumentAction::EraserRadius => Some(ActionParameter::Number),
            DocumentAction::PenStroke => Some(ActionParameter::Number),
            DocumentAction::HighlightStroke => Some(ActionParameter::Number),
            DocumentAction::EraserModeObjects => Some(ActionParameter::Text),
            DocumentAction::PenColor => Some(ActionParameter::Text),
            DocumentAction::HighlightColor => Some(ActionParameter::Text),
            DocumentAction::TextColor => Some(ActionParameter::Text),
            _ => None,
        }
    }

    /// The state that the action starts with, where it has any.
    pub fn initial_state(self) -> (r: Option<ActionState>)
        ensures
            match initial_state(self) {
                Some(s) => r matches Some(t) && t@ == s,
                None => r is None,
            },
    {
        match self {
            DocumentAction::ShowSidebar => Some(ActionState::Switch(true)),
            DocumentAction::Continuous => Some(ActionState::Switch(true)),
            DocumentAction::Rtl => Some(ActionState::Switch(false)),
            DocumentAction::DualOddLeft => Some(ActionState::Switch(false)),
            DocumentAction::DualPage => Some(ActionState::Switch(false)),
            DocumentAction::SizingMode => Some(ActionState::Text("free".to_string())),
            DocumentAction::AnnotColor => Some(ActionState::AnnotationColor),
            DocumentAction::AnnotTextmarkupType => Some(ActionState::Text("highlight".to_string())),
            DocumentAction::EnableSpellchecking => Some(ActionState::Switch(false)),
            DocumentAction::EraserRadius => Some(ActionState::Number(5)),
            DocumentAction::PenStroke => Some(ActionState::Number(1)),
            DocumentAction::HighlightStroke => Some(ActionState::Number(5)),
            DocumentAction::EraserModeObjects => Some(ActionState::Text("true".to_string())),
            DocumentAction::PenColor => Some(ActionState::Text("blue".to_string())),
            DocumentAction::HighlightColor => Some(ActionState::Text("yellow".to_string())),
            DocumentAction::TextColor => Some(ActionState::Text("blue".to_string())),
            DocumentAction::ToggleFind => Some(ActionState::Switch(false)),
            _ => None,
        }
    }
}


// ---------------------------------------------------------------------------
// Laws
// ---------------------------------------------------------------------------

/// An action that starts with a number or a text is activated with one; a switch is
/// activated with nothing. No other action but the zoom is activated with anything.
pub proof fn states_fit_their_parameters(action: DocumentAction)
    ensures
        match initial_state(action) {
            Some(ActionStateModel::Switch(_)) => action_parameter(action) is None,
            Some(ActionStateModel::Number(_)) => action_parameter(action) == Some(
                ActionParameter::Number,
            ),
            Some(ActionStateModel::Text(_)) => action_parameter(action) == Some(
                ActionParameter::Text,
            ),
            Some(ActionStateModel::AnnotationColor) => action_parameter(action) == Some(
                ActionParameter::Text,
            ),
            None => action_parameter(action) is Some <==> action is Zoom,
        },
{
}

} // verus!
