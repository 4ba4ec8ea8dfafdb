//! What the actions of a document do: which page they go to, what they switch,
//! and which tool or color they set.
use vstd::prelude::*;

use crate::document_actions::{
    action_name, action_parameter, all_actions, initial_state, ActionParameter, ActionState,
    DocumentAction,
};
use crate::text::{
    chars_of, copy_range, occurs_at, part_at, push_text, same_text, starts_with, string_of,
};

verus! {

// ---------------------------------------------------------------------------
// Which actions can be used
// ---------------------------------------------------------------------------

/// What a document and its view are capable of.
#[derive(Clone, Copy, Debug, PartialEq, Eq, Structural)]
pub struct Capabilities {
    pub has_info: bool,
    pub selectable: bool,
    pub searchable: bool,
    pub can_add_annotation: bool,
    pub can_sign: bool,
    pub dual_page: bool,
    pub can_zoom_in: bool,
    pub can_zoom_out: bool,
    pub history_frozen: bool,
    pub can_go_back: bool,
    pub can_go_forward: bool,
    pub caret_navigation: bool,
}

/// The actions to switch off, where `off` says so.
pub open spec fn switched_off(off: bool, actions: Seq<DocumentAction>) -> Seq<
    (DocumentAction, bool),
> {
    if off {
        actions.map_values(|a: DocumentAction| (a, false))
    } else {
        Seq::empty()
    }
}

/// The actions to switch, in order, when a document is opened, and whether each
/// of them can be used then.
pub open spec fn default_actions(c: Capabilities) -> Seq<(DocumentAction, bool)> {
    switched_off(!c.has_info, seq![DocumentAction::ShowProperties]) + switched_off(
        !c.selectable,
        seq![DocumentAction::SelectAll],
    ) + switched_off(!c.searchable, seq![DocumentAction::Find, DocumentAction::ToggleFind])
        + switched_off(
        !c.can_add_annotation,
        seq![DocumentAction::AddTextAnnotation, DocumentAction::AnnotTextmarkupType],
    ) + seq![
        (DocumentAction::DigitalSigning, c.can_sign),
        (DocumentAction::DualOddLeft, c.dual_page),
        (DocumentAction::ZoomIn, c.can_zoom_in),
        (DocumentAction::ZoomOut, c.can_zoom_out),
        (DocumentAction::GoBackHistory, !c.history_frozen && c.can_go_back),
        (DocumentAction::GoForwardHistory, !c.history_frozen && c.can_go_forward),
        (DocumentAction::CaretNavigation, c.caret_navigation),
    ]
}

/// The actions to switch, in order, when a document is opened, and whether each
/// of them can be used then. The annotation palette is offered where
/// annotations can be added.
pub fn set_default_actions(c: Capabilities) -> (r: (Vec<(DocumentAction, bool)>, bool))
    ensures
        r.0@ == default_actions(c),
        r.1 == c.can_add_annotation,
{
    let mut v: Vec<(DocumentAction, bool)> = Vec::new();
    if !c.has_info {
        v.push((DocumentAction::ShowProperties, false));
    }
    if !c.selectable {
        v.push((DocumentAction::SelectAll, false));
    }
    if !c.searchable {
        v.push((DocumentAction::Find, false));
        v.push((DocumentAction::ToggleFind, false));
    }
    if !c.can_add_annotation {
        v.push((DocumentAction::AddTextAnnotation, false));
        v.push((DocumentAction::AnnotTextmarkupType, false));
    }
    v.push((DocumentAction::DigitalSigning, c.can_sign));
    v.push((DocumentAction::DualOddLeft, c.dual_page));
    v.push((DocumentAction::ZoomIn, c.can_zoom_in));
    v.push((DocumentAction::ZoomOut, c.can_zoom_out));
    v.push((DocumentAction::GoBackHistory, !c.history_frozen && c.can_go_back));
    v.push((DocumentAction::GoForwardHistory, !c.history_frozen && c.can_go_forward));
    v.push((DocumentAction::CaretNavigation, c.caret_navigation));
    assert(v@ =~= default_actions(c));
    (v, c.can_add_annotation)
}

// ---------------------------------------------------------------------------
// Pages
// ---------------------------------------------------------------------------

/// How many pages the actions that go on and back by several pages go.
pub const PAGE_JUMP: i32 = 10;

/// A page to go to, and the pages to note in the history.
#[derive(Debug)]
pub struct Navigation {
    pub page: i32,
    pub history: Vec<i32>,
}

/// The pages to note in the history when one goes from `from` to `to`: both,
/// where both are pages.
pub open spec fn noted(from: i32, to: i32) -> Seq<i32> {
    if from >= 0 && to >= 0 {
        seq![from, to]
    } else {
        Seq::empty()
    }
}

fn navigation(from: i32, to: i32) -> (n: Navigation)
    ensures
        n.page == to,
        n.history@ == noted(from, to),
{
    let mut history: Vec<i32> = Vec::new();
    if from >= 0 && to >= 0 {
        history.push(from);
        history.push(to);
    }
    assert(history@ =~= noted(from, to));
    Navigation { page: to, history }
}

/// Goes to the first page.
pub fn go_first_page(old_page: i32) -> (n: Navigation)
    ensures
        n.page == 0,
        n.history@ == noted(old_page, 0),
{
    navigation(old_page, 0)
}

/// Goes to the end of a document of `n_pages` pages.
pub fn go_last_page(old_page: i32, n_pages: i32) -> (n: Navigation)
    ensures
        n.page == n_pages,
        n.history@ == noted(old_page, n_pages),
{
    navigation(old_page, n_pages)
}

/// The page several pages on, or the last one.
pub open spec fn page_ahead(current: int, n_pages: int) -> int {
    if current + PAGE_JUMP < n_pages {
        current + PAGE_JUMP
    } else {
        n_pages - 1
    }
}

/// The page several pages back, or the first one.
pub open spec fn page_behind(current: int) -> int {
    if current - PAGE_JUMP >= 0 {
        current - PAGE_JUMP
    } else {
        0
    }
}

/// The page several pages on, or the last one.
pub fn go_forward(current_page: i32, n_pages: i32) -> (page: i32)
    requires
        current_page <= i32::MAX - PAGE_JUMP,
        n_pages > i32::MIN,
    ensures
        page == page_ahead(current_page as int, n_pages as int),
{
    if current_page + PAGE_JUMP < n_pages {
        current_page + PAGE_JUMP
    } else {
        n_pages - 1
    }
}

/// The page several pages back, or the first one.
pub fn go_backwards(current_page: i32) -> (page: i32)
    requires
        current_page >= i32::MIN + PAGE_JUMP,
    ensures
        page == page_behind(current_page as int),
{
    if current_page - PAGE_JUMP >= 0 {
        current_page - PAGE_JUMP
    } else {
        0
    }
}

/// The page to note in the history before going back in it.
pub fn go_back_history(page: i32) -> (r: Option<i32>)
    ensures
        r == (if page >= 0 {
            Some(page)
        } else {
            None
        }),
{
    if page >= 0 {
        Some(page)
    } else {
        None
    }
}

/// The first and last page to print, counted from 1.
pub fn print_all(n_pages: i32) -> (r: (i32, i32))
    ensures
        r == (1i32, n_pages),
{
    (1, n_pages)
}

// ---------------------------------------------------------------------------
// Rotation and layout
// ---------------------------------------------------------------------------

/// How many degrees a rotation turns.
pub const QUARTER_TURN: i32 = 90;

/// A rotation turned to the left.
pub fn rotate_left(rotation: i32) -> (r: i32)
    requires
        rotation >= i32::MIN + QUARTER_TURN,
    ensures
        r == rotation - QUARTER_TURN,
{
    rotation - QUARTER_TURN
}

/// A rotation turned to the right.
pub fn rotate_right(rotation: i32) -> (r: i32)
    requires
        rotation <= i32::MAX - QUARTER_TURN,
    ensures
        r == rotation + QUARTER_TURN,
{
    rotation + QUARTER_TURN
}

/// How the size of a page is chosen.
#[derive(Clone, Copy, Debug, PartialEq, Eq, Structural)]
pub enum SizingMode {
    FitPage,
    FitWidth,
    Free,
    Automatic,
}

/// The sizing mode of that name.
pub open spec fn sizing_mode_named(name: Seq<char>) -> Option<SizingMode> {
    if name == "fit-width"@ {
        Some(SizingMode::FitWidth)
    } else if name == "fit-page"@ {
        Some(SizingMode::FitPage)
    } else if name == "free"@ {
        Some(SizingMode::Free)
    } else if name == "automatic"@ {
        Some(SizingMode::Automatic)
    } else {
        None
    }
}

fn is_text(a: &str, b: &str) -> (r: bool)
    ensures
        r == (a@ == b@),
{
    same_text(&chars_of(a), &chars_of(b))
}

/// The sizing mode of that name, where there is one.
pub fn sizing_mode(name: &str) -> (r: Option<SizingMode>)
    ensures
        r == sizing_mode_named(name@),
{
    if is_text(name, "fit-width") {
        Some(SizingMode::FitWidth)
    } else if is_text(name, "fit-page") {
        Some(SizingMode::FitPage)
    } else if is_text(name, "free") {
        Some(SizingMode::Free)
    } else if is_text(name, "automatic") {
        Some(SizingMode::Automatic)
    } else {
        None
    }
}

/// Whether the side of the odd pages can be chosen: in a dual layout of a
/// document that has pages.
pub fn dual_odd_left_enabled(dual_page: bool, n_pages: Option<i32>) -> (r: bool)
    ensures
        r == (dual_page && (n_pages matches Some(n) && n > 0)),
{
    dual_page && match n_pages {
        Some(n) => n > 0,
        None => false,
    }
}

// ---------------------------------------------------------------------------
// Search, links and the escape key
// ---------------------------------------------------------------------------

/// What a switch of the find bar does.
#[derive(Clone, Copy, Debug, PartialEq, Eq, Structural)]
pub struct FindChange {
    /// Whether the bar is shown then.
    pub show: bool,
    /// Whether the search starts.
    pub activate: bool,
    /// Whether the search ends.
    pub release: bool,
}

/// What a switch of the find bar does: the search starts when the bar comes up
/// and ends when it goes.
pub fn toggle_find(show: bool, is_shown: bool) -> (c: FindChange)
    ensures
        c == (FindChange {
            show,
            activate: show && !is_shown,
            release: !show && is_shown,
        }),
{
    FindChange { show, activate: show && !is_shown, release: !show && is_shown }
}

/// What to search for at first: the text that is selected, where any is.
pub fn initial_search(selected_text: Option<String>) -> (r: Option<String>)
    ensures
        match selected_text {
            Some(t) => if t@.len() > 0 {
                r matches Some(s) && s@ == t@
            } else {
                r is None
            },
            None => r is None,
        },
{
    match selected_text {
        Some(t) => if t.as_str().is_empty() {
            None
        } else {
            Some(t)
        },
        None => None,
    }
}

/// The address in a link that opens a mail, or none for another link.
pub fn email_address(uri: &str) -> (r: Option<String>)
    ensures
        if occurs_at(uri@, "mailto:"@, 0) {
            r matches Some(s) && uri@ == "mailto:"@ + s@
        } else {
            r is None
        },
{
    let all = chars_of(uri);
    let prefix = chars_of("mailto:");
    if starts_with(&all, &prefix) {
        let rest = copy_range(&all, prefix.len(), all.len());
        assert(uri@ =~= uri@.subrange(0, prefix@.len() as int) + rest@);
        Some(string_of(&rest))
    } else {
        None
    }
}

/// What the escape key does in a document.
#[derive(Clone, Copy, Debug, PartialEq, Eq, Structural)]
pub enum EscapeStep {
    CloseFind,
    LeaveFullscreen,
    HideSidebar,
    LeaveEditing,
    Nothing,
}

/// What the escape key does in a document: the first of these that applies.
pub fn escape_step(
    find_shown: bool,
    find_focused: bool,
    fullscreen: bool,
    collapsed: bool,
    sidebar_shown: bool,
    editing: bool,
) -> (s: EscapeStep)
    ensures
        s == (if find_shown && find_focused {
            EscapeStep::CloseFind
        } else if fullscreen {
            EscapeStep::LeaveFullscreen
        } else if collapsed && sidebar_shown {
            EscapeStep::HideSidebar
        } else if editing {
            EscapeStep::LeaveEditing
        } else {
            EscapeStep::Nothing
        }),
{
    if find_shown && find_focused {
        EscapeStep::CloseFind
    } else if fullscreen {
        EscapeStep::LeaveFullscreen
    } else if collapsed && sidebar_shown {
        EscapeStep::HideSidebar
    } else if editing {
        EscapeStep::LeaveEditing
    } else {
        EscapeStep::Nothing
    }
}

/// What is said when the caret navigation is switched, where it was `enabled`.
pub fn caret_navigation_message(enabled: bool) -> (s: String)
    ensures
        s@ == (if !enabled {
            "Caret navigation mode is now enabled, press F7 to disable."@
        } else {
            "Caret navigation mode is now disabled, press F7 to enable."@
        }),
{
    if !enabled {
        "Caret navigation mode is now enabled, press F7 to disable.".to_string()
    } else {
        "Caret navigation mode is now disabled, press F7 to enable.".to_string()
    }
}

// ---------------------------------------------------------------------------
// Annotations
// ---------------------------------------------------------------------------

/// How a text is marked up.
#[derive(Clone, Copy, Debug, PartialEq, Eq, Structural)]
pub enum TextMarkup {
    Highlight,
    Squiggly,
    StrikeOut,
    Underline,
}

/// The markup of that name: `None` where the name is unknown, `Some(None)` where
/// it is the name of no markup.
pub open spec fn markup_named(name: Seq<char>) -> Option<Option<TextMarkup>> {
    if name == "highlight"@ {
        Some(Some(TextMarkup::Highlight))
    } else if name == "squiggly"@ {
        Some(Some(TextMarkup::Squiggly))
    } else if name == "strikethrough"@ {
        Some(Some(TextMarkup::StrikeOut))
    } else if name == "underline"@ {
        Some(Some(TextMarkup::Underline))
    } else if name == "none"@ {
        Some(None)
    } else {
        None
    }
}

/// The markup of that name.
pub fn text_markup(name: &str) -> (r: Option<Option<TextMarkup>>)
    ensures
        r == markup_named(name@),
{
    if is_text(name, "highlight") {
        Some(Some(TextMarkup::Highlight))
    } else if is_text(name, "squiggly") {
        Some(Some(TextMarkup::Squiggly))
    } else if is_text(name, "strikethrough") {
        Some(Some(TextMarkup::StrikeOut))
    } else if is_text(name, "underline") {
        Some(Some(TextMarkup::Underline))
    } else if is_text(name, "none") {
        Some(None)
    } else {
        None
    }
}

/// What a change of the markup does.
#[derive(Clone, Copy, Debug, PartialEq, Eq, Structural)]
pub enum MarkupChange {
    /// Nothing.
    Nothing,
    /// Each part of the selection is marked up so.
    MarkSelection(TextMarkup),
    /// The annotation at hand becomes such a markup.
    ChangeAnnotation(TextMarkup),
}

/// What a change of the markup does, where `current` is the markup of the
/// annotation at hand, if that is a markup of text.
pub fn markup_change(
    markup: Option<TextMarkup>,
    has_selection: bool,
    current: Option<TextMarkup>,
) -> (c: MarkupChange)
    ensures
        c == (match markup {
            None => MarkupChange::Nothing,
            Some(m) => if has_selection {
                MarkupChange::MarkSelection(m)
            } else {
                match current {
                    Some(old_markup) => if old_markup != m {
                        MarkupChange::ChangeAnnotation(m)
                    } else {
                        MarkupChange::Nothing
                    },
                    None => MarkupChange::Nothing,
                }
            },
        }),
{
    match markup {
        None => MarkupChange::Nothing,
        Some(m) => if has_selection {
            MarkupChange::MarkSelection(m)
        } else {
            match current {
                Some(old_markup) => if old_markup != m {
                    MarkupChange::ChangeAnnotation(m)
                } else {
                    MarkupChange::Nothing
                },
                None => MarkupChange::Nothing,
            }
        },
    }
}

/// The style sheet that shows the color of the markup.
pub fn markup_style(css_color: &str) -> (s: String)
    ensures
        s@ == "#annot-type-container {--annot-textmarkup-color: "@ + css_color@ + "; }"@,
{
    let mut v = chars_of("#annot-type-container {--annot-textmarkup-color: ");
    push_text(&mut v, &chars_of(css_color));
    push_text(&mut v, &chars_of("; }"));
    string_of(&v)
}

/// A tool to draw with.
#[derive(Clone, Copy, Debug, PartialEq, Eq, Structural)]
pub enum AnnotationTool {
    Pencil,
    Highlight,
    Eraser,
    Text,
}

/// What is being edited.
#[derive(Clone, Copy, Debug, PartialEq, Eq, Structural)]
pub enum EditingState {
    /// Nothing.
    Nothing,
    /// A stamp is being placed.
    Stamp,
    /// Lines are being drawn.
    Ink,
    /// Texts are being written.
    Text,
    /// Something else.
    Other,
}

/// The colors of the tools by name, as hexadecimal triples.
pub open spec fn pen_color(name: Seq<char>) -> Option<Seq<char>> {
    if name == "yellow"@ {
        Some("#f5c211"@)
    } else if name == "black"@ {
        Some("#000000"@)
    } else if name == "orange"@ {
        Some("#ff7800"@)
    } else if name == "red"@ {
        Some("#ed333b"@)
    } else if name == "purple"@ {
        Some("#c061cb"@)
    } else if name == "blue"@ {
        Some("#3584e4"@)
    } else if name == "green"@ {
        Some("#33d17a"@)
    } else {
        None
    }
}

/// The color of that name as a hexadecimal triple.
pub fn pen_color_value(name: &str) -> (r: Option<String>)
    ensures
        match pen_color(name@) {
            Some(c) => r matches Some(s) && s@ == c,
            None => r is None,
        },
{
    if is_text(name, "yellow") {
        Some("#f5c211".to_string())
    } else if is_text(name, "black") {
        Some("#000000".to_string())
    } else if is_text(name, "orange") {
        Some("#ff7800".to_string())
    } else if is_text(name, "red") {
        Some("#ed333b".to_string())
    } else if is_text(name, "purple") {
        Some("#c061cb".to_string())
    } else if is_text(name, "blue") {
        Some("#3584e4".to_string())
    } else if is_text(name, "green") {
        Some("#33d17a".to_string())
    } else {
        None
    }
}

/// How opaque the highlighter is, in percent.
pub const HIGHLIGHT_OPACITY: u32 = 70;

/// A color to set on a tool.
#[derive(Debug)]
pub struct PenColor {
    /// The color as a hexadecimal triple.
    pub color: String,
    /// How opaque it is, in percent.
    pub opacity: u32,
    /// The tool whose color it is; the eraser has none.
    pub tool: Option<AnnotationTool>,
}

/// The bar of the drawing tools.
#[derive(Debug)]
pub struct EditToolbar {
    pub revealed: bool,
    pub round_button: bool,
    pub icon_name: String,
    pub tooltip: String,
}

/// How the bar of the drawing tools looks.
pub fn edit_toolbar(visible: bool) -> (t: EditToolbar)
    ensures
        t.revealed == visible,
        t.round_button == !visible,
        t.icon_name@ == (if visible {
            "window-close-symbolic"@
        } else {
            "document-edit-symbolic"@
        }),
        t.tooltip@ == (if visible {
            "Close Menu"@
        } else {
            "Edit Document"@
        }),
{
    if visible {
        EditToolbar {
            revealed: true,
            round_button: false,
            icon_name: "window-close-symbolic".to_string(),
            tooltip: "Close Menu".to_string(),
        }
    } else {
        EditToolbar {
            revealed: false,
            round_button: true,
            icon_name: "document-edit-symbolic".to_string(),
            tooltip: "Edit Document".to_string(),
        }
    }
}

/// What is edited after the edit mode was switched.
pub open spec fn toggled_editing(state: EditingState, tool: AnnotationTool) -> EditingState {
    if state is Nothing || state is Stamp {
        if tool is Text {
            EditingState::Text
        } else {
            EditingState::Ink
        }
    } else {
        EditingState::Nothing
    }
}

/// An action to add to a document's view.
#[derive(Debug)]
pub struct ActionEntry {
    pub action: DocumentAction,
    pub name: String,
    pub parameter: Option<ActionParameter>,
    pub state: Option<ActionState>,
}

/// Whether an entry is the one of an action.
pub open spec fn describes(entry: ActionEntry, action: DocumentAction) -> bool {
    &&& entry.action == action
    &&& entry.name@ == action_name(action)
    &&& entry.parameter == action_parameter(action)
    &&& match initial_state(action) {
        Some(s) => entry.state matches Some(t) && t@ == s,
        None => entry.state is None,
    }
}

/// The view of a document: the tool in hand, and what is being edited with it.
#[derive(Debug)]
pub struct PpsDocumentView {
    pub tool: AnnotationTool,
    pub editing: EditingState,
}

impl PpsDocumentView {
    /// The actions of the view, in the order they are added in.
    pub fn setup_actions(&self) -> (v: Vec<ActionEntry>)
        ensures
            v@.len() == all_actions().len(),
            forall|i: int|
                0 <= i < v@.len() ==> describes(#[trigger] v@[i], all_actions()[i]),
    {
        let actions = DocumentAction::all();
        let mut v: Vec<ActionEntry> = Vec::new();
        let mut i: usize = 0;
        while i < actions.len()
            invariant
                i <= actions@.len(),
                v@.len() == i,
                forall|k: int| 0 <= k < i ==> describes(#[trigger] v@[k], actions@[k]),
            decreases actions@.len() - i,
        {
            let action = actions[i];
            v.push(
                ActionEntry {
                    action,
                    name: action.name(),
                    parameter: action.parameter(),
                    state: action.initial_state(),
                },
            );
            i = i + 1;
        }
        v
    }

    /// Switches the edit mode: editing starts with the tool in hand, where
    /// nothing but a stamp is edited, and ends otherwise.
    pub fn cmd_toggle_edit_mode(&mut self)
        ensures
            final(self).tool == old(self).tool,
            final(self).editing == toggled_editing(old(self).editing, old(self).tool),
    {
        self.editing = match self.editing {
            EditingState::Nothing | EditingState::Stamp => {
                match self.tool {
                    AnnotationTool::Text => EditingState::Text,
                    _ => EditingState::Ink,
                }
            },
            _ => EditingState::Nothing,
        };
    }

    /// The tool whose radius an action sets: the one in hand, which has a
    /// radius.
    pub fn cmd_radius_state(&self) -> (t: AnnotationTool)
        requires
            self.tool !is Text,
        ensures
            t == self.tool,
    {
        self.tool
    }

    /// The color that an action sets on a tool, by name. The highlighter lets
    /// the page shine through; the eraser has no color.
    pub fn cmd_pen_color_state(&self, tool: AnnotationTool, color: &str) -> (p: PenColor)
        requires
            pen_color(color@) is Some,
        ensures
            p.color@ == pen_color(color@)->Some_0,
            p.opacity == (if tool is Highlight {
                HIGHLIGHT_OPACITY as int
            } else {
                100
            }),
            p.tool == (if tool is Eraser {
                None
            } else {
                Some(tool)
            }),
    {
        let value = match pen_color_value(color) {
            Some(value) => value,
            None => String::new(),
        };
        match tool {
            AnnotationTool::Highlight => PenColor {
                color: value,
                opacity: HIGHLIGHT_OPACITY,
                tool: Some(tool),
            },
            AnnotationTool::Eraser => PenColor { color: value, opacity: 100, tool: None },
            _ => PenColor { color: value, opacity: 100, tool: Some(tool) },
        }
    }
}

// ---------------------------------------------------------------------------
// Images
// ---------------------------------------------------------------------------

/// A format that images can be in.
#[derive(Debug)]
pub struct ImageFormat {
    pub name: String,
    pub disabled: bool,
    pub writable: bool,
    pub extensions: Vec<String>,
}

/// Whether `s` ends with `end`.
pub open spec fn ends_with(s: Seq<char>, end: Seq<char>) -> bool {
    occurs_at(s, end, s.len() - end.len())
}

/// Whether an image can be saved in a format under an address.
pub open spec fn suits(format: ImageFormat, uri: Seq<char>) -> bool {
    &&& !format.disabled
    &&& format.writable
    &&& exists|k: int|
        0 <= k < format.extensions@.len() && ends_with(uri, #[trigger] format.extensions@[k]@)
}

/// The first format, from position `from` on, that an image can be saved in
/// under an address.
pub open spec fn format_for(formats: Seq<ImageFormat>, uri: Seq<char>, from: int) -> Option<int>
    decreases formats.len() - from,
{
    if from >= formats.len() {
        None
    } else if suits(formats[from], uri) {
        Some(from)
    } else {
        format_for(formats, uri, from + 1)
    }
}

fn has_ending(s: &Vec<char>, end: &Vec<char>) -> (r: bool)
    ensures
        r == ends_with(s@, end@),
{
    if end.len() > s.len() {
        return false;
    }
    part_at(s, end, s.len() - end.len())
}

fn suits_address(format: &ImageFormat, uri: &Vec<char>) -> (r: bool)
    ensures
        r == suits(*format, uri@),
{
    if format.disabled || !format.writable {
        return false;
    }
    let mut k: usize = 0;
    while k < format.extensions.len()
        invariant
            k <= format.extensions@.len(),
            !format.disabled,
            format.writable,
            forall|m: int|
                0 <= m < k ==> !ends_with(uri@, #[trigger] format.extensions@[m]@),
        decreases format.extensions@.len() - k,
    {
        if has_ending(uri, &chars_of(format.extensions[k].as_str())) {
            return true;
        }
        k = k + 1;
    }
    false
}

/// The first format that an image can be saved in under an address.
pub fn format_by_extension(formats: &Vec<ImageFormat>, uri: &str) -> (r: Option<usize>)
    ensures
        match format_for(formats@, uri@, 0) {
            Some(i) => r == Some(i as usize) && 0 <= i < formats@.len(),
            None => r is None,
        },
{
    let address = chars_of(uri);
    let mut i: usize = 0;
    while i < formats.len()
        invariant
            i <= formats@.len(),
            address@ == uri@,
            format_for(formats@, uri@, 0) == format_for(formats@, uri@, i as int),
        decreases formats@.len() - i,
    {
        if suits_address(&formats[i], &address) {
            return Some(i);
        }
        i = i + 1;
    }
    None
}

/// The format to save an image in: the one that its address ends with, or else,
/// where no extension was given, the usual ones in turn.
pub open spec fn chosen_format(
    formats: Seq<ImageFormat>,
    uri: Seq<char>,
    has_extension: bool,
) -> Option<int> {
    match format_for(formats, uri, 0) {
        Some(i) => Some(i),
        None => if !has_extension {
            match format_for(formats, ".png"@, 0) {
                Some(i) => Some(i),
                None => format_for(formats, ".jpeg"@, 0),
            }
        } else {
            None
        },
    }
}

/// The format to save an image in, or none, where no format suits.
pub fn image_format(
    formats: &Vec<ImageFormat>,
    uri: &str,
    has_extension: bool,
) -> (r: Option<usize>)
    ensures
        match chosen_format(formats@, uri@, has_extension) {
            Some(i) => r == Some(i as usize) && 0 <= i < formats@.len(),
            None => r is None,
        },
{
    let found = format_by_extension(formats, uri);
    if found.is_some() || has_extension {
        return found;
    }
    let found = format_by_extension(formats, ".png");
    if found.is_some() {
        return found;
    }
    format_by_extension(formats, ".jpeg")
}

// ---------------------------------------------------------------------------
// Laws
// ---------------------------------------------------------------------------

/// Going several pages on or back stays inside the document.
pub proof fn jumps_stay_inside(current: int, n_pages: int)
    requires
        0 <= current < n_pages,
    ensures
        0 <= page_ahead(current, n_pages) < n_pages,
        0 <= page_behind(current) < n_pages,
        page_behind(current) <= current <= page_ahead(current, n_pages),
{
}

/// Switching the edit mode twice, with one tool in hand, ends the editing that
/// the first switch began.
pub proof fn edit_mode_switches_back(tool: AnnotationTool)
    ensures
        toggled_editing(toggled_editing(EditingState::Nothing, tool), tool)
            == EditingState::Nothing,
        toggled_editing(EditingState::Nothing, tool) != EditingState::Nothing,
{
}

/// A jump on or back goes ten pages, or as many as there are up to the end of the
/// document or its start.
pub proof fn jumps_go_ten_pages(current: int, n_pages: int)
    requires
        0 <= current < n_pages,
    ensures
        page_ahead(current, n_pages) <= current + 10,
        page_ahead(current, n_pages) < current + 10 ==> page_ahead(current, n_pages) == n_pages - 1,
        page_behind(current) >= current - 10,
        page_behind(current) > current - 10 ==> page_behind(current) == 0,
{
}

/// Going from one page to another notes first the one and then the other, and
/// notes neither where one of them is no page.
pub proof fn both_pages_are_noted_or_none(from: i32, to: i32)
    ensures
        noted(from, to).len() > 0 <==> from >= 0 && to >= 0,
        noted(from, to).len() > 0 ==> noted(from, to).len() == 2 && noted(from, to)[0] == from
            && noted(from, to)[1] == to,
{
}

/// The edit mode starts where nothing but a stamp is edited, and ends otherwise; it
/// starts with texts where the text tool is in hand, and with lines for any other.
pub proof fn edit_mode_starts_with_the_tool(state: EditingState, tool: AnnotationTool)
    ensures
        toggled_editing(state, tool) is Nothing <==> !(state is Nothing || state is Stamp),
        toggled_editing(state, tool) is Text <==> (state is Nothing || state is Stamp)
            && tool is Text,
        toggled_editing(state, tool) is Ink <==> (state is Nothing || state is Stamp)
            && !(tool is Text),
{
}

/// Whether an action may be switched so where a document is opened.
pub open spec fn switched_rightly(action: DocumentAction, enabled: bool, c: Capabilities) -> bool {
    match action {
        DocumentAction::ShowProperties => !enabled && !c.has_info,
        DocumentAction::SelectAll => !enabled && !c.selectable,
        DocumentAction::Find => !enabled && !c.searchable,
        DocumentAction::ToggleFind => !enabled && !c.searchable,
        DocumentAction::AddTextAnnotation => !enabled && !c.can_add_annotation,
        DocumentAction::AnnotTextmarkupType => !enabled && !c.can_add_annotation,
        DocumentAction::DigitalSigning => enabled == c.can_sign,
        DocumentAction::DualOddLeft => enabled == c.dual_page,
        DocumentAction::ZoomIn => enabled == c.can_zoom_in,
        DocumentAction::ZoomOut => enabled == c.can_zoom_out,
        DocumentAction::GoBackHistory => enabled == (!c.history_frozen && c.can_go_back),
        DocumentAction::GoForwardHistory => enabled == (!c.history_frozen && c.can_go_forward),
        DocumentAction::CaretNavigation => enabled == c.caret_navigation,
        _ => false,
    }
}

/// What a document is not capable of is switched off when it is opened; what
/// depends on the view is switched as the view says; nothing else is switched.
pub proof fn incapable_actions_are_switched_off(c: Capabilities, action: DocumentAction, enabled: bool)
    ensures
        default_actions(c).contains((action, enabled)) <==> switched_rightly(action, enabled, c),
{
    let list = default_actions(c);
    let n0: int = if c.has_info {
        0
    } else {
        1
    };
    let n1: int = n0 + if c.selectable {
        0int
    } else {
        1
    };
    let n2: int = n1 + if c.searchable {
        0int
    } else {
        2
    };
    let n3: int = n2 + if c.can_add_annotation {
        0int
    } else {
        2
    };
    assert(list.len() == n3 + 7);
    assert(!c.has_info ==> list[0] == (DocumentAction::ShowProperties, false));
    assert(!c.selectable ==> list[n0] == (DocumentAction::SelectAll, false));
    assert(!c.searchable ==> list[n1] == (DocumentAction::Find, false));
    assert(!c.searchable ==> list[n1 + 1] == (DocumentAction::ToggleFind, false));
    assert(!c.can_add_annotation ==> list[n2] == (DocumentAction::AddTextAnnotation, false));
    assert(!c.can_add_annotation ==> list[n2 + 1] == (DocumentAction::AnnotTextmarkupType, false));
    assert(list[n3] == (DocumentAction::DigitalSigning, c.can_sign));
    assert(list[n3 + 1] == (DocumentAction::DualOddLeft, c.dual_page));
    assert(list[n3 + 2] == (DocumentAction::ZoomIn, c.can_zoom_in));
    assert(list[n3 + 3] == (DocumentAction::ZoomOut, c.can_zoom_out));
    assert(list[n3 + 4] == (DocumentAction::GoBackHistory, !c.history_frozen && c.can_go_back));
    assert(list[n3 + 5] == (DocumentAction::GoForwardHistory, !c.history_frozen
        && c.can_go_forward));
    assert(list[n3 + 6] == (DocumentAction::CaretNavigation, c.caret_navigation));
    if list.contains((action, enabled)) {
        let i = list.index_of((action, enabled));
        assert(0 <= i < n3 + 7);
        assert(i == 0 || i == n0 || i == n1 || i == n1 + 1 || i == n2 || i == n2 + 1 || i == n3 || i
            == n3 + 1 || i == n3 + 2 || i == n3 + 3 || i == n3 + 4 || i == n3 + 5 || i == n3 + 6);
    }
}

proof fn lemma_first_format(formats: Seq<ImageFormat>, uri: Seq<char>, from: int)
    requires
        0 <= from <= formats.len(),
    ensures
        match format_for(formats, uri, from) {
            Some(i) => from <= i < formats.len() && suits(formats[i], uri) && forall|k: int|
                from <= k < i ==> !suits(#[trigger] formats[k], uri),
            None => forall|k: int| from <= k < formats.len() ==> !suits(#[trigger] formats[k], uri),
        },
    decreases formats.len() - from,
{
    if from < formats.len() && !suits(formats[from], uri) {
        lemma_first_format(formats, uri, from + 1);
    }
}

/// A format suits an address where images can be written in it, it is not disabled,
/// and the address ends with one of its extensions.
pub proof fn format_suits_by_its_extension(format: ImageFormat, uri: Seq<char>)
    ensures
        suits(format, uri) <==> !format.disabled && format.writable && exists|k: int|
            0 <= k < format.extensions@.len() && uri.len() >= (
            #[trigger] format.extensions@[k])@.len() && uri.skip(
                uri.len() - format.extensions@[k]@.len(),
            ) == format.extensions@[k]@,
{
    assert forall|k: int|
        0 <= k < format.extensions@.len() implies (ends_with(
        uri,
        (#[trigger] format.extensions@[k])@,
    ) <==> uri.len() >= format.extensions@[k]@.len() && uri.skip(
        uri.len() - format.extensions@[k]@.len(),
    ) == format.extensions@[k]@) by {
        let end = format.extensions@[k]@;
        if uri.len() >= end.len() {
            let at = uri.len() - end.len();
            assert(uri.subrange(at, at + end.len()) =~= uri.skip(at));
        }
    }
    if suits(format, uri) {
        let k = choose|k: int|
            0 <= k < format.extensions@.len() && ends_with(uri, #[trigger] format.extensions@[k]@);
        assert(ends_with(uri, format.extensions@[k]@));
    }
}

/// An image is saved in the first format that suits its address. Where none does and
/// no extension was given, it is saved in the first for PNG, or else in the first for
/// JPEG; where an extension was given, it is not saved.
pub proof fn image_is_saved_in_the_first_format(
    formats: Seq<ImageFormat>,
    uri: Seq<char>,
    has_extension: bool,
    i: int,
)
    requires
        0 <= i < formats.len(),
    ensures
        suits(formats[i], uri) && (forall|k: int|
            0 <= k < i ==> !suits(#[trigger] formats[k], uri)) ==> chosen_format(
            formats,
            uri,
            has_extension,
        ) == Some(i),
        (forall|k: int| 0 <= k < formats.len() ==> !suits(#[trigger] formats[k], uri)) ==> {
            &&& has_extension ==> chosen_format(formats, uri, has_extension) is None
            &&& !has_extension && suits(formats[i], ".png"@) && (forall|k: int|
                0 <= k < i ==> !suits(#[trigger] formats[k], ".png"@)) ==> chosen_format(
                formats,
                uri,
                has_extension,
            ) == Some(i)
            &&& !has_extension && suits(formats[i], ".jpeg"@) && (forall|k: int|
                0 <= k < formats.len() ==> !suits(#[trigger] formats[k], ".png"@)) && (forall|k: int|
                0 <= k < i ==> !suits(#[trigger] formats[k], ".jpeg"@)) ==> chosen_format(
                formats,
                uri,
                has_extension,
            ) == Some(i)
            &&& (forall|k: int|
                0 <= k < formats.len() ==> !suits(#[trigger] formats[k], ".png"@) && !suits(
                    formats[k],
                    ".jpeg"@,
                )) ==> chosen_format(formats, uri, has_extension) is None
        },
{
    lemma_first_format(formats, uri, 0);
    lemma_first_format(formats, ".png"@, 0);
    lemma_first_format(formats, ".jpeg"@, 0);
}

} // verus!
