//! The window: its tabs, which of them is shown, and what its actions do.
use vstd::prelude::*;

use crate::tab::{modified_message, PpsTab, TabModel};

verus! {

/// What a tab shows.
#[derive(Clone, Copy, Debug, PartialEq, Eq, Structural)]
pub enum WindowRunMode {
    StartView,
    Normal,
    Fullscreen,
    Presentation,
    LoaderView,
    ErrorView,
    PasswordView,
}

impl Default for WindowRunMode {
    fn default() -> (m: Self)
        ensures
            m == WindowRunMode::StartView,
    {
        WindowRunMode::StartView
    }
}

/// The state of a window as a mathematical value.
#[verifier::ext_equal]
pub struct WindowModel {
    /// The tabs, in order.
    pub tabs: Seq<TabModel>,
    /// The position of the tab that is shown.
    pub selected: Option<int>,
}

impl WindowModel {
    /// Whether a tab is shown exactly where there is one.
    pub open spec fn wf(self) -> bool {
        match self.selected {
            Some(i) => 0 <= i < self.tabs.len(),
            None => self.tabs.len() == 0,
        }
    }

    /// The tab that is shown.
    pub open spec fn active(self) -> Option<TabModel> {
        match self.selected {
            Some(i) => Some(self.tabs[i]),
            None => None,
        }
    }
}

/// The window.
#[derive(Debug)]
pub struct PpsWindow {
    tabs: Vec<PpsTab>,
    selected: Option<usize>,
}

/// Tabs as mathematical values.
pub open spec fn tab_models(tabs: Seq<PpsTab>) -> Seq<TabModel> {
    tabs.map_values(|t: PpsTab| t@)
}

impl View for PpsWindow {
    type V = WindowModel;

    closed spec fn view(&self) -> WindowModel {
        WindowModel {
            tabs: tab_models(self.tabs@),
            selected: match self.selected {
                Some(i) => Some(i as int),
                None => None,
            },
        }
    }
}

/// What the escape key does.
#[derive(Clone, Copy, Debug, PartialEq, Eq, Structural)]
pub enum Escape {
    /// Nothing.
    Nothing,
    /// The presentation ends.
    StopPresentation,
    /// The document decides.
    Document,
}

/// What is done with a tab that is to be closed.
#[derive(Debug)]
pub enum Closing {
    /// The user is asked, with these words.
    Ask(String),
    /// It is closed.
    Close,
}

/// A directory of the user's.
#[derive(Clone, Copy, Debug, PartialEq, Eq, Structural)]
pub enum UserDirectory {
    Pictures,
    Documents,
}

/// The tab behind the one at `position` of `n`, the first behind the last.
pub open spec fn next_position(position: int, n: int) -> int {
    (position + 1) % n
}

/// The tab before the one at `position` of `n`, the last before the first.
pub open spec fn previous_position(position: int, n: int) -> int {
    (position + n - 1) % n
}

/// The tab behind the one at `position` of `n`, the first behind the last.
pub fn next_tab(position: i32, n: i32) -> (i: i32)
    requires
        0 <= position < n,
    ensures
        i == next_position(position as int, n as int),
{
    proof {
        lemma_positions(position as int, n as int);
    }
    if position < n - 1 {
        position + 1
    } else {
        0
    }
}

/// The tab before the one at `position` of `n`, the last before the first.
pub fn previous_tab(position: i32, n: i32) -> (i: i32)
    requires
        0 <= position < n,
    ensures
        i == previous_position(position as int, n as int),
{
    proof {
        lemma_positions(position as int, n as int);
    }
    if position > 0 {
        position - 1
    } else {
        n - 1
    }
}

/// Whether the tab bar is shown: with more than one tab.
pub fn tab_bar_visible(n_pages: i32) -> (r: bool)
    ensures
        r == (n_pages > 1),
{
    n_pages > 1
}

/// The key that a directory is remembered under.
pub fn settings_key_for_directory(dir: UserDirectory) -> (s: String)
    ensures
        s@ == (match dir {
            UserDirectory::Pictures => "pictures-directory"@,
            UserDirectory::Documents => "document-directory"@,
        }),
{
    match dir {
        UserDirectory::Pictures => "pictures-directory".to_string(),
        UserDirectory::Documents => "document-directory".to_string(),
    }
}

/// The folder that a file dialog opens with: the one remembered, else the
/// user's folder for the purpose, else the home folder.
pub fn initial_folder(
    remembered: Option<String>,
    special: Option<String>,
    home: String,
) -> (s: String)
    ensures
        s@ == (match remembered {
            Some(r) => r@,
            None => match special {
                Some(p) => p@,
                None => home@,
            },
        }),
{
    match remembered {
        Some(r) => r,
        None => match special {
            Some(p) => p,
            None => home,
        },
    }
}

/// The folder to remember: that of the file that was chosen, unless it is the
/// user's folder for the purpose.
pub fn remembered_folder(folder: Option<String>, is_special: bool) -> (r: Option<String>)
    ensures
        if is_special {
            r is None
        } else {
            match folder {
                Some(f) => r matches Some(s) && s@ == f@,
                None => r is None,
            }
        },
{
    if is_special {
        None
    } else {
        folder
    }
}

/// The night mode to change to, where the setting differs from the state.
pub open spec fn mode_to_change_to(setting: bool, current: bool) -> Option<bool> {
    if setting != current {
        Some(setting)
    } else {
        None
    }
}

/// The night mode to change to, where the setting differs from the state.
pub fn night_mode_changed(setting: bool, current: bool) -> (r: Option<bool>)
    ensures
        r == mode_to_change_to(setting, current),
{
    if setting != current {
        Some(setting)
    } else {
        None
    }
}

impl PpsWindow {
    /// A window without tabs.
    pub fn new() -> (w: Self)
        ensures
            w@ == (WindowModel { tabs: Seq::empty(), selected: None }),
            w@.wf(),
    {
        let w = PpsWindow { tabs: Vec::new(), selected: None };
        assert(w@.tabs =~= Seq::empty());
        w
    }

    /// How many tabs there are.
    pub fn n_pages(&self) -> (n: usize)
        ensures
            n == self@.tabs.len(),
    {
        self.tabs.len()
    }

    /// The position of the tab that is shown.
    pub fn selected(&self) -> (r: Option<usize>)
        requires
            self@.wf(),
        ensures
            match self@.selected {
                Some(i) => r == Some(i as usize) && i < self@.tabs.len(),
                None => r is None,
            },
    {
        self.selected
    }

    /// The tab that is shown.
    pub fn active_tab(&self) -> (r: Option<&PpsTab>)
        requires
            self@.wf(),
        ensures
            match self@.active() {
                Some(t) => r matches Some(tab) && tab@ == t,
                None => r is None,
            },
    {
        match self.selected {
            Some(i) => {
                assert(tab_models(self.tabs@)[i as int] == self.tabs@[i as int]@);
                Some(&self.tabs[i])
            },
            None => None,
        }
    }

    /// Adds a tab behind the others and shows it. The result says whether it is
    /// the first.
    pub fn new_tab(&mut self, tab: PpsTab) -> (first: bool)
        requires
            old(self)@.wf(),
            old(self)@.tabs.len() < usize::MAX,
        ensures
            final(self)@ == (WindowModel {
                tabs: old(self)@.tabs.push(tab@),
                selected: Some(old(self)@.tabs.len() as int),
            }),
            final(self)@.wf(),
            first == (final(self)@.tabs.len() == 1),
    {
        let n: usize = self.tabs.len();
        let ghost before = self@.tabs;
        let ghost added = tab@;
        self.tabs.push(tab);
        self.selected = Some(n);
        assert(self@.tabs =~= before.push(added));
        n == 0
    }

    /// Shows a tab.
    pub fn select(&mut self, position: usize)
        requires
            old(self)@.wf(),
            position < old(self)@.tabs.len(),
        ensures
            final(self)@ == (WindowModel { selected: Some(position as int), ..old(self)@ }),
            final(self)@.wf(),
    {
        self.selected = Some(position);
    }

    /// Replaces the state of a tab.
    pub fn update_tab(&mut self, position: usize, tab: PpsTab)
        requires
            old(self)@.wf(),
            position < old(self)@.tabs.len(),
        ensures
            final(self)@ == (WindowModel {
                tabs: old(self)@.tabs.update(position as int, tab@),
                ..old(self)@
            }),
            final(self)@.wf(),
    {
        let ghost before = self@.tabs;
        let ghost changed = tab@;
        self.tabs.set(position, tab);
        assert(self@.tabs =~= before.update(position as int, changed));
    }

    /// Shows the tab behind the one that is shown.
    pub fn select_next(&mut self)
        requires
            old(self)@.wf(),
            old(self)@.tabs.len() <= i32::MAX,
        ensures
            final(self)@.wf(),
            final(self)@ == (WindowModel {
                selected: match old(self)@.selected {
                    Some(i) => Some(next_position(i, old(self)@.tabs.len() as int)),
                    None => None,
                },
                ..old(self)@
            }),
    {
        if let Some(i) = self.selected {
            let next: i32 = next_tab(i as i32, self.tabs.len() as i32);
            proof {
                lemma_positions(i as int, self@.tabs.len() as int);
            }
            self.selected = Some(next as usize);
        }
    }

    /// Shows the tab before the one that is shown.
    pub fn select_previous(&mut self)
        requires
            old(self)@.wf(),
            old(self)@.tabs.len() <= i32::MAX,
        ensures
            final(self)@.wf(),
            final(self)@ == (WindowModel {
                selected: match old(self)@.selected {
                    Some(i) => Some(previous_position(i, old(self)@.tabs.len() as int)),
                    None => None,
                },
                ..old(self)@
            }),
    {
        if let Some(i) = self.selected {
            let previous: i32 = previous_tab(i as i32, self.tabs.len() as i32);
            proof {
                lemma_positions(i as int, self@.tabs.len() as int);
            }
            self.selected = Some(previous as usize);
        }
    }

    /// What is done with a tab that is to be closed: one whose document has
    /// changes that are not saved is asked about first.
    pub fn closing(
        &self,
        position: usize,
        forms_modified: bool,
        annots_modified: bool,
    ) -> (c: Closing)
        requires
            position < self@.tabs.len(),
        ensures
            match modified_message(forms_modified, annots_modified) {
                Some(m) => if self@.tabs[position as int].has_document {
                    c matches Closing::Ask(s) && s@ == m
                } else {
                    c is Close
                },
                None => c is Close,
            },
    {
        assert(tab_models(self.tabs@)[position as int] == self.tabs@[position as int]@);
        match self.tabs[position].check_document_modified(forms_modified, annots_modified) {
            Some(message) => Closing::Ask(message),
            None => Closing::Close,
        }
    }

    /// Takes a tab out, where `selected` is shown then. The result says whether
    /// the window is to be closed: without tabs.
    pub fn tab_closed(&mut self, position: usize, selected: Option<usize>) -> (close: bool)
        requires
            position < old(self)@.tabs.len(),
            match selected {
                Some(i) => i < old(self)@.tabs.len() - 1,
                None => old(self)@.tabs.len() == 1,
            },
        ensures
            final(self)@.wf(),
            final(self)@ == (WindowModel {
                tabs: old(self)@.tabs.remove(position as int),
                selected: match selected {
                    Some(i) => Some(i as int),
                    None => None,
                },
            }),
            close == (final(self)@.tabs.len() == 0),
    {
        let ghost before = self@.tabs;
        let _ = self.tabs.remove(position);
        self.selected = selected;
        assert(self@.tabs =~= before.remove(position as int));
        self.tabs.len() == 0
    }

    /// The title of the window: that of the tab that is shown, or `fallback`
    /// where it has none.
    pub fn title(&self, fallback: &str) -> (s: String)
        requires
            self@.wf(),
        ensures
            s@ == (match self@.active() {
                Some(t) => if t.display_name.len() > 0 {
                    t.display_name
                } else {
                    fallback@
                },
                None => fallback@,
            }),
    {
        match self.active_tab() {
            Some(tab) => {
                let name = tab.display_name();
                if name.is_empty() {
                    fallback.to_string()
                } else {
                    name.to_string()
                }
            },
            None => fallback.to_string(),
        }
    }

    /// The address of the document that is shown.
    pub fn uri(&self) -> (r: Option<String>)
        requires
            self@.wf(),
        ensures
            match self@.active() {
                Some(t) => match t.uri {
                    Some(u) => r matches Some(s) && s@ == u,
                    None => r is None,
                },
                None => r is None,
            },
    {
        match self.active_tab() {
            Some(tab) => tab.uri(),
            None => None,
        }
    }

    /// Whether the window shows no document and loads none.
    pub fn is_empty(&self) -> (r: bool)
        requires
            self@.wf(),
        ensures
            r == (match self@.active() {
                Some(t) => !t.has_document && !t.loading,
                None => true,
            }),
    {
        match self.active_tab() {
            Some(tab) => tab.is_empty(),
            None => true,
        }
    }

    /// What the escape key does: it ends a presentation; else the document
    /// decides.
    pub fn cmd_escape(&self) -> (e: Escape)
        requires
            self@.wf(),
        ensures
            e == (match self@.active() {
                Some(t) => if t.mode is Presentation {
                    Escape::StopPresentation
                } else {
                    Escape::Document
                },
                None => Escape::Nothing,
            }),
    {
        match self.active_tab() {
            Some(tab) => if tab.mode() == WindowRunMode::Presentation {
                Escape::StopPresentation
            } else {
                Escape::Document
            },
            None => Escape::Nothing,
        }
    }

    /// Whether a presentation is to start: there is a document, and none runs.
    pub fn cmd_presentation(&self) -> (r: bool)
        requires
            self@.wf(),
        ensures
            r == (match self@.active() {
                Some(t) => !(t.mode is Presentation),
                None => false,
            }),
    {
        match self.active_tab() {
            Some(tab) => tab.mode() != WindowRunMode::Presentation,
            None => false,
        }
    }
}

// ---------------------------------------------------------------------------
// Laws
// ---------------------------------------------------------------------------

proof fn lemma_positions(position: int, n: int)
    requires
        0 <= position < n,
    ensures
        next_position(position, n) == (if position + 1 < n {
            position + 1
        } else {
            0
        }),
        previous_position(position, n) == (if position > 0 {
            position - 1
        } else {
            n - 1
        }),
{
    if position + 1 < n {
        vstd::arithmetic::div_mod::lemma_small_mod((position + 1) as nat, n as nat);
    } else {
        vstd::arithmetic::div_mod::lemma_mod_self_0(n);
    }
    if position > 0 {
        vstd::arithmetic::div_mod::lemma_small_mod((position - 1) as nat, n as nat);
        vstd::arithmetic::div_mod::lemma_mod_add_multiples_vanish(position - 1, n);
        assert(n + (position - 1) == position + n - 1);
    } else {
        vstd::arithmetic::div_mod::lemma_small_mod((n - 1) as nat, n as nat);
    }
}

/// Going to the next tab and back, or back and to the next, stays where it was.
pub proof fn next_and_previous_are_inverse(position: int, n: int)
    requires
        0 <= position < n,
    ensures
        0 <= next_position(position, n) < n,
        0 <= previous_position(position, n) < n,
        previous_position(next_position(position, n), n) == position,
        next_position(previous_position(position, n), n) == position,
{
    lemma_positions(position, n);
    lemma_positions(next_position(position, n), n);
    lemma_positions(previous_position(position, n), n);
}

/// Where going to the next tab `steps` times leads.
pub open spec fn after_steps(position: int, n: int, steps: nat) -> int
    decreases steps,
{
    if steps == 0 {
        position
    } else {
        next_position(after_steps(position, n, (steps - 1) as nat), n)
    }
}

/// Going to the next tab reaches every tab: after as many steps as lie between
/// them, counted round the end.
pub proof fn cycling_reaches_every_tab(position: int, n: int, steps: nat)
    requires
        0 <= position < n,
        steps <= n,
    ensures
        after_steps(position, n, steps) == (if position + steps < n {
            position + steps
        } else {
            position + steps - n
        }),
    decreases steps,
{
    if steps > 0 {
        cycling_reaches_every_tab(position, n, (steps - 1) as nat);
        lemma_positions(after_steps(position, n, (steps - 1) as nat), n);
    }
}

} // verus!
