//! The actions and shortcuts of the window: their names, and what each of them
//! does, in order.
use vstd::prelude::*;

use crate::window::{
    after_steps, cycling_reaches_every_tab, mode_to_change_to, next_and_previous_are_inverse,
    next_position, next_tab, previous_position,
    previous_tab, Escape, PpsWindow, WindowModel,
};

verus! {

/// An action of the window.
#[derive(Clone, Copy, Debug, PartialEq, Eq, Structural)]
pub enum WindowAction {
    Open,
    NewTab,
    CloseTab,
    Close,
    Fullscreen,
    Escape,
    NightMode,
    Presentation,
}

/// A way from the tab that is shown to another.
#[derive(Clone, Copy, Debug, PartialEq, Eq, Structural)]
pub enum TabShortcut {
    Next,
    Previous,
}

/// Something to do on the window.
#[derive(Clone, Copy, Debug, PartialEq, Eq, Structural)]
pub enum WindowEffect {
    /// Ask for files, and open each in a tab.
    AskForFiles,
    /// Ask the tab at that position to close.
    CloseTab(usize),
    /// Close the window.
    CloseWindow,
    /// Lay the document of that tab out for the full screen, or not.
    LayOutFullscreen { tab: usize, on: bool },
    /// Enter the full screen, or leave it.
    SetFullscreen(bool),
    /// End the presentation of that tab.
    StopPresentation(usize),
    /// Start the presentation of that tab.
    RunPresentation(usize),
    /// Hand the escape key on to the document of that tab.
    EscapeDocument(usize),
    /// Invert the colors of that tab's document, or not.
    InvertColors { tab: usize, on: bool },
    /// Dress the application in dark colors, or in those of the system.
    SetDark(bool),
    /// Store whether the night mode is on.
    StoreNightMode(bool),
    /// Take over the new state of an action.
    SetState { action: WindowAction, on: bool },
}

/// An action as it is added to the window.
#[derive(Debug)]
pub struct WindowEntry {
    pub action: WindowAction,
    pub name: String,
    /// The state that it starts with, where it is a switch.
    pub state: Option<bool>,
}

/// The actions, in the order in which they are added.
pub open spec fn all_actions() -> Seq<WindowAction> {
    seq![
        WindowAction::Open,
        WindowAction::NewTab,
        WindowAction::CloseTab,
        WindowAction::Close,
        WindowAction::Fullscreen,
        WindowAction::Escape,
        WindowAction::NightMode,
        WindowAction::Presentation,
    ]
}

/// The name of an action.
pub open spec fn action_name(action: WindowAction) -> Seq<char> {
    match action {
        WindowAction::Open => "open"@,
        WindowAction::NewTab => "new-tab"@,
        WindowAction::CloseTab => "close-tab"@,
        WindowAction::Close => "close"@,
        WindowAction::Fullscreen => "fullscreen"@,
        WindowAction::Escape => "escape"@,
        WindowAction::NightMode => "night-mode"@,
        WindowAction::Presentation => "presentation"@,
    }
}

/// Whether an action is a switch, which starts switched off.
pub open spec fn is_switch(action: WindowAction) -> bool {
    action is Fullscreen || action is NightMode
}

/// The keys of a shortcut.
pub open spec fn trigger(shortcut: TabShortcut) -> Seq<char> {
    match shortcut {
        TabShortcut::Next => "<Ctrl>Tab"@,
        TabShortcut::Previous => "<Ctrl><Shift>Tab"@,
    }
}

/// What an action that is no switch does, in order.
pub open spec fn activation(action: WindowAction, w: WindowModel) -> Seq<WindowEffect> {
    match action {
        WindowAction::Open => seq![WindowEffect::AskForFiles],
        WindowAction::NewTab => seq![WindowEffect::AskForFiles],
        WindowAction::Close => seq![WindowEffect::CloseWindow],
        WindowAction::CloseTab => match w.selected {
            Some(i) => seq![WindowEffect::CloseTab(i as usize)],
            None => Seq::empty(),
        },
        WindowAction::Escape => match w.selected {
            Some(i) => if w.tabs[i].mode is Presentation {
                seq![WindowEffect::StopPresentation(i as usize)]
            } else {
                seq![WindowEffect::EscapeDocument(i as usize)]
            },
            None => Seq::empty(),
        },
        WindowAction::Presentation => match w.selected {
            Some(i) => if w.tabs[i].mode is Presentation {
                Seq::empty()
            } else {
                seq![WindowEffect::RunPresentation(i as usize)]
            },
            None => Seq::empty(),
        },
        _ => Seq::empty(),
    }
}

/// The effects that give the first `n` tabs inverted colors, or their own.
pub open spec fn inverting(n: nat, on: bool) -> Seq<WindowEffect> {
    Seq::new(n, |i: int| WindowEffect::InvertColors { tab: i as usize, on })
}

/// What a switch does when it is changed, in order.
pub open spec fn change(action: WindowAction, w: WindowModel, on: bool) -> Seq<WindowEffect> {
    match action {
        WindowAction::Fullscreen => (match w.selected {
            Some(i) => seq![WindowEffect::LayOutFullscreen { tab: i as usize, on }],
            None => Seq::empty(),
        }) + seq![
            WindowEffect::SetFullscreen(on),
            WindowEffect::SetState { action, on },
        ],
        WindowAction::NightMode => seq![WindowEffect::SetState { action, on }] + inverting(
            w.tabs.len(),
            on,
        ) + seq![WindowEffect::SetDark(on), WindowEffect::StoreNightMode(on)],
        _ => Seq::empty(),
    }
}

/// The position of the tab that a shortcut shows.
pub open spec fn destination(shortcut: TabShortcut, w: WindowModel) -> Option<int> {
    match w.selected {
        Some(i) => Some(
            match shortcut {
                TabShortcut::Next => next_position(i, w.tabs.len() as int),
                TabShortcut::Previous => previous_position(i, w.tabs.len() as int),
            },
        ),
        None => None,
    }
}

/// The name of an action.
pub fn name_of(action: WindowAction) -> (s: String)
    ensures
        s@ == action_name(action),
{
    match action {
        WindowAction::Open => "open".to_string(),
        WindowAction::NewTab => "new-tab".to_string(),
        WindowAction::CloseTab => "close-tab".to_string(),
        WindowAction::Close => "close".to_string(),
        WindowAction::Fullscreen => "fullscreen".to_string(),
        WindowAction::Escape => "escape".to_string(),
        WindowAction::NightMode => "night-mode".to_string(),
        WindowAction::Presentation => "presentation".to_string(),
    }
}

/// The keys of a shortcut.
pub fn trigger_of(shortcut: TabShortcut) -> (s: String)
    ensures
        s@ == trigger(shortcut),
{
    match shortcut {
        TabShortcut::Next => "<Ctrl>Tab".to_string(),
        TabShortcut::Previous => "<Ctrl><Shift>Tab".to_string(),
    }
}

/// The actions of the window, each with its name and the state it starts with.
pub fn setup_actions() -> (entries: Vec<WindowEntry>)
    ensures
        entries@.len() == all_actions().len(),
        forall|i: int|
            0 <= i < entries@.len() ==> {
                let entry = #[trigger] entries@[i];
                &&& entry.action == all_actions()[i]
                &&& entry.name@ == action_name(entry.action)
                &&& entry.state == (if is_switch(entry.action) {
                    Some(false)
                } else {
                    None
                })
            },
{
    let actions = vec![
        WindowAction::Open,
        WindowAction::NewTab,
        WindowAction::CloseTab,
        WindowAction::Close,
        WindowAction::Fullscreen,
        WindowAction::Escape,
        WindowAction::NightMode,
        WindowAction::Presentation,
    ];
    assert(actions@ =~= all_actions());
    let mut entries: Vec<WindowEntry> = Vec::new();
    let mut i: usize = 0;
    while i < actions.len()
        invariant
            i <= actions@.len(),
            actions@ == all_actions(),
            entries@.len() == i,
            forall|k: int|
                0 <= k < i ==> {
                    let entry = #[trigger] entries@[k];
                    &&& entry.action == all_actions()[k]
                    &&& entry.name@ == action_name(entry.action)
                    &&& entry.state == (if is_switch(entry.action) {
                        Some(false)
                    } else {
                        None
                    })
                },
        decreases actions@.len() - i,
    {
        let action = actions[i];
        let state = if action == WindowAction::Fullscreen || action == WindowAction::NightMode {
            Some(false)
        } else {
            None
        };
        entries.push(WindowEntry { action, name: name_of(action), state });
        i = i + 1;
    }
    entries
}

/// What an action that is no switch does, in order.
pub fn activate(action: WindowAction, window: &PpsWindow) -> (r: Vec<WindowEffect>)
    requires
        window@.wf(),
        !is_switch(action),
    ensures
        r@ == activation(action, window@),
{
    let mut r: Vec<WindowEffect> = Vec::new();
    match action {
        WindowAction::Open => {
            r.push(WindowEffect::AskForFiles);
        },
        WindowAction::NewTab => {
            r.push(WindowEffect::AskForFiles);
        },
        WindowAction::Close => {
            r.push(WindowEffect::CloseWindow);
        },
        WindowAction::CloseTab => {
            if let Some(i) = window.selected() {
                r.push(WindowEffect::CloseTab(i));
            }
        },
        WindowAction::Escape => {
            if let Some(i) = window.selected() {
                match window.cmd_escape() {
                    Escape::StopPresentation => {
                        r.push(WindowEffect::StopPresentation(i));
                    },
                    Escape::Document => {
                        r.push(WindowEffect::EscapeDocument(i));
                    },
                    Escape::Nothing => {},
                }
            }
        },
        WindowAction::Presentation => {
            if let Some(i) = window.selected() {
                if window.cmd_presentation() {
                    r.push(WindowEffect::RunPresentation(i));
                }
            }
        },
        WindowAction::Fullscreen => {},
        WindowAction::NightMode => {},
    }
    assert(r@ =~= activation(action, window@));
    r
}

/// What a switch does when it is changed, in order.
pub fn change_state(action: WindowAction, window: &PpsWindow, on: bool) -> (r: Vec<WindowEffect>)
    requires
        window@.wf(),
        is_switch(action),
    ensures
        r@ == change(action, window@, on),
{
    let mut r: Vec<WindowEffect> = Vec::new();
    if action == WindowAction::Fullscreen {
        if let Some(i) = window.selected() {
            r.push(WindowEffect::LayOutFullscreen { tab: i, on });
        }
        r.push(WindowEffect::SetFullscreen(on));
        r.push(WindowEffect::SetState { action, on });
    } else {
        r.push(WindowEffect::SetState { action, on });
        let n: usize = window.n_pages();
        let mut i: usize = 0;
        while i < n
            invariant
                i <= n,
                r@ == seq![WindowEffect::SetState { action, on }] + inverting(i as nat, on),
            decreases n - i,
        {
            r.push(WindowEffect::InvertColors { tab: i, on });
            i = i + 1;
        }
        r.push(WindowEffect::SetDark(on));
        r.push(WindowEffect::StoreNightMode(on));
    }
    assert(r@ =~= change(action, window@, on));
    r
}

/// The position of the tab that a shortcut shows.
pub fn follow_shortcut(shortcut: TabShortcut, window: &PpsWindow) -> (r: Option<i32>)
    requires
        window@.wf(),
        window@.tabs.len() <= i32::MAX,
    ensures
        match destination(shortcut, window@) {
            Some(i) => r matches Some(k) && k == i,
            None => r is None,
        },
{
    match window.selected() {
        Some(i) => {
            let position: i32 = i as i32;
            let n: i32 = window.n_pages() as i32;
            Some(
                match shortcut {
                    TabShortcut::Next => next_tab(position, n),
                    TabShortcut::Previous => previous_tab(position, n),
                },
            )
        },
        None => None,
    }
}

// ---------------------------------------------------------------------------
// Laws
// ---------------------------------------------------------------------------

/// The night mode reaches every tab of the window, with the same colors.
pub proof fn night_mode_reaches_every_tab(w: WindowModel, on: bool, tab: usize)
    requires
        tab < w.tabs.len(),
    ensures
        change(WindowAction::NightMode, w, on).contains(
            (WindowEffect::InvertColors { tab, on }),
        ),
        !change(WindowAction::NightMode, w, on).contains(
            (WindowEffect::InvertColors { tab, on: !on }),
        ),
{
    assert(change(WindowAction::NightMode, w, on)[1 + tab as int] == (WindowEffect::InvertColors {
        tab,
        on,
    }));
}

/// The night mode settles: once a change has been taken over and stored, what
/// is stored asks for no further change.
pub proof fn night_mode_settles(w: WindowModel, on: bool, state: bool, setting: bool)
    requires
        change(WindowAction::NightMode, w, on).contains(
            (WindowEffect::SetState { action: WindowAction::NightMode, on: state }),
        ),
        change(WindowAction::NightMode, w, on).contains(WindowEffect::StoreNightMode(setting)),
    ensures
        state == on,
        setting == on,
        mode_to_change_to(setting, state) is None,
{
}

/// A shortcut shows a tab of the window wherever one is shown, and the other
/// shortcut leads back.
pub proof fn shortcuts_lead_back(w: WindowModel)
    requires
        w.wf(),
        w.selected is Some,
    ensures
        ({
            let next = destination(TabShortcut::Next, w);
            let previous = destination(TabShortcut::Previous, w);
            &&& next is Some
            &&& previous is Some
            &&& 0 <= next->Some_0 < w.tabs.len()
            &&& 0 <= previous->Some_0 < w.tabs.len()
            &&& destination(TabShortcut::Previous, (WindowModel { selected: next, ..w }))
                == w.selected
            &&& destination(TabShortcut::Next, (WindowModel { selected: previous, ..w }))
                == w.selected
        }),
{
    next_and_previous_are_inverse(w.selected->Some_0, w.tabs.len() as int);
}

/// The shortcut for the next tab goes one tab on, and to the first from the last;
/// that for the previous one goes one back, and to the last from the first.
pub proof fn shortcuts_go_one_tab_on_or_back(w: WindowModel, i: int)
    requires
        w.wf(),
        w.selected == Some(i),
    ensures
        destination(TabShortcut::Next, w) == Some(
            if i == w.tabs.len() - 1 {
                0
            } else {
                i + 1
            },
        ),
        destination(TabShortcut::Previous, w) == Some(
            if i == 0 {
                w.tabs.len() - 1
            } else {
                i - 1
            },
        ),
{
    let n = w.tabs.len() as int;
    cycling_reaches_every_tab(i, n, 1);
    reveal_with_fuel(after_steps, 2);
    next_and_previous_are_inverse(i, n);
    let back = if i == 0 {
        n - 1
    } else {
        i - 1
    };
    cycling_reaches_every_tab(back, n, 1);
    next_and_previous_are_inverse(back, n);
}

/// The tab that an effect is on, where it is on one.
pub open spec fn tab_of(effect: WindowEffect) -> Option<usize> {
    match effect {
        WindowEffect::CloseTab(i) => Some(i),
        WindowEffect::StopPresentation(i) => Some(i),
        WindowEffect::RunPresentation(i) => Some(i),
        WindowEffect::EscapeDocument(i) => Some(i),
        WindowEffect::LayOutFullscreen { tab, .. } => Some(tab),
        WindowEffect::InvertColors { tab, .. } => Some(tab),
        _ => None,
    }
}

/// An activated action does one thing at most, on the tab that is shown; without
/// tabs, it can do no more than ask for files or close the window. While a
/// presentation runs, the escape key ends it, and no other can be started.
pub proof fn action_is_on_the_shown_tab(action: WindowAction, w: WindowModel)
    requires
        w.wf(),
        w.tabs.len() <= usize::MAX,
    ensures
        activation(action, w).len() <= 1,
        forall|i: int|
            0 <= i < activation(action, w).len() ==> match tab_of(
                #[trigger] activation(action, w)[i],
            ) {
                Some(tab) => w.selected == Some(tab as int),
                None => activation(action, w)[i] is AskForFiles || activation(
                    action,
                    w,
                )[i] is CloseWindow,
            },
        w.selected matches Some(i) ==> {
            &&& activation(WindowAction::Escape, w) == seq![
                if w.tabs[i].mode is Presentation {
                    WindowEffect::StopPresentation(i as usize)
                } else {
                    WindowEffect::EscapeDocument(i as usize)
                },
            ]
            &&& activation(WindowAction::Presentation, w).contains(
                WindowEffect::RunPresentation(i as usize),
            ) <==> !(w.tabs[i].mode is Presentation)
            &&& activation(WindowAction::CloseTab, w).contains(WindowEffect::CloseTab(i as usize))
        },
        activation(WindowAction::Close, w).contains(WindowEffect::CloseWindow),
        activation(WindowAction::Open, w).contains(WindowEffect::AskForFiles),
        activation(WindowAction::NewTab, w).contains(WindowEffect::AskForFiles),
{
    assert(activation(WindowAction::Close, w)[0] == WindowEffect::CloseWindow);
    assert(activation(WindowAction::Open, w)[0] == WindowEffect::AskForFiles);
    assert(activation(WindowAction::NewTab, w)[0] == WindowEffect::AskForFiles);
    if let Some(i) = w.selected {
        assert(activation(WindowAction::CloseTab, w)[0] == WindowEffect::CloseTab(i as usize));
        if !(w.tabs[i].mode is Presentation) {
            assert(activation(WindowAction::Presentation, w)[0] == WindowEffect::RunPresentation(
                i as usize,
            ));
        }
    }
}

/// The full screen is entered or left as the switch says, by the window and by the
/// tab that is shown, and the switch takes its state over.
pub proof fn fullscreen_follows_the_switch(w: WindowModel, on: bool, other: bool)
    ensures
        change(WindowAction::Fullscreen, w, on).contains(WindowEffect::SetFullscreen(other)) <==> on
            == other,
        change(WindowAction::Fullscreen, w, on).contains(
            (WindowEffect::SetState { action: WindowAction::Fullscreen, on: other }),
        ) <==> on == other,
        w.selected matches Some(i) ==> (change(WindowAction::Fullscreen, w, on).contains(
            (WindowEffect::LayOutFullscreen { tab: i as usize, on: other }),
        ) <==> on == other),
        w.selected is None ==> change(WindowAction::Fullscreen, w, on).len() == 2,
{
    let list = change(WindowAction::Fullscreen, w, on);
    let n = list.len() as int;
    assert(list[n - 2] == WindowEffect::SetFullscreen(on));
    assert(list[n - 1] == (WindowEffect::SetState { action: WindowAction::Fullscreen, on }));
    if let Some(i) = w.selected {
        assert(list[0] == (WindowEffect::LayOutFullscreen { tab: i as usize, on }));
    }
}

} // verus!
