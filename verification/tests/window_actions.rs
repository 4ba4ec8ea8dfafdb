use papers::tab::PpsTab;
use papers::window::{night_mode_changed, PpsWindow, WindowRunMode};
use papers::window_actions::{
    activate, change_state, follow_shortcut, setup_actions, trigger_of, TabShortcut, WindowAction,
    WindowEffect,
};

fn window(tabs: usize) -> PpsWindow {
    let mut window = PpsWindow::new();
    for _ in 0..tabs {
        let _ = window.new_tab(PpsTab::new());
    }
    window
}

fn presenting() -> PpsTab {
    let mut tab = PpsTab::new();
    let _ = tab.set_mode(WindowRunMode::Presentation);
    tab
}

#[test]
fn window_actions_have_names_and_states() {
    let entries: Vec<(String, Option<bool>)> =
        setup_actions().into_iter().map(|e| (e.name, e.state)).collect();
    let expected: Vec<(String, Option<bool>)> = [
        ("open", None),
        ("new-tab", None),
        ("close-tab", None),
        ("close", None),
        ("fullscreen", Some(false)),
        ("escape", None),
        ("night-mode", Some(false)),
        ("presentation", None),
    ]
    .iter()
    .map(|(name, state)| (name.to_string(), *state))
    .collect();
    assert_eq!(entries, expected);
}

#[test]
fn actions_act_on_the_tab_that_is_shown() {
    let mut w = window(3);
    w.select(1);
    assert_eq!(activate(WindowAction::Open, &w), vec![WindowEffect::AskForFiles]);
    assert_eq!(activate(WindowAction::NewTab, &w), vec![WindowEffect::AskForFiles]);
    assert_eq!(activate(WindowAction::Close, &w), vec![WindowEffect::CloseWindow]);
    assert_eq!(activate(WindowAction::CloseTab, &w), vec![WindowEffect::CloseTab(1)]);
    assert_eq!(activate(WindowAction::Escape, &w), vec![WindowEffect::EscapeDocument(1)]);
    assert_eq!(
        activate(WindowAction::Presentation, &w),
        vec![WindowEffect::RunPresentation(1)]
    );
    w.update_tab(1, presenting());
    assert_eq!(activate(WindowAction::Escape, &w), vec![WindowEffect::StopPresentation(1)]);
    assert_eq!(activate(WindowAction::Presentation, &w), vec![]);
    assert_eq!(
        change_state(WindowAction::Fullscreen, &w, true),
        vec![
            WindowEffect::LayOutFullscreen { tab: 1, on: true },
            WindowEffect::SetFullscreen(true),
            WindowEffect::SetState { action: WindowAction::Fullscreen, on: true },
        ]
    );
}

#[test]
fn actions_do_without_tabs() {
    let w = window(0);
    assert_eq!(activate(WindowAction::CloseTab, &w), vec![]);
    assert_eq!(activate(WindowAction::Escape, &w), vec![]);
    assert_eq!(activate(WindowAction::Presentation, &w), vec![]);
    assert_eq!(
        change_state(WindowAction::Fullscreen, &w, false),
        vec![
            WindowEffect::SetFullscreen(false),
            WindowEffect::SetState { action: WindowAction::Fullscreen, on: false },
        ]
    );
    assert_eq!(follow_shortcut(TabShortcut::Next, &w), None);
    assert_eq!(follow_shortcut(TabShortcut::Previous, &w), None);
}

#[test]
fn night_mode_reaches_the_tabs_and_settles() {
    let w = window(2);
    assert_eq!(
        change_state(WindowAction::NightMode, &w, true),
        vec![
            WindowEffect::SetState { action: WindowAction::NightMode, on: true },
            WindowEffect::InvertColors { tab: 0, on: true },
            WindowEffect::InvertColors { tab: 1, on: true },
            WindowEffect::SetDark(true),
            WindowEffect::StoreNightMode(true),
        ]
    );
    assert_eq!(night_mode_changed(true, true), None);
}

#[test]
fn shortcuts_go_round_the_tabs() {
    let mut w = window(3);
    assert_eq!(trigger_of(TabShortcut::Next), "<Ctrl>Tab");
    assert_eq!(trigger_of(TabShortcut::Previous), "<Ctrl><Shift>Tab");
    assert_eq!(follow_shortcut(TabShortcut::Next, &w), Some(0));
    assert_eq!(follow_shortcut(TabShortcut::Previous, &w), Some(1));
    w.select(0);
    assert_eq!(follow_shortcut(TabShortcut::Next, &w), Some(1));
    assert_eq!(follow_shortcut(TabShortcut::Previous, &w), Some(2));
}
