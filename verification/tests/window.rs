use papers::tab::{external_link_address, unsaved_changes, PpsTab};
use papers::window::{
    initial_folder, next_tab, night_mode_changed, previous_tab, remembered_folder,
    settings_key_for_directory, tab_bar_visible, Closing, Escape, PpsWindow, UserDirectory,
    WindowRunMode,
};

fn named(name: &str) -> PpsTab {
    let mut tab = PpsTab::new();
    tab.set_display_name(name.to_string());
    tab
}

#[test]
fn a_new_tab_is_empty() {
    let tab = PpsTab::new();
    assert_eq!(tab.mode(), WindowRunMode::default());
    assert_eq!(tab.mode(), WindowRunMode::StartView);
    assert!(tab.is_empty());
    assert_eq!(tab.uri(), None);
    assert_eq!(tab.display_name(), "");
}

#[test]
fn modes_show_pages_of_the_stack() {
    let mut tab = PpsTab::new();
    assert_eq!(tab.set_mode(WindowRunMode::StartView), None);
    for (mode, page) in [
        (WindowRunMode::Normal, "document"),
        (WindowRunMode::PasswordView, "password"),
        (WindowRunMode::StartView, "document"),
        (WindowRunMode::LoaderView, "loader"),
        (WindowRunMode::ErrorView, "error"),
        (WindowRunMode::Presentation, "presentation"),
        (WindowRunMode::Fullscreen, "document"),
    ] {
        assert_eq!(tab.set_mode(mode), Some(page.to_string()));
        assert_eq!(tab.set_mode(mode), None);
        assert_eq!(tab.mode(), mode);
    }
}

#[test]
fn unsaved_changes_are_said() {
    assert_eq!(unsaved_changes(false, false), None);
    assert_eq!(
        unsaved_changes(true, true).unwrap(),
        "Document contains new or modified annotations and form fields that have been filled out."
    );
    assert_eq!(
        unsaved_changes(true, false).unwrap(),
        "Document contains form fields that have been filled out."
    );
    assert_eq!(
        unsaved_changes(false, true).unwrap(),
        "Document contains new or modified annotations."
    );
    let mut tab = PpsTab::new();
    assert_eq!(tab.check_document_modified(true, true), None);
    tab.document_opened();
    assert!(tab.check_document_modified(true, false).is_some());
    assert!(!tab.is_empty());
}

#[test]
fn outside_links_need_a_scheme_or_a_web_name() {
    assert_eq!(
        external_link_address("ftp://x", true),
        Some("ftp://x".to_string())
    );
    assert_eq!(
        external_link_address("www.gnome.org", false),
        Some("https://www.gnome.org".to_string())
    );
    assert_eq!(external_link_address("gnome.org", false), None);
}

#[test]
fn loadings_are_given_up() {
    let mut tab = PpsTab::new();
    assert_eq!(tab.clear_load_job(false), None);
    tab.load_started();
    assert!(!tab.is_empty());
    assert_eq!(tab.clear_load_job(false), Some(true));
    tab.load_started();
    assert_eq!(tab.clear_load_job(true), Some(false));
    assert!(tab.is_empty());
    tab.reload_started();
    assert_eq!(tab.clear_reload_job(false), Some(true));
    assert_eq!(tab.clear_reload_job(false), None);
    tab.load_started();
    assert_eq!(tab.password_view_cancelled(false), Some(true));
    tab.load_started();
    let _ = tab.set_mode(WindowRunMode::PasswordView);
    assert_eq!(tab.password_view_cancelled(false), None);
    assert!(!tab.is_empty());
}

#[test]
fn tabs_are_cycled() {
    assert_eq!(next_tab(0, 3), 1);
    assert_eq!(next_tab(2, 3), 0);
    assert_eq!(previous_tab(0, 3), 2);
    assert_eq!(previous_tab(2, 3), 1);
    assert_eq!(next_tab(0, 1), 0);
    assert_eq!(previous_tab(0, 1), 0);
    assert_eq!(previous_tab(0, i32::MAX), i32::MAX - 1);
    for i in 0..5 {
        assert_eq!(previous_tab(next_tab(i, 5), 5), i);
        assert_eq!(next_tab(previous_tab(i, 5), 5), i);
    }
}

#[test]
fn the_tab_bar_hides_with_one_tab() {
    assert!(!tab_bar_visible(0));
    assert!(!tab_bar_visible(1));
    assert!(tab_bar_visible(2));
}

#[test]
fn a_window_shows_its_tabs() {
    let mut window = PpsWindow::new();
    assert!(window.is_empty());
    assert_eq!(window.title("Document Viewer"), "Document Viewer");
    assert_eq!(window.cmd_escape(), Escape::Nothing);
    assert!(!window.cmd_presentation());
    assert!(window.new_tab(named("one")));
    assert!(!window.new_tab(named("two")));
    assert_eq!(window.selected(), Some(1));
    assert_eq!(window.title("Document Viewer"), "two");
    window.select_next();
    assert_eq!(window.title("Document Viewer"), "one");
    window.select_previous();
    assert_eq!(window.selected(), Some(1));
    window.select(0);
    let mut tab = named("");
    tab.set_uri("file:///a.pdf".to_string());
    tab.document_opened();
    window.update_tab(0, tab);
    assert_eq!(window.title("Document Viewer"), "Document Viewer");
    assert_eq!(window.uri(), Some("file:///a.pdf".to_string()));
    assert!(!window.is_empty());
    assert_eq!(window.cmd_escape(), Escape::Document);
    assert!(window.cmd_presentation());
    assert_eq!(window.active_tab().unwrap().display_name(), "");
}

#[test]
fn a_presentation_takes_the_escape_key() {
    let mut window = PpsWindow::new();
    let mut tab = named("x");
    let _ = tab.set_mode(WindowRunMode::Presentation);
    let _ = window.new_tab(tab);
    assert_eq!(window.cmd_escape(), Escape::StopPresentation);
    assert!(!window.cmd_presentation());
}

#[test]
fn closing_asks_for_unsaved_changes_and_ends_the_window() {
    let mut window = PpsWindow::new();
    let mut tab = named("one");
    tab.document_opened();
    let _ = window.new_tab(tab);
    let _ = window.new_tab(named("two"));
    assert!(matches!(
        window.closing(0, false, true),
        Closing::Ask(s) if s == "Document contains new or modified annotations."
    ));
    assert!(matches!(window.closing(0, false, false), Closing::Close));
    assert!(matches!(window.closing(1, true, true), Closing::Close));
    assert!(!window.tab_closed(0, Some(0)));
    assert_eq!(window.n_pages(), 1);
    assert_eq!(window.title("-"), "two");
    assert!(window.tab_closed(0, None));
    assert_eq!(window.n_pages(), 0);
    assert_eq!(window.selected(), None);
}

#[test]
fn folders_are_remembered() {
    assert_eq!(
        settings_key_for_directory(UserDirectory::Pictures),
        "pictures-directory"
    );
    assert_eq!(
        settings_key_for_directory(UserDirectory::Documents),
        "document-directory"
    );
    let s = |t: &str| t.to_string();
    assert_eq!(initial_folder(Some(s("/a")), Some(s("/b")), s("/c")), "/a");
    assert_eq!(initial_folder(None, Some(s("/b")), s("/c")), "/b");
    assert_eq!(initial_folder(None, None, s("/c")), "/c");
    assert_eq!(remembered_folder(Some(s("/a")), false), Some(s("/a")));
    assert_eq!(remembered_folder(Some(s("/a")), true), None);
    assert_eq!(remembered_folder(None, false), None);
}

#[test]
fn night_mode_follows_the_setting() {
    assert_eq!(night_mode_changed(true, false), Some(true));
    assert_eq!(night_mode_changed(false, true), Some(false));
    assert_eq!(night_mode_changed(true, true), None);
}
