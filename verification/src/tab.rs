//! A tab of the window: the state of one document.
use vstd::prelude::*;

use crate::text::{chars_of, occurs_at, push_text, starts_with, string_of};
use crate::window::WindowRunMode;

verus! {

/// The name of the page of the tab's stack that a mode shows.
pub open spec fn stack_page(mode: WindowRunMode) -> Seq<char> {
    match mode {
        WindowRunMode::Normal => "document"@,
        WindowRunMode::PasswordView => "password"@,
        WindowRunMode::StartView => "document"@,
        WindowRunMode::LoaderView => "loader"@,
        WindowRunMode::ErrorView => "error"@,
        WindowRunMode::Presentation => "presentation"@,
        WindowRunMode::Fullscreen => "document"@,
    }
}

/// What is said of a document with changes that are not saved.
pub open spec fn modified_message(forms: bool, annotations: bool) -> Option<Seq<char>> {
    if forms && annotations {
        Some(
            "Document contains new or modified annotations and form fields that have been filled out."@,
        )
    } else if forms {
        Some("Document contains form fields that have been filled out."@)
    } else if annotations {
        Some("Document contains new or modified annotations."@)
    } else {
        None
    }
}

/// What an outside link opens, where it opens anything: its own address, where
/// that has a scheme, or the web site that it names without one.
pub open spec fn opened_address(uri: Seq<char>, has_scheme: bool) -> Option<Seq<char>> {
    if has_scheme {
        Some(uri)
    } else if occurs_at(uri, "www."@, 0) {
        Some("https://"@ + uri)
    } else {
        None
    }
}

/// The state of a tab as a mathematical value.
#[verifier::ext_equal]
pub struct TabModel {
    pub mode: WindowRunMode,
    /// The title of the tab.
    pub display_name: Seq<char>,
    /// The address of the document, once there is one.
    pub uri: Option<Seq<char>>,
    /// Whether a document is open.
    pub has_document: bool,
    /// Whether a document is being loaded.
    pub loading: bool,
    /// Whether a document is being loaded again.
    pub reloading: bool,
}

/// A tab of the window.
#[derive(Debug)]
pub struct PpsTab {
    mode: WindowRunMode,
    display_name: String,
    uri: Option<String>,
    has_document: bool,
    loading: bool,
    reloading: bool,
}

impl View for PpsTab {
    type V = TabModel;

    closed spec fn view(&self) -> TabModel {
        TabModel {
            mode: self.mode,
            display_name: self.display_name@,
            uri: match self.uri {
                Some(u) => Some(u@),
                None => None,
            },
            has_document: self.has_document,
            loading: self.loading,
            reloading: self.reloading,
        }
    }
}

/// What is said of a document with changes that are not saved.
pub fn unsaved_changes(forms_modified: bool, annots_modified: bool) -> (r: Option<String>)
    ensures
        match modified_message(forms_modified, annots_modified) {
            Some(m) => r matches Some(s) && s@ == m,
            None => r is None,
        },
{
    if forms_modified && annots_modified {
        Some(
            "Document contains new or modified annotations and form fields that have been filled out.".to_string(),
        )
    } else if forms_modified {
        Some("Document contains form fields that have been filled out.".to_string())
    } else if annots_modified {
        Some("Document contains new or modified annotations.".to_string())
    } else {
        None
    }
}

/// What an outside link opens, where it opens anything.
pub fn external_link_address(uri: &str, has_scheme: bool) -> (r: Option<String>)
    ensures
        match opened_address(uri@, has_scheme) {
            Some(a) => r matches Some(s) && s@ == a,
            None => r is None,
        },
{
    if has_scheme {
        return Some(uri.to_string());
    }
    if starts_with(&chars_of(uri), &chars_of("www.")) {
        let mut v = chars_of("https://");
        push_text(&mut v, &chars_of(uri));
        return Some(string_of(&v));
    }
    None
}

impl PpsTab {
    /// A tab without a document.
    pub fn new() -> (t: Self)
        ensures
            t@ == (TabModel {
                mode: WindowRunMode::StartView,
                display_name: Seq::empty(),
                uri: None,
                has_document: false,
                loading: false,
                reloading: false,
            }),
    {
        let t = PpsTab {
            mode: WindowRunMode::StartView,
            display_name: String::new(),
            uri: None,
            has_document: false,
            loading: false,
            reloading: false,
        };
        assert(t@.display_name =~= Seq::<char>::empty());
        t
    }

    /// What the tab shows.
    pub fn mode(&self) -> (m: WindowRunMode)
        ensures
            m == self@.mode,
    {
        self.mode
    }

    /// Changes what the tab shows. The result is the page of the stack to turn
    /// to, where anything changed.
    pub fn set_mode(&mut self, mode: WindowRunMode) -> (r: Option<String>)
        ensures
            final(self)@ == (TabModel { mode, ..old(self)@ }),
            if old(self)@.mode == mode {
                r is None
            } else {
                r matches Some(s) && s@ == stack_page(mode)
            },
    {
        if self.mode == mode {
            return None;
        }
        self.mode = mode;
        Some(
            match mode {
                WindowRunMode::Normal => "document".to_string(),
                WindowRunMode::PasswordView => "password".to_string(),
                WindowRunMode::StartView => "document".to_string(),
                WindowRunMode::LoaderView => "loader".to_string(),
                WindowRunMode::ErrorView => "error".to_string(),
                WindowRunMode::Presentation => "presentation".to_string(),
                WindowRunMode::Fullscreen => "document".to_string(),
            },
        )
    }

    /// The title of the tab.
    pub fn display_name(&self) -> (s: &str)
        ensures
            s@ == self@.display_name,
    {
        self.display_name.as_str()
    }

    /// Changes the title of the tab.
    pub fn set_display_name(&mut self, name: String)
        ensures
            final(self)@ == (TabModel { display_name: name@, ..old(self)@ }),
    {
        self.display_name = name;
    }

    /// The address of the document, once there is one.
    pub fn uri(&self) -> (r: Option<String>)
        ensures
            match self@.uri {
                Some(u) => r matches Some(s) && s@ == u,
                None => r is None,
            },
    {
        match &self.uri {
            Some(u) => Some(u.clone()),
            None => None,
        }
    }

    /// Changes the address of the document.
    pub fn set_uri(&mut self, uri: String)
        ensures
            final(self)@ == (TabModel { uri: Some(uri@), ..old(self)@ }),
    {
        self.uri = Some(uri);
    }

    /// Whether the tab has no document and loads none.
    pub fn is_empty(&self) -> (r: bool)
        ensures
            r == (!self@.has_document && !self@.loading),
    {
        !self.has_document && !self.loading
    }

    /// What is to be said before the tab is closed, where its document has
    /// changes that are not saved.
    pub fn check_document_modified(&self, forms_modified: bool, annots_modified: bool) -> (r: Option<
        String,
    >)
        ensures
            match modified_message(forms_modified, annots_modified) {
                Some(m) => if self@.has_document {
                    r matches Some(s) && s@ == m
                } else {
                    r is None
                },
                None => r is None,
            },
    {
        if !self.has_document {
            return None;
        }
        unsaved_changes(forms_modified, annots_modified)
    }

    /// Notes that a document is being loaded.
    pub fn load_started(&mut self)
        ensures
            final(self)@ == (TabModel { loading: true, ..old(self)@ }),
    {
        self.loading = true;
    }

    /// Notes that the document is being loaded again.
    pub fn reload_started(&mut self)
        ensures
            final(self)@ == (TabModel { reloading: true, ..old(self)@ }),
    {
        self.reloading = true;
    }

    /// Notes that a document is open.
    pub fn document_opened(&mut self)
        ensures
            final(self)@ == (TabModel { has_document: true, ..old(self)@ }),
    {
        self.has_document = true;
    }

    /// Gives up the loading of a document. The result says, where one was being
    /// loaded, whether that is to be cancelled: a loading that has `finished`
    /// is not.
    pub fn clear_load_job(&mut self, finished: bool) -> (r: Option<bool>)
        ensures
            final(self)@ == (TabModel { loading: false, ..old(self)@ }),
            r == (if old(self)@.loading {
                Some(!finished)
            } else {
                None
            }),
    {
        if !self.loading {
            return None;
        }
        self.loading = false;
        Some(!finished)
    }

    /// Gives up the second loading of a document, as
    /// [`PpsTab::clear_load_job`] does the first.
    pub fn clear_reload_job(&mut self, finished: bool) -> (r: Option<bool>)
        ensures
            final(self)@ == (TabModel { reloading: false, ..old(self)@ }),
            r == (if old(self)@.reloading {
                Some(!finished)
            } else {
                None
            }),
    {
        if !self.reloading {
            return None;
        }
        self.reloading = false;
        Some(!finished)
    }

    /// Gives up the loading of a document whose password was not given, where
    /// the tab shows nothing else. The result is that of
    /// [`PpsTab::clear_load_job`].
    pub fn password_view_cancelled(&mut self, finished: bool) -> (r: Option<bool>)
        ensures
            if old(self)@.mode is StartView {
                final(self)@ == (TabModel { loading: false, ..old(self)@ }) && r == (if old(
                    self,
                )@.loading {
                    Some(!finished)
                } else {
                    None
                })
            } else {
                final(self)@ == old(self)@ && r is None
            },
    {
        if self.mode == WindowRunMode::StartView {
            self.clear_load_job(finished)
        } else {
            None
        }
    }
}

// ---------------------------------------------------------------------------
// Laws
// ---------------------------------------------------------------------------

/// Something is said of a document exactly where it has changes that are not
/// saved.
pub proof fn said_exactly_where_modified(forms: bool, annotations: bool)
    ensures
        modified_message(forms, annotations) is Some <==> forms || annotations,
{
}

/// The messages about forms alone, about annotations alone and about both are three.
pub proof fn each_change_has_its_message()
    ensures
        modified_message(true, true) != modified_message(true, false),
        modified_message(true, true) != modified_message(false, true),
        modified_message(true, false) != modified_message(false, true),
{
    reveal_strlit(
        "Document contains new or modified annotations and form fields that have been filled out.",
    );
    reveal_strlit("Document contains form fields that have been filled out.");
    reveal_strlit("Document contains new or modified annotations.");
    assert(modified_message(true, true)->Some_0.len() != modified_message(true, false)->Some_0.len());
    assert(modified_message(true, true)->Some_0.len() != modified_message(false, true)->Some_0.len());
    assert(modified_message(true, false)->Some_0.len() != modified_message(
        false,
        true,
    )->Some_0.len());
}

/// A link with a scheme opens as it is; one without opens only where it starts with
/// `www.`, as the site of that name.
pub proof fn link_opens_itself_or_its_site(uri: Seq<char>)
    ensures
        opened_address(uri, true) == Some(uri),
        opened_address(uri, false) is Some <==> uri.len() >= 4 && uri[0] == 'w' && uri[1] == 'w'
            && uri[2] == 'w' && uri[3] == '.',
        opened_address(uri, false) matches Some(a) ==> a.len() == uri.len() + 8 && a.skip(8) == uri
            && opened_address(a, true) == Some(a) && a.take(8) == "https://"@,
{
    reveal_strlit("www.");
    reveal_strlit("https://");
    let www = "www."@;
    if uri.len() >= 4 {
        let head = uri.subrange(0, 4);
        if head == www {
            assert(head[0] == 'w' && head[1] == 'w' && head[2] == 'w' && head[3] == '.');
        }
        if uri[0] == 'w' && uri[1] == 'w' && uri[2] == 'w' && uri[3] == '.' {
            assert(head =~= www);
        }
    }
    let address = "https://"@ + uri;
    assert(address.skip(8) =~= uri);
    assert(address.take(8) =~= "https://"@);
}

/// A document is shown as such in the normal mode, at the start and on the full
/// screen; the other modes have pages of their own.
pub proof fn modes_show_their_pages(a: WindowRunMode, b: WindowRunMode)
    ensures
        stack_page(a) == "document"@ <==> a is Normal || a is StartView || a is Fullscreen,
        stack_page(a) == stack_page(b) <==> a == b || (stack_page(a) == "document"@ && stack_page(b)
            == "document"@),
{
    reveal_strlit("document");
    reveal_strlit("password");
    reveal_strlit("loader");
    reveal_strlit("error");
    reveal_strlit("presentation");
    assert("document"@[0] == 'd');
    assert("password"@[0] == 'p' && "password"@.len() == 8);
    assert("loader"@[0] == 'l');
    assert("error"@[0] == 'e');
    assert("presentation"@[0] == 'p' && "presentation"@.len() == 12);
}

} // verus!
