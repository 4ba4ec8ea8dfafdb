//! The chat in the sidebar: the talk so far, the question in progress, and the
//! page texts it is asked with.
use vstd::prelude::*;

use crate::chat_context::{build_context, context, messages, pages, relevances};
use crate::chat_text::{
    cites, parse_page_citations, plain_text, reachable, reachable_pages, strip_markdown,
};
use crate::ollama::{is_final, ChatEvent, ChatEventModel};
use crate::text::{
    all_white, chars_of, format_i32, has_part, is_white, occurs_at, push_text, signed_decimal, string_of, trim, trimmed,
    trimming_empties_blank_text_alone, words,
};

verus! {

/// The state of the chat as a mathematical value.
#[verifier::ext_equal]
pub struct ChatModel {
    /// Who said what, in order.
    pub messages: Seq<(Seq<char>, Seq<char>)>,
    /// Whether a question is being answered.
    pub loading: bool,
    /// The texts of the document's pages, once they were read.
    pub chunks: Option<Seq<(i32, Seq<char>)>>,
    /// The answer so far, and whether it is the text of an error.
    pub answer: Seq<char>,
    pub failed: bool,
}

/// The chat in the sidebar.
#[derive(Debug)]
pub struct PpsSidebarChat {
    messages: Vec<(String, String)>,
    loading: bool,
    chunks: Option<Vec<(i32, String)>>,
    answer: String,
    failed: bool,
}

/// What is sent with a question.
#[derive(Debug)]
pub struct Question {
    pub context: String,
    pub history: Vec<(String, String)>,
}

/// What the chat shows when an event came in.
#[derive(Debug)]
pub enum Display {
    /// This beside the spinner.
    Status(String),
    /// This as the answer so far.
    Answer(String),
    /// Nothing new: no more events are waited for.
    Complete,
}

/// What the chat shows when an answer is complete.
#[derive(Debug)]
pub struct Finished {
    /// The answer.
    pub text: String,
    /// Whether it can be copied and has its pages to go to.
    pub actions: bool,
}

/// Which parts of the chat can be seen and used.
#[derive(Clone, Copy, Debug, PartialEq, Eq, Structural)]
pub struct Controls {
    pub spinner_shown: bool,
    pub send_visible: bool,
    pub stop_visible: bool,
    pub entry_sensitive: bool,
    pub summarize_sensitive: bool,
}

/// Which parts of the chat can be seen and used.
pub fn controls(loading: bool) -> (c: Controls)
    ensures
        c == (Controls {
            spinner_shown: loading,
            send_visible: !loading,
            stop_visible: loading,
            entry_sensitive: !loading,
            summarize_sensitive: !loading,
        }),
{
    Controls {
        spinner_shown: loading,
        send_visible: !loading,
        stop_visible: loading,
        entry_sensitive: !loading,
        summarize_sensitive: !loading,
    }
}

/// The page that the user is viewing, counted from 1, where `page` is the one
/// that the document model gives, counted from 0; the first, without a model.
pub fn current_page(page: Option<i32>) -> (n: i32)
    requires
        page matches Some(p) ==> p < i32::MAX,
    ensures
        n == (match page {
            Some(p) => p + 1,
            None => 1,
        }),
{
    match page {
        Some(p) => p + 1,
        None => 1,
    }
}

/// The pages of a document that have a text, from position `from` on, counted
/// from 1.
pub open spec fn text_pages(texts: Seq<Option<String>>, from: int) -> Seq<(i32, Seq<char>)>
    decreases texts.len() - from,
{
    if from >= texts.len() {
        Seq::empty()
    } else {
        (match texts[from] {
            Some(t) => if trimmed(t@).len() > 0 {
                seq![((from + 1) as i32, t@)]
            } else {
                Seq::empty()
            },
            None => Seq::empty(),
        }) + text_pages(texts, from + 1)
    }
}

fn collect_pages(texts: &[Option<String>]) -> (v: Vec<(i32, String)>)
    requires
        texts@.len() <= i32::MAX,
    ensures
        pages(v@) == text_pages(texts@, 0),
{
    let mut v: Vec<(i32, String)> = Vec::new();
    let mut i: usize = 0;
    let ghost wanted = text_pages(texts@, 0);
    assert(pages(v@) + text_pages(texts@, 0) =~= wanted);
    while i < texts.len()
        invariant
            i <= texts@.len() <= i32::MAX,
            pages(v@) + text_pages(texts@, i as int) == wanted,
        decreases texts@.len() - i,
    {
        let ghost before = pages(v@);
        let ghost rest = text_pages(texts@, i + 1);
        match &texts[i] {
            Some(t) => {
                if trim(&chars_of(t.as_str())).len() > 0 {
                    v.push(((i + 1) as i32, t.clone()));
                    assert(pages(v@) =~= before.push(((i + 1) as i32, t@)));
                    assert(pages(v@) + rest =~= before + (seq![((i + 1) as i32, t@)] + rest));
                } else {
                    assert(pages(v@) + rest =~= before + (Seq::<(i32, Seq<char>)>::empty() + rest));
                }
            },
            None => {
                assert(pages(v@) + rest =~= before + (Seq::<(i32, Seq<char>)>::empty() + rest));
            },
        }
        i = i + 1;
    }
    assert(pages(v@) =~= wanted);
    v
}

fn copy_pages(chunks: &Vec<(i32, String)>) -> (v: Vec<(i32, String)>)
    ensures
        pages(v@) == pages(chunks@),
{
    let mut v: Vec<(i32, String)> = Vec::new();
    let mut i: usize = 0;
    while i < chunks.len()
        invariant
            i <= chunks@.len(),
            v@.len() == i,
            forall|k: int|
                0 <= k < i ==> (#[trigger] v@[k]).0 == chunks@[k].0 && v@[k].1@ == chunks@[k].1@,
        decreases chunks@.len() - i,
    {
        v.push((chunks[i].0, chunks[i].1.clone()));
        i = i + 1;
    }
    assert(pages(v@) =~= pages(chunks@));
    v
}

fn copy_messages(list: &Vec<(String, String)>) -> (v: Vec<(String, String)>)
    ensures
        messages(v@) == messages(list@),
{
    let mut v: Vec<(String, String)> = Vec::new();
    let mut i: usize = 0;
    while i < list.len()
        invariant
            i <= list@.len(),
            v@.len() == i,
            forall|k: int|
                0 <= k < i ==> (#[trigger] v@[k]).0@ == list@[k].0@ && v@[k].1@ == list@[k].1@,
        decreases list@.len() - i,
    {
        v.push((list[i].0.clone(), list[i].1.clone()));
        i = i + 1;
    }
    assert(messages(v@) =~= messages(list@));
    v
}

impl ChatModel {
    /// The page texts to ask with: those read before, or `read`.
    pub open spec fn known_chunks(self, read: Seq<(i32, Seq<char>)>) -> Seq<(i32, Seq<char>)> {
        match self.chunks {
            Some(c) => c,
            None => read,
        }
    }

    /// The chat after a question was asked.
    pub open spec fn asked(self, text: Seq<char>, read: Seq<(i32, Seq<char>)>) -> ChatModel {
        ChatModel {
            messages: self.messages.push(("user"@, text)),
            loading: true,
            chunks: Some(self.known_chunks(read)),
            answer: Seq::empty(),
            failed: false,
        }
    }

    /// The chat after an event came in.
    pub open spec fn told(self, event: ChatEventModel) -> ChatModel {
        match event {
            ChatEventModel::Status(s) => self,
            ChatEventModel::Delta(d) => ChatModel { answer: self.answer + d, ..self },
            ChatEventModel::Done => self,
            ChatEventModel::Error(e) => ChatModel { answer: e, failed: true, ..self },
        }
    }

    /// Whether the answer counts: it is no error and not blank.
    pub open spec fn counts(self) -> bool {
        !self.failed && plain_text(self.answer).len() > 0
    }

    /// The chat after the answer was complete: an answer that counts joins the
    /// talk; where the call failed, the question leaves it.
    pub open spec fn finished(self) -> ChatModel {
        ChatModel {
            messages: if self.counts() {
                self.messages.push(("assistant"@, self.answer))
            } else if self.failed && self.messages.len() > 0 {
                self.messages.drop_last()
            } else {
                self.messages
            },
            loading: false,
            answer: Seq::empty(),
            failed: false,
            ..self
        }
    }
}

impl View for PpsSidebarChat {
    type V = ChatModel;

    closed spec fn view(&self) -> ChatModel {
        ChatModel {
            messages: messages(self.messages@),
            loading: self.loading,
            chunks: match self.chunks {
                Some(c) => Some(pages(c@)),
                None => None,
            },
            answer: self.answer@,
            failed: self.failed,
        }
    }
}

/// What the summary of a page is asked with.
pub open spec fn summary_question(page: int) -> Seq<char> {
    "Please summarize the content of page "@ + signed_decimal(page) + " in a few sentences."@
}

impl PpsSidebarChat {
    /// A chat in which nothing was said.
    pub fn new() -> (c: Self)
        ensures
            c@ == (ChatModel {
                messages: Seq::empty(),
                loading: false,
                chunks: None,
                answer: Seq::empty(),
                failed: false,
            }),
    {
        let c = PpsSidebarChat {
            messages: Vec::new(),
            loading: false,
            chunks: None,
            answer: String::new(),
            failed: false,
        };
        assert(c@.messages =~= Seq::empty());
        assert(c@.answer =~= Seq::<char>::empty());
        c
    }

    /// Whether a question is being answered.
    pub fn is_loading(&self) -> (r: bool)
        ensures
            r == self@.loading,
    {
        self.loading
    }

    /// Whether the page texts of the document were read.
    pub fn has_chunks(&self) -> (r: bool)
        ensures
            r == (self@.chunks is Some),
    {
        self.chunks.is_some()
    }

    /// How many messages there are.
    pub fn message_count(&self) -> (n: usize)
        ensures
            n == self@.messages.len(),
    {
        self.messages.len()
    }

    /// A message: who said what.
    pub fn message(&self, i: usize) -> (m: (&str, &str))
        requires
            i < self@.messages.len(),
        ensures
            (m.0@, m.1@) == self@.messages[i as int],
    {
        (self.messages[i].0.as_str(), self.messages[i].1.as_str())
    }

    /// Forgets the page texts. For when another document is shown.
    pub fn document_changed(&mut self)
        ensures
            final(self)@ == (ChatModel { chunks: None, ..old(self)@ }),
    {
        self.chunks = None;
    }

    /// The question in the entry, where there is one and none is being
    /// answered.
    pub fn on_send(&self, entry: &str) -> (r: Option<String>)
        ensures
            if self@.loading || trimmed(entry@).len() == 0 {
                r is None
            } else {
                r matches Some(s) && s@ == trimmed(entry@)
            },
    {
        let text = trim(&chars_of(entry));
        if text.len() == 0 || self.loading {
            None
        } else {
            Some(string_of(&text))
        }
    }

    /// Whether there is an answer to stop.
    pub fn on_stop(&self) -> (r: bool)
        ensures
            r == self@.loading,
    {
        self.loading
    }

    /// Forgets the talk.
    pub fn on_clear(&mut self)
        ensures
            final(self)@ == (ChatModel { messages: Seq::empty(), ..old(self)@ }),
    {
        self.messages.clear();
        assert(self@.messages =~= Seq::empty());
    }

    /// The question for a summary of the page that the user is viewing, where
    /// none is being answered.
    pub fn on_summarize(&self, page: i32) -> (r: Option<String>)
        ensures
            if self@.loading {
                r is None
            } else {
                r matches Some(s) && s@ == summary_question(page as int)
            },
    {
        if self.loading {
            return None;
        }
        let mut v = chars_of("Please summarize the content of page ");
        push_text(&mut v, &format_i32(page));
        push_text(&mut v, &chars_of(" in a few sentences."));
        Some(string_of(&v))
    }

    /// The texts of the pages, read from `texts` where they were not read
    /// before.
    pub fn page_chunks(&mut self, texts: &[Option<String>]) -> (v: Vec<(i32, String)>)
        requires
            texts@.len() <= i32::MAX,
        ensures
            pages(v@) == old(self)@.known_chunks(text_pages(texts@, 0)),
            final(self)@ == (ChatModel { chunks: Some(pages(v@)), ..old(self)@ }),
    {
        if let Some(chunks) = &self.chunks {
            return copy_pages(chunks);
        }
        let v = collect_pages(texts);
        self.chunks = Some(copy_pages(&v));
        v
    }

    /// Asks a question: it joins the talk, and the result is what to send. The
    /// page texts are read from `texts` where they were not read before.
    pub fn send_message(
        &mut self,
        user_text: String,
        texts: &[Option<String>],
        current_page: i32,
    ) -> (q: Question)
        requires
            texts@.len() <= i32::MAX,
        ensures
            final(self)@ == old(self)@.asked(user_text@, text_pages(texts@, 0)),
            messages(q.history@) == final(self)@.messages,
            q.context@ == context(
                relevances(
                    final(self)@.chunks->Some_0,
                    user_text@,
                    final(self)@.messages,
                ),
                final(self)@.chunks->Some_0,
                current_page,
            ),
    {
        self.loading = true;
        self.answer = String::new();
        self.failed = false;
        let ghost before = messages(self.messages@);
        self.messages.push(("user".to_string(), user_text.clone()));
        assert(messages(self.messages@) =~= before.push(("user"@, user_text@)));
        assert(self.answer@ =~= Seq::<char>::empty());
        let chunks = self.page_chunks(texts);
        let history = copy_messages(&self.messages);
        let context = build_context(
            user_text.as_str(),
            history.as_slice(),
            chunks.as_slice(),
            current_page,
        );
        Question { context, history }
    }

    /// Takes in an event of the call that answers. The result is what to show.
    pub fn receive(&mut self, event: ChatEvent) -> (d: Display)
        ensures
            final(self)@ == old(self)@.told(event@),
            match event {
                ChatEvent::Status(s) => d matches Display::Status(t) && t@ == s@,
                ChatEvent::Delta(s) => d matches Display::Answer(t) && t@ == final(self)@.answer,
                ChatEvent::Done => d is Complete,
                ChatEvent::Error(s) => d is Complete,
            },
    {
        match event {
            ChatEvent::Status(s) => Display::Status(s),
            ChatEvent::Delta(s) => {
                let mut text = chars_of(self.answer.as_str());
                push_text(&mut text, &chars_of(s.as_str()));
                self.answer = string_of(&text);
                Display::Answer(string_of(&text))
            },
            ChatEvent::Done => Display::Complete,
            ChatEvent::Error(s) => {
                self.answer = s;
                self.failed = true;
                Display::Complete
            },
        }
    }

    /// Ends an answer: the result is what to show in its place.
    pub fn finish(&mut self) -> (f: Finished)
        ensures
            final(self)@ == old(self)@.finished(),
            f.text@ == plain_text(old(self)@.answer),
            f.actions == old(self)@.counts(),
    {
        let clean = strip_markdown(self.answer.as_str());
        let actions = !self.failed && !clean.as_str().is_empty();
        let ghost before = self@;
        if actions {
            self.messages.push(("assistant".to_string(), self.answer.clone()));
            assert(messages(self.messages@) =~= before.messages.push(
                ("assistant"@, before.answer),
            ));
        } else if self.failed {
            let _ = self.messages.pop();
            proof {
                if before.messages.len() > 0 {
                    assert(messages(self.messages@) =~= before.messages.drop_last());
                } else {
                    assert(messages(self.messages@) =~= before.messages);
                }
            }
        }
        self.loading = false;
        self.answer = String::new();
        self.failed = false;
        assert(self.answer@ =~= Seq::<char>::empty());
        Finished { text: clean, actions }
    }
}

proof fn lemma_reachable(pages: Seq<i32>, n_pages: i32)
    requires
        forall|i: int, j: int| 0 <= i < j < pages.len() ==> pages[i] < pages[j],
    ensures
        forall|i: int, j: int|
            0 <= i < j < reachable(pages, n_pages).len() ==> #[trigger] reachable(pages, n_pages)[i]
                < #[trigger] reachable(pages, n_pages)[j],
        forall|n: i32| #[trigger]
            reachable(pages, n_pages).contains(n) <==> pages.contains(n) && 1 <= n <= n_pages,
    decreases pages.len(),
{
    reveal(Seq::filter);
    let now = reachable(pages, n_pages);
    if pages.len() > 0 {
        let front = pages.drop_last();
        let last = pages.last();
        let before = reachable(front, n_pages);
        lemma_reachable(front, n_pages);
        assert(pages[pages.len() - 1] == last);
        assert forall|n: i32| #[trigger] now.contains(n) <==> pages.contains(n) && 1 <= n
            <= n_pages by {
            if before.contains(n) {
                assert(now[before.index_of(n)] == n);
                assert(front.contains(n));
                assert(pages[front.index_of(n)] == n);
            }
            if now.contains(n) && now.index_of(n) < before.len() {
                assert(before[now.index_of(n)] == n);
                assert(before.contains(n));
            }
            if pages.contains(n) && n != last {
                assert(front[pages.index_of(n)] == n);
                assert(front.contains(n));
            }
            if 1 <= last <= n_pages {
                assert(now[before.len() as int] == last);
            }
        }
        assert forall|i: int, j: int| 0 <= i < j < now.len() implies #[trigger] now[i]
            < #[trigger] now[j] by {
            if j == before.len() {
                assert(before.contains(before[i]));
                assert(front.contains(before[i]));
                assert(pages[front.index_of(before[i])] == before[i]);
            } else {
                assert(before[i] < before[j]);
            }
        }
    }
}

/// The pages that a complete answer offers to go to, in a document of `n_pages`
/// pages: those that it cites and that the document has, ascending and each
/// once.
pub fn offered_pages(text: &str, n_pages: i32) -> (v: Vec<i32>)
    ensures
        forall|i: int, j: int| 0 <= i < j < v@.len() ==> v@[i] < v@[j],
        forall|n: i32| #[trigger]
            v@.contains(n) <==> cites(words(text@), n as int) && 1 <= n <= n_pages,
{
    let cited = parse_page_citations(text);
    proof {
        lemma_reachable(cited@, n_pages);
    }
    reachable_pages(&cited, n_pages)
}

// ---------------------------------------------------------------------------
// Laws
// ---------------------------------------------------------------------------

/// The chat after events came in, one after the other.
pub open spec fn told_all(c: ChatModel, events: Seq<ChatEventModel>) -> ChatModel
    decreases events.len(),
{
    if events.len() == 0 {
        c
    } else {
        told_all(c, events.drop_last()).told(events.last())
    }
}

/// The texts of the deltas in `events`, one after the other.
pub open spec fn answer_in(events: Seq<ChatEventModel>) -> Seq<char>
    decreases events.len(),
{
    if events.len() == 0 {
        Seq::empty()
    } else {
        answer_in(events.drop_last()) + match events.last() {
            ChatEventModel::Delta(d) => d,
            _ => Seq::empty(),
        }
    }
}

/// Whether none of `events` is the last of a call.
pub open spec fn in_progress(events: Seq<ChatEventModel>) -> bool {
    forall|i: int| 0 <= i < events.len() ==> !is_final(#[trigger] events[i])
}

proof fn lemma_told_all(c: ChatModel, events: Seq<ChatEventModel>)
    requires
        in_progress(events),
    ensures
        told_all(c, events) == (ChatModel { answer: c.answer + answer_in(events), ..c }),
    decreases events.len(),
{
    if events.len() == 0 {
        assert(c.answer + answer_in(events) =~= c.answer);
    } else {
        let front = events.drop_last();
        assert(in_progress(front)) by {
            assert forall|i: int| 0 <= i < front.len() implies !is_final(#[trigger] front[i]) by {
                assert(front[i] == events[i]);
            }
        }
        lemma_told_all(c, front);
        assert(!is_final(events[events.len() - 1]));
        assert(told_all(c, events).answer =~= c.answer + answer_in(events));
    }
}

/// A question whose call fails, whatever came before the failure, leaves the
/// talk as it was before, and the chat takes the next one.
pub proof fn failed_question_leaves_no_trace(
    c: ChatModel,
    text: Seq<char>,
    read: Seq<(i32, Seq<char>)>,
    events: Seq<ChatEventModel>,
    error: Seq<char>,
)
    requires
        in_progress(events),
    ensures
        ({
            let end = told_all(c.asked(text, read), events).told(
                ChatEventModel::Error(error),
            ).finished();
            end.messages == c.messages && !end.loading
        }),
{
    let asked = c.asked(text, read);
    lemma_told_all(asked, events);
    assert(asked.messages.drop_last() =~= c.messages);
}

/// A question that is answered adds itself and all of the answer to the talk,
/// and the chat takes the next one. One with a blank answer adds itself alone.
pub proof fn answered_question_joins_the_talk(
    c: ChatModel,
    text: Seq<char>,
    read: Seq<(i32, Seq<char>)>,
    events: Seq<ChatEventModel>,
)
    requires
        in_progress(events),
    ensures
        ({
            let end = told_all(c.asked(text, read), events).told(ChatEventModel::Done).finished();
            &&& end.messages == (if plain_text(answer_in(events)).len() > 0 {
                c.messages.push(("user"@, text)).push(("assistant"@, answer_in(events)))
            } else {
                c.messages.push(("user"@, text))
            })
            &&& !end.loading
        }),
{
    lemma_told_all(c.asked(text, read), events);
    assert(Seq::<char>::empty() + answer_in(events) =~= answer_in(events));
}

proof fn lemma_text_pages(texts: Seq<Option<String>>, from: int)
    requires
        0 <= from <= texts.len() <= i32::MAX,
    ensures
        forall|i: int, j: int|
            0 <= i < j < text_pages(texts, from).len() ==> (#[trigger] text_pages(texts, from)[i]).0
                < (#[trigger] text_pages(texts, from)[j]).0,
        forall|p: i32, t: Seq<char>| #[trigger]
            text_pages(texts, from).contains((p, t)) <==> from < p <= texts.len() && (texts[p - 1]
                matches Some(s) && s@ == t) && !all_white(t),
    decreases texts.len() - from,
{
    let all = text_pages(texts, from);
    if from < texts.len() {
        lemma_text_pages(texts, from + 1);
        let rest = text_pages(texts, from + 1);
        let first = (from + 1) as i32;
        let head = match texts[from] {
            Some(t) => if trimmed(t@).len() > 0 {
                seq![(first, t@)]
            } else {
                Seq::empty()
            },
            None => Seq::empty(),
        };
        assert(all == head + rest);
        if let Some(t) = texts[from] {
            trimming_empties_blank_text_alone(t@);
        }
        assert forall|p: i32, t: Seq<char>| #[trigger] all.contains((p, t)) <==> from < p
            <= texts.len() && (texts[p - 1] matches Some(s) && s@ == t) && !all_white(t) by {
            if rest.contains((p, t)) {
                assert(all[head.len() + rest.index_of((p, t))] == (p, t));
            }
            if head.len() > 0 {
                assert(all[0] == head[0]);
            }
            if all.contains((p, t)) {
                let i = all.index_of((p, t));
                if i >= head.len() {
                    assert(rest[i - head.len()] == (p, t));
                    assert(rest.contains((p, t)));
                }
            }
        }
        assert forall|i: int, j: int| 0 <= i < j < all.len() implies (#[trigger] all[i]).0 < (
        #[trigger] all[j]).0 by {
            assert(all[j] == rest[j - head.len()]);
            if i < head.len() {
                let e = rest[j - head.len()];
                assert(rest.contains((e.0, e.1)));
            } else {
                assert(all[i] == rest[i - head.len()]);
            }
        }
    }
}

/// The page texts that a document is asked with are those of its pages that hold
/// more than white space, as they are and under their numbers counted from 1,
/// ascending.
pub proof fn page_texts_stand_under_their_numbers(texts: Seq<Option<String>>)
    requires
        texts.len() <= i32::MAX,
    ensures
        forall|i: int, j: int|
            0 <= i < j < text_pages(texts, 0).len() ==> (#[trigger] text_pages(texts, 0)[i]).0 < (
            #[trigger] text_pages(texts, 0)[j]).0,
        forall|p: i32, t: Seq<char>| #[trigger]
            text_pages(texts, 0).contains((p, t)) <==> 1 <= p <= texts.len() && (texts[p - 1]
                matches Some(s) && s@ == t) && exists|k: int|
                0 <= k < t.len() && !is_white(#[trigger] t[k]),
{
    lemma_text_pages(texts, 0);
    assert forall|p: i32, t: Seq<char>| #[trigger] text_pages(texts, 0).contains((p, t)) <==> 1
        <= p <= texts.len() && (texts[p - 1] matches Some(s) && s@ == t) && exists|k: int|
        0 <= k < t.len() && !is_white(#[trigger] t[k]) by {
        assert(text_pages(texts, 0).contains((p, t)) <==> 0 < p <= texts.len() && (texts[p - 1]
            matches Some(s) && s@ == t) && !all_white(t));
    }
}

/// The page texts that one question was asked with are those that the next is
/// asked with, whatever came in between, though others could be read by then.
pub proof fn page_texts_stay_from_question_to_question(
    c: ChatModel,
    first: Seq<char>,
    read: Seq<(i32, Seq<char>)>,
    events: Seq<ChatEventModel>,
    second: Seq<char>,
    later: Seq<(i32, Seq<char>)>,
)
    ensures
        c.chunks is None ==> c.asked(first, read).chunks == Some(read),
        told_all(c.asked(first, read), events).finished().asked(second, later).chunks == c.asked(
            first,
            read,
        ).chunks,
    decreases events.len(),
{
    if events.len() > 0 {
        page_texts_stay_from_question_to_question(
            c,
            first,
            read,
            events.drop_last(),
            second,
            later,
        );
    }
}

/// While an answer comes in, the chat shows the pieces of it, one behind the other;
/// where the call fails, it shows what the failure says in their place, and nothing
/// of that joins the talk.
pub proof fn failure_takes_the_place_of_the_answer(
    c: ChatModel,
    text: Seq<char>,
    read: Seq<(i32, Seq<char>)>,
    events: Seq<ChatEventModel>,
    error: Seq<char>,
)
    requires
        in_progress(events),
    ensures
        told_all(c.asked(text, read), events).answer == answer_in(events),
        told_all(c.asked(text, read), events).loading,
        told_all(c.asked(text, read), events).told(ChatEventModel::Error(error)).answer == error,
        !told_all(c.asked(text, read), events).told(ChatEventModel::Error(error)).counts(),
{
    lemma_told_all(c.asked(text, read), events);
    assert(Seq::<char>::empty() + answer_in(events) =~= answer_in(events));
}

/// The question for a summary names the page, and differs from page to page in that
/// alone.
pub proof fn summary_question_names_the_page(page: int, other: int)
    ensures
        has_part(summary_question(page), "page "@ + signed_decimal(page) + " in"@),
        summary_question(page).len() - signed_decimal(page).len() == summary_question(other).len()
            - signed_decimal(other).len(),
{
    reveal_strlit("Please summarize the content of page ");
    reveal_strlit(" in a few sentences.");
    reveal_strlit("page ");
    reveal_strlit(" in");
    let s = summary_question(page);
    let part = "page "@ + signed_decimal(page) + " in"@;
    assert(s.subrange(32, 32int + part.len()) =~= part);
    assert(occurs_at(s, part, 32));
}

} // verus!
