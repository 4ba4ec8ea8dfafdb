//! The talk with the Ollama server behind the chat: one call starts the server
//! where it does not run, picks a model, sends the question and reads the
//! answer line by line.
//!
//! [`OllamaCall`] decides; it sends nothing itself. The caller performs the
//! [`CallAction`] of each [`Step`], hands the step's events on to the chat, and
//! tells the call how the action went, by the method for that action.
use vstd::prelude::*;

use crate::chat_context::messages;
use crate::json::{
    has_member, lacks_member, member, member_is_the_first_of_its_name, model_of, parse_json,
    parsed_json, text_in, Json, JsonModel,
};
use crate::sidebar_chat::answer_in;
use crate::text::{
    chars_of, has_part, occurs_at, push_text, starts_with, string_of, strings, trim, trimmed,
};

verus! {

/// Where the server listens.
pub const OLLAMA_URL: &'static str = "http://localhost:11434";

/// The model to download where none of the family is there.
pub const MODEL: &'static str = "gemma4";

/// How often a server that was started is asked whether it is ready.
pub const READY_PROBES: u32 = 20;

/// How many milliseconds lie between two such questions.
pub const PROBE_INTERVAL_MS: u64 = 500;

/// What the assistant is told before the pages and the question.
pub const SYSTEM_PROMPT: &'static str = "You are a helpful AI assistant embedded in a PDF document viewer.\nYou have two modes depending on the question:\n\n1. Document questions: If the question is about the document content provided below, answer using that content and cite the page number(s), e.g. \"According to page 3\".\n\n2. General questions: If the question is general knowledge (not about this specific document), answer from your own knowledge freely and helpfully. Do not force a connection to the document.\n\nAlways:\n- When the user says \"this page\" or \"here\", focus on the Current Page section.\n- Write in plain, readable sentences. Do NOT use markdown: no # headers, no ** or * symbols, no backticks.\n- Use plain numbered lists (1. 2. 3.) or dashes (- item) if needed.\n- Be concise and accurate.\n";

/// What the chat is told while a call runs.
#[derive(Debug)]
pub enum ChatEvent {
    /// What the call is doing.
    Status(String),
    /// More of the answer.
    Delta(String),
    /// The answer is complete.
    Done,
    /// The call has failed.
    Error(String),
}

/// A [`ChatEvent`] as a mathematical value.
pub enum ChatEventModel {
    Status(Seq<char>),
    Delta(Seq<char>),
    Done,
    Error(Seq<char>),
}

impl View for ChatEvent {
    type V = ChatEventModel;

    open spec fn view(&self) -> ChatEventModel {
        match *self {
            ChatEvent::Status(s) => ChatEventModel::Status(s@),
            ChatEvent::Delta(s) => ChatEventModel::Delta(s@),
            ChatEvent::Done => ChatEventModel::Done,
            ChatEvent::Error(s) => ChatEventModel::Error(s@),
        }
    }
}

/// Events as mathematical values.
pub open spec fn events(list: Seq<ChatEvent>) -> Seq<ChatEventModel> {
    list.map_values(|e: ChatEvent| e@)
}

// ---------------------------------------------------------------------------
// The model
// ---------------------------------------------------------------------------

/// The families of models to look for, the best first.
pub open spec fn preferences() -> Seq<Seq<char>> {
    seq!["gemma4"@, "gemma3"@, "gemma2"@, "gemma"@]
}

/// The names in the items of a list, from position `from` on; items without a
/// name are passed over.
pub open spec fn names_from(items: Seq<JsonModel>, from: int) -> Seq<Seq<char>>
    decreases items.len() - from,
{
    if from >= items.len() {
        Seq::empty()
    } else {
        (match text_in(member(items[from], "name"@)) {
            Some(name) => seq![name],
            None => Seq::empty(),
        }) + names_from(items, from + 1)
    }
}

/// The models that the server's list names; none where it is no list.
pub open spec fn listed_models(reply: JsonModel) -> Seq<Seq<char>> {
    match member(reply, "models"@) {
        JsonModel::List(items) => names_from(items, 0),
        _ => Seq::empty(),
    }
}

/// The first of `names`, from position `from` on, that starts with `family`.
pub open spec fn first_of_family(
    names: Seq<Seq<char>>,
    family: Seq<char>,
    from: int,
) -> Option<Seq<char>>
    decreases names.len() - from,
{
    if from >= names.len() {
        None
    } else if occurs_at(names[from], family, 0) {
        Some(names[from])
    } else {
        first_of_family(names, family, from + 1)
    }
}

/// The first of `names` in the best family, from family `from` on, that has
/// any.
pub open spec fn best_model(names: Seq<Seq<char>>, from: int) -> Option<Seq<char>>
    decreases preferences().len() - from,
{
    if from >= preferences().len() {
        None
    } else {
        match first_of_family(names, preferences()[from], 0) {
            Some(name) => Some(name),
            None => best_model(names, from + 1),
        }
    }
}

/// The models that the server's list names.
pub fn installed_models(reply: &Json) -> (v: Vec<String>)
    ensures
        strings(v@) == listed_models(reply@),
{
    let mut v: Vec<String> = Vec::new();
    let found = reply.member("models");
    assert(strings(v@) =~= Seq::<Seq<char>>::empty());
    match found {
        Some(Json::List(items)) => {
            let ghost all = member(reply@, "models"@)->List_0;
            let mut i: usize = 0;
            while i < items.len()
                invariant
                    i <= items@.len(),
                    all.len() == items@.len(),
                    forall|k: int| 0 <= k < all.len() ==> #[trigger] all[k] == items@[k]@,
                    strings(v@) + names_from(all, i as int) == names_from(all, 0),
                decreases items@.len() - i,
            {
                let ghost before = strings(v@);
                assert(all[i as int] == items@[i as int]@);
                let named = items[i].member("name");
                match named {
                    Some(j) => {
                        match j.text() {
                            Some(name) => {
                                let copy = name.clone();
                                v.push(copy);
                                assert(strings(v@) =~= before.push(name@));
                                assert(strings(v@) + names_from(all, i + 1) =~= before + (
                                seq![name@] + names_from(all, i + 1)));
                            },
                            None => {
                                assert(before + (Seq::<Seq<char>>::empty() + names_from(all, i + 1))
                                    =~= strings(v@) + names_from(all, i + 1));
                            },
                        }
                    },
                    None => {
                        assert(before + (Seq::<Seq<char>>::empty() + names_from(all, i + 1))
                            =~= strings(v@) + names_from(all, i + 1));
                    },
                }
                i = i + 1;
            }
            assert(strings(v@) =~= names_from(all, 0));
        },
        _ => {},
    }
    v
}

fn find_family(names: &Vec<String>, family: &str) -> (r: Option<String>)
    ensures
        match first_of_family(strings(names@), family@, 0) {
            Some(name) => r matches Some(s) && s@ == name,
            None => r is None,
        },
{
    let wanted = chars_of(family);
    let ghost all = strings(names@);
    let mut i: usize = 0;
    while i < names.len()
        invariant
            i <= names@.len(),
            wanted@ == family@,
            all == strings(names@),
            first_of_family(all, family@, 0) == first_of_family(all, family@, i as int),
        decreases names@.len() - i,
    {
        assert(all[i as int] == names@[i as int]@);
        if starts_with(&chars_of(names[i].as_str()), &wanted) {
            return Some(names[i].clone());
        }
        i = i + 1;
    }
    None
}

/// The model to use among those installed: the first of the best family that
/// has any.
pub fn choose_model(names: &Vec<String>) -> (r: Option<String>)
    ensures
        match best_model(strings(names@), 0) {
            Some(name) => r matches Some(s) && s@ == name,
            None => r is None,
        },
{
    proof {
        reveal_with_fuel(best_model, 5);
    }
    let found = find_family(names, "gemma4");
    if found.is_some() {
        return found;
    }
    let found = find_family(names, "gemma3");
    if found.is_some() {
        return found;
    }
    let found = find_family(names, "gemma2");
    if found.is_some() {
        return found;
    }
    find_family(names, "gemma")
}

// ---------------------------------------------------------------------------
// What is sent
// ---------------------------------------------------------------------------

/// A message as it is sent.
pub open spec fn message_model(role: Seq<char>, content: Seq<char>) -> JsonModel {
    JsonModel::Object(
        seq![("role"@, JsonModel::Text(role)), ("content"@, JsonModel::Text(content))],
    )
}

/// The messages of a request: what the assistant is told, with the pages, and
/// then the talk so far.
pub open spec fn sent_messages(
    context: Seq<char>,
    history: Seq<(Seq<char>, Seq<char>)>,
) -> Seq<JsonModel> {
    seq![message_model("system"@, SYSTEM_PROMPT@ + "\n"@ + context)] + history.map_values(
        |m: (Seq<char>, Seq<char>)| message_model(m.0, m.1),
    )
}

/// The request for an answer.
pub open spec fn request_model(
    model: Seq<char>,
    context: Seq<char>,
    history: Seq<(Seq<char>, Seq<char>)>,
) -> JsonModel {
    JsonModel::Object(
        seq![
            ("model"@, JsonModel::Text(model)),
            ("messages"@, JsonModel::List(sent_messages(context, history))),
            ("stream"@, JsonModel::Bool(true)),
        ],
    )
}

/// The request for a download.
pub open spec fn pull_model() -> JsonModel {
    JsonModel::Object(
        seq![("name"@, JsonModel::Text(MODEL@)), ("stream"@, JsonModel::Bool(false))],
    )
}

fn message_json(role: &str, content: &str) -> (j: Json)
    ensures
        j@ == message_model(role@, content@),
{
    let mut members: Vec<(String, Json)> = Vec::new();
    members.push(("role".to_string(), Json::Text(role.to_string())));
    members.push(("content".to_string(), Json::Text(content.to_string())));
    let j = Json::Object(members);
    proof {
        reveal_with_fuel(model_of, 2);
        assert(j@->Object_0 =~= message_model(role@, content@)->Object_0);
    }
    j
}

/// The request for a download.
pub fn pull_request() -> (j: Json)
    ensures
        j@ == pull_model(),
{
    let mut members: Vec<(String, Json)> = Vec::new();
    members.push(("name".to_string(), Json::Text(MODEL.to_string())));
    members.push(("stream".to_string(), Json::Bool(false)));
    let j = Json::Object(members);
    proof {
        reveal_with_fuel(model_of, 2);
        assert(j@->Object_0 =~= pull_model()->Object_0);
    }
    j
}

/// The request for an answer.
pub fn chat_request(model: &str, context: &str, history: &[(String, String)]) -> (j: Json)
    ensures
        j@ == request_model(model@, context@, messages(history@)),
{
    let mut system = chars_of(SYSTEM_PROMPT);
    push_text(&mut system, &chars_of("\n"));
    push_text(&mut system, &chars_of(context));
    let mut list: Vec<Json> = Vec::new();
    list.push(message_json("system", string_of(&system).as_str()));
    let ghost wanted = sent_messages(context@, messages(history@));
    let mut i: usize = 0;
    while i < history.len()
        invariant
            i <= history@.len(),
            wanted == sent_messages(context@, messages(history@)),
            list@.len() == i + 1,
            forall|k: int| 0 <= k < list@.len() ==> (#[trigger] list@[k])@ == wanted[k],
        decreases history@.len() - i,
    {
        let message = message_json(history[i].0.as_str(), history[i].1.as_str());
        assert(messages(history@)[i as int] == (history@[i as int].0@, history@[i as int].1@));
        assert(wanted[i + 1] == message@);
        list.push(message);
        i = i + 1;
    }
    let list = Json::List(list);
    assert(list@->List_0 =~= wanted);
    let mut members: Vec<(String, Json)> = Vec::new();
    members.push(("model".to_string(), Json::Text(model.to_string())));
    members.push(("messages".to_string(), list));
    members.push(("stream".to_string(), Json::Bool(true)));
    let ghost parts = members@;
    let j = Json::Object(members);
    proof {
        reveal_with_fuel(model_of, 2);
        assert(model_of(parts[1].1) == list@);
        assert(j@->Object_0 =~= request_model(
            model@,
            context@,
            messages(history@),
        )->Object_0);
    }
    j
}

// ---------------------------------------------------------------------------
// One call
// ---------------------------------------------------------------------------

/// What a call waits for.
#[derive(Clone, Copy, Debug, PartialEq, Eq, Structural)]
pub enum Phase {
    /// It has not begun.
    Idle,
    /// Whether the server runs.
    Probing,
    /// The start of the server.
    Spawning,
    /// The time before the next question to the server that was started, after
    /// this many.
    Sleeping { probes: u32 },
    /// Whether the server that was started is ready, after this many questions.
    Reprobing { probes: u32 },
    /// The list of models.
    Listing,
    /// The download of a model.
    Pulling,
    /// The start of the answer.
    Posting,
    /// A line of the answer.
    Reading,
    /// It is over.
    Ended,
}

/// What the caller has to do next.
#[derive(Debug)]
pub enum CallAction {
    /// Ask whether the server answers.
    Probe,
    /// Start the server.
    Spawn,
    /// Wait for [`PROBE_INTERVAL_MS`] milliseconds.
    Sleep,
    /// Get the list of models.
    FetchModels,
    /// Have a model downloaded.
    Pull { body: Json },
    /// Ask for an answer.
    Post { body: Json },
    /// Read a line of the answer.
    ReadLine,
    /// Nothing: the call is over.
    Stop,
}

/// A [`CallAction`] as a mathematical value.
pub enum CallActionModel {
    Probe,
    Spawn,
    Sleep,
    FetchModels,
    Pull { body: JsonModel },
    Post { body: JsonModel },
    ReadLine,
    Stop,
}

impl View for CallAction {
    type V = CallActionModel;

    open spec fn view(&self) -> CallActionModel {
        match *self {
            CallAction::Probe => CallActionModel::Probe,
            CallAction::Spawn => CallActionModel::Spawn,
            CallAction::Sleep => CallActionModel::Sleep,
            CallAction::FetchModels => CallActionModel::FetchModels,
            CallAction::Pull { body } => CallActionModel::Pull { body: body@ },
            CallAction::Post { body } => CallActionModel::Post { body: body@ },
            CallAction::ReadLine => CallActionModel::ReadLine,
            CallAction::Stop => CallActionModel::Stop,
        }
    }
}

/// What the chat is to be told now, and what is to be done then.
#[derive(Debug)]
pub struct Step {
    pub send: Vec<ChatEvent>,
    pub next: CallAction,
}

/// A [`Step`] as a mathematical value.
#[verifier::ext_equal]
pub struct StepModel {
    pub send: Seq<ChatEventModel>,
    pub next: CallActionModel,
}

impl View for Step {
    type V = StepModel;

    open spec fn view(&self) -> StepModel {
        StepModel { send: events(self.send@), next: self.next@ }
    }
}

/// What came of asking for the list of models.
#[derive(Debug)]
pub enum ModelsReply {
    /// The server did not answer.
    Unreachable(String),
    /// The answer was not JSON.
    Unreadable(String),
    /// The answer.
    Reply(Json),
}

/// What came of reading a line.
#[derive(Debug)]
pub enum LineRead {
    /// There are no more lines.
    End,
    /// The line could not be read.
    Failed(String),
    /// The line.
    Line(String),
}

/// The state of a call as a mathematical value.
#[verifier::ext_equal]
pub struct CallModel {
    pub phase: Phase,
    /// The pages that go with the question.
    pub context: Seq<char>,
    /// The talk so far, the question last.
    pub history: Seq<(Seq<char>, Seq<char>)>,
}

/// What more of the answer a line holds.
pub open spec fn delta_in(j: JsonModel) -> Seq<char> {
    match text_in(member(member(j, "message"@), "content"@)) {
        Some(s) => s,
        None => Seq::empty(),
    }
}

/// Whether a line ends the answer.
pub open spec fn ends_answer(j: JsonModel) -> bool {
    member(j, "done"@) == JsonModel::Bool(true)
}

impl CallModel {
    /// The call in another phase, with nothing to tell.
    pub open spec fn quietly(self, phase: Phase, next: CallActionModel) -> (CallModel, StepModel) {
        (CallModel { phase, ..self }, StepModel { send: Seq::empty(), next })
    }

    /// The call in another phase, with something to tell.
    pub open spec fn telling(
        self,
        event: ChatEventModel,
        phase: Phase,
        next: CallActionModel,
    ) -> (CallModel, StepModel) {
        (CallModel { phase, ..self }, StepModel { send: seq![event], next })
    }

    /// The end of a call that failed.
    pub open spec fn failed(self, error: Seq<char>) -> (CallModel, StepModel) {
        self.telling(ChatEventModel::Error(error), Phase::Ended, CallActionModel::Stop)
    }

    /// The end of an answer.
    pub open spec fn done(self) -> (CallModel, StepModel) {
        self.telling(ChatEventModel::Done, Phase::Ended, CallActionModel::Stop)
    }

    /// How a call begins.
    pub open spec fn begun(self) -> (CallModel, StepModel) {
        self.telling(
            ChatEventModel::Status("Starting Ollama…"@),
            Phase::Probing,
            CallActionModel::Probe,
        )
    }

    /// How it goes on when the server is there.
    pub open spec fn ready(self) -> (CallModel, StepModel) {
        self.telling(
            ChatEventModel::Status("Checking model…"@),
            Phase::Listing,
            CallActionModel::FetchModels,
        )
    }

    /// How it goes on when the server was asked.
    pub open spec fn probed(self, ok: bool) -> (CallModel, StepModel) {
        if ok {
            self.ready()
        } else {
            match self.phase {
                Phase::Reprobing { probes } => if probes + 1 < READY_PROBES {
                    self.quietly(
                        Phase::Sleeping { probes: (probes + 1) as u32 },
                        CallActionModel::Sleep,
                    )
                } else {
                    self.failed("Ollama started but did not become ready in time."@)
                },
                _ => self.quietly(Phase::Spawning, CallActionModel::Spawn),
            }
        }
    }

    /// How it goes on when the server was started, or could not be.
    pub open spec fn spawned(self, error: Option<Seq<char>>) -> (CallModel, StepModel) {
        match error {
            Some(e) => self.failed(
                "Could not start Ollama: "@ + e + ".\nInstall it from https://ollama.com"@,
            ),
            None => self.quietly(Phase::Sleeping { probes: 0 }, CallActionModel::Sleep),
        }
    }

    /// How it goes on after the time between two questions to the server.
    pub open spec fn slept(self) -> (CallModel, StepModel) {
        match self.phase {
            Phase::Sleeping { probes } => self.quietly(
                Phase::Reprobing { probes },
                CallActionModel::Probe,
            ),
            _ => self.quietly(self.phase, CallActionModel::Stop),
        }
    }

    /// How it goes on when the model is chosen.
    pub open spec fn asking(self, model: Seq<char>) -> (CallModel, StepModel) {
        self.telling(
            ChatEventModel::Status("Thinking…"@),
            Phase::Posting,
            CallActionModel::Post { body: request_model(model, self.context, self.history) },
        )
    }

    /// How it goes on when the models are listed.
    pub open spec fn listed(self, models: Seq<Seq<char>>) -> (CallModel, StepModel) {
        match best_model(models, 0) {
            Some(model) => self.asking(model),
            None => self.telling(
                ChatEventModel::Status(
                    "Downloading "@ + MODEL@ + "… (this may take a while)"@,
                ),
                Phase::Pulling,
                CallActionModel::Pull { body: pull_model() },
            ),
        }
    }

    /// How it goes on when a model was downloaded, or could not be.
    pub open spec fn pulled(self, error: Option<Seq<char>>) -> (CallModel, StepModel) {
        match error {
            Some(e) => self.failed("Failed to download "@ + MODEL@ + ": "@ + e),
            None => self.asking(MODEL@),
        }
    }

    /// How it goes on when the answer starts, or does not.
    pub open spec fn posted(self, error: Option<Seq<char>>) -> (CallModel, StepModel) {
        match error {
            Some(e) => self.failed("Request failed: "@ + e),
            None => self.quietly(Phase::Reading, CallActionModel::ReadLine),
        }
    }

    /// How it goes on with a line of the answer, where `reply` is the JSON value
    /// in the line.
    pub open spec fn heard(self, line: Seq<char>, reply: Option<JsonModel>) -> (
        CallModel,
        StepModel,
    ) {
        if trimmed(line).len() == 0 {
            self.quietly(Phase::Reading, CallActionModel::ReadLine)
        } else {
            match reply {
                None => self.quietly(Phase::Reading, CallActionModel::ReadLine),
                Some(j) => {
                    let more = if delta_in(j).len() > 0 {
                        seq![ChatEventModel::Delta(delta_in(j))]
                    } else {
                        Seq::empty()
                    };
                    if ends_answer(j) {
                        (
                            CallModel { phase: Phase::Ended, ..self },
                            StepModel {
                                send: more.push(ChatEventModel::Done),
                                next: CallActionModel::Stop,
                            },
                        )
                    } else {
                        (
                            CallModel { phase: Phase::Reading, ..self },
                            StepModel { send: more, next: CallActionModel::ReadLine },
                        )
                    }
                },
            }
        }
    }
}

/// Whether an event is the last of a call.
pub open spec fn is_final(event: ChatEventModel) -> bool {
    event is Done || event is Error
}

/// Whether a step ends the call exactly where it tells so, and tells so last.
pub open spec fn tells_its_end(step: StepModel) -> bool {
    &&& forall|i: int| 0 <= i < step.send.len() - 1 ==> !is_final(#[trigger] step.send[i])
    &&& step.next is Stop <==> step.send.len() > 0 && is_final(step.send.last())
}

/// What the failure of an action says, where it failed.
pub open spec fn error_of(outcome: Result<(), String>) -> Option<Seq<char>> {
    match outcome {
        Ok(_) => None,
        Err(e) => Some(e@),
    }
}

/// A call in progress.
#[derive(Debug)]
pub struct OllamaCall {
    phase: Phase,
    context: String,
    history: Vec<(String, String)>,
}

impl View for OllamaCall {
    type V = CallModel;

    closed spec fn view(&self) -> CallModel {
        CallModel {
            phase: self.phase,
            context: self.context@,
            history: messages(self.history@),
        }
    }
}

fn quiet(next: CallAction) -> (step: Step)
    ensures
        step@ == (StepModel { send: Seq::empty(), next: next@ }),
{
    let send: Vec<ChatEvent> = Vec::new();
    assert(events(send@) =~= Seq::<ChatEventModel>::empty());
    Step { send, next }
}

fn tell(event: ChatEvent, next: CallAction) -> (step: Step)
    ensures
        step@ == (StepModel { send: seq![event@], next: next@ }),
{
    let mut send: Vec<ChatEvent> = Vec::new();
    let ghost told = event@;
    send.push(event);
    assert(events(send@) =~= seq![told]);
    Step { send, next }
}

fn append(a: &str, b: &str) -> (s: String)
    ensures
        s@ == a@ + b@,
{
    let mut v = chars_of(a);
    push_text(&mut v, &chars_of(b));
    string_of(&v)
}

/// What more of the answer a line holds, and whether the line ends it.
pub fn read_reply(j: &Json) -> (r: (String, bool))
    ensures
        r.0@ == delta_in(j@),
        r.1 == ends_answer(j@),
{
    let mut delta: String = String::new();
    if let Some(message) = j.member("message") {
        if let Some(content) = message.member("content") {
            if let Some(s) = content.text() {
                delta = s.clone();
            }
        }
    }
    assert(delta@ =~= delta_in(j@));
    let done = match j.member("done") {
        Some(d) => d.is_true(),
        None => false,
    };
    (delta, done)
}

impl OllamaCall {
    /// A call that asks the last message of `history`, with the pages
    /// `context`.
    pub fn new(context: String, history: Vec<(String, String)>) -> (c: OllamaCall)
        ensures
            c@ == (CallModel {
                phase: Phase::Idle,
                context: context@,
                history: messages(history@),
            }),
    {
        OllamaCall { phase: Phase::Idle, context, history }
    }

    fn fail(&mut self, error: String) -> (step: Step)
        ensures
            (final(self)@, step@) == old(self)@.failed(error@),
    {
        self.phase = Phase::Ended;
        tell(ChatEvent::Error(error), CallAction::Stop)
    }

    fn finish(&mut self) -> (step: Step)
        ensures
            (final(self)@, step@) == old(self)@.done(),
    {
        self.phase = Phase::Ended;
        tell(ChatEvent::Done, CallAction::Stop)
    }

    fn ask(&mut self, model: &str) -> (step: Step)
        ensures
            (final(self)@, step@) == old(self)@.asking(model@),
    {
        self.phase = Phase::Posting;
        let body = chat_request(model, self.context.as_str(), self.history.as_slice());
        tell(ChatEvent::Status("Thinking…".to_string()), CallAction::Post { body })
    }

    /// Begins the call.
    pub fn start(&mut self) -> (step: Step)
        requires
            old(self)@.phase is Idle,
        ensures
            (final(self)@, step@) == old(self)@.begun(),
            tells_its_end(step@),
    {
        self.phase = Phase::Probing;
        tell(ChatEvent::Status("Starting Ollama…".to_string()), CallAction::Probe)
    }

    /// Goes on after [`CallAction::Probe`].
    pub fn probed(&mut self, ok: bool) -> (step: Step)
        requires
            old(self)@.phase is Probing || old(self)@.phase is Reprobing,
        ensures
            (final(self)@, step@) == old(self)@.probed(ok),
            tells_its_end(step@),
    {
        if ok {
            self.phase = Phase::Listing;
            return tell(ChatEvent::Status("Checking model…".to_string()), CallAction::FetchModels);
        }
        match self.phase {
            Phase::Reprobing { probes } => {
                if probes < READY_PROBES - 1 {
                    self.phase = Phase::Sleeping { probes: probes + 1 };
                    quiet(CallAction::Sleep)
                } else {
                    self.fail("Ollama started but did not become ready in time.".to_string())
                }
            },
            _ => {
                self.phase = Phase::Spawning;
                quiet(CallAction::Spawn)
            },
        }
    }

    /// Goes on after [`CallAction::Spawn`].
    pub fn spawned(&mut self, outcome: Result<(), String>) -> (step: Step)
        requires
            old(self)@.phase is Spawning,
        ensures
            (final(self)@, step@) == old(self)@.spawned(error_of(outcome)),
            tells_its_end(step@),
    {
        match outcome {
            Ok(_) => {
                self.phase = Phase::Sleeping { probes: 0 };
                quiet(CallAction::Sleep)
            },
            Err(e) => {
                let text = append("Could not start Ollama: ", e.as_str());
                self.fail(append(text.as_str(), ".\nInstall it from https://ollama.com"))
            },
        }
    }

    /// Goes on after [`CallAction::Sleep`].
    pub fn slept(&mut self) -> (step: Step)
        requires
            old(self)@.phase is Sleeping,
        ensures
            (final(self)@, step@) == old(self)@.slept(),
            tells_its_end(step@),
    {
        if let Phase::Sleeping { probes } = self.phase {
            self.phase = Phase::Reprobing { probes };
        }
        quiet(CallAction::Probe)
    }

    /// Goes on after [`CallAction::FetchModels`].
    pub fn listed(&mut self, reply: ModelsReply) -> (step: Step)
        requires
            old(self)@.phase is Listing,
        ensures
            match reply {
                ModelsReply::Unreachable(e) => (final(self)@, step@) == old(self)@.failed(
                    "Cannot reach Ollama: "@ + e@,
                ),
                ModelsReply::Unreadable(e) => (final(self)@, step@) == old(self)@.failed(
                    "Failed to parse model list: "@ + e@,
                ),
                ModelsReply::Reply(j) => (final(self)@, step@) == old(self)@.listed(
                    listed_models(j@),
                ),
            },
            tells_its_end(step@),
    {
        match reply {
            ModelsReply::Unreachable(e) => self.fail(append("Cannot reach Ollama: ", e.as_str())),
            ModelsReply::Unreadable(e) => self.fail(
                append("Failed to parse model list: ", e.as_str()),
            ),
            ModelsReply::Reply(j) => {
                let names = installed_models(&j);
                match choose_model(&names) {
                    Some(model) => self.ask(model.as_str()),
                    None => {
                        self.phase = Phase::Pulling;
                        let text = append("Downloading ", MODEL);
                        let text = append(text.as_str(), "… (this may take a while)");
                        tell(ChatEvent::Status(text), CallAction::Pull { body: pull_request() })
                    },
                }
            },
        }
    }

    /// Goes on after [`CallAction::Pull`].
    pub fn pulled(&mut self, outcome: Result<(), String>) -> (step: Step)
        requires
            old(self)@.phase is Pulling,
        ensures
            (final(self)@, step@) == old(self)@.pulled(error_of(outcome)),
            tells_its_end(step@),
    {
        match outcome {
            Ok(_) => self.ask(MODEL),
            Err(e) => {
                let text = append("Failed to download ", MODEL);
                let text = append(text.as_str(), ": ");
                self.fail(append(text.as_str(), e.as_str()))
            },
        }
    }

    /// Goes on after [`CallAction::Post`].
    pub fn posted(&mut self, outcome: Result<(), String>) -> (step: Step)
        requires
            old(self)@.phase is Posting,
        ensures
            (final(self)@, step@) == old(self)@.posted(error_of(outcome)),
            tells_its_end(step@),
    {
        match outcome {
            Ok(_) => {
                self.phase = Phase::Reading;
                quiet(CallAction::ReadLine)
            },
            Err(e) => self.fail(append("Request failed: ", e.as_str())),
        }
    }

    /// Goes on after a line of the answer, where `reply` is the JSON value in
    /// the line, if it holds one.
    pub fn heard(&mut self, line: &str, reply: Option<Json>) -> (step: Step)
        requires
            old(self)@.phase is Reading,
        ensures
            (final(self)@, step@) == old(self)@.heard(
                line@,
                match reply {
                    Some(j) => Some(j@),
                    None => None,
                },
            ),
            tells_its_end(step@),
    {
        if trim(&chars_of(line)).len() == 0 {
            return quiet(CallAction::ReadLine);
        }
        match reply {
            None => quiet(CallAction::ReadLine),
            Some(j) => {
                let (delta, done): (String, bool) = read_reply(&j);
                let mut send: Vec<ChatEvent> = Vec::new();
                assert(events(send@) =~= Seq::<ChatEventModel>::empty());
                if !delta.as_str().is_empty() {
                    send.push(ChatEvent::Delta(delta));
                    assert(events(send@) =~= seq![ChatEventModel::Delta(delta_in(j@))]);
                }
                if done {
                    let ghost more = events(send@);
                    send.push(ChatEvent::Done);
                    assert(events(send@) =~= more.push(ChatEventModel::Done));
                    self.phase = Phase::Ended;
                    Step { send, next: CallAction::Stop }
                } else {
                    Step { send, next: CallAction::ReadLine }
                }
            },
        }
    }

    /// Goes on after [`CallAction::ReadLine`], where `cancelled` says whether
    /// the user has stopped the answer.
    pub fn line_read(&mut self, cancelled: bool, line: LineRead) -> (step: Step)
        requires
            old(self)@.phase is Reading,
        ensures
            match line {
                LineRead::End => (final(self)@, step@) == old(self)@.done(),
                LineRead::Failed(e) => (final(self)@, step@) == if cancelled {
                    old(self)@.done()
                } else {
                    old(self)@.failed("Read error: "@ + e@)
                },
                LineRead::Line(l) => (final(self)@, step@) == if cancelled {
                    old(self)@.done()
                } else {
                    old(self)@.heard(l@, parsed_json(l@))
                },
            },
            tells_its_end(step@),
    {
        match line {
            LineRead::End => self.finish(),
            LineRead::Failed(e) => if cancelled {
                self.finish()
            } else {
                self.fail(append("Read error: ", e.as_str()))
            },
            LineRead::Line(l) => if cancelled {
                self.finish()
            } else {
                let reply = parse_json(l.as_str());
                self.heard(l.as_str(), reply)
            },
        }
    }
}

// ---------------------------------------------------------------------------
// Laws
// ---------------------------------------------------------------------------

/// A call whose server was just started, after `rounds` rounds of waiting and
/// asking in vain, with the last step.
pub open spec fn waited(c: CallModel, rounds: nat) -> (CallModel, StepModel)
    decreases rounds,
{
    if rounds == 0 {
        c.spawned(None)
    } else {
        waited(c, (rounds - 1) as nat).0.slept().0.probed(false)
    }
}

/// A server that was started is asked [`READY_PROBES`] times in vain before the
/// call gives up, and no more often.
pub proof fn gives_up_after_ready_probes(c: CallModel, rounds: nat)
    requires
        rounds <= READY_PROBES,
    ensures
        rounds < READY_PROBES ==> waited(c, rounds) == c.quietly(
            Phase::Sleeping { probes: rounds as u32 },
            CallActionModel::Sleep,
        ),
        rounds == READY_PROBES ==> waited(c, rounds) == c.failed(
            "Ollama started but did not become ready in time."@,
        ),
    decreases rounds,
{
    if rounds > 0 {
        gives_up_after_ready_probes(c, (rounds - 1) as nat);
    }
}

/// Whether the value in a line says that the answer goes on with the text `s`.
pub open spec fn says(j: JsonModel, s: Seq<char>) -> bool {
    exists|message: JsonModel| #[trigger]
        has_member(j, "message"@, message) && has_member(
            message,
            "content"@,
            JsonModel::Text(s),
        )
}

/// The piece of the answer that is read from a line is the text that the line's
/// message has for its content, to the letter; a line without a message, or whose
/// message has no content or one that is no text, holds no piece.
pub proof fn line_holds_its_content(j: JsonModel, s: Seq<char>, message: JsonModel, other: JsonModel)
    ensures
        says(j, s) ==> delta_in(j) == s,
        lacks_member(j, "message"@) ==> delta_in(j) == Seq::<char>::empty(),
        has_member(j, "message"@, message) && lacks_member(message, "content"@) ==> delta_in(j)
            == Seq::<char>::empty(),
        has_member(j, "message"@, message) && has_member(message, "content"@, other)
            && !(other is Text) ==> delta_in(j) == Seq::<char>::empty(),
{
    if says(j, s) {
        let m = choose|m: JsonModel| #[trigger]
            has_member(j, "message"@, m) && has_member(m, "content"@, JsonModel::Text(s));
        member_is_the_first_of_its_name(j, "message"@, m);
        member_is_the_first_of_its_name(m, "content"@, JsonModel::Text(s));
    }
    member_is_the_first_of_its_name(j, "message"@, message);
    member_is_the_first_of_its_name(message, "content"@, other);
    member_is_the_first_of_its_name(JsonModel::Null, "content"@, other);
}

/// A line ends the answer where its value says that it is done, and only there.
pub proof fn line_ends_the_answer_where_it_is_done(j: JsonModel, value: JsonModel)
    ensures
        has_member(j, "done"@, value) ==> (ends_answer(j) <==> value == JsonModel::Bool(true)),
        lacks_member(j, "done"@) ==> !ends_answer(j),
{
    member_is_the_first_of_its_name(j, "done"@, value);
}

/// What a call tells while it reads `lines`, from position `from` on, up to the
/// one with which it stops.
pub open spec fn told_by_lines(c: CallModel, lines: Seq<Seq<char>>, from: int) -> Seq<
    ChatEventModel,
>
    decreases lines.len() - from,
{
    if from >= lines.len() {
        Seq::empty()
    } else {
        let (next, step) = c.heard(lines[from], parsed_json(lines[from]));
        step.send + if step.next is Stop {
            Seq::empty()
        } else {
            told_by_lines(next, lines, from + 1)
        }
    }
}

/// Texts one after the other, from position `from` on and before position `to`.
pub open spec fn strung(pieces: Seq<Seq<char>>, from: int, to: int) -> Seq<char>
    decreases to - from,
{
    if from >= to {
        Seq::empty()
    } else {
        pieces[from] + strung(pieces, from + 1, to)
    }
}

/// Whether a line holds the piece `s` of the answer: it is blank or no JSON value,
/// and the piece is empty, or its value says `s`.
pub open spec fn line_says(line: Seq<char>, s: Seq<char>) -> bool {
    if trimmed(line).len() == 0 || parsed_json(line) is None {
        s.len() == 0
    } else {
        says(parsed_json(line)->Some_0, s)
    }
}

/// Whether the value in a line says that the answer is done.
pub open spec fn line_is_done(line: Seq<char>) -> bool {
    trimmed(line).len() > 0 && (parsed_json(line) matches Some(j) && has_member(
        j,
        "done"@,
        JsonModel::Bool(true),
    ))
}

/// Whether the value in a line does not say that the answer is done.
pub open spec fn line_goes_on(line: Seq<char>) -> bool {
    trimmed(line).len() == 0 || (parsed_json(line) matches Some(j) ==> lacks_member(j, "done"@)
        || has_member(j, "done"@, JsonModel::Bool(false)))
}

/// The pieces that a call tells while it reads an answer make up the content of the
/// lines read, to the letter, up to and with the one that is done, and it says that
/// the answer is done where one is.
pub proof fn answer_is_told_to_the_letter(
    c: CallModel,
    lines: Seq<Seq<char>>,
    pieces: Seq<Seq<char>>,
    from: int,
    last: int,
)
    requires
        pieces.len() == lines.len(),
        0 <= from <= last <= lines.len(),
        forall|i: int| from <= i < lines.len() ==> line_says(#[trigger] lines[i], pieces[i]),
        forall|i: int| from <= i < last ==> line_goes_on(#[trigger] lines[i]),
        last < lines.len() ==> line_is_done(lines[last]),
    ensures
        answer_in(told_by_lines(c, lines, from)) == strung(
            pieces,
            from,
            if last < lines.len() {
                last + 1
            } else {
                last
            },
        ),
        last < lines.len() ==> told_by_lines(c, lines, from).len() > 0 && told_by_lines(
            c,
            lines,
            from,
        ).last() is Done,
        last == lines.len() ==> forall|i: int|
            0 <= i < told_by_lines(c, lines, from).len() ==> !is_final(
                #[trigger] told_by_lines(c, lines, from)[i],
            ),
    decreases lines.len() - from,
{
    let all = told_by_lines(c, lines, from);
    if from < lines.len() {
        let line = lines[from];
        let piece = pieces[from];
        let (next, step) = c.heard(line, parsed_json(line));
        assert(line_says(line, piece));
        let none = Seq::<char>::empty();
        let nothing = Seq::<ChatEventModel>::empty();
        reveal_with_fuel(answer_in, 3);
        if trimmed(line).len() > 0 && parsed_json(line) is Some {
            let j = parsed_json(line)->Some_0;
            line_holds_its_content(j, piece, JsonModel::Null, JsonModel::Null);
            line_ends_the_answer_where_it_is_done(j, JsonModel::Bool(true));
            line_ends_the_answer_where_it_is_done(j, JsonModel::Bool(false));
            let delta = seq![ChatEventModel::Delta(piece)];
            assert(delta.drop_last() =~= nothing);
            assert(none + piece =~= piece);
            assert(answer_in(delta) =~= piece);
            assert(delta.push(ChatEventModel::Done).drop_last() =~= delta);
            assert(nothing.push(ChatEventModel::Done).drop_last() =~= nothing);
            assert(piece + none =~= piece);
            if piece.len() == 0 {
                assert(piece =~= none);
            }
        } else {
            assert(piece =~= none);
        }
        assert(answer_in(step.send) =~= piece);
        if from == last {
            assert(all =~= step.send);
            assert(strung(pieces, from + 1, last + 1) =~= none);
            assert(strung(pieces, from, last + 1) =~= piece);
        } else {
            assert(line_goes_on(line));
            assert(!(step.next is Stop));
            let rest = told_by_lines(next, lines, from + 1);
            answer_is_told_to_the_letter(next, lines, pieces, from + 1, last);
            assert(all == step.send + rest);
            lemma_answer_of_both(step.send, rest);
            if last < lines.len() {
                assert(all.last() == rest.last());
            } else {
                assert forall|i: int| 0 <= i < all.len() implies !is_final(#[trigger] all[i]) by {
                    if i >= step.send.len() {
                        assert(all[i] == rest[i - step.send.len()]);
                    } else {
                        assert(all[i] == step.send[i]);
                    }
                }
            }
        }
    }
}

proof fn lemma_answer_of_both(a: Seq<ChatEventModel>, b: Seq<ChatEventModel>)
    ensures
        answer_in(a + b) == answer_in(a) + answer_in(b),
    decreases b.len(),
{
    if b.len() == 0 {
        assert(a + b =~= a);
        assert(answer_in(a) + answer_in(b) =~= answer_in(a));
    } else {
        lemma_answer_of_both(a, b.drop_last());
        assert((a + b).drop_last() =~= a + b.drop_last());
        assert((a + b).last() == b.last());
        assert(answer_in(a + b) =~= answer_in(a) + answer_in(b));
    }
}

proof fn lemma_names_of_both(a: Seq<JsonModel>, b: Seq<JsonModel>, from: int)
    requires
        0 <= from <= a.len(),
    ensures
        names_from(a + b, from) == names_from(a, from) + names_from(b, 0),
    decreases a.len() - from,
{
    let none = Seq::<Seq<char>>::empty();
    if from < a.len() {
        lemma_names_of_both(a, b, from + 1);
        assert((a + b)[from] == a[from]);
        assert(names_from(a + b, from) =~= names_from(a, from) + names_from(b, 0));
    } else {
        lemma_names_shifted(a, b, 0);
        assert(names_from(a, from) =~= none);
        assert(none + names_from(b, 0) =~= names_from(b, 0));
    }
}

proof fn lemma_names_shifted(a: Seq<JsonModel>, b: Seq<JsonModel>, from: int)
    requires
        0 <= from <= b.len(),
    ensures
        names_from(a + b, a.len() + from) == names_from(b, from),
    decreases b.len() - from,
{
    if from < b.len() {
        lemma_names_shifted(a, b, from + 1);
        assert((a + b)[a.len() + from] == b[from]);
    }
}

/// The names in the server's list of models are those of its items, in order: of a
/// list in two parts, those of the one and then those of the other.
pub proof fn models_are_listed_in_order(
    a: Seq<JsonModel>,
    b: Seq<JsonModel>,
    all: JsonModel,
    first: JsonModel,
    second: JsonModel,
)
    requires
        has_member(all, "models"@, JsonModel::List(a + b)),
        has_member(first, "models"@, JsonModel::List(a)),
        has_member(second, "models"@, JsonModel::List(b)),
    ensures
        listed_models(all) == listed_models(first) + listed_models(second),
{
    member_is_the_first_of_its_name(all, "models"@, JsonModel::List(a + b));
    member_is_the_first_of_its_name(first, "models"@, JsonModel::List(a));
    member_is_the_first_of_its_name(second, "models"@, JsonModel::List(b));
    lemma_names_of_both(a, b, 0);
}

/// A list of one item names the model that the item names, and none where the item
/// names none; what is no list names none.
pub proof fn model_is_listed_by_its_name(
    reply: JsonModel,
    item: JsonModel,
    name: Seq<char>,
    other: JsonModel,
)
    ensures
        has_member(reply, "models"@, JsonModel::List(seq![item])) && has_member(
            item,
            "name"@,
            JsonModel::Text(name),
        ) ==> listed_models(reply) == seq![name],
        has_member(reply, "models"@, JsonModel::List(seq![item])) && (lacks_member(item, "name"@)
            || (has_member(item, "name"@, other) && !(other is Text))) ==> listed_models(reply)
            == Seq::<Seq<char>>::empty(),
        has_member(reply, "models"@, other) && !(other is List) ==> listed_models(reply) == Seq::<
            Seq<char>,
        >::empty(),
        lacks_member(reply, "models"@) ==> listed_models(reply) == Seq::<Seq<char>>::empty(),
{
    let items = seq![item];
    member_is_the_first_of_its_name(reply, "models"@, JsonModel::List(items));
    member_is_the_first_of_its_name(reply, "models"@, other);
    member_is_the_first_of_its_name(item, "name"@, JsonModel::Text(name));
    member_is_the_first_of_its_name(item, "name"@, other);
    reveal_with_fuel(names_from, 2);
    assert(items[0] == item);
    assert(names_from(items, 1) =~= Seq::<Seq<char>>::empty());
    assert(seq![name] + names_from(items, 1) =~= seq![name]);
    assert(Seq::<Seq<char>>::empty() + names_from(items, 1) =~= Seq::<Seq<char>>::empty());
}

proof fn lemma_first_of_family(names: Seq<Seq<char>>, family: Seq<char>, from: int) -> (i: int)
    requires
        0 <= from <= names.len(),
    ensures
        from <= i <= names.len(),
        forall|k: int| from <= k < i ==> !occurs_at(#[trigger] names[k], family, 0),
        match first_of_family(names, family, from) {
            Some(name) => i < names.len() && name == names[i] && occurs_at(names[i], family, 0),
            None => i == names.len(),
        },
    decreases names.len() - from,
{
    if from >= names.len() || occurs_at(names[from], family, 0) {
        from
    } else {
        lemma_first_of_family(names, family, from + 1)
    }
}

/// The families of models, the best first: each name in the first starts with the
/// first of these texts, and so on.
pub open spec fn families() -> Seq<Seq<char>> {
    seq!["gemma4"@, "gemma3"@, "gemma2"@, "gemma"@]
}

/// Whether a name belongs to a family.
pub open spec fn in_family(name: Seq<char>, family: Seq<char>) -> bool {
    name.len() >= family.len() && name.take(family.len() as int) == family
}

proof fn lemma_best_model(names: Seq<Seq<char>>, from: int) -> (r: (int, int))
    requires
        0 <= from <= 4,
    ensures
        from <= r.0 <= 4,
        forall|g: int, k: int|
            from <= g < r.0 && 0 <= k < names.len() ==> !in_family(
                #[trigger] names[k],
                #[trigger] families()[g],
            ),
        match best_model(names, from) {
            Some(name) => r.0 < 4 && 0 <= r.1 < names.len() && name == names[r.1] && in_family(
                name,
                families()[r.0],
            ) && forall|k: int|
                0 <= k < r.1 ==> !in_family(#[trigger] names[k], families()[r.0]),
            None => r.0 == 4,
        },
    decreases 4 - from,
{
    assert(preferences() == families());
    if from >= 4 {
        (from, 0)
    } else {
        let family = families()[from];
        let i = lemma_first_of_family(names, family, 0);
        assert forall|k: int| 0 <= k < names.len() implies (occurs_at(#[trigger] names[k], family, 0)
            <==> in_family(names[k], family)) by {
            if names[k].len() >= family.len() {
                assert(names[k].subrange(0, family.len() as int) =~= names[k].take(
                    family.len() as int,
                ));
            }
        }
        if first_of_family(names, family, 0) is Some {
            (from, i)
        } else {
            lemma_best_model(names, from + 1)
        }
    }
}

/// The model that is asked is the first listed of the best family that has any: no
/// listed name belongs to a better family, and none listed before it to the same.
/// No model is chosen only where no name belongs to any family.
pub proof fn best_family_is_asked_first(names: Seq<Seq<char>>) -> (r: (int, int))
    ensures
        match best_model(names, 0) {
            Some(name) => {
                let (f, i) = r;
                &&& 0 <= f < 4
                &&& 0 <= i < names.len()
                &&& name == names[i]
                &&& in_family(name, families()[f])
                &&& forall|k: int| 0 <= k < i ==> !in_family(#[trigger] names[k], families()[f])
                &&& forall|g: int, k: int|
                    0 <= g < f && 0 <= k < names.len() ==> !in_family(
                        #[trigger] names[k],
                        #[trigger] families()[g],
                    )
            },
            None => forall|g: int, k: int|
                0 <= g < 4 && 0 <= k < names.len() ==> !in_family(
                    #[trigger] names[k],
                    #[trigger] families()[g],
                ),
        },
{
    lemma_best_model(names, 0)
}

proof fn lemma_names_differ()
    ensures
        "role"@ != "content"@,
        "model"@ != "messages"@,
        "model"@ != "stream"@,
        "messages"@ != "stream"@,
        "name"@ != "stream"@,
{
    reveal_strlit("role");
    reveal_strlit("content");
    reveal_strlit("model");
    reveal_strlit("messages");
    reveal_strlit("stream");
    reveal_strlit("name");
    assert("role"@.len() == 4 && "content"@.len() == 7);
    assert("model"@.len() == 5 && "messages"@.len() == 8 && "stream"@.len() == 6);
    assert("name"@.len() == 4);
}

proof fn lemma_message_members(role: Seq<char>, content: Seq<char>)
    ensures
        has_member(message_model(role, content), "role"@, JsonModel::Text(role)),
        has_member(message_model(role, content), "content"@, JsonModel::Text(content)),
{
    lemma_names_differ();
    let members = message_model(role, content)->Object_0;
    assert(members[0] == ("role"@, JsonModel::Text(role)));
    assert(members[1] == ("content"@, JsonModel::Text(content)));
}

/// The messages of the request `body`, where it holds any.
pub open spec fn asked_with(
    body: JsonModel,
    model: Seq<char>,
    context: Seq<char>,
    history: Seq<(Seq<char>, Seq<char>)>,
    messages: Seq<JsonModel>,
) -> bool {
    &&& has_member(body, "model"@, JsonModel::Text(model))
    &&& has_member(body, "stream"@, JsonModel::Bool(true))
    &&& has_member(body, "messages"@, JsonModel::List(messages))
    &&& messages.len() == history.len() + 1
    &&& has_member(messages[0], "role"@, JsonModel::Text("system"@))
    &&& has_member(
        messages[0],
        "content"@,
        JsonModel::Text(SYSTEM_PROMPT@ + "\n"@ + context),
    )
    &&& forall|i: int|
        0 <= i < history.len() ==> has_member(
            messages[i + 1],
            "role"@,
            JsonModel::Text((#[trigger] history[i]).0),
        ) && has_member(messages[i + 1], "content"@, JsonModel::Text(history[i].1))
}

/// The request for an answer names the model, asks for the answer piece by piece,
/// and holds what the assistant is told, with the pages behind it, and then each
/// message of the talk, who said what, in its place.
pub proof fn request_holds_the_pages_and_the_talk(
    model: Seq<char>,
    context: Seq<char>,
    history: Seq<(Seq<char>, Seq<char>)>,
) -> (messages: Seq<JsonModel>)
    ensures
        asked_with(
            request_model(model, context, history),
            model,
            context,
            history,
            messages,
        ),
{
    let messages = sent_messages(context, history);
    let body = request_model(model, context, history);
    let members = body->Object_0;
    lemma_names_differ();
    assert(members[0] == ("model"@, JsonModel::Text(model)));
    assert(members[1] == ("messages"@, JsonModel::List(messages)));
    assert(members[2] == ("stream"@, JsonModel::Bool(true)));
    lemma_message_members("system"@, SYSTEM_PROMPT@ + "\n"@ + context);
    assert forall|i: int| 0 <= i < history.len() implies has_member(
        messages[i + 1],
        "role"@,
        JsonModel::Text((#[trigger] history[i]).0),
    ) && has_member(messages[i + 1], "content"@, JsonModel::Text(history[i].1)) by {
        lemma_message_members(history[i].0, history[i].1);
        assert(messages[i + 1] == message_model(history[i].0, history[i].1));
    }
    messages
}

/// Once the models are listed, the chosen one is asked with the pages and the talk
/// of the call; where none is there, the model of the library is downloaded, and
/// asked so once it is there.
pub proof fn question_goes_to_the_chosen_model(
    c: CallModel,
    models: Seq<Seq<char>>,
) -> (messages: Seq<JsonModel>)
    ensures
        match best_model(models, 0) {
            Some(model) => c.listed(models).1.next matches CallActionModel::Post { body }
                && asked_with(body, model, c.context, c.history, messages),
            None => {
                &&& c.listed(models).1.next matches CallActionModel::Pull { body }
                &&& has_member(body, "name"@, JsonModel::Text(MODEL@))
                &&& has_member(body, "stream"@, JsonModel::Bool(false))
                &&& c.listed(models).0.pulled(None).1.next matches CallActionModel::Post {
                    body: question,
                }
                &&& asked_with(question, MODEL@, c.context, c.history, messages)
            },
        },
{
    lemma_names_differ();
    match best_model(models, 0) {
        Some(model) => request_holds_the_pages_and_the_talk(model, c.context, c.history),
        None => {
            let members = pull_model()->Object_0;
            assert(members[0] == ("name"@, JsonModel::Text(MODEL@)));
            assert(members[1] == ("stream"@, JsonModel::Bool(false)));
            request_holds_the_pages_and_the_talk(MODEL@, c.context, c.history)
        },
    }
}

/// Whether a step tells of an error, in a text that holds `e`, and stops.
pub open spec fn stops_with(step: StepModel, e: Seq<char>) -> bool {
    &&& step.next is Stop
    &&& step.send.len() == 1
    &&& step.send[0] matches ChatEventModel::Error(t) && has_part(t, e)
}

proof fn lemma_part_between(a: Seq<char>, e: Seq<char>, b: Seq<char>)
    ensures
        has_part(a + e + b, e),
{
    let all = a + e + b;
    let at = a.len() as int;
    assert(all.subrange(at, at + e.len()) =~= e);
    assert(occurs_at(all, e, at));
}

/// Where the server cannot be started, the model cannot be downloaded or the
/// question cannot be sent, the call stops and tells why.
pub proof fn failure_is_told_with_its_reason(c: CallModel, e: Seq<char>)
    ensures
        stops_with(c.spawned(Some(e)).1, e),
        stops_with(c.pulled(Some(e)).1, e),
        stops_with(c.posted(Some(e)).1, e),
{
    let none = Seq::<char>::empty();
    lemma_part_between("Could not start Ollama: "@, e, ".\nInstall it from https://ollama.com"@);
    lemma_part_between("Failed to download "@ + MODEL@ + ": "@, e, none);
    assert("Failed to download "@ + MODEL@ + ": "@ + e + none =~= "Failed to download "@ + MODEL@
        + ": "@ + e);
    lemma_part_between("Request failed: "@, e, none);
    assert("Request failed: "@ + e + none =~= "Request failed: "@ + e);
}

/// A call asks with the pages and the talk that it was made with: no step changes
/// them.
pub proof fn call_keeps_its_question(
    c: CallModel,
    ok: bool,
    error: Option<Seq<char>>,
    models: Seq<Seq<char>>,
    line: Seq<char>,
    reply: Option<JsonModel>,
)
    ensures
        c.begun().0 == (CallModel { phase: c.begun().0.phase, ..c }),
        c.probed(ok).0 == (CallModel { phase: c.probed(ok).0.phase, ..c }),
        c.spawned(error).0 == (CallModel { phase: c.spawned(error).0.phase, ..c }),
        c.slept().0 == (CallModel { phase: c.slept().0.phase, ..c }),
        c.listed(models).0 == (CallModel { phase: c.listed(models).0.phase, ..c }),
        c.pulled(error).0 == (CallModel { phase: c.pulled(error).0.phase, ..c }),
        c.posted(error).0 == (CallModel { phase: c.posted(error).0.phase, ..c }),
        c.heard(line, reply).0 == (CallModel { phase: c.heard(line, reply).0.phase, ..c }),
{
}

/// A line that is not the last tells its content in one piece, where it has any; the
/// last one tells besides that the answer is done, and ends the call.
pub proof fn line_is_told_in_one_piece(c: CallModel, line: Seq<char>, s: Seq<char>)
    requires
        line_says(line, s),
    ensures
        line_goes_on(line) ==> c.heard(line, parsed_json(line)).1 == (StepModel {
            send: if s.len() > 0 {
                seq![ChatEventModel::Delta(s)]
            } else {
                Seq::empty()
            },
            next: CallActionModel::ReadLine,
        }),
        line_is_done(line) ==> c.heard(line, parsed_json(line)).1 == (StepModel {
            send: if s.len() > 0 {
                seq![ChatEventModel::Delta(s), ChatEventModel::Done]
            } else {
                seq![ChatEventModel::Done]
            },
            next: CallActionModel::Stop,
        }),
{
    if trimmed(line).len() > 0 && parsed_json(line) is Some {
        let j = parsed_json(line)->Some_0;
        line_holds_its_content(j, s, JsonModel::Null, JsonModel::Null);
        line_ends_the_answer_where_it_is_done(j, JsonModel::Bool(true));
        line_ends_the_answer_where_it_is_done(j, JsonModel::Bool(false));
        assert(seq![ChatEventModel::Delta(s)].push(ChatEventModel::Done) =~= seq![
            ChatEventModel::Delta(s),
            ChatEventModel::Done,
        ]);
        assert(Seq::<ChatEventModel>::empty().push(ChatEventModel::Done) =~= seq![
            ChatEventModel::Done,
        ]);
    }
}

/// A call asks first whether the server is there. Whenever it is, the models are
/// fetched; where it is not at first, it is started, and asked again after each wait.
/// Once the question was sent, the answer is read, with nothing told in between.
pub proof fn call_goes_on_step_by_step(c: CallModel, probes: u32)
    ensures
        c.begun().1.next is Probe,
        c.begun().0.phase is Probing,
        c.probed(true).1.next is FetchModels,
        c.probed(true).0.phase is Listing,
        c.phase is Probing ==> c.probed(false).1 == (StepModel {
            send: Seq::empty(),
            next: CallActionModel::Spawn,
        }) && c.probed(false).0.phase is Spawning,
        c.phase == (Phase::Sleeping { probes }) ==> c.slept().1 == (StepModel {
            send: Seq::empty(),
            next: CallActionModel::Probe,
        }) && c.slept().0.phase == (Phase::Reprobing { probes }),
        c.posted(None).1 == (StepModel { send: Seq::empty(), next: CallActionModel::ReadLine }),
        c.posted(None).0.phase is Reading,
{
}

} // verus!
