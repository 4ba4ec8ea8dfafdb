use papers::json::{parse_json, Json};
use papers::ollama::{
    chat_request, choose_model, installed_models, pull_request, read_reply, CallAction, ChatEvent,
    LineRead, ModelsReply, OllamaCall, Step, MODEL, OLLAMA_URL, PROBE_INTERVAL_MS, READY_PROBES,
    SYSTEM_PROMPT,
};

fn status(step: &Step) -> Vec<String> {
    step.send
        .iter()
        .map(|e| match e {
            ChatEvent::Status(s) => format!("status {s}"),
            ChatEvent::Delta(s) => format!("delta {s}"),
            ChatEvent::Done => "done".to_string(),
            ChatEvent::Error(s) => format!("error {s}"),
        })
        .collect()
}

fn new_call() -> OllamaCall {
    OllamaCall::new(
        "=== Page 1 ===\ntext".to_string(),
        vec![("user".to_string(), "why?".to_string())],
    )
}

fn text(j: Option<&Json>) -> String {
    j.unwrap().text().unwrap().clone()
}

#[test]
fn json_is_read() {
    let j = parse_json("{\"a\": [1, true, null, \"x\"], \"b\": {\"c\": \"\\u00e9\"}}").unwrap();
    assert_eq!(text(j.member("b").unwrap().member("c")), "é");
    match j.member("a").unwrap() {
        Json::List(items) => {
            assert_eq!(items.len(), 4);
            assert!(matches!(&items[0], Json::Number(n) if n == "1"));
            assert!(items[1].is_true());
            assert!(matches!(items[2], Json::Null));
            assert_eq!(items[3].text().unwrap(), "x");
        }
        _ => panic!("no list"),
    }
    assert!(j.member("z").is_none());
    assert!(j.member("a").unwrap().member("c").is_none());
    assert!(j.text().is_none());
    assert!(parse_json("not json").is_none());
    assert!(parse_json("{} {}").is_none());
}

#[test]
fn models_are_listed() {
    let reply = parse_json(
        "{\"models\": [{\"name\": \"llama3\"}, {\"size\": 3}, {\"name\": 4}, {\"name\": \"gemma2:2b\"}]}",
    )
    .unwrap();
    assert_eq!(installed_models(&reply), vec!["llama3", "gemma2:2b"]);
    assert!(installed_models(&parse_json("{\"models\": 1}").unwrap()).is_empty());
    assert!(installed_models(&parse_json("[]").unwrap()).is_empty());
}

#[test]
fn the_best_family_is_chosen() {
    let names = |list: &[&str]| list.iter().map(|s| s.to_string()).collect::<Vec<_>>();
    assert_eq!(
        choose_model(&names(&["gemma:7b", "gemma3:1b", "gemma3:4b"])),
        Some("gemma3:1b".to_string())
    );
    assert_eq!(
        choose_model(&names(&["gemma2", "gemma4:x"])),
        Some("gemma4:x".to_string())
    );
    assert_eq!(
        choose_model(&names(&["codegemma", "gemma-pro"])),
        Some("gemma-pro".to_string())
    );
    assert_eq!(choose_model(&names(&["llama3"])), None);
}

#[test]
fn requests_hold_what_is_sent() {
    let body = chat_request(
        "gemma3",
        "pages",
        &[
            ("user".to_string(), "q".to_string()),
            ("assistant".to_string(), "a".to_string()),
        ],
    );
    assert_eq!(text(body.member("model")), "gemma3");
    assert!(body.member("stream").unwrap().is_true());
    match body.member("messages").unwrap() {
        Json::List(items) => {
            assert_eq!(items.len(), 3);
            assert_eq!(text(items[0].member("role")), "system");
            assert_eq!(
                text(items[0].member("content")),
                format!("{SYSTEM_PROMPT}\npages")
            );
            assert_eq!(text(items[1].member("role")), "user");
            assert_eq!(text(items[1].member("content")), "q");
            assert_eq!(text(items[2].member("role")), "assistant");
            assert_eq!(text(items[2].member("content")), "a");
        }
        _ => panic!("no list"),
    }
    let pull = pull_request();
    assert_eq!(text(pull.member("name")), MODEL);
    assert!(!pull.member("stream").unwrap().is_true());
    assert_eq!(OLLAMA_URL, "http://localhost:11434");
    assert!(SYSTEM_PROMPT.starts_with("You are a helpful AI assistant"));
    assert!(SYSTEM_PROMPT.ends_with("- Be concise and accurate.\n"));
}

#[test]
fn replies_are_read() {
    let more = parse_json("{\"message\": {\"content\": \"Hi\"}, \"done\": false}").unwrap();
    assert_eq!(read_reply(&more), ("Hi".to_string(), false));
    let end = parse_json("{\"done\": true}").unwrap();
    assert_eq!(read_reply(&end), (String::new(), true));
    let odd = parse_json("{\"message\": {\"content\": 3}, \"done\": 1}").unwrap();
    assert_eq!(read_reply(&odd), (String::new(), false));
}

#[test]
fn a_call_runs_to_its_end() {
    let mut call = new_call();
    let step = call.start();
    assert_eq!(status(&step), vec!["status Starting Ollama…"]);
    assert!(matches!(step.next, CallAction::Probe));

    let step = call.probed(true);
    assert_eq!(status(&step), vec!["status Checking model…"]);
    assert!(matches!(step.next, CallAction::FetchModels));

    let list = parse_json("{\"models\": [{\"name\": \"gemma3:4b\"}]}").unwrap();
    let step = call.listed(ModelsReply::Reply(list));
    assert_eq!(status(&step), vec!["status Thinking…"]);
    match step.next {
        CallAction::Post { body } => assert_eq!(text(body.member("model")), "gemma3:4b"),
        _ => panic!("no request"),
    }

    let step = call.posted(Ok(()));
    assert!(status(&step).is_empty());
    assert!(matches!(step.next, CallAction::ReadLine));

    let read = |call: &mut OllamaCall, line: &str| {
        call.line_read(false, LineRead::Line(line.to_string()))
    };
    let step = read(&mut call, "{\"message\": {\"content\": \"Be\"}}");
    assert_eq!(status(&step), vec!["delta Be"]);
    for line in ["   ", "garbage", "{\"message\": {\"content\": \"\"}}"] {
        let step = read(&mut call, line);
        assert!(status(&step).is_empty());
        assert!(matches!(step.next, CallAction::ReadLine));
    }
    let step = read(&mut call, "{\"message\": {\"content\": \"cause\"}, \"done\": true}");
    assert_eq!(status(&step), vec!["delta cause", "done"]);
    assert!(matches!(step.next, CallAction::Stop));
}

#[test]
fn a_model_is_downloaded_where_none_is_there() {
    let mut call = new_call();
    let _ = call.start();
    let _ = call.probed(true);
    let step = call.listed(ModelsReply::Reply(parse_json("{}").unwrap()));
    assert_eq!(
        status(&step),
        vec!["status Downloading gemma4… (this may take a while)"]
    );
    assert!(matches!(step.next, CallAction::Pull { .. }));
    let step = call.pulled(Ok(()));
    match step.next {
        CallAction::Post { body } => assert_eq!(text(body.member("model")), "gemma4"),
        _ => panic!("no request"),
    }
}

#[test]
fn a_server_that_was_started_is_waited_for() {
    let mut call = new_call();
    let _ = call.start();
    let step = call.probed(false);
    assert!(matches!(step.next, CallAction::Spawn));
    let mut step = call.spawned(Ok(()));
    let mut rounds = 0;
    while matches!(step.next, CallAction::Sleep) {
        let probe = call.slept();
        assert!(matches!(probe.next, CallAction::Probe));
        step = call.probed(false);
        rounds += 1;
    }
    assert_eq!(rounds, READY_PROBES);
    assert_eq!(rounds, 20);
    assert_eq!(PROBE_INTERVAL_MS, 500);
    assert_eq!(
        status(&step),
        vec!["error Ollama started but did not become ready in time."]
    );
    assert!(matches!(step.next, CallAction::Stop));

    let mut call = new_call();
    let _ = call.start();
    let _ = call.probed(false);
    let _ = call.spawned(Ok(()));
    let _ = call.slept();
    let step = call.probed(true);
    assert_eq!(status(&step), vec!["status Checking model…"]);
}

#[test]
fn failures_end_the_call() {
    let mut call = new_call();
    let _ = call.start();
    let _ = call.probed(false);
    let step = call.spawned(Err("not found".to_string()));
    assert_eq!(
        status(&step),
        vec!["error Could not start Ollama: not found.\nInstall it from https://ollama.com"]
    );

    let listing = || {
        let mut call = new_call();
        let _ = call.start();
        let _ = call.probed(true);
        call
    };
    let mut call = listing();
    let step = call.listed(ModelsReply::Unreachable("refused".to_string()));
    assert_eq!(status(&step), vec!["error Cannot reach Ollama: refused"]);
    let mut call = listing();
    let step = call.listed(ModelsReply::Unreadable("eof".to_string()));
    assert_eq!(status(&step), vec!["error Failed to parse model list: eof"]);
    let mut call = listing();
    let _ = call.listed(ModelsReply::Reply(Json::Null));
    let step = call.pulled(Err("offline".to_string()));
    assert_eq!(status(&step), vec!["error Failed to download gemma4: offline"]);
    let mut call = listing();
    let _ = call.listed(ModelsReply::Reply(Json::Null));
    let _ = call.pulled(Ok(()));
    let step = call.posted(Err("500".to_string()));
    assert_eq!(status(&step), vec!["error Request failed: 500"]);
}

#[test]
fn reading_ends_by_the_end_by_the_user_or_by_a_failure() {
    let reading = || {
        let mut call = new_call();
        let _ = call.start();
        let _ = call.probed(true);
        let _ = call.listed(ModelsReply::Reply(Json::Null));
        let _ = call.pulled(Ok(()));
        let _ = call.posted(Ok(()));
        call
    };
    let step = reading().line_read(false, LineRead::End);
    assert_eq!(status(&step), vec!["done"]);
    let step = reading().line_read(true, LineRead::Line("{\"message\": {\"content\": \"x\"}}".to_string()));
    assert_eq!(status(&step), vec!["done"]);
    let step = reading().line_read(true, LineRead::Failed("gone".to_string()));
    assert_eq!(status(&step), vec!["done"]);
    let step = reading().line_read(false, LineRead::Failed("gone".to_string()));
    assert_eq!(status(&step), vec!["error Read error: gone"]);
    assert!(matches!(step.next, CallAction::Stop));
}
