use mpfiles::worker::{Action, ChatEvent, Input, Marks, Output, Stage, Worker, WorkerMsg};

const IM_END: u32 = 1;
const CALL_OPEN: u32 = 2;
const CALL_CLOSE: u32 = 3;
const THINK_OPEN: u32 = 4;
const THINK_CLOSE: u32 = 5;

fn marks() -> Marks {
    Marks {
        im_end: Some(IM_END),
        tool_call_open: Some(CALL_OPEN),
        tool_call_close: Some(CALL_CLOSE),
        think_open: Some(THINK_OPEN),
        think_close: Some(THINK_CLOSE),
    }
}

fn step(worker: &mut Worker, input: Input<f64>) -> Output<f64> {
    assert!(worker.awaits(&input), "{input:?} at {:?}", worker.stage());
    worker.step(input)
}

fn ready() -> Worker {
    let mut worker = Worker::new("m.gguf".to_string(), "prefix".to_string());
    let out = step(&mut worker, Input::Loaded(Ok(())));
    assert!(matches!(out.action, Action::Tokenize(t) if t == "prefix"));
    let out = step(&mut worker, Input::PrefixTokenized(Ok(12)));
    assert!(matches!(out.action, Action::Append));
    let out = step(
        &mut worker,
        Input::PrefixAppended { result: Ok(()), marks: marks(), secs: 1.5 },
    );
    assert!(matches!(out.action, Action::Receive));
    match &out.events[..] {
        [ChatEvent::Ready { prefill_tokens, secs }] => {
            assert_eq!(*prefill_tokens, 12);
            assert_eq!(*secs, 1.5);
        }
        other => panic!("{other:?}"),
    }
    worker
}

fn asked(worker: &mut Worker) {
    let out = step(worker, Input::Message(WorkerMsg::UserTurn("hi".to_string())));
    assert!(matches!(out.action, Action::Tokenize(t) if t.contains("user\nhi<|im_end|>")));
    let out = step(worker, Input::TurnTokenized { tokens: Some(10), remaining: 1000 });
    assert!(matches!(out.action, Action::Append));
    let out = step(worker, Input::TurnAppended(true));
    assert!(matches!(out.action, Action::Check));
}

fn check(worker: &mut Worker) -> Action {
    let out = step(worker, Input::Checked { cancelled: false, remaining: 1000 });
    assert!(out.events.is_empty());
    out.action
}

/// Sample `token`, decoding it as `text`; what is said of it.
fn token(worker: &mut Worker, token: u32, text: &str) -> Vec<String> {
    assert!(matches!(check(worker), Action::NextToken));
    let out = step(worker, Input::Token(Some(token)));
    let mut said = deltas(&out);
    if let Action::Decode(t) = out.action {
        assert_eq!(t, token);
        let out = step(worker, Input::Text(Some(text.to_string())));
        said.extend(deltas(&out));
        assert!(matches!(out.action, Action::Check));
    }
    said
}

fn deltas(out: &Output<f64>) -> Vec<String> {
    out.events
        .iter()
        .map(|e| match e {
            ChatEvent::Delta(text) => text.clone(),
            other => panic!("{other:?}"),
        })
        .collect()
}

fn close(worker: &mut Worker) -> Vec<ChatEvent<f64>> {
    let out = step(worker, Input::Closed { secs: 2.0, context_used: 50, context_max: 16384 });
    assert!(matches!(out.action, Action::Receive));
    out.events
}

#[test]
fn an_answer_is_said_and_its_thinking_is_not() {
    let mut w = ready();
    asked(&mut w);
    assert_eq!(token(&mut w, 100, "Hel"), vec!["Hel"]);
    assert!(token(&mut w, THINK_OPEN, "").is_empty());
    assert!(token(&mut w, 101, "secret").is_empty());
    assert!(token(&mut w, THINK_CLOSE, "").is_empty());
    assert_eq!(token(&mut w, 102, "lo"), vec!["lo"]);
    assert!(matches!(check(&mut w), Action::NextToken));
    let out = step(&mut w, Input::Token(None));
    assert!(matches!(out.action, Action::Close(None)));
    let events = close(&mut w);
    match &events[..] {
        [ChatEvent::TurnDone { tool_calls, tokens, secs, context_used, context_max }] => {
            assert_eq!((*tool_calls, *tokens), (0, 5));
            assert_eq!((*secs, *context_used, *context_max), (2.0, 50, 16384));
        }
        other => panic!("{other:?}"),
    }
}

#[test]
fn one_result_is_owed_per_call() {
    let mut w = ready();
    asked(&mut w);
    for (name, value) in [("list_dir", "a"), ("read_file", "b")] {
        assert!(token(&mut w, CALL_OPEN, "").is_empty());
        let body = format!("<function={name}>\n<parameter=path>\n{value}\n</parameter>\n");
        assert!(token(&mut w, 200, &body).is_empty());
        assert!(token(&mut w, CALL_CLOSE, "").is_empty());
    }
    assert!(matches!(check(&mut w), Action::NextToken));
    let _ = step(&mut w, Input::Token(None));
    let events = close(&mut w);
    match &events[..] {
        [ChatEvent::ToolCall { name: a, args: x }, ChatEvent::ToolCall { name: b, args: y }, ChatEvent::TurnDone { tool_calls, .. }] =>
        {
            assert_eq!((a.as_str(), b.as_str()), ("list_dir", "read_file"));
            assert_eq!(x, &vec![("path".to_string(), "a".to_string())]);
            assert_eq!(y, &vec![("path".to_string(), "b".to_string())]);
            assert_eq!(*tool_calls, 2);
        }
        other => panic!("{other:?}"),
    }
    // The next turn starts clean.
    let out = step(
        &mut w,
        Input::Message(WorkerMsg::ToolResults(vec![("ok".to_string(), false)])),
    );
    assert!(matches!(out.action, Action::Tokenize(t) if t.contains("<tool_response>\nok\n")));
    let _ = step(&mut w, Input::TurnTokenized { tokens: Some(1), remaining: 1000 });
    let _ = step(&mut w, Input::TurnAppended(true));
    assert!(matches!(check(&mut w), Action::NextToken));
    let _ = step(&mut w, Input::Token(None));
    assert!(matches!(
        close(&mut w)[..],
        [ChatEvent::TurnDone { tool_calls: 0, tokens: 0, .. }]
    ));
}

#[test]
fn a_bad_call_is_shown_rather_than_hanging() {
    let mut w = ready();
    asked(&mut w);
    assert!(token(&mut w, CALL_OPEN, "").is_empty());
    assert!(token(&mut w, 200, "nonsense").is_empty());
    assert_eq!(
        token(&mut w, CALL_CLOSE, ""),
        vec!["[bad tool call: missing <function=]"]
    );
    // A closing mark on its own means nothing.
    assert!(token(&mut w, CALL_CLOSE, "").is_empty());
}

#[test]
fn a_cancelled_turn_drops_its_calls() {
    let mut w = ready();
    asked(&mut w);
    assert!(token(&mut w, CALL_OPEN, "").is_empty());
    assert!(token(&mut w, 200, "<function=delete>").is_empty());
    assert!(token(&mut w, CALL_CLOSE, "").is_empty());
    let out = step(&mut w, Input::Checked { cancelled: true, remaining: 1000 });
    assert!(matches!(out.action, Action::Close(Some(IM_END))));
    assert!(matches!(
        close(&mut w)[..],
        [ChatEvent::TurnDone { tool_calls: 0, tokens: 3, .. }]
    ));
}

#[test]
fn an_answer_stops_at_its_share() {
    let mut w = ready();
    asked(&mut w);
    for _ in 0..640 {
        assert_eq!(token(&mut w, 100, "x"), vec!["x"]);
    }
    assert!(matches!(check(&mut w), Action::Close(Some(IM_END))));
    assert!(matches!(
        close(&mut w)[..],
        [ChatEvent::TurnDone { tool_calls: 0, tokens: 640, .. }]
    ));
}

#[test]
fn an_answer_stops_while_context_is_left() {
    let mut w = ready();
    asked(&mut w);
    let out = step(&mut w, Input::Checked { cancelled: false, remaining: 256 });
    assert!(matches!(out.action, Action::NextToken));
    let out = step(&mut w, Input::Token(Some(7)));
    assert!(matches!(out.action, Action::Decode(7)));
    let out = step(&mut w, Input::Text(None));
    assert!(out.events.is_empty());
    let out = step(&mut w, Input::Checked { cancelled: false, remaining: 255 });
    assert!(matches!(out.action, Action::Close(Some(IM_END))));
}

#[test]
fn a_turn_that_does_not_fit_is_refused() {
    for (tokens, remaining, fits) in [(10, 266, true), (10, 265, false), (usize::MAX, 1000, false), (0, 255, false)] {
        let mut w = ready();
        let _ = step(&mut w, Input::Message(WorkerMsg::UserTurn("hi".to_string())));
        let out = step(&mut w, Input::TurnTokenized { tokens: Some(tokens), remaining });
        if fits {
            assert!(matches!(out.action, Action::Append));
            let out = step(&mut w, Input::TurnAppended(false));
            assert!(matches!(out.events[..], [ChatEvent::ContextFull]));
            assert!(matches!(out.action, Action::Receive));
        } else {
            assert!(matches!(out.events[..], [ChatEvent::ContextFull]));
            assert!(matches!(out.action, Action::Receive));
        }
        assert!(matches!(w.stage(), Stage::Full));
    }
}

#[test]
fn a_full_window_ends_the_session() {
    let mut w = ready();
    let _ = step(&mut w, Input::Message(WorkerMsg::UserTurn("long".to_string())));
    let _ = step(&mut w, Input::TurnTokenized { tokens: Some(900), remaining: 1000 });
    // A shorter one would fit, and gets no turn.
    for _ in 0..3 {
        let out = step(&mut w, Input::Message(WorkerMsg::UserTurn("hi".to_string())));
        assert!(matches!(out.events[..], [ChatEvent::ContextFull]));
        assert!(matches!(out.action, Action::Receive));
        assert!(!w.awaits(&Input::<f64>::TurnTokenized { tokens: Some(1), remaining: 1000 }));
    }
    let out = step(&mut w, Input::Message(WorkerMsg::ToolResults(Vec::new())));
    assert!(matches!(out.events[..], [ChatEvent::ContextFull]));
}

#[test]
fn a_turn_that_is_no_text_is_passed_over() {
    let mut w = ready();
    let _ = step(&mut w, Input::Message(WorkerMsg::UserTurn("hi".to_string())));
    let out = step(&mut w, Input::TurnTokenized { tokens: None, remaining: 1000 });
    assert!(out.events.is_empty());
    assert!(matches!(out.action, Action::Receive));
    assert!(matches!(w.stage(), Stage::Idle));
}

#[test]
fn a_failure_is_final() {
    let stages: [(usize, &str); 3] = [
        (0, "could not load m.gguf: broken"),
        (1, "tokenize: broken"),
        (2, "prefill: broken"),
    ];
    for (stage, text) in stages {
        let mut w = Worker::new("m.gguf".to_string(), "p".to_string());
        let broken = || "broken".to_string();
        let out = match stage {
            0 => step(&mut w, Input::Loaded(Err(broken()))),
            1 => {
                let _ = step(&mut w, Input::Loaded(Ok(())));
                step(&mut w, Input::PrefixTokenized(Err(broken())))
            }
            _ => {
                let _ = step(&mut w, Input::Loaded(Ok(())));
                let _ = step(&mut w, Input::PrefixTokenized(Ok(1)));
                let result = Err(broken());
                step(&mut w, Input::PrefixAppended { result, marks: marks(), secs: 0.0 })
            }
        };
        match &out.events[..] {
            [ChatEvent::Failed(t)] => assert_eq!(t, text),
            other => panic!("{other:?}"),
        }
        assert!(matches!(out.action, Action::Stop));
        assert!(matches!(w.stage(), Stage::Dead));
        assert!(!w.awaits(&Input::<f64>::Message(WorkerMsg::UserTurn(String::new()))));
    }
}

#[test]
fn a_load_reports_itself() {
    let mut w = Worker::new("m.gguf".to_string(), "p".to_string());
    let out = step(&mut w, Input::Progress { phase: "weights".to_string(), fraction: 0.5 });
    match &out.events[..] {
        [ChatEvent::Loading { phase, fraction }] => {
            assert_eq!(phase, "weights");
            assert_eq!(*fraction, 0.5);
        }
        other => panic!("{other:?}"),
    }
    assert!(matches!(out.action, Action::Load));
}
