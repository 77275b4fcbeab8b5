use mpfiles::hub::{AiHub, ChatConfig, LocalLlmConfig, PipeId};
use mpfiles::model_file::ModelPlace::{Above, Checkout, Env, Working};
use mpfiles::model_file::{model_path, ModelPlace};
use mpfiles::prompt::ToolSpec;
use mpfiles::worker::{Action, Input, Stage};
use std::cell::RefCell;

#[test]
fn hub_constructs_without_any_io() {
    let _hub = AiHub::in_process();
    assert_eq!(AiHub::local_llm_pipe().domain(), "llm");
}

#[test]
fn a_pipe_has_a_name_and_a_domain() {
    assert_eq!(AiHub::local_llm_pipe().name(), "llm.local");
    assert_eq!(PipeId::new("a.b.c").domain(), "a");
    assert_eq!(PipeId::new("plain").domain(), "plain");
    assert_eq!(PipeId::new("").domain(), "");
}

#[test]
fn a_chat_starts_with_its_prefix() {
    let hub = AiHub::in_process();
    let tools = vec![ToolSpec { name: "t", description: "d", parameters: "{}" }];
    let mut session = hub.start_local_chat(ChatConfig {
        llm: LocalLlmConfig { model: "m.gguf".to_string(), max_context: 4096 },
        system_prompt: "Be kind.".to_string(),
        tools,
        wake: Some(7u8),
    });
    assert_eq!(session.wake, Some(7));
    assert_eq!(session.llm.max_context, 4096);
    assert!(matches!(session.worker.stage(), Stage::Loading));
    let out = session.worker.step(Input::<()>::Loaded(Ok(())));
    match out.action {
        Action::Tokenize(prefix) => {
            assert!(prefix.contains("{\"name\":\"t\",\"description\":\"d\",\"parameters\":{}}\n"));
            assert!(prefix.ends_with("Be kind.<|im_end|>\n"));
        }
        other => panic!("{other:?}"),
    }
}

fn search(env: bool, above: usize, checkout: bool, found: &[ModelPlace]) -> (Option<ModelPlace>, Vec<ModelPlace>) {
    let asked = RefCell::new(Vec::new());
    let place = model_path(env, above, checkout, |p| {
        asked.borrow_mut().push(p);
        found.contains(&p)
    });
    (place, asked.into_inner())
}

#[test]
fn the_environment_is_the_only_place_where_it_is_set() {
    let everywhere = [ModelPlace::Working, ModelPlace::Above(0), ModelPlace::Checkout];
    assert_eq!(search(true, 3, true, &everywhere), (None, vec![ModelPlace::Env]));
    assert_eq!(search(true, 3, true, &[ModelPlace::Env]).0, Some(ModelPlace::Env));
}

#[test]
fn the_first_place_that_has_the_weights_is_it() {
    assert_eq!(search(false, 2, true, &[Env, Above(1), Checkout]), (Some(Above(1)), vec![Working, Above(0), Above(1)]));
    assert_eq!(search(false, 2, true, &[Working, Above(0)]), (Some(Working), vec![Working]));
    assert_eq!(search(false, 1, true, &[Checkout]).0, Some(Checkout));
    assert_eq!(search(false, 1, false, &[Checkout]), (None, vec![Working, Above(0)]));
}
