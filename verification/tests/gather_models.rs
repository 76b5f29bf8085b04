use real_ai::context::AiSystemContextStore;
use real_ai::context::ContextGatherRequest;
use real_ai::context::gather_step;
use real_ai::dialogue::LocalAiHandle;
use real_ai::dialogue::PendingModelLoads;
use real_ai::dialogue::poll_pending_model_loads;
use real_ai::dialogue::start_model_load;
use real_ai::models::AiModelBuilder;
use real_ai::models::ModelType;
use real_ai::models::assemble_prompt;
use real_ai::models::default_system_context;
use real_ai::models::secure_str;
use real_ai::models::secure_string;
use real_ai::rag::AiContext;
use real_ai::rag::AiMessage;

#[test]
fn gather_on_request_collects_nearby_entity_context() {
    // The requester asks for a gather; the registered operation reports
    // what it saw near the entity, and that becomes the entity's context.
    let mut req = ContextGatherRequest::new();
    let mut store = AiSystemContextStore::new();
    store.add_system(1);
    let mut contexts: Vec<(u64, AiContext)> = Vec::new();
    let requester = 42u64;
    req.request(requester);

    // The host ran the one registered operation; it found Bob nearby.
    let snippets = vec![Some("Bob, a npc, has sword".to_string())];
    let gathered = gather_step(&mut req, &snippets, &mut contexts);
    assert_eq!(gathered, Some(requester));
    assert!(!req.has_pending());

    let ctx = &contexts.iter().find(|(e, _)| *e == requester).expect("expected AiContext on requester").1;
    let joined = ctx
        .messages()
        .iter()
        .map(|m| format!("{:?}", m))
        .collect::<Vec<_>>()
        .join(" ")
        .to_lowercase();
    assert!(joined.contains("bob"), "Context should contain 'bob', but got: {}", joined);
    assert!(joined.contains("sword"));
}

#[test]
fn gather_with_empty_queue_is_a_no_op() {
    let mut req = ContextGatherRequest::new();
    let mut contexts: Vec<(u64, AiContext)> = Vec::new();
    let mut ctx = AiContext::new();
    ctx.add_context("existing");
    contexts.push((7, ctx));
    let snippets = vec![Some("anything".to_string())];
    let gathered = gather_step(&mut req, &snippets, &mut contexts);
    assert_eq!(gathered, None);
    assert_eq!(contexts.len(), 1);
    assert_eq!(contexts[0].1.messages().len(), 1);
}

#[test]
fn gather_with_only_empty_snippets_attaches_nothing() {
    let mut req = ContextGatherRequest::new();
    let mut contexts: Vec<(u64, AiContext)> = Vec::new();
    req.request(9);
    let snippets: Vec<Option<String>> = vec![None, None, None];
    let gathered = gather_step(&mut req, &snippets, &mut contexts);
    assert_eq!(gathered, Some(9));
    assert!(contexts.iter().find(|(e, _)| *e == 9).is_none());
}

#[test]
fn gather_replaces_earlier_context() {
    let mut req = ContextGatherRequest::new();
    let mut contexts: Vec<(u64, AiContext)> = Vec::new();
    req.request(5);
    req.request(5);
    let first = vec![Some("old news".to_string()), Some("stale".to_string())];
    gather_step(&mut req, &first, &mut contexts);
    let second = vec![Some("fresh".to_string())];
    gather_step(&mut req, &second, &mut contexts);
    assert_eq!(contexts.len(), 1);
    let msgs = contexts[0].1.messages();
    assert_eq!(msgs.len(), 1);
    assert_eq!(msgs[0], AiMessage::System("fresh".to_string()));
}

#[test]
fn model_load_completion_installs_backend_once() {
    let mut pending = PendingModelLoads::new();
    let mut handle = LocalAiHandle::new_empty();
    start_model_load(&mut pending, "Model".to_string());
    assert_eq!(pending.loaders.len(), 1);

    // Nothing on the channel yet: the load stays pending.
    let waiting: Vec<Option<Result<u64, String>>> = vec![None];
    let events = poll_pending_model_loads(&mut pending, &mut handle, &waiting);
    assert!(events.is_empty());
    assert_eq!(pending.loaders.len(), 1);
    assert!(handle.backend.is_none());

    // The build finishes: the backend is installed and the load leaves.
    let done: Vec<Option<Result<u64, String>>> = vec![Some(Ok(99))];
    let events = poll_pending_model_loads(&mut pending, &mut handle, &done);
    assert_eq!(events.len(), 1);
    assert_eq!(events[0].model_name, "Model");
    assert!(events[0].success);
    assert!(events[0].error_message.is_none());
    assert_eq!(handle.backend, Some(99));
    assert!(pending.loaders.is_empty());
}

#[test]
fn failed_model_load_leaves_backend_unchanged() {
    let mut pending = PendingModelLoads::new();
    let mut handle = LocalAiHandle::new_empty();
    start_model_load(&mut pending, "Model".to_string());
    let failed: Vec<Option<Result<u64, String>>> = vec![Some(Err("no weights".to_string()))];
    let events = poll_pending_model_loads(&mut pending, &mut handle, &failed);
    assert_eq!(events.len(), 1);
    assert!(!events[0].success);
    assert_eq!(events[0].error_message.as_deref(), Some("no weights"));
    assert!(handle.backend.is_none());
    assert!(pending.loaders.is_empty());
}

#[test]
fn builder_keeps_its_configuration() {
    let b = AiModelBuilder::new_with(ModelType::Phi).with_seed(42).include_default_context(false);
    assert!(matches!(b.model_type, ModelType::Phi));
    assert_eq!(b.seed, Some(42));
    assert!(!b.include_default_context);
    let b2 = AiModelBuilder::new().with_huggingface("repo", "main", "model.gguf");
    assert!(matches!(b2.model_type, ModelType::Llama));
}

#[test]
fn secure_string_keeps_its_content() {
    let s = secure_string("SECRET-REDACTED".to_string());
    assert_eq!(secure_str(&s), "SECRET-REDACTED");
}

#[test]
fn prompt_assembly_combines_context_and_user_text() {
    let messages = vec![
        AiMessage::System("The tavern is east.".to_string()),
        AiMessage::User("Where is the tavern?".to_string()),
    ];
    let default_ctx = Some(default_system_context());
    let (system_prompt, user_prompt) = assemble_prompt(&messages, &default_ctx);
    assert!(system_prompt.starts_with("You are in a game world."));
    assert!(system_prompt.contains("The tavern is east."));
    assert_eq!(user_prompt, "Where is the tavern?");
}

#[test]
fn prompt_assembly_sentinel_suppresses_default_context() {
    let messages = vec![
        AiMessage::no_default_system_context(),
        AiMessage::System("still forwarded".to_string()),
        AiMessage::User("hi".to_string()),
        AiMessage::User("there".to_string()),
    ];
    let default_ctx = Some(default_system_context());
    let (system_prompt, user_prompt) = assemble_prompt(&messages, &default_ctx);
    assert!(!system_prompt.contains("You are in a game world."));
    assert!(!system_prompt.contains("Forget the context."));
    assert_eq!(system_prompt, "still forwarded");
    assert_eq!(user_prompt, "hi\nthere");
}
