use real_ai::JsonValue;
use real_ai::actions::ActionPayload;
use real_ai::actions::AiActionRegistry;
use real_ai::actions::PendingAiActions;
use real_ai::context::AiSystemContextStore;
use real_ai::context::ContextGatherRequest;
use real_ai::dialogue::DialogueReceiver;
use real_ai::dialogue::DialogueRequest;
use real_ai::dialogue::DialogueRequestQueue;
use real_ai::dialogue::DialogueResponse;
use real_ai::dialogue::LocalAi;
use real_ai::dialogue::LocalAiHandle;
use real_ai::dialogue::MockAi;
use real_ai::dialogue::PromptJob;
use real_ai::dialogue::handle_dialogue_requests;
use real_ai::dialogue::poll_responses;
use real_ai::rag::AiContext;
use real_ai::rag::AiMessage;

/// A little harness that plays the host's part: it owns the world state
/// and runs the per-tick steps against a backend.
struct Harness {
    queue: DialogueRequestQueue,
    handle: LocalAiHandle,
    receivers: Vec<(u64, DialogueReceiver)>,
    contexts: Vec<(u64, AiContext)>,
    gather: ContextGatherRequest,
    store: AiSystemContextStore,
    pending: PendingAiActions,
}

impl Harness {
    fn new() -> Self {
        Harness {
            queue: DialogueRequestQueue::new(),
            handle: LocalAiHandle::new(1),
            receivers: Vec::new(),
            contexts: Vec::new(),
            gather: ContextGatherRequest::new(),
            store: AiSystemContextStore::new(),
            pending: PendingAiActions::new(),
        }
    }

    /// One tick: dispatch requests, run the backend on each job, poll the
    /// responses back onto the receivers.
    fn tick(&mut self, backend: &dyn LocalAi) {
        let jobs = handle_dialogue_requests(
            &mut self.queue,
            &mut self.handle,
            &self.receivers,
            &self.contexts,
            &mut self.gather,
            &self.store,
        );
        for job in jobs {
            let PromptJob { entity, messages, kind } = job;
            let response = match backend.prompt(&messages) {
                Ok(text) => text,
                Err(e) => format!("(ai error: {})", e),
            };
            self.handle.push_response(DialogueResponse { entity, response, kind, actions: None });
        }
        let _events = poll_responses(&mut self.handle, &mut self.receivers, &mut self.pending);
    }

    fn receiver(&self, entity: u64) -> &DialogueReceiver {
        &self.receivers.iter().find(|(e, _)| *e == entity).expect("receiver exists").1
    }
}

#[test]
fn preprogrammed_response_is_immediate() {
    let mut h = Harness::new();
    let e = 10u64;
    h.receivers.push((e, DialogueReceiver::new_with_preprogrammed("Hello, traveler")));
    h.queue.push(DialogueRequest::text(e, "ignored"));
    struct NoAi;
    impl LocalAi for NoAi {
        fn prompt(&self, _messages: &Vec<AiMessage>) -> Result<String, String> {
            panic!("no backend call expected");
        }
    }
    h.tick(&NoAi);
    let resp = h.receiver(e).last_response.clone().expect("expected response");
    assert_eq!(resp, "Hello, traveler");
}

#[test]
fn mock_ai_generates_response() {
    let mut h = Harness::new();
    let e = 11u64;
    h.receivers.push((e, DialogueReceiver::new()));
    h.queue.push(DialogueRequest::text(e, "Say hi"));
    h.tick(&MockAi {});
    let resp = h.receiver(e).last_response.clone().expect("expected response");
    assert!(resp.contains("mock: Say hi"));
}

#[test]
fn custom_backend_can_be_used() {
    struct TestAi;
    impl LocalAi for TestAi {
        fn prompt(&self, messages: &Vec<AiMessage>) -> Result<String, String> {
            // Return the first user-like message content when present
            for m in messages.iter() {
                match m {
                    AiMessage::User(content) => {
                        return Ok(format!("custom: {}", content));
                    },
                    _ => continue,
                }
            }
            Ok("custom: no user message found".to_string())
        }
    }

    let mut h = Harness::new();
    let e = 12u64;
    h.receivers.push((e, DialogueReceiver::new()));
    h.queue.push(DialogueRequest::text(e, "Ping"));
    h.tick(&TestAi);
    let resp = h.receiver(e).last_response.clone().expect("expected response");
    assert_eq!(resp, "custom: Ping");
}

#[test]
fn ai_action_block_is_parsed_and_stored() {
    struct ActionAi;
    impl LocalAi for ActionAi {
        fn prompt(&self, _messages: &Vec<AiMessage>) -> Result<String, String> {
            // Return a raw JSON action object (no fenced blocks)
            let body = r#"{"name": "spawn_entity", "params": {"prefab": "goblin", "x": 2.0}}"#;
            Ok(body.to_string())
        }
    }

    let mut h = Harness::new();
    let e = 13u64;
    h.receivers.push((e, DialogueReceiver::new()));

    // Register a handler token under "spawn_entity"; the host maps it to
    // the logic that spawns a marker.
    let mut registry = AiActionRegistry::new();
    registry.register("spawn_entity", 7);

    h.queue.push(DialogueRequest::text(e, "Do action"));
    h.tick(&ActionAi);

    // Check receiver has parsed actions and stored last_response (JSON string)
    let receiver = h.receiver(e);
    assert_eq!(
        receiver.last_response.as_deref(),
        Some(r#"{"name": "spawn_entity", "params": {"prefab": "goblin", "x": 2.0}}"#)
    );
    assert_eq!(receiver.actions.len(), 1);
    let action = &receiver.actions[0];
    assert_eq!(action.name, "spawn_entity");
    assert_eq!(
        real_ai::json_get(&action.params, "prefab"),
        Some(&JsonValue::Str("goblin".to_string()))
    );

    // One dispatch pass runs the registered handler exactly once.
    let runs = registry.run_pending(&mut h.pending);
    let mut spawned = 0;
    for (token, evt) in runs.iter() {
        assert_eq!(*token, 7);
        assert_eq!(evt.action.name, "spawn_entity");
        spawned += 1;
    }
    assert_eq!(spawned, 1, "expected a handler to spawn TestSpawned");
    // The pass drained the queue: a second pass runs nothing.
    assert_eq!(registry.run_pending(&mut h.pending).len(), 0);
}

#[test]
fn retrieval_augmented_ai_includes_context_in_prompt() {
    struct EchoAi;
    impl LocalAi for EchoAi {
        fn prompt(&self, messages: &Vec<AiMessage>) -> Result<String, String> {
            let combined = messages
                .iter()
                .map(|m| format!("{:?}", m))
                .collect::<Vec<_>>()
                .join("\n");
            Ok(format!("echo: {}", combined))
        }
    }

    let mut h = Harness::new();
    let e = 14u64;
    h.receivers.push((e, DialogueReceiver::new()));
    let mut context = AiContext::new();
    context.add_context("The tavern is to the east, full of noisy patrons.");
    context.add_context("A lantern hangs above the doorway.");
    h.contexts.push((e, context));

    h.queue.push(DialogueRequest::text(e, "Where is the tavern?"));
    h.tick(&EchoAi);
    let resp = h.receiver(e).last_response.clone().expect("expected response");
    assert!(resp.contains("tavern"));
    assert!(resp.contains("lantern"));
}

#[test]
fn requests_wait_for_backend_and_keep_order() {
    // Scenario: no backend loaded; three requests for distinct entities.
    let mut h = Harness::new();
    h.handle = LocalAiHandle::new_empty();
    for e in [21u64, 22, 23] {
        h.receivers.push((e, DialogueReceiver::new()));
        h.queue.push(DialogueRequest::text(e, &format!("hello {}", e)));
    }
    struct NoAi;
    impl LocalAi for NoAi {
        fn prompt(&self, _messages: &Vec<AiMessage>) -> Result<String, String> {
            panic!("no backend call expected");
        }
    }
    h.tick(&NoAi);
    // Requests stayed queued, nothing answered.
    assert_eq!(h.queue.len(), 3);
    for e in [21u64, 22, 23] {
        assert!(h.receiver(e).last_response.is_none());
    }
    // The backend loads; the next tick answers all three in order.
    h.handle.backend = Some(1);
    struct OrderAi(std::cell::Cell<u32>);
    impl LocalAi for OrderAi {
        fn prompt(&self, _messages: &Vec<AiMessage>) -> Result<String, String> {
            let n = self.0.get() + 1;
            self.0.set(n);
            Ok(format!("answer {}", n))
        }
    }
    h.tick(&OrderAi(std::cell::Cell::new(0)));
    assert_eq!(h.queue.len(), 0);
    assert_eq!(h.receiver(21).last_response.as_deref(), Some("answer 1"));
    assert_eq!(h.receiver(22).last_response.as_deref(), Some("answer 2"));
    assert_eq!(h.receiver(23).last_response.as_deref(), Some("answer 3"));
}

#[test]
fn typed_response_takes_declared_action_name() {
    // Scenario: a typed request receiving raw JSON takes the declared
    // type-derived action name, not any name embedded in the JSON.
    let mut h = Harness::new();
    let e = 31u64;
    h.receivers.push((e, DialogueReceiver::new()));
    h.queue.push(DialogueRequest::typed(
        e,
        "make a player".to_string(),
        "JSON object with fields:\n{\n  \"name\": <string>,\n  \"x\": <integer>,\n  \"y\": <integer>\n}".to_string(),
        "spawn_action".to_string(),
    ));
    struct RawAi;
    impl LocalAi for RawAi {
        fn prompt(&self, _messages: &Vec<AiMessage>) -> Result<String, String> {
            Ok(r#"{"name":"player","x":10,"y":20}"#.to_string())
        }
    }
    h.tick(&RawAi);
    let receiver = h.receiver(e);
    assert_eq!(receiver.actions.len(), 1);
    assert_eq!(receiver.actions[0].name, "spawn_action");
    assert_eq!(
        real_ai::json_get(&receiver.actions[0].params, "name"),
        Some(&JsonValue::Str("player".to_string()))
    );
    assert_eq!(h.pending.actions.len(), 1);
    assert_eq!(h.pending.actions[0].action.name, "spawn_action");
    assert_eq!(h.pending.actions[0].entity, e);
}

#[test]
fn typed_array_response_yields_one_action_per_element() {
    let mut h = Harness::new();
    let e = 32u64;
    h.receivers.push((e, DialogueReceiver::new()));
    h.queue.push(DialogueRequest::typed(
        e,
        "two moves".to_string(),
        "schema".to_string(),
        "move_action".to_string(),
    ));
    struct ArrAi;
    impl LocalAi for ArrAi {
        fn prompt(&self, _messages: &Vec<AiMessage>) -> Result<String, String> {
            Ok(r#"[{"x":1},{"x":2}]"#.to_string())
        }
    }
    h.tick(&ArrAi);
    let receiver = h.receiver(e);
    assert_eq!(receiver.actions.len(), 2);
    assert_eq!(receiver.actions[0].name, "move_action");
    assert_eq!(receiver.actions[1].name, "move_action");
    assert_eq!(
        real_ai::json_get(&receiver.actions[1].params, "x"),
        Some(&JsonValue::Number("2".to_string()))
    );
}

#[test]
fn backend_error_becomes_placeholder_response() {
    struct FailAi;
    impl LocalAi for FailAi {
        fn prompt(&self, _messages: &Vec<AiMessage>) -> Result<String, String> {
            Err("weights missing".to_string())
        }
    }
    let mut h = Harness::new();
    let e = 33u64;
    h.receivers.push((e, DialogueReceiver::new()));
    h.queue.push(DialogueRequest::text(e, "anything"));
    h.tick(&FailAi);
    assert_eq!(h.receiver(e).last_response.as_deref(), Some("(ai error: weights missing)"));
    assert_eq!(h.receiver(e).actions.len(), 0);
}

#[test]
fn action_payload_round_trips_through_json() {
    // Round-trip: a payload built via the fluent builder, serialized to
    // JSON, then parsed back through the extraction path, is equivalent.
    let payload = ActionPayload::new("spawn_action")
        .with_param("name", JsonValue::Str("player".to_string()))
        .with_param("x", JsonValue::Number("10".to_string()))
        .with_param("y", JsonValue::Number("20".to_string()));
    let text = payload.params.to_json_text();
    let back = real_ai::parse::extract_and_parse_json(&text).expect("parses back");
    assert_eq!(back, payload.params);
    assert_eq!(
        real_ai::json_get(&back, "name"),
        Some(&JsonValue::Str("player".to_string()))
    );
    // A second write of the same parameter replaces, not duplicates.
    let replaced = payload.with_param("x", JsonValue::Number("11".to_string()));
    let text2 = replaced.params.to_json_text();
    assert_eq!(text2, r#"{"name":"player","x":11,"y":20}"#);
}

#[test]
fn unregistered_actions_are_silently_dropped() {
    let mut pending = PendingAiActions::new();
    pending.actions.push(real_ai::actions::AiActionEvent {
        entity: 40,
        action: ActionPayload::new("nobody_home"),
    });
    let registry = AiActionRegistry::new();
    let runs = registry.run_pending(&mut pending);
    assert_eq!(runs.len(), 0);
    assert_eq!(pending.actions.len(), 0);
}

#[test]
fn registry_replaces_handler_under_same_name() {
    let mut registry = AiActionRegistry::new();
    registry.register("jump", 1);
    registry.register("wave", 2);
    registry.register("jump", 3);
    assert_eq!(registry.get("jump"), Some(3));
    assert_eq!(registry.get("wave"), Some(2));
    assert_eq!(registry.get("sing"), None);
}

#[test]
fn ask_text_excludes_context_with_sentinel() {
    // A no-context request carries the suppress-context sentinel and no
    // gathered context, even when the entity has some.
    let mut h = Harness::new();
    let e = 50u64;
    h.receivers.push((e, DialogueReceiver::new()));
    let mut context = AiContext::new();
    context.add_context("secret lore");
    h.contexts.push((e, context));
    h.queue.push(DialogueRequest::text_no_context(e, "plain please"));
    struct CaptureAi(std::cell::RefCell<Vec<String>>);
    impl LocalAi for CaptureAi {
        fn prompt(&self, messages: &Vec<AiMessage>) -> Result<String, String> {
            for m in messages.iter() {
                self.0.borrow_mut().push(format!("{:?}", m));
            }
            Ok("ok".to_string())
        }
    }
    let capture = CaptureAi(std::cell::RefCell::new(Vec::new()));
    h.tick(&capture);
    let seen = capture.0.borrow().join("\n");
    assert!(seen.contains("Forget the context."));
    assert!(!seen.contains("secret lore"));
}

#[test]
fn prompt_typed_action_queues_under_declared_name() {
    struct RawAi;
    impl LocalAi for RawAi {
        fn prompt(&self, _messages: &Vec<AiMessage>) -> Result<String, String> {
            Ok("Sure: {\"name\":\"player\",\"x\":10,\"y\":20}".to_string())
        }
    }
    let mut pending = PendingAiActions::new();
    let result = real_ai::actions::prompt_typed_action(
        &RawAi,
        "I want to create an entity named 'player' at position x=10 and y=20",
        "JSON object with fields:\n{\n  \"name\": <string>,\n  \"x\": <integer>,\n  \"y\": <integer>\n}",
        "spawn_action",
        77,
        &mut pending,
    );
    let (parsed, _response) = result.expect("should parse");
    assert_eq!(
        real_ai::json_get(&parsed, "name"),
        Some(&JsonValue::Str("player".to_string()))
    );
    assert_eq!(pending.actions.len(), 1, "Should have queued exactly one action");
    assert_eq!(pending.actions[0].action.name, "spawn_action");
    assert_eq!(pending.actions[0].entity, 77);
}

#[test]
fn failing_backend_queues_nothing_for_typed_action() {
    struct FailAi;
    impl LocalAi for FailAi {
        fn prompt(&self, _messages: &Vec<AiMessage>) -> Result<String, String> {
            Err("backend offline".to_string())
        }
    }
    let mut pending = PendingAiActions::new();
    let result = real_ai::actions::prompt_typed_action(
        &FailAi,
        "anything",
        "schema",
        "spawn_action",
        78,
        &mut pending,
    );
    assert_eq!(result.err().as_deref(), Some("backend offline"));
    assert!(pending.actions.is_empty());
}
