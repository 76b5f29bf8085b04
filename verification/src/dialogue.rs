//! The request/response pipeline: typed and freeform dialogue requests, the
//! FIFO request queue, the backend handle with its response buffer, and the
//! per-tick decision steps that drive them.
use vstd::prelude::*;

use crate::actions::ActionPayload;
use crate::actions::ActionPayloadView;
use crate::actions::AiActionEvent;
use crate::actions::AiActionEventView;
use crate::actions::PendingAiActions;
use crate::actions::sp_obj_lookup;
use crate::actions::sp_value_to_action;
use crate::json::Jv;
use crate::json::JsonValue;
use crate::json::sp_parse_json;
use crate::parse::extract_and_parse_json;
use crate::parse::sp_extract_and_parse;
use crate::parse::sp_find;
use crate::rag::AiContext;
use crate::rag::AiMessage;
use crate::rag::AiMessageView;
use crate::rag::sp_no_default_context;

verus! {

broadcast use vstd::std_specs::vec::group_vec_axioms;

/// First entry under `key`, if any.
pub open spec fn sp_assoc<V>(entries: Seq<(u64, V)>, key: u64) -> Option<V>
    decreases entries.len(),
{
    if entries.len() == 0 {
        None
    } else if entries[0].0 == key {
        Some(entries[0].1)
    } else {
        sp_assoc(entries.drop_first(), key)
    }
}

/// When `key` first occurs at position `i`, the lookup finds that entry.
pub proof fn lemma_assoc_at<V>(entries: Seq<(u64, V)>, key: u64, i: int)
    requires
        0 <= i < entries.len(),
        forall|k: int| 0 <= k < i ==> (#[trigger] entries[k]).0 != key,
        entries[i].0 == key,
    ensures
        sp_assoc(entries, key) == Some(entries[i].1),
    decreases i,
{
    if i > 0 {
        assert(forall|k: int|
            0 <= k < i - 1 ==> (#[trigger] entries.drop_first()[k]) == entries[k + 1]);
        lemma_assoc_at(entries.drop_first(), key, i - 1);
    }
}

/// When `key` occurs nowhere, the lookup finds nothing.
pub proof fn lemma_assoc_none<V>(entries: Seq<(u64, V)>, key: u64)
    requires
        forall|k: int| 0 <= k < entries.len() ==> (#[trigger] entries[k]).0 != key,
    ensures
        sp_assoc(entries, key) is None,
    decreases entries.len(),
{
    if entries.len() > 0 {
        assert(forall|k: int|
            0 <= k < entries.drop_first().len() ==> (#[trigger] entries.drop_first()[k])
                == entries[k + 1]);
        lemma_assoc_none(entries.drop_first(), key);
    }
}

/// With no entry found, no entry carries the key.
pub proof fn lemma_assoc_none_all<V>(entries: Seq<(u64, V)>, key: u64)
    requires
        sp_assoc(entries, key) is None,
    ensures
        forall|k: int| 0 <= k < entries.len() ==> (#[trigger] entries[k]).0 != key,
    decreases entries.len(),
{
    if entries.len() > 0 {
        lemma_assoc_none_all(entries.drop_first(), key);
        assert(forall|k: int|
            1 <= k < entries.len() ==> (#[trigger] entries[k]) == entries.drop_first()[k - 1]);
    }
}

/// Position of the first entry under `key`, if any.
pub fn find_entry_index<V>(entries: &Vec<(u64, V)>, key: u64) -> (r: Option<usize>)
    ensures
        r matches Some(i) ==> i < entries@.len() && entries@[i as int].0 == key && (forall|k: int|
            0 <= k < i ==> (#[trigger] entries@[k]).0 != key) && sp_assoc(entries@, key) == Some(
            entries@[i as int].1,
        ),
        r is None ==> sp_assoc(entries@, key) is None,
{
    let n = entries.len();
    let mut i: usize = 0;
    while i < n
        invariant
            i <= n,
            n == entries@.len(),
            forall|k: int| 0 <= k < i ==> (#[trigger] entries@[k]).0 != key,
        decreases n - i,
    {
        if entries[i].0 == key {
            proof {
                lemma_assoc_at(entries@, key, i as int);
            }
            return Some(i);
        }
        i = i + 1;
    }
    proof {
        lemma_assoc_none(entries@, key);
    }
    None
}

/// Model of a [`DialogueRequestKind`].
#[verifier::ext_equal]
pub ghost enum DialogueRequestKindView {
    Text { message: Seq<char>, include_context: bool },
    Typed { user_message: Seq<char>, schema_description: Seq<char>, action_name: Seq<char> },
}

/// What a request asks for: plain text, with or without gathered
/// context, or a typed answer matching a schema.
#[derive(Debug)]
pub enum DialogueRequestKind {
    Text { message: String, include_context: bool },
    Typed { user_message: String, schema_description: String, action_name: String },
}

impl View for DialogueRequestKind {
    type V = DialogueRequestKindView;

    open spec fn view(&self) -> DialogueRequestKindView {
        match self {
            DialogueRequestKind::Text { message, include_context } => DialogueRequestKindView::Text {
                message: message@,
                include_context: *include_context,
            },
            DialogueRequestKind::Typed {
                user_message,
                schema_description,
                action_name,
            } => DialogueRequestKindView::Typed {
                user_message: user_message@,
                schema_description: schema_description@,
                action_name: action_name@,
            },
        }
    }
}

impl Clone for DialogueRequestKind {
    /// Cloning preserves the model of the kind.
    fn clone(&self) -> (r: Self)
        ensures
            r@ == self@,
    {
        match self {
            DialogueRequestKind::Text { message, include_context } => DialogueRequestKind::Text {
                message: message.clone(),
                include_context: *include_context,
            },
            DialogueRequestKind::Typed {
                user_message,
                schema_description,
                action_name,
            } => DialogueRequestKind::Typed {
                user_message: user_message.clone(),
                schema_description: schema_description.clone(),
                action_name: action_name.clone(),
            },
        }
    }
}

/// Whether a request wants gathered context: text requests carry a flag,
/// typed requests always do.
pub open spec fn sp_kind_include_context(k: DialogueRequestKindView) -> bool {
    match k {
        DialogueRequestKindView::Text { include_context, .. } => include_context,
        DialogueRequestKindView::Typed { .. } => true,
    }
}

/// The user-facing message of a request.
pub open spec fn sp_kind_user_message(k: DialogueRequestKindView) -> Seq<char> {
    match k {
        DialogueRequestKindView::Text { message, .. } => message,
        DialogueRequestKindView::Typed { user_message, .. } => user_message,
    }
}

impl DialogueRequestKind {
    /// A text request that includes gathered context.
    pub fn text(message: String) -> (r: Self)
        ensures
            r@ == (DialogueRequestKindView::Text { message: message@, include_context: true }),
    {
        DialogueRequestKind::Text { message, include_context: true }
    }

    /// A typed request: the schema description and forced action name
    /// are given alongside the user message.
    pub fn typed(user_message: String, schema_description: String, action_name: String) -> (r: Self)
        ensures
            r@ == (DialogueRequestKindView::Typed {
                user_message: user_message@,
                schema_description: schema_description@,
                action_name: action_name@,
            }),
    {
        DialogueRequestKind::Typed { user_message, schema_description, action_name }
    }

    /// The user-facing message.
    pub fn as_user_message(&self) -> (r: &str)
        ensures
            r@ == sp_kind_user_message(self@),
    {
        match self {
            DialogueRequestKind::Text { message, .. } => message.as_str(),
            DialogueRequestKind::Typed { user_message, .. } => user_message.as_str(),
        }
    }

    /// Whether gathered context is wanted.
    pub fn include_context(&self) -> (r: bool)
        ensures
            r == sp_kind_include_context(self@),
    {
        match self {
            DialogueRequestKind::Text { include_context, .. } => *include_context,
            DialogueRequestKind::Typed { .. } => true,
        }
    }
}

/// Model of a [`DialogueRequest`].
#[verifier::ext_equal]
pub ghost struct DialogueRequestView {
    pub entity: u64,
    pub kind: DialogueRequestKindView,
}

/// One dialogue request, bound for the entity that will receive the
/// response.
#[derive(Debug)]
pub struct DialogueRequest {
    pub entity: u64,
    pub kind: DialogueRequestKind,
}

impl View for DialogueRequest {
    type V = DialogueRequestView;

    open spec fn view(&self) -> DialogueRequestView {
        DialogueRequestView { entity: self.entity, kind: self.kind@ }
    }
}

impl Clone for DialogueRequest {
    /// Cloning preserves the model of the request.
    fn clone(&self) -> (r: Self)
        ensures
            r@ == self@,
    {
        DialogueRequest { entity: self.entity, kind: self.kind.clone() }
    }
}

impl DialogueRequest {
    /// A text request with gathered context included.
    pub fn text(entity: u64, prompt: &str) -> (r: Self)
        ensures
            r@ == (DialogueRequestView {
                entity,
                kind: DialogueRequestKindView::Text { message: prompt@, include_context: true },
            }),
    {
        DialogueRequest {
            entity,
            kind: DialogueRequestKind::Text { message: prompt.to_owned(), include_context: true },
        }
    }

    /// A text request that will not include gathered context.
    pub fn text_no_context(entity: u64, prompt: &str) -> (r: Self)
        ensures
            r@ == (DialogueRequestView {
                entity,
                kind: DialogueRequestKindView::Text { message: prompt@, include_context: false },
            }),
    {
        DialogueRequest {
            entity,
            kind: DialogueRequestKind::Text { message: prompt.to_owned(), include_context: false },
        }
    }

    /// A typed request with its schema description and action name.
    pub fn typed(
        entity: u64,
        user_message: String,
        schema_description: String,
        action_name: String,
    ) -> (r: Self)
        ensures
            r@ == (DialogueRequestView {
                entity,
                kind: DialogueRequestKindView::Typed {
                    user_message: user_message@,
                    schema_description: schema_description@,
                    action_name: action_name@,
                },
            }),
    {
        DialogueRequest {
            entity,
            kind: DialogueRequestKind::typed(user_message, schema_description, action_name),
        }
    }
}

/// Model of a [`DialogueResponse`].
#[verifier::ext_equal]
pub ghost struct DialogueResponseView {
    pub entity: u64,
    pub response: Seq<char>,
    pub kind: DialogueRequestKindView,
    pub actions: Option<Seq<ActionPayloadView>>,
}

/// One completed response, as produced by the backend call or a
/// preprogrammed short circuit.
#[derive(Debug)]
pub struct DialogueResponse {
    pub entity: u64,
    pub response: String,
    pub kind: DialogueRequestKind,
    /// Pre-parsed actions, set when the response came from a typed call.
    pub actions: Option<Vec<ActionPayload>>,
}

impl View for DialogueResponse {
    type V = DialogueResponseView;

    open spec fn view(&self) -> DialogueResponseView {
        DialogueResponseView {
            entity: self.entity,
            response: self.response@,
            kind: self.kind@,
            actions: match self.actions {
                Some(acts) => Some(Seq::new(acts@.len(), |i: int| acts@[i]@)),
                None => None,
            },
        }
    }
}

/// Model of a [`DialogueReceiver`].
#[verifier::ext_equal]
pub ghost struct DialogueReceiverView {
    pub preprogrammed: Option<Seq<char>>,
    pub last_response: Option<Seq<char>>,
    pub actions: Seq<ActionPayloadView>,
}

/// Per-entity dialogue state: an optional preprogrammed answer, the last
/// response text, and the actions parsed from it.
#[derive(Debug)]
pub struct DialogueReceiver {
    pub preprogrammed: Option<String>,
    pub last_response: Option<String>,
    pub actions: Vec<ActionPayload>,
}

impl View for DialogueReceiver {
    type V = DialogueReceiverView;

    open spec fn view(&self) -> DialogueReceiverView {
        DialogueReceiverView {
            preprogrammed: match self.preprogrammed {
                Some(p) => Some(p@),
                None => None,
            },
            last_response: match self.last_response {
                Some(p) => Some(p@),
                None => None,
            },
            actions: Seq::new(self.actions@.len(), |i: int| self.actions@[i]@),
        }
    }
}

impl DialogueReceiver {
    /// A receiver with no preprogrammed answer and no history.
    pub fn new() -> (r: Self)
        ensures
            r@ == (DialogueReceiverView {
                preprogrammed: None,
                last_response: None,
                actions: Seq::empty(),
            }),
    {
        let r = DialogueReceiver { preprogrammed: None, last_response: None, actions: Vec::new() };
        proof {
            assert(r@.actions =~= Seq::<ActionPayloadView>::empty());
            assert(r@ =~= (DialogueReceiverView {
                preprogrammed: None,
                last_response: None,
                actions: Seq::empty(),
            }));
        }
        r
    }

    /// A receiver that always answers with the given text, never calling
    /// the backend.
    pub fn new_with_preprogrammed(response: &str) -> (r: Self)
        ensures
            r@ == (DialogueReceiverView {
                preprogrammed: Some(response@),
                last_response: None,
                actions: Seq::empty(),
            }),
    {
        let r = DialogueReceiver {
            preprogrammed: Some(response.to_owned()),
            last_response: None,
            actions: Vec::new(),
        };
        proof {
            assert(r@.actions =~= Seq::<ActionPayloadView>::empty());
            assert(r@ =~= (DialogueReceiverView {
                preprogrammed: Some(response@),
                last_response: None,
                actions: Seq::empty(),
            }));
        }
        r
    }
}

impl Default for DialogueReceiver {
    /// The default receiver is empty.
    fn default() -> (r: Self)
        ensures
            r@ == (DialogueReceiverView {
                preprogrammed: None,
                last_response: None,
                actions: Seq::empty(),
            }),
    {
        DialogueReceiver::new()
    }
}

/// FIFO queue of outgoing dialogue requests.
#[derive(Debug)]
pub struct DialogueRequestQueue {
    queue: std::collections::VecDeque<DialogueRequest>,
}

impl View for DialogueRequestQueue {
    type V = Seq<DialogueRequestView>;

    closed spec fn view(&self) -> Seq<DialogueRequestView> {
        Seq::new(self.queue@.len(), |i: int| self.queue@[i]@)
    }
}

impl DialogueRequestQueue {
    /// Fresh, empty queue.
    pub fn new() -> (r: Self)
        ensures
            r@ == Seq::<DialogueRequestView>::empty(),
    {
        let r = DialogueRequestQueue { queue: std::collections::VecDeque::new() };
        proof {
            assert(r@ =~= Seq::<DialogueRequestView>::empty());
        }
        r
    }

    /// Number of queued requests.
    pub fn len(&self) -> (r: usize)
        ensures
            r == self@.len(),
    {
        self.queue.len()
    }

    /// Enqueue a request at the back.
    pub fn push(&mut self, request: DialogueRequest)
        ensures
            final(self)@ == old(self)@ + seq![request@],
    {
        let ghost rv = request@;
        self.queue.push_back(request);
        proof {
            assert(self@ =~= old(self)@ + seq![rv]);
        }
    }

    /// Dequeue the front request, if any.
    pub fn pop(&mut self) -> (r: Option<DialogueRequest>)
        ensures
            old(self)@.len() == 0 ==> r is None && final(self)@ == old(self)@,
            old(self)@.len() > 0 ==> (r matches Some(req) && req@ == old(self)@[0]
                && final(self)@ == old(self)@.drop_first()),
    {
        let r = self.queue.pop_front();
        proof {
            if old(self)@.len() > 0 {
                assert(self@ =~= old(self)@.drop_first());
            } else {
                assert(self@ =~= old(self)@);
            }
        }
        r
    }
}

impl Default for DialogueRequestQueue {
    /// The default queue is empty.
    fn default() -> (r: Self)
        ensures
            r@ == Seq::<DialogueRequestView>::empty(),
    {
        DialogueRequestQueue::new()
    }
}

} // verus!

verus! {

/// Model of a prompt list.
pub open spec fn msgs_view(messages: Seq<AiMessage>) -> Seq<AiMessageView> {
    Seq::new(messages.len(), |i: int| messages[i]@)
}

/// A backend over messages. Implementations answer a prompt with text;
/// what they answer is up to them, so nothing is promised of the result.
pub trait LocalAi {
    /// Turn a list of messages into response text.
    fn prompt(&self, messages: &Vec<AiMessage>) -> Result<String, String>;

    /// Produce a typed JSON value for the given schema. The default
    /// implementation prompts for text and extracts JSON from it.
    fn prompt_typed(&self, messages: &Vec<AiMessage>, schema_description: &str) -> Result<
        JsonValue,
        String,
    > {
        match self.prompt(messages) {
            Ok(text) => extract_and_parse_json(text.as_str()),
            Err(e) => Err(e),
        }
    }
}

/// A message's text as the mock backend reads it: the payload's name for
/// payload messages, the carried text otherwise.
pub open spec fn sp_message_text(m: AiMessageView) -> Seq<char> {
    match m {
        AiMessageView::System(t) => t,
        AiMessageView::User(t) => t,
        AiMessageView::Assistant(t) => t,
        AiMessageView::Payload(p) => p.name,
    }
}

/// `t` cut at its first double quote.
pub open spec fn sp_cut_at_quote(t: Seq<char>) -> Seq<char> {
    let f = sp_find(t, seq!['"'], 0);
    if f >= 0 {
        t.subrange(0, f)
    } else {
        t
    }
}

/// What the mock backend answers: `mock: ` and the first message's text,
/// cut at its first double quote.
pub open spec fn sp_mock_response(messages: Seq<AiMessageView>) -> Seq<char> {
    if messages.len() == 0 {
        "mock: "@
    } else {
        "mock: "@ + sp_cut_at_quote(sp_message_text(messages[0]))
    }
}

/// A tiny built-in backend for tests and examples: it echoes the first
/// message's text.
#[derive(Debug)]
pub struct MockAi {}

impl MockAi {
    /// The mock answer for a message list.
    pub fn mock_prompt(&self, messages: &Vec<AiMessage>) -> (r: String)
        ensures
            r@ == sp_mock_response(msgs_view(messages@)),
    {
        let mut out = crate::json::str_to_chars("mock: ");
        if messages.len() > 0 {
            let text: &String = match &messages[0] {
                AiMessage::System(t) => t,
                AiMessage::User(t) => t,
                AiMessage::Assistant(t) => t,
                AiMessage::Payload(p) => &p.name,
            };
            let chars = crate::json::str_to_chars(text.as_str());
            let mut quote: Vec<char> = Vec::new();
            quote.push('"');
            proof {
                assert(quote@ =~= seq!['"']);
            }
            let cut = match crate::parse::find_first(&chars, &quote) {
                Some(f) => crate::json::vec_slice(&chars, 0, f),
                None => chars,
            };
            crate::parse::vec_extend(&mut out, &cut);
            proof {
                assert(msgs_view(messages@)[0] == messages@[0]@);
                assert(out@ =~= sp_mock_response(msgs_view(messages@)));
            }
        } else {
            proof {
                assert(out@ =~= sp_mock_response(msgs_view(messages@)));
            }
        }
        crate::json::chars_to_string(&out)
    }
}

impl LocalAi for MockAi {
    fn prompt(&self, messages: &Vec<AiMessage>) -> Result<String, String> {
        Ok(self.mock_prompt(messages))
    }
}

/// Model of a [`PromptJob`].
#[verifier::ext_equal]
pub ghost struct PromptJobView {
    pub entity: u64,
    pub messages: Seq<AiMessageView>,
    pub kind: DialogueRequestKindView,
}

/// One backend call to make: the assembled messages for one request. The
/// host performs the call off the tick and hands the result back as a
/// [`DialogueResponse`].
#[derive(Debug)]
pub struct PromptJob {
    pub entity: u64,
    pub messages: Vec<AiMessage>,
    pub kind: DialogueRequestKind,
}

impl View for PromptJob {
    type V = PromptJobView;

    open spec fn view(&self) -> PromptJobView {
        PromptJobView { entity: self.entity, messages: msgs_view(self.messages@), kind: self.kind@ }
    }
}

/// Model of a [`LocalAiHandle`].
#[verifier::ext_equal]
pub ghost struct LocalAiHandleView {
    pub backend: Option<u64>,
    pub responses: Seq<DialogueResponseView>,
}

/// The shared backend handle: which backend is loaded, if any, and the
/// FIFO buffer of completed responses waiting to be polled.
#[derive(Debug)]
pub struct LocalAiHandle {
    /// Token of the loaded backend; the host maps it to the real one.
    pub backend: Option<u64>,
    responses: Vec<DialogueResponse>,
}

impl View for LocalAiHandle {
    type V = LocalAiHandleView;

    closed spec fn view(&self) -> LocalAiHandleView {
        LocalAiHandleView {
            backend: self.backend,
            responses: Seq::new(self.responses@.len(), |i: int| self.responses@[i]@),
        }
    }
}

impl LocalAiHandle {
    /// A handle with a backend ready to use.
    pub fn new(backend: u64) -> (r: Self)
        ensures
            r@.backend == Some(backend),
            r@.responses == Seq::<DialogueResponseView>::empty(),
    {
        let r = LocalAiHandle { backend: Some(backend), responses: Vec::new() };
        proof {
            assert(r@.responses =~= Seq::<DialogueResponseView>::empty());
        }
        r
    }

    /// A handle without a backend yet, for asynchronous loading.
    pub fn new_empty() -> (r: Self)
        ensures
            r@.backend is None,
            r@.responses == Seq::<DialogueResponseView>::empty(),
    {
        let r = LocalAiHandle { backend: None, responses: Vec::new() };
        proof {
            assert(r@.responses =~= Seq::<DialogueResponseView>::empty());
        }
        r
    }

    /// Whether a backend is loaded.
    pub fn is_loaded(&self) -> (r: bool)
        ensures
            r == (self@.backend is Some),
    {
        self.backend.is_some()
    }

    /// The loaded backend's token, if any.
    pub fn get_backend(&self) -> (r: Option<u64>)
        ensures
            r == self@.backend,
    {
        self.backend
    }

    /// Append one completed response to the buffer.
    pub fn push_response(&mut self, response: DialogueResponse)
        ensures
            final(self)@.backend == old(self)@.backend,
            final(self)@.responses == old(self)@.responses + seq![response@],
    {
        let ghost rv = response@;
        self.responses.push(response);
        proof {
            assert(self@.responses =~= old(self)@.responses + seq![rv]);
        }
    }

    /// Take the oldest buffered response, if any.
    pub fn try_recv(&mut self) -> (r: Option<DialogueResponse>)
        ensures
            final(self)@.backend == old(self)@.backend,
            old(self)@.responses.len() == 0 ==> (r is None && final(self)@ == old(self)@),
            old(self)@.responses.len() > 0 ==> (r matches Some(resp) && resp@ == old(
                self,
            )@.responses[0] && final(self)@.responses == old(self)@.responses.drop_first()),
    {
        if self.responses.len() == 0 {
            proof {
                assert(self@ =~= old(self)@);
            }
            None
        } else {
            let resp = self.responses.remove(0);
            proof {
                assert(self@.responses =~= old(self)@.responses.drop_first());
            }
            Some(resp)
        }
    }
}

} // verus!

verus! {

/// A single optional value as a sequence.
pub open spec fn opt_seq<T>(o: Option<T>) -> Seq<T> {
    match o {
        Some(x) => seq![x],
        None => Seq::empty(),
    }
}

/// The messages assembled for one request: the suppress-context sentinel
/// when context is excluded, the gathered context when included and
/// present, and the user message last.
pub open spec fn sp_messages_for(
    kind: DialogueRequestKindView,
    ctx: Option<Seq<AiMessageView>>,
) -> Seq<AiMessageView> {
    let inc = sp_kind_include_context(kind);
    let pre: Seq<AiMessageView> = if !inc {
        seq![AiMessageView::System(sp_no_default_context())]
    } else {
        Seq::empty()
    };
    let ctx_part: Seq<AiMessageView> = if inc {
        match ctx {
            Some(c) => c,
            None => Seq::empty(),
        }
    } else {
        Seq::empty()
    };
    pre + ctx_part + seq![AiMessageView::User(sp_kind_user_message(kind))]
}

/// Assemble the messages for one request from its kind and the entity's
/// context, if any.
pub fn build_messages(kind: &DialogueRequestKind, ctx: Option<&AiContext>) -> (r: Vec<AiMessage>)
    ensures
        msgs_view(r@) == sp_messages_for(
            kind@,
            match ctx {
                Some(c) => Some(c@),
                None => None,
            },
        ),
{
    let mut out: Vec<AiMessage> = Vec::new();
    let inc = kind.include_context();
    if !inc {
        out.push(AiMessage::no_default_system_context());
    }
    if inc {
        match ctx {
            Some(c) => {
                let msgs = c.messages();
                let n = msgs.len();
                let mut i: usize = 0;
                while i < n
                    invariant
                        i <= n,
                        n == msgs@.len(),
                        n == c@.len(),
                        forall|k: int| 0 <= k < n ==> (#[trigger] msgs@[k])@ == c@[k],
                        out@.len() == i,
                        forall|k: int| 0 <= k < i ==> (#[trigger] out@[k])@ == c@[k],
                    decreases n - i,
                {
                    out.push(msgs[i].clone());
                    i = i + 1;
                }
            },
            None => {},
        }
    }
    out.push(AiMessage::user(kind.as_user_message()));
    proof {
        assert(msgs_view(out@) =~= sp_messages_for(
            kind@,
            match ctx {
                Some(c) => Some(c@),
                None => None,
            },
        ));
    }
    out
}

/// What one request becomes: an immediate preprogrammed response, or a
/// prompt job with possibly a gather signal.
#[verifier::ext_equal]
pub ghost struct RequestStepView {
    pub response: Option<DialogueResponseView>,
    pub job: Option<PromptJobView>,
    pub gather: Option<u64>,
}

/// The decision for one request. A receiver with a preprogrammed answer
/// short-circuits; otherwise the request becomes a prompt job, and a
/// gather is signalled when context is wanted, gather operations exist,
/// and the entity has none yet.
pub open spec fn sp_request_step(
    req: DialogueRequestView,
    receivers: Seq<(u64, DialogueReceiver)>,
    contexts: Seq<(u64, AiContext)>,
    store_nonempty: bool,
) -> RequestStepView {
    let pre = match sp_assoc(receivers, req.entity) {
        Some(r) => r.preprogrammed,
        None => None,
    };
    match pre {
        Some(p) => RequestStepView {
            response: Some(
                DialogueResponseView {
                    entity: req.entity,
                    response: p@,
                    kind: req.kind,
                    actions: None,
                },
            ),
            job: None,
            gather: None,
        },
        None => {
            let inc = sp_kind_include_context(req.kind);
            let ctx = sp_assoc(contexts, req.entity);
            let ctxv = match ctx {
                Some(c) => Some(c@),
                None => None,
            };
            RequestStepView {
                response: None,
                job: Some(
                    PromptJobView {
                        entity: req.entity,
                        messages: sp_messages_for(req.kind, ctxv),
                        kind: req.kind,
                    },
                ),
                gather: if inc && store_nonempty && ctx is None {
                    Some(req.entity)
                } else {
                    None
                },
            }
        },
    }
}

/// What a whole queue becomes, front to back.
#[verifier::ext_equal]
pub ghost struct HandleOutView {
    pub responses: Seq<DialogueResponseView>,
    pub jobs: Seq<PromptJobView>,
    pub gathers: Seq<u64>,
}

/// The decisions for `reqs[i..]`, concatenated in order.
pub open spec fn sp_handle_requests(
    reqs: Seq<DialogueRequestView>,
    receivers: Seq<(u64, DialogueReceiver)>,
    contexts: Seq<(u64, AiContext)>,
    store_nonempty: bool,
    i: int,
) -> HandleOutView
    decreases reqs.len() - i,
{
    if !(0 <= i < reqs.len()) {
        HandleOutView { responses: Seq::empty(), jobs: Seq::empty(), gathers: Seq::empty() }
    } else {
        let st = sp_request_step(reqs[i], receivers, contexts, store_nonempty);
        let rest = sp_handle_requests(reqs, receivers, contexts, store_nonempty, i + 1);
        HandleOutView {
            responses: opt_seq(st.response) + rest.responses,
            jobs: opt_seq(st.job) + rest.jobs,
            gathers: opt_seq(st.gather) + rest.gathers,
        }
    }
}

/// Model of a job list.
pub open spec fn jobs_view(jobs: Seq<PromptJob>) -> Seq<PromptJobView> {
    Seq::new(jobs.len(), |i: int| jobs[i]@)
}

/// The request-dispatch step. With no backend loaded the queue is left
/// untouched, so requests accumulate instead of failing. With one, the
/// whole queue is drained front to back: preprogrammed receivers get
/// their response at once, every other request becomes a prompt job for
/// the host to run off the tick, and gathers are signalled as decided by
/// [`sp_request_step`]. A gather signalled here deterministically takes
/// effect on a later tick: the prompt of the very request that triggered
/// it reads only the context that already existed.
#[verifier::loop_isolation(false)]
pub fn handle_dialogue_requests(
    queue: &mut DialogueRequestQueue,
    handle: &mut LocalAiHandle,
    receivers: &Vec<(u64, DialogueReceiver)>,
    contexts: &Vec<(u64, AiContext)>,
    gather: &mut crate::context::ContextGatherRequest,
    store: &crate::context::AiSystemContextStore,
) -> (jobs: Vec<PromptJob>)
    ensures
        final(handle)@.backend == old(handle)@.backend,
        old(handle)@.backend is None ==> (final(queue)@ == old(queue)@ && final(handle)@ == old(
            handle,
        )@ && final(gather)@ == old(gather)@ && jobs@.len() == 0),
        old(handle)@.backend is Some ==> {
            let out = sp_handle_requests(old(queue)@, receivers@, contexts@, store@.len() > 0, 0);
            &&& final(queue)@.len() == 0
            &&& final(handle)@.responses == old(handle)@.responses + out.responses
            &&& final(gather)@ == old(gather)@ + out.gathers
            &&& jobs_view(jobs@) == out.jobs
        },
{
    let mut jobs: Vec<PromptJob> = Vec::new();
    if !handle.is_loaded() {
        return jobs;
    }
    let ghost reqs = queue@;
    let ghost store_nonempty = store@.len() > 0;
    let store_has = store.systems().len() > 0;
    let ghost mut i: int = 0;
    loop
        invariant
            0 <= i <= reqs.len(),
            queue@ =~= reqs.subrange(i, reqs.len() as int),
            handle@.backend == old(handle)@.backend,
            store_has == store_nonempty,
            handle@.responses + sp_handle_requests(
                reqs,
                receivers@,
                contexts@,
                store_nonempty,
                i,
            ).responses =~= old(handle)@.responses + sp_handle_requests(
                reqs,
                receivers@,
                contexts@,
                store_nonempty,
                0,
            ).responses,
            gather@ + sp_handle_requests(reqs, receivers@, contexts@, store_nonempty, i).gathers
                =~= old(gather)@ + sp_handle_requests(
                reqs,
                receivers@,
                contexts@,
                store_nonempty,
                0,
            ).gathers,
            jobs_view(jobs@) + sp_handle_requests(
                reqs,
                receivers@,
                contexts@,
                store_nonempty,
                i,
            ).jobs =~= sp_handle_requests(reqs, receivers@, contexts@, store_nonempty, 0).jobs,
        decreases reqs.len() - i,
    {
        let req = match queue.pop() {
            Some(r) => r,
            None => {
                break ;
            },
        };
        proof {
            assert(req@ == reqs[i]);
            assert(queue@ =~= reqs.subrange(i + 1, reqs.len() as int));
        }
        let pre: Option<String> = match find_entry_index(receivers, req.entity) {
            Some(idx) => match &receivers[idx].1.preprogrammed {
                Some(p) => Some(p.clone()),
                None => None,
            },
            None => None,
        };
        match pre {
            Some(p) => {
                handle.push_response(
                    DialogueResponse {
                        entity: req.entity,
                        response: p,
                        kind: req.kind,
                        actions: None,
                    },
                );
            },
            None => {
                let inc = req.kind.include_context();
                let ctx_idx = find_entry_index(contexts, req.entity);
                if inc && store_has && ctx_idx.is_none() {
                    gather.request(req.entity);
                }
                let msgs = build_messages(
                    &req.kind,
                    match ctx_idx {
                        Some(ci) => Some(&contexts[ci].1),
                        None => None,
                    },
                );
                jobs.push(PromptJob { entity: req.entity, messages: msgs, kind: req.kind });
            },
        }
        proof {
            let stepped = sp_request_step(reqs[i], receivers@, contexts@, store_nonempty);
            assert(handle@.responses + sp_handle_requests(
                reqs,
                receivers@,
                contexts@,
                store_nonempty,
                i + 1,
            ).responses =~= old(handle)@.responses + sp_handle_requests(
                reqs,
                receivers@,
                contexts@,
                store_nonempty,
                0,
            ).responses);
            assert(gather@ + sp_handle_requests(
                reqs,
                receivers@,
                contexts@,
                store_nonempty,
                i + 1,
            ).gathers =~= old(gather)@ + sp_handle_requests(
                reqs,
                receivers@,
                contexts@,
                store_nonempty,
                0,
            ).gathers);
            assert(jobs_view(jobs@) + sp_handle_requests(
                reqs,
                receivers@,
                contexts@,
                store_nonempty,
                i + 1,
            ).jobs =~= sp_handle_requests(reqs, receivers@, contexts@, store_nonempty, 0).jobs);
            i = i + 1;
        }
    }
    proof {
        assert(i == reqs.len());
        assert(sp_handle_requests(reqs, receivers@, contexts@, store_nonempty, i).responses
            =~= Seq::<DialogueResponseView>::empty());
        assert(sp_handle_requests(reqs, receivers@, contexts@, store_nonempty, i).gathers
            =~= Seq::<u64>::empty());
        assert(sp_handle_requests(reqs, receivers@, contexts@, store_nonempty, i).jobs
            =~= Seq::<PromptJobView>::empty());
        assert(handle@.responses =~= old(handle)@.responses + sp_handle_requests(
            reqs,
            receivers@,
            contexts@,
            store_nonempty,
            0,
        ).responses);
        assert(gather@ =~= old(gather)@ + sp_handle_requests(
            reqs,
            receivers@,
            contexts@,
            store_nonempty,
            0,
        ).gathers);
        assert(jobs_view(jobs@) =~= sp_handle_requests(
            reqs,
            receivers@,
            contexts@,
            store_nonempty,
            0,
        ).jobs);
    }
    jobs
}

} // verus!

verus! {

/// The actions a response produces, as a filter over array elements.
pub open spec fn sp_filter_actions(items: Seq<Jv>, i: int) -> Seq<ActionPayloadView>
    decreases items.len() - i,
{
    if !(0 <= i < items.len()) {
        Seq::empty()
    } else {
        match sp_value_to_action(items[i]) {
            Some(a) => seq![a] + sp_filter_actions(items, i + 1),
            None => sp_filter_actions(items, i + 1),
        }
    }
}

/// The actions derived from one response: any pre-parsed actions win;
/// else its text is read as JSON. A typed request forces its declared
/// action name onto an object, or onto each element of an array; a
/// freeform response yields only objects that spell an action.
pub open spec fn sp_actions_for(resp: DialogueResponseView) -> Seq<ActionPayloadView> {
    match resp.actions {
        Some(pre) => pre,
        None => match sp_parse_json(resp.response) {
            Some(v) => match v {
                Jv::Obj(ms) => match resp.kind {
                    DialogueRequestKindView::Typed { action_name, .. } => seq![
                        ActionPayloadView { name: action_name, params: Jv::Obj(ms) },
                    ],
                    _ => match sp_value_to_action(Jv::Obj(ms)) {
                        Some(a) => seq![a],
                        None => Seq::empty(),
                    },
                },
                Jv::Arr(items) => match resp.kind {
                    DialogueRequestKindView::Typed { action_name, .. } => Seq::new(
                        items.len(),
                        |k: int| ActionPayloadView { name: action_name, params: items[k] },
                    ),
                    _ => sp_filter_actions(items, 0),
                },
                _ => Seq::empty(),
            },
            None => Seq::empty(),
        },
    }
}

/// Model of an action list.
pub open spec fn acts_view(acts: Seq<ActionPayload>) -> Seq<ActionPayloadView> {
    Seq::new(acts.len(), |i: int| acts[i]@)
}

/// Compute the actions of one response, as [`sp_actions_for`] says.
#[verifier::loop_isolation(false)]
pub fn actions_for_response(resp: &DialogueResponse) -> (r: Vec<ActionPayload>)
    ensures
        acts_view(r@) == sp_actions_for(resp@),
{
    match &resp.actions {
        Some(pre) => {
            let n = pre.len();
            let mut out: Vec<ActionPayload> = Vec::new();
            let mut i: usize = 0;
            while i < n
                invariant
                    i <= n,
                    n == pre@.len(),
                    out@.len() == i,
                    forall|k: int| 0 <= k < i ==> (#[trigger] out@[k])@ == pre@[k]@,
                decreases n - i,
            {
                out.push(pre[i].clone());
                i = i + 1;
            }
            proof {
                assert(acts_view(out@) =~= sp_actions_for(resp@));
            }
            out
        },
        None => {
            match crate::json::parse_json(resp.response.as_str()) {
                Some(v) => match v {
                    JsonValue::Object(members) => {
                        match &resp.kind {
                            DialogueRequestKind::Typed { action_name, .. } => {
                                let mut out: Vec<ActionPayload> = Vec::new();
                                out.push(
                                    ActionPayload {
                                        name: action_name.clone(),
                                        params: JsonValue::Object(members),
                                    },
                                );
                                proof {
                                    assert(acts_view(out@) =~= sp_actions_for(resp@));
                                }
                                out
                            },
                            _ => {
                                match crate::actions::value_to_action(JsonValue::Object(members)) {
                                    Some(a) => {
                                        let mut out: Vec<ActionPayload> = Vec::new();
                                        out.push(a);
                                        proof {
                                            assert(acts_view(out@) =~= sp_actions_for(resp@));
                                        }
                                        out
                                    },
                                    None => {
                                        let out: Vec<ActionPayload> = Vec::new();
                                        proof {
                                            assert(acts_view(out@) =~= sp_actions_for(resp@));
                                        }
                                        out
                                    },
                                }
                            },
                        }
                    },
                    JsonValue::Array(items) => {
                        match &resp.kind {
                            DialogueRequestKind::Typed { action_name, .. } => {
                                let ghost iv = crate::json::jv_seq_view(items@, 0);
                                proof {
                                    crate::json::lemma_jv_seq_view(items@, 0);
                                }
                                let n = items.len();
                                let mut out: Vec<ActionPayload> = Vec::new();
                                let mut i: usize = 0;
                                while i < n
                                    invariant
                                        i <= n,
                                        n == items@.len(),
                                        out@.len() == i,
                                        forall|k: int|
                                            0 <= k < i ==> (#[trigger] out@[k])@
                                                == (ActionPayloadView {
                                                name: action_name@,
                                                params: iv[k],
                                            }),
                                    decreases n - i,
                                {
                                    out.push(
                                        ActionPayload {
                                            name: action_name.clone(),
                                            params: items[i].clone(),
                                        },
                                    );
                                    i = i + 1;
                                    proof {
                                        assert(iv[i - 1] == crate::json::jv_view(items@[i - 1]));
                                    }
                                }
                                proof {
                                    assert(acts_view(out@) =~= sp_actions_for(resp@));
                                }
                                out
                            },
                            _ => {
                                let ghost iv = crate::json::jv_seq_view(items@, 0);
                                proof {
                                    crate::json::lemma_jv_seq_view(items@, 0);
                                }
                                let n = items.len();
                                let mut out: Vec<ActionPayload> = Vec::new();
                                let mut i: usize = 0;
                                while i < n
                                    invariant
                                        i <= n,
                                        n == items@.len(),
                                        acts_view(out@) + sp_filter_actions(iv, i as int)
                                            =~= sp_filter_actions(iv, 0),
                                    decreases n - i,
                                {
                                    proof {
                                        assert(iv[i as int] == crate::json::jv_view(
                                            items@[i as int],
                                        ));
                                    }
                                    match crate::actions::value_to_action(items[i].clone()) {
                                        Some(a) => {
                                            out.push(a);
                                        },
                                        None => {},
                                    }
                                    i = i + 1;
                                    proof {
                                        assert(acts_view(out@) + sp_filter_actions(iv, i as int)
                                            =~= sp_filter_actions(iv, 0));
                                    }
                                }
                                proof {
                                    assert(acts_view(out@) =~= sp_filter_actions(iv, 0));
                                    assert(acts_view(out@) =~= sp_actions_for(resp@));
                                }
                                out
                            },
                        }
                    },
                    _ => {
                        let out: Vec<ActionPayload> = Vec::new();
                        proof {
                            assert(acts_view(out@) =~= sp_actions_for(resp@));
                        }
                        out
                    },
                },
                None => {
                    let out: Vec<ActionPayload> = Vec::new();
                    proof {
                        assert(acts_view(out@) =~= sp_actions_for(resp@));
                    }
                    out
                },
            }
        },
    }
}

} // verus!

verus! {

/// `entries` with the first entry under `key` replaced by `v`; unchanged
/// when no entry carries `key`.
pub open spec fn sp_assoc_update<V>(entries: Seq<(u64, V)>, key: u64, v: V) -> Seq<(u64, V)>
    decreases entries.len(),
{
    if entries.len() == 0 {
        entries
    } else if entries[0].0 == key {
        seq![(key, v)] + entries.drop_first()
    } else {
        seq![entries[0]] + sp_assoc_update(entries.drop_first(), key, v)
    }
}

/// When `key` first occurs at position `i`, the replacement is an update
/// there.
pub proof fn lemma_assoc_update_at<V>(entries: Seq<(u64, V)>, key: u64, v: V, i: int)
    requires
        0 <= i < entries.len(),
        forall|k: int| 0 <= k < i ==> (#[trigger] entries[k]).0 != key,
        entries[i].0 == key,
    ensures
        sp_assoc_update(entries, key, v) =~= entries.update(i, (key, v)),
    decreases i,
{
    if i == 0 {
        assert(seq![(key, v)] + entries.drop_first() =~= entries.update(0, (key, v)));
    } else {
        assert(forall|k: int|
            0 <= k < i - 1 ==> (#[trigger] entries.drop_first()[k]) == entries[k + 1]);
        lemma_assoc_update_at(entries.drop_first(), key, v, i - 1);
        assert(seq![entries[0]] + entries.drop_first().update(i - 1, (key, v)) =~= entries.update(
            i,
            (key, v),
        ));
    }
}

/// Model of the receiver table.
pub open spec fn recvs_view(entries: Seq<(u64, DialogueReceiver)>) -> Seq<
    (u64, DialogueReceiverView),
> {
    Seq::new(entries.len(), |i: int| (entries[i].0, entries[i].1@))
}

/// Model of an event list.
pub open spec fn evts_view(evts: Seq<AiActionEvent>) -> Seq<AiActionEventView> {
    Seq::new(evts.len(), |i: int| evts[i]@)
}

/// The receiver after one response lands on it: the actions derived from
/// the response replace the stored ones, and the trimmed response text
/// becomes the last response.
pub open spec fn sp_apply_response(
    resp: DialogueResponseView,
    rv: DialogueReceiverView,
) -> DialogueReceiverView {
    DialogueReceiverView {
        preprogrammed: rv.preprogrammed,
        last_response: Some(crate::parse::sp_trim(resp.response)),
        actions: sp_actions_for(resp),
    }
}

/// The events one response raises: one per derived action, in order.
pub open spec fn sp_events_of(resp: DialogueResponseView) -> Seq<AiActionEventView> {
    Seq::new(
        sp_actions_for(resp).len(),
        |k: int| AiActionEventView { entity: resp.entity, action: sp_actions_for(resp)[k] },
    )
}

/// What draining the response buffer does: each response lands on its
/// entity's receiver and raises its events; a response whose entity has
/// no receiver is dropped.
#[verifier::ext_equal]
pub ghost struct PollOutView {
    pub receivers: Seq<(u64, DialogueReceiverView)>,
    pub added: Seq<AiActionEventView>,
    pub events: Seq<AiActionEventView>,
}

/// The poll outcome for `resps[i..]` over the receiver table `recvs`.
pub open spec fn sp_poll(
    resps: Seq<DialogueResponseView>,
    recvs: Seq<(u64, DialogueReceiverView)>,
    i: int,
) -> PollOutView
    decreases resps.len() - i,
{
    if !(0 <= i < resps.len()) {
        PollOutView { receivers: recvs, added: Seq::empty(), events: Seq::empty() }
    } else {
        match sp_assoc(recvs, resps[i].entity) {
            Some(rv) => {
                let evts = sp_events_of(resps[i]);
                let recvs2 = sp_assoc_update(
                    recvs,
                    resps[i].entity,
                    sp_apply_response(resps[i], rv),
                );
                let rest = sp_poll(resps, recvs2, i + 1);
                PollOutView {
                    receivers: rest.receivers,
                    added: evts + rest.added,
                    events: evts + rest.events,
                }
            },
            None => sp_poll(resps, recvs, i + 1),
        }
    }
}

/// The response-poll step: drain every buffered response, landing each on
/// its entity's receiver, queueing its actions for dispatch, and raising
/// them as events.
#[verifier::loop_isolation(false)]
pub fn poll_responses(
    handle: &mut LocalAiHandle,
    receivers: &mut Vec<(u64, DialogueReceiver)>,
    pending: &mut PendingAiActions,
) -> (events: Vec<AiActionEvent>)
    ensures
        final(handle)@.backend == old(handle)@.backend,
        final(handle)@.responses == Seq::<DialogueResponseView>::empty(),
        ({
            let out = sp_poll(old(handle)@.responses, recvs_view(old(receivers)@), 0);
            &&& recvs_view(final(receivers)@) == out.receivers
            &&& final(pending)@ == old(pending)@ + out.added
            &&& evts_view(events@) == out.events
        }),
{
    let ghost resps = old(handle)@.responses;
    let ghost recvs0 = recvs_view(old(receivers)@);
    let mut events: Vec<AiActionEvent> = Vec::new();
    let ghost mut i: int = 0;
    loop
        invariant
            0 <= i <= resps.len(),
            handle@.backend == old(handle)@.backend,
            handle@.responses =~= resps.subrange(i, resps.len() as int),
            sp_poll(resps, recvs0, 0).receivers == sp_poll(
                resps,
                recvs_view(receivers@),
                i,
            ).receivers,
            pending@ + sp_poll(resps, recvs_view(receivers@), i).added =~= old(pending)@ + sp_poll(
                resps,
                recvs0,
                0,
            ).added,
            evts_view(events@) + sp_poll(resps, recvs_view(receivers@), i).events =~= sp_poll(
                resps,
                recvs0,
                0,
            ).events,
        decreases resps.len() - i,
    {
        let resp = match handle.try_recv() {
            Some(r) => r,
            None => {
                break ;
            },
        };
        proof {
            assert(resp@ == resps[i]);
            assert(handle@.responses =~= resps.subrange(i + 1, resps.len() as int));
        }
        let ghost cur = recvs_view(receivers@);
        match find_entry_index(receivers, resp.entity) {
            Some(idx) => {
                proof {
                    assert forall|k: int| 0 <= k < idx implies (#[trigger] cur[k]).0 != resp@.entity
                        by {
                        assert(cur[k].0 == receivers@[k].0);
                    }
                    assert(cur[idx as int].0 == resp@.entity);
                    lemma_assoc_at(cur, resp@.entity, idx as int);
                }
                let acts = actions_for_response(&resp);
                let ghost av = acts_view(acts@);
                let na = acts.len();
                let ghost evts_before = events@;
                let ghost pend_before = pending.actions@;
                let mut k: usize = 0;
                while k < na
                    invariant
                        k <= na,
                        na == acts@.len(),
                        av == acts_view(acts@),
                        events@.len() == evts_before.len() + k,
                        forall|t: int|
                            0 <= t < evts_before.len() ==> (#[trigger] events@[t])
                                == evts_before[t],
                        forall|t: int|
                            0 <= t < k ==> (#[trigger] events@[evts_before.len() + t])@
                                == (AiActionEventView { entity: resp@.entity, action: av[t] }),
                        pending.actions@.len() == pend_before.len() + k,
                        forall|t: int|
                            0 <= t < pend_before.len() ==> (#[trigger] pending.actions@[t])
                                == pend_before[t],
                        forall|t: int|
                            0 <= t < k ==> (#[trigger] pending.actions@[pend_before.len() + t])@
                                == (AiActionEventView { entity: resp@.entity, action: av[t] }),
                    decreases na - k,
                {
                    let evt = AiActionEvent { entity: resp.entity, action: acts[k].clone() };
                    pending.actions.push(evt.clone());
                    events.push(evt);
                    k = k + 1;
                }
                let trimmed_chars = crate::parse::trim_chars(
                    &crate::json::str_to_chars(resp.response.as_str()),
                );
                let trimmed = crate::json::chars_to_string(&trimmed_chars);
                let old_receiver = &receivers[idx].1;
                let new_receiver = DialogueReceiver {
                    preprogrammed: match &old_receiver.preprogrammed {
                        Some(p) => Some(p.clone()),
                        None => None,
                    },
                    last_response: Some(trimmed),
                    actions: acts,
                };
                proof {
                    assert(new_receiver@ == sp_apply_response(resp@, cur[idx as int].1));
                }
                let entity = resp.entity;
                receivers.set(idx, (entity, new_receiver));
                proof {
                    lemma_assoc_update_at(
                        cur,
                        resp@.entity,
                        sp_apply_response(resp@, cur[idx as int].1),
                        idx as int,
                    );
                    assert(recvs_view(receivers@) =~= cur.update(
                        idx as int,
                        (resp@.entity, sp_apply_response(resp@, cur[idx as int].1)),
                    ));
                    assert(recvs_view(receivers@) =~= sp_assoc_update(
                        cur,
                        resp@.entity,
                        sp_apply_response(resp@, cur[idx as int].1),
                    ));
                    assert(av == sp_actions_for(resp@));
                    assert(sp_events_of(resp@).len() == av.len());
                    assert forall|t: int|
                        0 <= t < events@.len() implies evts_view(events@)[t] == (evts_view(
                        evts_before,
                    ) + sp_events_of(resp@))[t] by {
                        if t < evts_before.len() {
                            assert(events@[t] == evts_before[t]);
                        } else {
                            let u = t - evts_before.len();
                            assert(events@[evts_before.len() + u]@ == (AiActionEventView {
                                entity: resp@.entity,
                                action: av[u],
                            }));
                            assert(sp_events_of(resp@)[u] == (AiActionEventView {
                                entity: resp@.entity,
                                action: av[u],
                            }));
                        }
                    }
                    assert(evts_view(events@) =~= evts_view(evts_before) + sp_events_of(resp@));
                    assert forall|t: int|
                        0 <= t < pending.actions@.len() implies pending@[t] == (Seq::new(
                        pend_before.len(),
                        |u: int| pend_before[u]@,
                    ) + sp_events_of(resp@))[t] by {
                        assert(pending@[t] == pending.actions@[t]@);
                        if t < pend_before.len() {
                            assert(pending.actions@[t] == pend_before[t]);
                        } else {
                            let u = t - pend_before.len();
                            assert(pending.actions@[pend_before.len() + u]@ == (AiActionEventView {
                                entity: resp@.entity,
                                action: av[u],
                            }));
                            assert(sp_events_of(resp@)[u] == (AiActionEventView {
                                entity: resp@.entity,
                                action: av[u],
                            }));
                        }
                    }
                    assert(pending@ =~= Seq::new(pend_before.len(), |t: int| pend_before[t]@)
                        + sp_events_of(resp@));
                }
            },
            None => {
                proof {
                    lemma_assoc_none_all(receivers@, resp@.entity);
                    assert forall|k: int|
                        0 <= k < cur.len() implies (#[trigger] cur[k]).0 != resp@.entity by {
                        assert(cur[k].0 == receivers@[k].0);
                    }
                    lemma_assoc_none(cur, resp@.entity);
                }
            },
        }
        proof {
            i = i + 1;
            assert(pending@ + sp_poll(resps, recvs_view(receivers@), i).added =~= old(pending)@
                + sp_poll(resps, recvs0, 0).added);
            assert(evts_view(events@) + sp_poll(resps, recvs_view(receivers@), i).events
                =~= sp_poll(resps, recvs0, 0).events);
        }
    }
    proof {
        assert(i == resps.len());
        assert(sp_poll(resps, recvs_view(receivers@), i).added =~= Seq::<
            AiActionEventView,
        >::empty());
        assert(sp_poll(resps, recvs_view(receivers@), i).events =~= Seq::<
            AiActionEventView,
        >::empty());
        assert(final(handle)@.responses =~= Seq::<DialogueResponseView>::empty());
        assert(pending@ =~= old(pending)@ + sp_poll(resps, recvs0, 0).added);
        assert(evts_view(events@) =~= sp_poll(resps, recvs0, 0).events);
    }
    events
}

} // verus!

verus! {

/// Event raised when a model load finishes, well or badly.
#[derive(Debug)]
pub struct ModelLoadCompleteEvent {
    pub model_name: String,
    pub success: bool,
    pub error_message: Option<String>,
}

/// Event raised for each model download progress update.
#[derive(Debug)]
pub struct ModelDownloadProgressEvent {
    pub model_name: String,
    pub state: crate::models::DownloadState,
    pub message: String,
    pub progress: Option<u32>,
}

/// Attach the model's name to one progress update.
pub fn progress_event(
    model_name: &str,
    progress: crate::models::ModelDownloadProgress,
) -> (r: ModelDownloadProgressEvent)
    ensures
        r.model_name@ == model_name@,
        r.state == progress.state,
        r.message@ == progress.message@,
        r.progress == progress.progress,
{
    ModelDownloadProgressEvent {
        model_name: model_name.to_owned(),
        state: progress.state,
        message: progress.message,
        progress: progress.progress,
    }
}

/// One model load in flight; its result arrives through the host's
/// channel and is handed to [`poll_pending_model_loads`].
#[derive(Debug)]
pub struct PendingModelLoad {
    pub model_name: String,
}

/// Every model load in flight.
#[derive(Debug)]
pub struct PendingModelLoads {
    pub loaders: Vec<PendingModelLoad>,
}

impl PendingModelLoads {
    /// Fresh tracker with no loads in flight.
    pub fn new() -> (r: Self)
        ensures
            r.loaders@.len() == 0,
    {
        PendingModelLoads { loaders: Vec::new() }
    }
}

impl Default for PendingModelLoads {
    /// The default tracker is empty.
    fn default() -> (r: Self)
        ensures
            r.loaders@.len() == 0,
    {
        PendingModelLoads::new()
    }
}

/// Model of the in-flight load list: the model names, in order.
pub open spec fn loads_view(loaders: Seq<PendingModelLoad>) -> Seq<Seq<char>> {
    Seq::new(loaders.len(), |i: int| loaders[i].model_name@)
}

/// Track one new load; the host spawns the build work itself.
pub fn start_model_load(pending: &mut PendingModelLoads, model_name: String)
    ensures
        loads_view(final(pending).loaders@) == loads_view(old(pending).loaders@) + seq![
            model_name@,
        ],
{
    let ghost nm = model_name@;
    pending.loaders.push(PendingModelLoad { model_name });
    proof {
        assert(loads_view(pending.loaders@) =~= loads_view(old(pending).loaders@) + seq![nm]);
    }
}

/// Whether a backend is loaded on the handle, `false` with no handle.
pub fn on_model_load_complete(handle: Option<&LocalAiHandle>) -> (r: bool)
    ensures
        r == (handle matches Some(h) && h@.backend is Some),
{
    match handle {
        Some(h) => h.is_loaded(),
        None => false,
    }
}

/// The loads still in flight after this poll: those whose channel
/// yielded nothing.
pub open spec fn sp_loads_remaining(
    names: Seq<Seq<char>>,
    results: Seq<Option<Result<u64, String>>>,
    i: int,
) -> Seq<Seq<char>>
    decreases names.len() - i,
{
    if !(0 <= i < names.len()) {
        Seq::empty()
    } else {
        match results[i] {
            None => seq![names[i]] + sp_loads_remaining(names, results, i + 1),
            Some(_) => sp_loads_remaining(names, results, i + 1),
        }
    }
}

/// The backend after this poll: each successful load replaces it, in
/// list order, so the last success wins; failures leave it untouched.
pub open spec fn sp_backend_after(
    cur: Option<u64>,
    results: Seq<Option<Result<u64, String>>>,
    i: int,
) -> Option<u64>
    decreases results.len() - i,
{
    if !(0 <= i < results.len()) {
        cur
    } else {
        sp_backend_after(
            match results[i] {
                Some(Ok(t)) => Some(t),
                _ => cur,
            },
            results,
            i + 1,
        )
    }
}

/// The completion events of this poll: one per load whose channel
/// yielded a result, in list order.
pub open spec fn sp_load_events(
    names: Seq<Seq<char>>,
    results: Seq<Option<Result<u64, String>>>,
    i: int,
) -> Seq<(Seq<char>, bool, Option<Seq<char>>)>
    decreases names.len() - i,
{
    if !(0 <= i < names.len()) {
        Seq::empty()
    } else {
        let rest = sp_load_events(names, results, i + 1);
        match results[i] {
            Some(Ok(_)) => seq![(names[i], true, None::<Seq<char>>)] + rest,
            Some(Err(e)) => seq![(names[i], false, Some(e@))] + rest,
            None => rest,
        }
    }
}

/// Model of a completion event list.
pub open spec fn load_events_view(events: Seq<ModelLoadCompleteEvent>) -> Seq<
    (Seq<char>, bool, Option<Seq<char>>),
> {
    Seq::new(
        events.len(),
        |i: int|
            (
                events[i].model_name@,
                events[i].success,
                match events[i].error_message {
                    Some(e) => Some(e@),
                    None => None,
                },
            ),
    )
}

/// The model-load poll step. `results` holds, for each load in flight
/// and in order, what its completion channel yielded this tick: nothing
/// yet, a loaded backend's token, or a failure message. Each success
/// replaces the shared backend; each completed load leaves the list and
/// raises its event; failures leave the backend untouched.
#[verifier::loop_isolation(false)]
pub fn poll_pending_model_loads(
    pending: &mut PendingModelLoads,
    handle: &mut LocalAiHandle,
    results: &Vec<Option<Result<u64, String>>>,
) -> (events: Vec<ModelLoadCompleteEvent>)
    requires
        results@.len() == old(pending).loaders@.len(),
    ensures
        loads_view(final(pending).loaders@) == sp_loads_remaining(
            loads_view(old(pending).loaders@),
            results@,
            0,
        ),
        final(handle)@.backend == sp_backend_after(old(handle)@.backend, results@, 0),
        final(handle)@.responses == old(handle)@.responses,
        load_events_view(events@) == sp_load_events(loads_view(old(pending).loaders@), results@, 0),
{
    let ghost names = loads_view(old(pending).loaders@);
    let n = pending.loaders.len();
    let mut kept: Vec<PendingModelLoad> = Vec::new();
    let mut events: Vec<ModelLoadCompleteEvent> = Vec::new();
    let mut i: usize = 0;
    while i < n
        invariant
            i <= n,
            n == pending.loaders@.len(),
            n == results@.len(),
            pending.loaders@ == old(pending).loaders@,
            names == loads_view(old(pending).loaders@),
            handle@.responses == old(handle)@.responses,
            loads_view(kept@) + sp_loads_remaining(names, results@, i as int)
                =~= sp_loads_remaining(names, results@, 0),
            sp_backend_after(old(handle)@.backend, results@, 0) == sp_backend_after(
                handle@.backend,
                results@,
                i as int,
            ),
            load_events_view(events@) + sp_load_events(names, results@, i as int) =~= sp_load_events(
                names,
                results@,
                0,
            ),
        decreases n - i,
    {
        let name = pending.loaders[i].model_name.clone();
        proof {
            assert(names[i as int] == pending.loaders@[i as int].model_name@);
        }
        match &results[i] {
            None => {
                kept.push(PendingModelLoad { model_name: name });
            },
            Some(Ok(token)) => {
                handle.backend = Some(*token);
                events.push(
                    ModelLoadCompleteEvent {
                        model_name: name,
                        success: true,
                        error_message: None,
                    },
                );
            },
            Some(Err(e)) => {
                events.push(
                    ModelLoadCompleteEvent {
                        model_name: name,
                        success: false,
                        error_message: Some(e.clone()),
                    },
                );
            },
        }
        i = i + 1;
        proof {
            assert(loads_view(kept@) + sp_loads_remaining(names, results@, i as int)
                =~= sp_loads_remaining(names, results@, 0));
            assert(load_events_view(events@) + sp_load_events(names, results@, i as int)
                =~= sp_load_events(names, results@, 0));
        }
    }
    pending.loaders = kept;
    proof {
        assert(loads_view(pending.loaders@) =~= sp_loads_remaining(names, results@, 0));
        assert(load_events_view(events@) =~= sp_load_events(names, results@, 0));
    }
    events
}

} // verus!

verus! {

/// The instruction appended to plain-text prompts.
pub open spec fn sp_plain_text_suffix() -> Seq<char> {
    "\n\nPlease respond in plain text only (no JSON or code blocks)."@
}

fn plain_text_message(prompt: &str) -> (r: String)
    ensures
        r@ == prompt@ + sp_plain_text_suffix(),
{
    let mut out = crate::json::str_to_chars(prompt);
    let tail = crate::json::str_to_chars(
        "\n\nPlease respond in plain text only (no JSON or code blocks).",
    );
    crate::parse::vec_extend(&mut out, &tail);
    crate::json::chars_to_string(&out)
}

/// Queue a plain-text prompt for an entity, without gathered context.
pub fn ask_text(queue: &mut DialogueRequestQueue, ai_entity: u64, prompt: &str)
    ensures
        final(queue)@ == old(queue)@ + seq![
            DialogueRequestView {
                entity: ai_entity,
                kind: DialogueRequestKindView::Text {
                    message: prompt@ + sp_plain_text_suffix(),
                    include_context: false,
                },
            },
        ],
{
    let message = plain_text_message(prompt);
    queue.push(DialogueRequest::text_no_context(ai_entity, message.as_str()));
}

/// Queue a plain-text prompt for an entity, with gathered context.
pub fn inquire(queue: &mut DialogueRequestQueue, ai_entity: u64, prompt: &str)
    ensures
        final(queue)@ == old(queue)@ + seq![
            DialogueRequestView {
                entity: ai_entity,
                kind: DialogueRequestKindView::Text {
                    message: prompt@ + sp_plain_text_suffix(),
                    include_context: true,
                },
            },
        ],
{
    let message = plain_text_message(prompt);
    queue.push(DialogueRequest::text(ai_entity, message.as_str()));
}

/// The instruction inserted between a typed prompt and its schema.
pub open spec fn sp_schema_request_infix() -> Seq<char> {
    "\nProvide a JSON action matching the following schema:\n"@
}

/// Queue a typed request: the prompt is annotated with the schema, and
/// the response will be routed under `action_name`.
pub fn ask_action(
    queue: &mut DialogueRequestQueue,
    ai_entity: u64,
    prompt: &str,
    schema_description: &str,
    action_name: &str,
)
    ensures
        final(queue)@ == old(queue)@ + seq![
            DialogueRequestView {
                entity: ai_entity,
                kind: DialogueRequestKindView::Typed {
                    user_message: prompt@ + sp_schema_request_infix() + schema_description@,
                    schema_description: schema_description@,
                    action_name: action_name@,
                },
            },
        ],
{
    let mut out = crate::json::str_to_chars(prompt);
    let mid = crate::json::str_to_chars(
        "\nProvide a JSON action matching the following schema:\n",
    );
    crate::parse::vec_extend(&mut out, &mid);
    let schema = crate::json::str_to_chars(schema_description);
    crate::parse::vec_extend(&mut out, &schema);
    let message = crate::json::chars_to_string(&out);
    queue.push(
        DialogueRequest::typed(
            ai_entity,
            message,
            schema_description.to_owned(),
            action_name.to_owned(),
        ),
    );
}

} // verus!
