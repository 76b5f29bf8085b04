//! Messages exchanged with the backend and the per-entity context that
//! grounds them.
use vstd::prelude::*;

use crate::actions::ActionPayload;
use crate::actions::ActionPayloadView;

verus! {

/// Model of an [`AiMessage`].
#[verifier::ext_equal]
pub ghost enum AiMessageView {
    System(Seq<char>),
    User(Seq<char>),
    Assistant(Seq<char>),
    Payload(ActionPayloadView),
}

/// One message handed to the backend: system context, user text, an
/// assistant reply, or a pre-parsed action payload.
#[derive(Debug, PartialEq)]
pub enum AiMessage {
    System(String),
    User(String),
    Assistant(String),
    Payload(ActionPayload),
}

impl View for AiMessage {
    type V = AiMessageView;

    open spec fn view(&self) -> AiMessageView {
        match self {
            AiMessage::System(t) => AiMessageView::System(t@),
            AiMessage::User(t) => AiMessageView::User(t@),
            AiMessage::Assistant(t) => AiMessageView::Assistant(t@),
            AiMessage::Payload(p) => AiMessageView::Payload(p@),
        }
    }
}

impl Clone for AiMessage {
    /// Cloning preserves the model of the message.
    fn clone(&self) -> (r: Self)
        ensures
            r@ == self@,
    {
        match self {
            AiMessage::System(t) => AiMessage::System(t.clone()),
            AiMessage::User(t) => AiMessage::User(t.clone()),
            AiMessage::Assistant(t) => AiMessage::Assistant(t.clone()),
            AiMessage::Payload(p) => AiMessage::Payload(p.clone()),
        }
    }
}

/// The sentinel text that suppresses the default system context for one
/// request.
pub open spec fn sp_no_default_context() -> Seq<char> {
    "Forget the context."@
}

/// Sentinel used to suppress the default system context for a single
/// request.
pub const NO_DEFAULT_SYSTEM_CONTEXT: &'static str = "Forget the context.";

/// The sentinel's text as a string slice.
pub fn no_default_system_context_text() -> (r: &'static str)
    ensures
        r@ == sp_no_default_context(),
{
    "Forget the context."
}

impl AiMessage {
    /// A system-level message (context, instructions).
    pub fn system(text: &str) -> (r: Self)
        ensures
            r@ == AiMessageView::System(text@),
    {
        AiMessage::System(text.to_owned())
    }

    /// The sentinel system message that tells the model layer to omit
    /// the default system context for this one request.
    pub fn no_default_system_context() -> (r: Self)
        ensures
            r@ == AiMessageView::System(sp_no_default_context()),
    {
        AiMessage::System(no_default_system_context_text().to_owned())
    }

    /// A message from the user.
    pub fn user(text: &str) -> (r: Self)
        ensures
            r@ == AiMessageView::User(text@),
    {
        AiMessage::User(text.to_owned())
    }

    /// A message from the model.
    pub fn assistant(text: &str) -> (r: Self)
        ensures
            r@ == AiMessageView::Assistant(text@),
    {
        AiMessage::Assistant(text.to_owned())
    }

    /// A message that carries a pre-parsed action payload.
    pub fn payload(action: ActionPayload) -> (r: Self)
        ensures
            r@ == AiMessageView::Payload(action@),
    {
        AiMessage::Payload(action)
    }
}

/// Context gathered for an entity: an ordered sequence of messages, in
/// practice all system-role snippets.
#[derive(Debug, Clone)]
pub struct AiContext {
    messages: Vec<AiMessage>,
}

impl View for AiContext {
    type V = Seq<AiMessageView>;

    closed spec fn view(&self) -> Seq<AiMessageView> {
        Seq::new(self.messages@.len(), |i: int| self.messages@[i]@)
    }
}

impl AiContext {
    /// Fresh, empty context.
    pub fn new() -> (r: Self)
        ensures
            r@ == Seq::<AiMessageView>::empty(),
    {
        let r = AiContext { messages: Vec::new() };
        proof {
            assert(r@ =~= Seq::<AiMessageView>::empty());
        }
        r
    }

    /// Append one snippet as a system message.
    pub fn add_context(&mut self, text: &str)
        ensures
            final(self)@ == old(self)@ + seq![AiMessageView::System(text@)],
    {
        self.messages.push(AiMessage::system(text));
        proof {
            assert(self@ =~= old(self)@ + seq![AiMessageView::System(text@)]);
        }
    }

    /// The accumulated messages.
    pub fn messages(&self) -> (r: &Vec<AiMessage>)
        ensures
            r@.len() == self@.len(),
            forall|i: int| 0 <= i < r@.len() ==> (#[trigger] r@[i])@ == self@[i],
    {
        &self.messages
    }

    /// Drop every accumulated message.
    pub fn clear(&mut self)
        ensures
            final(self)@ == Seq::<AiMessageView>::empty(),
    {
        self.messages.clear();
        proof {
            assert(self@ =~= Seq::<AiMessageView>::empty());
        }
    }
}

} // verus!
