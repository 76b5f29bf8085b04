//! Model selection and prompt assembly: what backend to build, the default
//! system context, and how messages become the system and user prompts that
//! a chat backend receives.
use vstd::prelude::*;

use crate::json::chars_to_string;
use crate::json::str_to_chars;
use crate::parse::sp_trim;
use crate::parse::trim_chars;
use crate::rag::AiMessage;
use crate::rag::AiMessageView;
use crate::rag::sp_no_default_context;

verus! {

broadcast use vstd::std_specs::vec::group_vec_axioms;

/// State of a model download operation.
#[derive(Debug, Clone, Copy, PartialEq, Eq, Structural)]
pub enum DownloadState {
    InProgress,
    Completed,
    Error,
}

/// One progress update of a model download; `progress` is a percentage.
#[derive(Debug, Clone)]
pub struct ModelDownloadProgress {
    pub state: DownloadState,
    pub message: String,
    pub progress: Option<u32>,
}

/// A string wiped from memory when dropped. It holds a
/// `zeroize::Zeroizing<String>`, whose declaration Verus refuses, so the
/// whole wrapper is opaque and spoken of through [`secure_content`].
#[verifier::external_body]
pub struct SecureString {
    inner: zeroize::Zeroizing<String>,
}

/// What a [`SecureString`] holds.
pub uninterp spec fn secure_content(s: SecureString) -> Seq<char>;

/// Relies on `zeroize::Zeroizing::new`: the wrapper stores exactly the
/// value it was given.
#[verifier::external_body]
pub fn secure_string(value: String) -> (r: SecureString)
    ensures
        secure_content(r) == value@,
{
    SecureString { inner: zeroize::Zeroizing::new(value) }
}

/// Relies on `zeroize::Zeroizing`'s `Deref`: reading the wrapper yields
/// the stored value.
#[verifier::external_body]
pub fn secure_str(s: &SecureString) -> (r: &str)
    ensures
        r@ == secure_content(*s),
{
    s.inner.as_str()
}

/// Which backend family to build, with its credential where one is
/// needed.
pub enum ModelType {
    /// A local Llama-family model.
    Llama,
    /// An OpenAI-compatible chat model, reached with this API key.
    GPT(SecureString),
    /// A Phi-family model.
    Phi,
}

/// Where model weights come from.
#[derive(Debug, Clone, PartialEq)]
pub enum FileSourceSpec {
    /// A file on disk.
    Local(String),
    /// A hosted repository: its id, revision and file name.
    HuggingFace { model_id: String, revision: String, file: String },
}

/// Configuration for building a backend: the model family and source,
/// whether the default system context is included, and an optional
/// sampling seed. The build itself runs on the host side.
pub struct AiModelBuilder {
    pub model_type: ModelType,
    pub model_file_source: Option<FileSourceSpec>,
    pub include_default_context: bool,
    pub seed: Option<u64>,
}

impl AiModelBuilder {
    /// A builder for the default model family.
    pub fn new() -> (r: Self)
        ensures
            r.model_type is Llama,
            r.model_file_source is None,
            r.include_default_context == true,
            r.seed is None,
    {
        AiModelBuilder {
            model_type: ModelType::Llama,
            model_file_source: None,
            include_default_context: true,
            seed: None,
        }
    }

    /// A builder for the given model family.
    pub fn new_with(model_type: ModelType) -> (r: Self)
        ensures
            r.model_type == model_type,
            r.model_file_source is None,
            r.include_default_context == true,
            r.seed is None,
    {
        AiModelBuilder { model_type, model_file_source: None, include_default_context: true, seed: None }
    }

    /// Choose whether the default system context is included.
    pub fn include_default_context(self, included: bool) -> (r: Self)
        ensures
            r.model_type == self.model_type,
            r.model_file_source == self.model_file_source,
            r.include_default_context == included,
            r.seed == self.seed,
    {
        AiModelBuilder { include_default_context: included, ..self }
    }

    /// Fix a seed for deterministic generation.
    pub fn with_seed(self, seed: u64) -> (r: Self)
        ensures
            r.model_type == self.model_type,
            r.model_file_source == self.model_file_source,
            r.include_default_context == self.include_default_context,
            r.seed == Some(seed),
    {
        AiModelBuilder { seed: Some(seed), ..self }
    }

    /// Use a local weights file; the family falls back to Llama.
    pub fn with_local(self, path: String) -> (r: Self)
        ensures
            r.model_type is Llama,
            r.model_file_source == Some(FileSourceSpec::Local(path)),
            r.include_default_context == self.include_default_context,
            r.seed == self.seed,
    {
        AiModelBuilder {
            model_type: ModelType::Llama,
            model_file_source: Some(FileSourceSpec::Local(path)),
            ..self
        }
    }

    /// Use a hosted weights file; the family falls back to Llama.
    pub fn with_huggingface(self, repo_id: &str, revision: &str, file: &str) -> (r: Self)
        ensures
            r.model_type is Llama,
            (r.model_file_source matches Some(FileSourceSpec::HuggingFace {
                model_id: mid,
                revision: rev,
                file: f,
            }) && mid@ == repo_id@ && rev@ == revision@ && f@ == file@),
            r.include_default_context == self.include_default_context,
            r.seed == self.seed,
    {
        AiModelBuilder {
            model_type: ModelType::Llama,
            model_file_source: Some(
                FileSourceSpec::HuggingFace {
                    model_id: repo_id.to_owned(),
                    revision: revision.to_owned(),
                    file: file.to_owned(),
                },
            ),
            ..self
        }
    }
}

/// The default system context handed to chat backends, trimmed.
pub fn default_system_context() -> (r: String)
    ensures
        r@ == sp_trim(
            "\nYou are in a game world.\n\nRules:\n- The context lists ALL people, places, items and information in this world\n- No other people, places, items or information exist beyond those listed\n- Do not add details, inferences, or explanations\n"@,
        ),
{
    let chars = str_to_chars(
        "\nYou are in a game world.\n\nRules:\n- The context lists ALL people, places, items and information in this world\n- No other people, places, items or information exist beyond those listed\n- Do not add details, inferences, or explanations\n",
    );
    let trimmed = trim_chars(&chars);
    chars_to_string(&trimmed)
}

/// Whether some message is the suppress-context sentinel.
pub open spec fn sp_has_sentinel(messages: Seq<AiMessageView>, i: int) -> bool
    decreases messages.len() - i,
{
    if !(0 <= i < messages.len()) {
        false
    } else if messages[i] == AiMessageView::System(sp_no_default_context()) {
        true
    } else {
        sp_has_sentinel(messages, i + 1)
    }
}

/// The system parts of a prompt: the default context first unless
/// suppressed, then every system message but the sentinel, in order.
pub open spec fn sp_system_parts(messages: Seq<AiMessageView>, i: int) -> Seq<Seq<char>>
    decreases messages.len() - i,
{
    if !(0 <= i < messages.len()) {
        Seq::empty()
    } else {
        let rest = sp_system_parts(messages, i + 1);
        match messages[i] {
            AiMessageView::System(t) => if t == sp_no_default_context() {
                rest
            } else {
                seq![t] + rest
            },
            _ => rest,
        }
    }
}

/// The user parts of a prompt: every user message, in order.
pub open spec fn sp_user_parts(messages: Seq<AiMessageView>, i: int) -> Seq<Seq<char>>
    decreases messages.len() - i,
{
    if !(0 <= i < messages.len()) {
        Seq::empty()
    } else {
        let rest = sp_user_parts(messages, i + 1);
        match messages[i] {
            AiMessageView::User(t) => seq![t] + rest,
            _ => rest,
        }
    }
}

/// `parts` joined with `sep` between them.
pub open spec fn sp_join(parts: Seq<Seq<char>>, sep: Seq<char>) -> Seq<char>
    decreases parts.len(),
{
    if parts.len() == 0 {
        Seq::empty()
    } else if parts.len() == 1 {
        parts[0]
    } else {
        parts[0] + sep + sp_join(parts.drop_first(), sep)
    }
}

/// The system prompt for `messages` given the configured default
/// context: the sentinel, anywhere among them, suppresses the default
/// and is itself never forwarded.
pub open spec fn sp_system_prompt(
    messages: Seq<AiMessageView>,
    default_context: Option<Seq<char>>,
) -> Seq<char> {
    let own = sp_system_parts(messages, 0);
    let parts = if !sp_has_sentinel(messages, 0) {
        match default_context {
            Some(d) => seq![d] + own,
            None => own,
        }
    } else {
        own
    };
    sp_join(parts, "\n\n"@)
}

/// The user prompt for `messages`: the user messages joined by line
/// breaks.
pub open spec fn sp_user_prompt(messages: Seq<AiMessageView>) -> Seq<char> {
    sp_join(sp_user_parts(messages, 0), "\n"@)
}

/// Join `parts` with `sep`.
#[verifier::loop_isolation(false)]
fn join_parts(parts: &Vec<String>, sep: &str) -> (r: String)
    ensures
        r@ == sp_join(Seq::new(parts@.len(), |i: int| parts@[i]@), sep@),
{
    let ghost pv = Seq::new(parts@.len(), |i: int| parts@[i]@);
    let n = parts.len();
    let mut out: Vec<char> = Vec::new();
    proof {
        assert(pv.subrange(0, n as int) =~= pv);
    }
    let mut i: usize = 0;
    while i < n
        invariant
            i <= n,
            out@ + sp_join(pv.subrange(i as int, n as int), sep@) =~= sp_join(pv, sep@),
        decreases n - i,
    {
        let part = str_to_chars(parts[i].as_str());
        crate::parse::vec_extend(&mut out, &part);
        if i + 1 < n {
            let sep_chars = str_to_chars(sep);
            crate::parse::vec_extend(&mut out, &sep_chars);
        }
        i = i + 1;
        proof {
            assert(pv.subrange(i - 1, n as int).drop_first() =~= pv.subrange(i as int, n as int));
            assert(pv.subrange(i - 1, n as int)[0] == pv[i - 1]);
            assert(out@ + sp_join(pv.subrange(i as int, n as int), sep@) =~= sp_join(pv, sep@));
        }
    }
    proof {
        assert(pv.subrange(n as int, n as int) =~= Seq::<Seq<char>>::empty());
        assert(out@ =~= sp_join(pv, sep@));
    }
    chars_to_string(&out)
}

/// Turn the messages of one request into the system prompt and user
/// prompt handed to a chat backend.
#[verifier::loop_isolation(false)]
pub fn assemble_prompt(messages: &Vec<AiMessage>, default_context: &Option<String>) -> (r: (
    String,
    String,
))
    ensures
        r.0@ == sp_system_prompt(
            Seq::new(messages@.len(), |i: int| messages@[i]@),
            match default_context {
                Some(d) => Some(d@),
                None => None,
            },
        ),
        r.1@ == sp_user_prompt(Seq::new(messages@.len(), |i: int| messages@[i]@)),
{
    let ghost mv = Seq::new(messages@.len(), |i: int| messages@[i]@);
    let n = messages.len();
    let sentinel: String = crate::rag::no_default_system_context_text().to_owned();
    let mut has_sentinel = false;
    let mut i: usize = 0;
    while i < n
        invariant
            i <= n,
            sp_has_sentinel(mv, 0) == (has_sentinel || sp_has_sentinel(mv, i as int)),
        decreases n - i,
    {
        match &messages[i] {
            AiMessage::System(t) => {
                if *t == sentinel {
                    has_sentinel = true;
                }
            },
            _ => {},
        }
        i = i + 1;
    }
    let mut system_parts: Vec<String> = Vec::new();
    if !has_sentinel {
        match default_context {
            Some(d) => {
                system_parts.push(d.clone());
            },
            None => {},
        }
    }
    let ghost base = Seq::new(system_parts@.len(), |k: int| system_parts@[k]@);
    let mut j: usize = 0;
    while j < n
        invariant
            j <= n,
            Seq::new(system_parts@.len(), |k: int| system_parts@[k]@) + sp_system_parts(
                mv,
                j as int,
            ) =~= base + sp_system_parts(mv, 0),
        decreases n - j,
    {
        match &messages[j] {
            AiMessage::System(t) => {
                if !(*t == sentinel) {
                    system_parts.push(t.clone());
                }
            },
            _ => {},
        }
        j = j + 1;
        proof {
            assert(Seq::new(system_parts@.len(), |k: int| system_parts@[k]@) + sp_system_parts(
                mv,
                j as int,
            ) =~= base + sp_system_parts(mv, 0));
        }
    }
    let system_prompt = join_parts(&system_parts, "\n\n");
    proof {
        assert(Seq::new(system_parts@.len(), |k: int| system_parts@[k]@) =~= base
            + sp_system_parts(mv, 0));
        if !sp_has_sentinel(mv, 0) {
            match default_context {
                Some(d) => {
                    assert(base =~= seq![d@]);
                    assert(base + sp_system_parts(mv, 0) =~= seq![d@] + sp_system_parts(mv, 0));
                },
                None => {
                    assert(base + sp_system_parts(mv, 0) =~= sp_system_parts(mv, 0));
                },
            }
        } else {
            assert(base + sp_system_parts(mv, 0) =~= sp_system_parts(mv, 0));
        }
    }
    let mut user_parts: Vec<String> = Vec::new();
    let mut k: usize = 0;
    while k < n
        invariant
            k <= n,
            Seq::new(user_parts@.len(), |t: int| user_parts@[t]@) + sp_user_parts(mv, k as int)
                =~= sp_user_parts(mv, 0),
        decreases n - k,
    {
        match &messages[k] {
            AiMessage::User(t) => {
                user_parts.push(t.clone());
            },
            _ => {},
        }
        k = k + 1;
        proof {
            assert(Seq::new(user_parts@.len(), |t: int| user_parts@[t]@) + sp_user_parts(
                mv,
                k as int,
            ) =~= sp_user_parts(mv, 0));
        }
    }
    let user_prompt = join_parts(&user_parts, "\n");
    proof {
        assert(Seq::new(user_parts@.len(), |t: int| user_parts@[t]@) =~= sp_user_parts(mv, 0));
    }
    (system_prompt, user_prompt)
}

} // verus!
