//! On-demand context gathering: the FIFO queue of gather requests, the
//! store of registered gather operations, and the step that turns their
//! snippets into an entity's context.
use vstd::prelude::*;

use crate::dialogue::find_entry_index;
use crate::rag::AiContext;
use crate::rag::AiMessageView;

verus! {

broadcast use vstd::std_specs::vec::group_vec_axioms;

/// FIFO queue of entities waiting for a context gather.
#[derive(Debug)]
pub struct ContextGatherRequest(pub Vec<u64>);

impl View for ContextGatherRequest {
    type V = Seq<u64>;

    open spec fn view(&self) -> Seq<u64> {
        self.0@
    }
}

impl ContextGatherRequest {
    /// Fresh, empty queue.
    pub fn new() -> (r: Self)
        ensures
            r@ == Seq::<u64>::empty(),
    {
        ContextGatherRequest(Vec::new())
    }

    /// Queue a gather for the given entity, at the back.
    pub fn request(&mut self, entity: u64)
        ensures
            final(self)@ == old(self)@ + seq![entity],
    {
        self.0.push(entity);
        proof {
            assert(self@ =~= old(self)@ + seq![entity]);
        }
    }

    /// Pop the next entity to gather for, from the front.
    pub fn next(&mut self) -> (r: Option<u64>)
        ensures
            old(self)@.len() == 0 ==> (r is None && final(self)@ == old(self)@),
            old(self)@.len() > 0 ==> (r == Some(old(self)@[0]) && final(self)@ == old(
                self,
            )@.drop_first()),
    {
        if self.0.len() == 0 {
            None
        } else {
            let e = self.0.remove(0);
            proof {
                assert(self@ =~= old(self)@.drop_first());
            }
            Some(e)
        }
    }

    /// Whether any gather request is pending.
    pub fn has_pending(&self) -> (r: bool)
        ensures
            r == (self@.len() > 0),
    {
        self.0.len() > 0
    }
}

impl Default for ContextGatherRequest {
    /// The default queue is empty.
    fn default() -> (r: Self)
        ensures
            r@ == Seq::<u64>::empty(),
    {
        ContextGatherRequest::new()
    }
}

/// The registered gather operations, each named by a token that the host
/// maps to its world-reading logic.
#[derive(Debug)]
pub struct AiSystemContextStore {
    systems: Vec<u64>,
}

impl View for AiSystemContextStore {
    type V = Seq<u64>;

    closed spec fn view(&self) -> Seq<u64> {
        self.systems@
    }
}

impl AiSystemContextStore {
    /// Fresh store with no gather operations.
    pub fn new() -> (r: Self)
        ensures
            r@ == Seq::<u64>::empty(),
    {
        AiSystemContextStore { systems: Vec::new() }
    }

    /// Register one gather operation.
    pub fn add_system(&mut self, system: u64)
        ensures
            final(self)@ == old(self)@ + seq![system],
    {
        self.systems.push(system);
        proof {
            assert(self@ =~= old(self)@ + seq![system]);
        }
    }

    /// The registered gather operations.
    pub fn systems(&self) -> (r: &Vec<u64>)
        ensures
            r@ == self@,
    {
        &self.systems
    }
}

impl Default for AiSystemContextStore {
    /// The default store is empty.
    fn default() -> (r: Self)
        ensures
            r@ == Seq::<u64>::empty(),
    {
        AiSystemContextStore::new()
    }
}

/// The snippets actually collected: the texts of the operations that
/// returned one, in registration order.
pub open spec fn sp_collected(snippets: Seq<Option<String>>, i: int) -> Seq<Seq<char>>
    decreases snippets.len() - i,
{
    if !(0 <= i < snippets.len()) {
        Seq::empty()
    } else {
        match snippets[i] {
            Some(t) => seq![t@] + sp_collected(snippets, i + 1),
            None => sp_collected(snippets, i + 1),
        }
    }
}

/// The context such snippets build: one system message per snippet.
pub open spec fn sp_context_of(texts: Seq<Seq<char>>) -> Seq<AiMessageView> {
    Seq::new(texts.len(), |i: int| AiMessageView::System(texts[i]))
}

/// Model of the per-entity context table.
pub open spec fn ctxs_view(entries: Seq<(u64, AiContext)>) -> Seq<(u64, Seq<AiMessageView>)> {
    Seq::new(entries.len(), |i: int| (entries[i].0, entries[i].1@))
}

/// The context table after attaching `ctx` to `entity`: the first entry
/// for it is replaced, else one is appended.
pub open spec fn sp_attach(
    entries: Seq<(u64, Seq<AiMessageView>)>,
    entity: u64,
    ctx: Seq<AiMessageView>,
) -> Seq<(u64, Seq<AiMessageView>)>
    decreases entries.len(),
{
    if entries.len() == 0 {
        seq![(entity, ctx)]
    } else if entries[0].0 == entity {
        seq![(entity, ctx)] + entries.drop_first()
    } else {
        seq![entries[0]] + sp_attach(entries.drop_first(), entity, ctx)
    }
}

/// When `entity` first occurs at position `i`, attaching is updating
/// there.
proof fn lemma_attach_update(
    entries: Seq<(u64, Seq<AiMessageView>)>,
    entity: u64,
    ctx: Seq<AiMessageView>,
    i: int,
)
    requires
        0 <= i < entries.len(),
        forall|k: int| 0 <= k < i ==> (#[trigger] entries[k]).0 != entity,
        entries[i].0 == entity,
    ensures
        sp_attach(entries, entity, ctx) =~= entries.update(i, (entity, ctx)),
    decreases i,
{
    if i == 0 {
        assert(seq![(entity, ctx)] + entries.drop_first() =~= entries.update(0, (entity, ctx)));
    } else {
        assert(forall|k: int|
            0 <= k < i - 1 ==> (#[trigger] entries.drop_first()[k]) == entries[k + 1]);
        lemma_attach_update(entries.drop_first(), entity, ctx, i - 1);
        assert(seq![entries[0]] + entries.drop_first().update(i - 1, (entity, ctx))
            =~= entries.update(i, (entity, ctx)));
    }
}

/// When `entity` occurs nowhere, attaching is appending.
proof fn lemma_attach_append(
    entries: Seq<(u64, Seq<AiMessageView>)>,
    entity: u64,
    ctx: Seq<AiMessageView>,
)
    requires
        forall|k: int| 0 <= k < entries.len() ==> (#[trigger] entries[k]).0 != entity,
    ensures
        sp_attach(entries, entity, ctx) =~= entries.push((entity, ctx)),
    decreases entries.len(),
{
    if entries.len() == 0 {
        assert(sp_attach(entries, entity, ctx) =~= entries.push((entity, ctx)));
    } else {
        assert(forall|k: int|
            0 <= k < entries.drop_first().len() ==> (#[trigger] entries.drop_first()[k])
                == entries[k + 1]);
        lemma_attach_append(entries.drop_first(), entity, ctx);
        assert(seq![entries[0]] + entries.drop_first().push((entity, ctx)) =~= entries.push(
            (entity, ctx),
        ));
    }
}

/// One gather step. The host runs each registered gather operation for
/// the entity at the front of the queue and hands their results here, in
/// registration order; the step pops that entity and, when at least one
/// operation returned a snippet, replaces the entity's context with the
/// collected snippets as system messages. With an empty queue, or when
/// every operation returned nothing, no context changes.
#[verifier::loop_isolation(false)]
pub fn gather_step(
    req: &mut ContextGatherRequest,
    snippets: &Vec<Option<String>>,
    contexts: &mut Vec<(u64, AiContext)>,
) -> (gathered: Option<u64>)
    ensures
        old(req)@.len() == 0 ==> (gathered is None && final(req)@ == old(req)@ && final(contexts)@
            == old(contexts)@),
        old(req)@.len() > 0 ==> {
            let entity = old(req)@[0];
            let texts = sp_collected(snippets@, 0);
            &&& gathered == Some(entity)
            &&& final(req)@ == old(req)@.drop_first()
            &&& (texts.len() == 0 ==> final(contexts)@ == old(contexts)@)
            &&& (texts.len() > 0 ==> ctxs_view(final(contexts)@) == sp_attach(
                ctxs_view(old(contexts)@),
                entity,
                sp_context_of(texts),
            ))
        },
{
    let entity = match req.next() {
        Some(e) => e,
        None => {
            return None;
        },
    };
    let n = snippets.len();
    let mut ctx = AiContext::new();
    let mut i: usize = 0;
    while i < n
        invariant
            i <= n,
            ctx@ + sp_context_of(sp_collected(snippets@, i as int)) =~= sp_context_of(
                sp_collected(snippets@, 0),
            ),
        decreases n - i,
    {
        match &snippets[i] {
            Some(text) => {
                ctx.add_context(text.as_str());
            },
            None => {},
        }
        i = i + 1;
        proof {
            assert(ctx@ + sp_context_of(sp_collected(snippets@, i as int)) =~= sp_context_of(
                sp_collected(snippets@, 0),
            ));
        }
    }
    proof {
        assert(ctx@ =~= sp_context_of(sp_collected(snippets@, 0)));
    }
    if ctx.messages().len() > 0 {
        let ghost before = ctxs_view(contexts@);
        match find_entry_index(contexts, entity) {
            Some(idx) => {
                contexts.set(idx, (entity, ctx));
                proof {
                    assert forall|k: int| 0 <= k < idx implies (#[trigger] before[k]).0 != entity
                        by {
                        assert(before[k].0 == old(contexts)@[k].0);
                    }
                    assert(before[idx as int].0 == entity);
                    lemma_attach_update(before, entity, sp_context_of(sp_collected(snippets@, 0)), idx as int);
                    assert(ctxs_view(contexts@) =~= before.update(
                        idx as int,
                        (entity, sp_context_of(sp_collected(snippets@, 0))),
                    ));
                }
            },
            None => {
                proof {
                    crate::dialogue::lemma_assoc_none_all(contexts@, entity);
                }
                contexts.push((entity, ctx));
                proof {
                    assert forall|k: int| 0 <= k < before.len() implies (#[trigger] before[k]).0
                        != entity by {
                        assert(before[k].0 == old(contexts)@[k].0);
                    }
                    lemma_attach_append(before, entity, sp_context_of(sp_collected(snippets@, 0)));
                    assert(ctxs_view(contexts@) =~= before.push(
                        (entity, sp_context_of(sp_collected(snippets@, 0))),
                    ));
                }
            },
        }
    }
    Some(entity)
}

} // verus!
