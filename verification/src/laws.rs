//! The library's general guarantees, stated and proved once over the spec
//! functions that the executable contracts use.
use vstd::prelude::*;

use crate::context::sp_collected;
use crate::dialogue::DialogueRequestKindView;
use crate::dialogue::DialogueRequestView;
use crate::dialogue::DialogueReceiver;
use crate::dialogue::DialogueResponseView;
use crate::dialogue::sp_actions_for;
use crate::dialogue::sp_assoc;
use crate::dialogue::sp_request_step;
use crate::json::Jv;
use crate::json::sp_parse_json;
use crate::parse::sp_code_block;
use crate::parse::sp_error_excerpt;
use crate::parse::sp_error_prefix;
use crate::parse::sp_extract_and_parse;
use crate::parse::sp_extract_obj;
use crate::rag::AiContext;

verus! {

/// A response that is entirely one JSON value is recovered as that value,
/// whatever the fallback chain might have found later.
pub proof fn lemma_extract_recovers_pure(t: Seq<char>, v: Jv)
    requires
        sp_parse_json(t) == Some(v),
    ensures
        sp_extract_and_parse(t) == Some(v),
{
}

/// A response whose fenced code block is one JSON value is recovered as
/// that value when the whole text is not itself JSON.
pub proof fn lemma_extract_recovers_fenced(t: Seq<char>, b: Seq<char>, v: Jv)
    requires
        sp_parse_json(t) is None,
        sp_code_block(t) == Some(b),
        sp_parse_json(b) == Some(v),
    ensures
        sp_extract_and_parse(t) == Some(v),
{
}

/// A response whose first balanced object span is one JSON value is
/// recovered as that value when neither the whole text nor a fenced
/// block gave one.
pub proof fn lemma_extract_recovers_embedded(t: Seq<char>, o: Seq<char>, v: Jv)
    requires
        sp_parse_json(t) is None,
        (sp_code_block(t) matches Some(b) ==> sp_parse_json(b) is None),
        sp_extract_obj(t) == Some(o),
        sp_parse_json(o) == Some(v),
    ensures
        sp_extract_and_parse(t) == Some(v),
{
}

/// The failure detail of the extraction is bounded: at most 200
/// characters of the response and an ellipsis, after a fixed prefix.
pub proof fn lemma_error_message_bounded(s: Seq<char>)
    ensures
        sp_error_excerpt(s).len() <= 203,
        (sp_error_prefix() + sp_error_excerpt(s)).len() <= sp_error_prefix().len() + 203,
{
}

/// A typed response's derived actions all carry the request's declared
/// action name, whatever the JSON contained.
pub proof fn lemma_typed_action_name_forced(resp: DialogueResponseView)
    requires
        resp.actions is None,
        resp.kind is Typed,
    ensures
        match resp.kind {
            DialogueRequestKindView::Typed { action_name, .. } => forall|k: int|
                0 <= k < sp_actions_for(resp).len() ==> (#[trigger] sp_actions_for(
                    resp,
                )[k]).name == action_name,
            _ => true,
        },
{
    match resp.kind {
        DialogueRequestKindView::Typed { action_name, .. } => {
            match sp_parse_json(resp.response) {
                Some(v) => match v {
                    Jv::Obj(ms) => {
                        assert(sp_actions_for(resp).len() == 1);
                    },
                    Jv::Arr(items) => {
                        assert(sp_actions_for(resp).len() == items.len());
                    },
                    _ => {
                        assert(sp_actions_for(resp).len() == 0);
                    },
                },
                None => {
                    assert(sp_actions_for(resp).len() == 0);
                },
            }
        },
        _ => {},
    }
}

/// When every gather operation returns nothing, nothing is collected, so
/// a gather attaches no context.
pub proof fn lemma_empty_gather_collects_nothing(snippets: Seq<Option<String>>)
    requires
        forall|k: int| 0 <= k < snippets.len() ==> (#[trigger] snippets[k]) is None,
    ensures
        sp_collected(snippets, 0).len() == 0,
{
    lemma_empty_gather_from(snippets, 0);
}

proof fn lemma_empty_gather_from(snippets: Seq<Option<String>>, i: int)
    requires
        forall|k: int| 0 <= k < snippets.len() ==> (#[trigger] snippets[k]) is None,
        0 <= i,
    ensures
        sp_collected(snippets, i).len() == 0,
    decreases snippets.len() - i,
{
    if i < snippets.len() {
        lemma_empty_gather_from(snippets, i + 1);
    }
}

/// A preprogrammed receiver short-circuits its request: the response is
/// exactly the preprogrammed text, and no backend call and no gather
/// happen for it.
pub proof fn lemma_preprogrammed_short_circuits(
    req: DialogueRequestView,
    receivers: Seq<(u64, DialogueReceiver)>,
    contexts: Seq<(u64, AiContext)>,
    store_nonempty: bool,
)
    requires
        ({
            let r = sp_assoc(receivers, req.entity);
            r matches Some(rv) && rv.preprogrammed is Some
        }),
    ensures
        ({
            let st = sp_request_step(req, receivers, contexts, store_nonempty);
            let rv = sp_assoc(receivers, req.entity).unwrap();
            &&& st.job is None
            &&& st.gather is None
            &&& st.response matches Some(resp) && resp.entity == req.entity && resp.response
                == rv.preprogrammed.unwrap()@ && resp.actions is None
        }),
{
}

} // verus!

verus! {

/// Round trip: the canonical text of a well-formed payload's parameters,
/// handed back through the extraction path, recovers exactly those
/// parameters. Well-formedness asks only that number lexemes be complete
/// number texts, which the parser itself and the builder's callers
/// produce. The length bound only rules out texts too large for the
/// parser's fuel to count.
pub proof fn lemma_payload_round_trip(params: Jv)
    requires
        crate::roundtrip::sp_wf(params),
        crate::json::sp_print(params).len() + 1 <= 0xFFFF_FFFF_FFFF_FFFF,
    ensures
        sp_extract_and_parse(crate::json::sp_print(params)) == Some(params),
{
    crate::roundtrip::lemma_print_parse_round_trip(params);
    lemma_extract_recovers_pure(crate::json::sp_print(params), params);
}

} // verus!

verus! {

/// When no receiver short-circuits, every queued request becomes exactly
/// one prompt job, in the order the requests were submitted.
pub proof fn lemma_requests_kept_in_order(
    reqs: Seq<DialogueRequestView>,
    receivers: Seq<(u64, DialogueReceiver)>,
    contexts: Seq<(u64, AiContext)>,
    store_nonempty: bool,
    i: int,
)
    requires
        0 <= i <= reqs.len(),
        forall|k: int|
            0 <= k < reqs.len() ==> (match sp_assoc(receivers, (#[trigger] reqs[k]).entity) {
                Some(rv) => rv.preprogrammed is None,
                None => true,
            }),
    ensures
        ({
            let out = crate::dialogue::sp_handle_requests(
                reqs,
                receivers,
                contexts,
                store_nonempty,
                i,
            );
            &&& out.jobs.len() == reqs.len() - i
            &&& forall|k: int|
                i <= k < reqs.len() ==> (#[trigger] out.jobs[k - i]).entity == reqs[k].entity
                    && out.jobs[k - i].kind == reqs[k].kind
        }),
    decreases reqs.len() - i,
{
    if i < reqs.len() {
        lemma_requests_kept_in_order(reqs, receivers, contexts, store_nonempty, i + 1);
        let st = sp_request_step(reqs[i], receivers, contexts, store_nonempty);
        assert(match sp_assoc(receivers, reqs[i].entity) {
            Some(rv) => rv.preprogrammed is None,
            None => true,
        });
        assert(st.job matches Some(j) && j.entity == reqs[i].entity && j.kind == reqs[i].kind);
        let out = crate::dialogue::sp_handle_requests(reqs, receivers, contexts, store_nonempty, i);
        let rest = crate::dialogue::sp_handle_requests(
            reqs,
            receivers,
            contexts,
            store_nonempty,
            i + 1,
        );
        assert(out.jobs == crate::dialogue::opt_seq(st.job) + rest.jobs);
        assert(crate::dialogue::opt_seq(st.job) =~= seq![st.job.unwrap()]);
        assert(out.jobs =~= seq![st.job.unwrap()] + rest.jobs);
        assert forall|k: int|
            i <= k < reqs.len() implies (#[trigger] out.jobs[k - i]).entity == reqs[k].entity
            && out.jobs[k - i].kind == reqs[k].kind by {
            if k == i {
                assert(out.jobs[0] == (seq![st.job.unwrap()] + rest.jobs)[0]);
                assert(out.jobs[0] == st.job.unwrap());
            } else {
                assert(out.jobs[k - i] == (seq![st.job.unwrap()] + rest.jobs)[k - i]);
                assert(out.jobs[k - i] == rest.jobs[k - i - 1]);
                assert(rest.jobs[k - (i + 1)].entity == reqs[k].entity && rest.jobs[k - (i
                    + 1)].kind == reqs[k].kind);
            }
        }
    }
}

} // verus!
