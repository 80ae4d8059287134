//! Inference over many requests at once, with a bound on how many are in work.

use vstd::prelude::*;

use crate::chunks::{all_work_gets_done, Dispatch, DispatchView};
use crate::inference::{
    batch_refusal, batch_reply, check_batch, infer_refusal, is_prepared, item_view, items_refusal,
    parallel_of, validate_batch, validate_infer_request, BatchItem, BatchLedger,
    InferExecutionError, ItemView, PreparedInferRequest,
};
use crate::models::{InferRequest, InferResponse};
use crate::response::{internal_error, internal_view, Reply, ReplyView};
use crate::runs::{opt_snapshot, RunSnapshot};

verus! {

/// What is said of a request for inference in replies.
pub const INFER_CONTEXT: &'static str = "invalid infer payload";

/// Checks a request for inference, for which there has to be a provider.
pub fn check_infer(
    request_id: &str,
    has_provider: bool,
    payload: &InferRequest,
    model: &Result<String, String>,
    snapshot: &Option<RunSnapshot>,
    principal: &str,
) -> (r: Result<PreparedInferRequest, Reply>)
    ensures
        ({
            let refusal = infer_refusal(
                request_id@,
                INFER_CONTEXT@,
                *payload,
                *model,
                opt_snapshot(*snapshot),
                principal@,
            );
            match r {
                Ok(p) => has_provider && refusal is None && is_prepared(p, *payload, *model),
                Err(reply) => if has_provider {
                    refusal == Some(reply@)
                } else {
                    reply@ == internal_view(request_id@)
                },
            }
        }),
{
    if !has_provider {
        return Err(internal_error(request_id));
    }
    validate_infer_request(request_id, INFER_CONTEXT, payload, model, snapshot, principal)
}

/// What is in work of a batch, and what came back.
#[derive(Debug)]
pub struct BatchRun {
    dispatch: Dispatch,
    ledger: BatchLedger,
}

/// How a batch stands.
pub ghost struct BatchRunView {
    pub dispatch: DispatchView,
    pub items: Seq<Option<ItemView>>,
}

impl View for BatchRun {
    type V = BatchRunView;

    closed spec fn view(&self) -> BatchRunView {
        BatchRunView { dispatch: self.dispatch@, items: self.ledger@ }
    }
}

impl BatchRunView {
    /// What is done is what came back.
    pub open spec fn valid(self) -> bool {
        &&& self.dispatch.valid()
        &&& self.items.len() == self.dispatch.total
        &&& forall|i: int|
            0 <= i < self.items.len() ==> (#[trigger] self.items[i] is Some
                == self.dispatch.done[i])
    }
}

/// The refusal of a batch: without a provider, for its size, or for the first
/// request in it that is refused.
pub open spec fn batch_run_refusal(
    request_id: Seq<char>,
    has_provider: bool,
    items: Seq<BatchItem>,
    max_parallel: Option<usize>,
    principal: Seq<char>,
) -> Option<ReplyView> {
    if !has_provider {
        Some(internal_view(request_id))
    } else {
        match batch_refusal(request_id, items.len(), max_parallel) {
            Some(reply) => Some(reply),
            None => items_refusal(request_id, items, principal),
        }
    }
}

/// Takes up a batch: the requests that are to be carried out, and the record of
/// what came back of them.
pub fn infer_batch(
    request_id: &str,
    has_provider: bool,
    items: &Vec<BatchItem>,
    max_parallel: Option<usize>,
    principal: &str,
) -> (r: Result<(Vec<PreparedInferRequest>, BatchRun), Reply>)
    ensures
        match r {
            Ok((prepared, run)) => {
                &&& batch_run_refusal(
                    request_id@,
                    has_provider,
                    items@,
                    max_parallel,
                    principal@,
                ) is None
                &&& run.wf()
                &&& run@.valid()
                &&& run@.dispatch.total == items@.len()
                &&& prepared@.len() == items@.len()
                &&& forall|i: int|
                    0 <= i < items@.len() ==> is_prepared(
                        #[trigger] prepared@[i],
                        items@[i].payload,
                        items@[i].model,
                    )
                &&& run@.items == Seq::new(items@.len(), |i: int| None::<ItemView>)
                &&& run@.dispatch.next == 0
                &&& run@.dispatch.running == 0
                &&& run@.dispatch.limit == if parallel_of(max_parallel) < items@.len() {
                    parallel_of(max_parallel) as int
                } else {
                    items@.len() as int
                }
            },
            Err(reply) => batch_run_refusal(
                request_id@,
                has_provider,
                items@,
                max_parallel,
                principal@,
            ) == Some(reply@),
        },
{
    if !has_provider {
        return Err(internal_error(request_id));
    }
    let parallel: usize = match check_batch(request_id, items.len(), max_parallel) {
        Ok(n) => n,
        Err(reply) => return Err(reply),
    };
    let prepared = match validate_batch(request_id, items, principal) {
        Ok(prepared) => prepared,
        Err(reply) => return Err(reply),
    };
    let total: usize = items.len();
    let dispatch = Dispatch::new(total, parallel);
    Ok((prepared, BatchRun { dispatch, ledger: BatchLedger::new(total) }))
}

impl BatchRun {
    /// What is done is what came back.
    pub closed spec fn wf(&self) -> bool {
        &&& self@.valid()
        &&& self.ledger.wf()
    }

    /// The next request to carry out, where there is one and the bound allows
    /// it.
    pub fn next_request(&mut self) -> (r: Option<usize>)
        requires
            old(self).wf(),
        ensures
            final(self).wf(),
            final(self)@.valid(),
            final(self)@.items == old(self)@.items,
            match r {
                Some(i) => i == old(self)@.dispatch.next < old(self)@.dispatch.total && old(
                    self,
                )@.dispatch.running < old(self)@.dispatch.limit && final(self)@.dispatch == (
                DispatchView {
                    next: old(self)@.dispatch.next + 1,
                    running: old(self)@.dispatch.running + 1,
                    ..old(self)@.dispatch
                }),
                None => final(self)@.dispatch == old(self)@.dispatch && (old(self)@.dispatch.next
                    == old(self)@.dispatch.total || old(self)@.dispatch.running == old(
                    self,
                )@.dispatch.limit),
            },
    {
        self.dispatch.start()
    }

    /// Takes in what came back of a request. One that is not in work is passed
    /// over.
    pub fn request_done(
        &mut self,
        index: usize,
        result: Result<InferResponse, InferExecutionError>,
    ) -> (r: bool)
        requires
            old(self).wf(),
        ensures
            final(self).wf(),
            final(self)@.valid(),
            r == (index < old(self)@.dispatch.next && old(self)@.items[index as int] is None),
            r ==> final(self)@ == (BatchRunView {
                dispatch: DispatchView {
                    running: old(self)@.dispatch.running - 1,
                    done: old(self)@.dispatch.done.update(index as int, true),
                    ..old(self)@.dispatch
                },
                items: old(self)@.items.update(index as int, Some(item_view(result))),
            }),
            !r ==> final(self)@ == old(self)@,
    {
        if !self.dispatch.finish(index) {
            return false;
        }
        self.ledger.record(index, result);
        true
    }

    /// Whether no request is in work.
    pub fn is_idle(&self) -> (r: bool)
        requires
            self.wf(),
        ensures
            r == (self@.dispatch.running == 0),
    {
        self.dispatch.is_idle()
    }

    /// The reply with what came back, in the order of the requests.
    pub fn finish(&self, request_id: &str) -> (r: Reply)
        requires
            self.wf(),
        ensures
            r@ == batch_reply(request_id@, self@.items),
    {
        self.ledger.finish(request_id)
    }
}

/// When nothing is in work and nothing can be taken up, every request of a
/// batch came back.
pub proof fn batches_are_carried_out_whole(b: BatchRunView)
    requires
        b.valid(),
        b.dispatch.running == 0,
        b.dispatch.next == b.dispatch.total || b.dispatch.running == b.dispatch.limit,
    ensures
        forall|i: int| 0 <= i < b.items.len() ==> #[trigger] b.items[i] is Some,
{
    all_work_gets_done(b.dispatch);
}

/// A batch is refused exactly if there is nobody to ask, if it does not keep its
/// bounds, or if one of its questions is refused.
pub proof fn batches_are_refused_for_cause(
    request_id: Seq<char>,
    has_provider: bool,
    items: Seq<BatchItem>,
    max_parallel: Option<usize>,
    principal: Seq<char>,
)
    ensures
        batch_run_refusal(request_id, has_provider, items, max_parallel, principal) is None <==> {
            &&& has_provider
            &&& 1 <= items.len() <= 256
            &&& max_parallel matches Some(n) ==> 1 <= n <= 64
            &&& items_refusal(request_id, items, principal) is None
        },
        !has_provider ==> batch_run_refusal(
            request_id,
            has_provider,
            items,
            max_parallel,
            principal,
        )->0.status == 500,
{
}

} // verus!
