//! The inference over all chunks of a run: either one after the other, each
//! told what the one before showed, or several at once.

use vstd::prelude::*;

use crate::chunk_infer::{begun, fallen_back, semantic_join_failure_result};
use crate::chunk_result::{ChunkSemanticResult, ChunkView};
use crate::chunks::{
    chain_after, chain_prompt_of, chosen, lemma_done_bounds, ChainState, ChainView, Dispatch,
    DispatchView,
};
use crate::text::owned;

verus! {

/// A chunk that is to be looked at now.
#[derive(Debug)]
pub struct ChunkCall {
    pub index: usize,
    pub prompt: String,
    /// The frame that goes along: the chunk it belongs to, and its position.
    pub prev_frame: Option<(usize, usize)>,
}

/// The inference over all chunks of a run.
#[derive(Debug)]
pub struct SemanticDispatch {
    chained: bool,
    visual_diff: bool,
    dispatch: Dispatch,
    chain: ChainState,
    prev_frame: Option<(usize, usize)>,
    results: Vec<Option<ChunkSemanticResult>>,
}

/// How the inference over all chunks stands.
pub ghost struct SemanticDispatchView {
    pub chained: bool,
    pub visual_diff: bool,
    pub dispatch: DispatchView,
    pub chain: ChainView,
    pub prev_frame: Option<(usize, usize)>,
    pub results: Seq<Option<ChunkView>>,
}

/// What is known of a chunk, where it is done.
pub open spec fn opt_chunk(r: Option<ChunkSemanticResult>) -> Option<ChunkView> {
    match r {
        Some(c) => Some(c@),
        None => None,
    }
}

/// What is known of each chunk.
pub open spec fn chunk_views(s: Seq<Option<ChunkSemanticResult>>) -> Seq<Option<ChunkView>> {
    s.map_values(|r: Option<ChunkSemanticResult>| opt_chunk(r))
}

impl View for SemanticDispatch {
    type V = SemanticDispatchView;

    closed spec fn view(&self) -> SemanticDispatchView {
        SemanticDispatchView {
            chained: self.chained,
            visual_diff: self.visual_diff,
            dispatch: self.dispatch@,
            chain: self.chain@,
            prev_frame: self.prev_frame,
            results: chunk_views(self.results@),
        }
    }
}

impl SemanticDispatchView {
    /// The bookkeeping is right, and chained chunks go one by one.
    pub open spec fn valid(self) -> bool {
        &&& self.dispatch.valid()
        &&& self.dispatch.total <= self.results.len()
        &&& self.chained ==> self.dispatch.limit == 1
    }

    /// What the next chunk is asked: chained, with what the one before showed.
    pub open spec fn prompt(self, semantic_prompt: Seq<char>) -> Seq<char> {
        if self.chained {
            chain_prompt_of(self.chain, semantic_prompt)
        } else {
            semantic_prompt
        }
    }

    /// The frame that goes along with the next chunk.
    pub open spec fn frame_along(self) -> Option<(usize, usize)> {
        if self.chained && self.visual_diff {
            self.prev_frame
        } else {
            None
        }
    }

    /// With one more chunk handed out.
    pub open spec fn handed_out(self) -> Self {
        SemanticDispatchView {
            dispatch: DispatchView {
                next: self.dispatch.next + 1,
                running: self.dispatch.running + 1,
                ..self.dispatch
            },
            ..self
        }
    }

    /// A chunk is in work.
    pub open spec fn in_work(self, index: int) -> bool {
        0 <= index < self.dispatch.next && !self.dispatch.done[index]
    }

    /// With the result of one more chunk. Chained, it is told to the next one;
    /// the frame that stands for it goes along, where it has any.
    pub open spec fn brought_back(
        self,
        index: int,
        frame_count: int,
        pts_end_ms: u64,
        c: ChunkView,
    ) -> Self {
        SemanticDispatchView {
            dispatch: DispatchView {
                running: self.dispatch.running - 1,
                done: self.dispatch.done.update(index, true),
                ..self.dispatch
            },
            chain: if self.chained {
                chain_after(
                    self.chain,
                    c.raw_text,
                    match c.overlay {
                        Some(o) => Some(o.description),
                        None => None,
                    },
                    pts_end_ms,
                )
            } else {
                self.chain
            },
            prev_frame: if self.chained && self.visual_diff && frame_count > 0 {
                Some((index as usize, chosen(frame_count, 1)[0] as usize))
            } else {
                self.prev_frame
            },
            results: self.results.update(index, Some(c)),
            ..self
        }
    }
}

impl SemanticDispatch {
    /// The bookkeeping is right.
    pub open spec fn wf(&self) -> bool {
        self@.valid()
    }

    /// The inference over `total` chunks, none of which is looked at where
    /// inference is not available.
    pub fn new(
        total: usize,
        semantic_available: bool,
        temporal_chain: bool,
        visual_diff: bool,
        concurrency: usize,
    ) -> (r: Self)
        ensures
            r.wf(),
            r@.chained == temporal_chain,
            r@.visual_diff == visual_diff,
            r@.dispatch.total == if semantic_available {
                total as int
            } else {
                0
            },
            r@.dispatch.limit == if temporal_chain || concurrency < 1 {
                1
            } else {
                concurrency as int
            },
            r@.dispatch.next == 0,
            r@.dispatch.running == 0,
            r@.chain == (ChainView { last_description: Seq::empty(), last_pts_ms: 0 }),
            r@.prev_frame is None,
            r@.results == Seq::new(total as nat, |i: int| None::<ChunkView>),
    {
        let mut results: Vec<Option<ChunkSemanticResult>> = Vec::new();
        let mut i: usize = 0;
        while i < total
            invariant
                i <= total,
                results@.len() == i,
                forall|k: int| 0 <= k < i ==> (#[trigger] results@[k]) is None,
            decreases total - i,
        {
            results.push(None);
            i += 1;
        }
        assert(chunk_views(results@) =~= Seq::new(total as nat, |i: int| None::<ChunkView>));
        let items: usize = if semantic_available {
            total
        } else {
            0
        };
        let limit: usize = if temporal_chain {
            1
        } else {
            concurrency
        };
        SemanticDispatch {
            chained: temporal_chain,
            visual_diff,
            dispatch: Dispatch::new(items, limit),
            chain: ChainState::new(),
            prev_frame: None,
            results,
        }
    }

    /// The next chunk to look at, where there is one and the bound allows it.
    pub fn next_chunk(&mut self, semantic_prompt: &str) -> (r: Option<ChunkCall>)
        requires
            old(self).wf(),
        ensures
            final(self).wf(),
            match r {
                Some(call) => {
                    &&& call.index == old(self)@.dispatch.next < old(self)@.dispatch.total
                    &&& old(self)@.dispatch.running < old(self)@.dispatch.limit
                    &&& call.prompt@ == old(self)@.prompt(semantic_prompt@)
                    &&& call.prev_frame == old(self)@.frame_along()
                    &&& final(self)@ == old(self)@.handed_out()
                },
                None => final(self)@ == old(self)@ && (old(self)@.dispatch.next == old(
                    self,
                )@.dispatch.total || old(self)@.dispatch.running == old(self)@.dispatch.limit),
            },
    {
        match self.dispatch.start() {
            Some(index) => {
                let prompt = if self.chained {
                    self.chain.prompt(semantic_prompt)
                } else {
                    owned(semantic_prompt)
                };
                let prev_frame = if self.chained && self.visual_diff {
                    self.prev_frame
                } else {
                    None
                };
                Some(ChunkCall { index, prompt, prev_frame })
            },
            None => None,
        }
    }

    /// Takes in the result of a chunk. A chunk that is not in work is passed
    /// over.
    pub fn chunk_done(
        &mut self,
        index: usize,
        frame_count: usize,
        pts_end_ms: u64,
        result: ChunkSemanticResult,
    ) -> (r: bool)
        requires
            old(self).wf(),
        ensures
            final(self).wf(),
            r == old(self)@.in_work(index as int),
            r ==> final(self)@ == old(self)@.brought_back(
                index as int,
                frame_count as int,
                pts_end_ms,
                result@,
            ),
            !r ==> final(self)@ == old(self)@,
    {
        if !self.dispatch.finish(index) {
            return false;
        }
        if self.chained {
            let description = match &result.overlay {
                Some(o) => Some(o.description.as_str()),
                None => None,
            };
            let raw_text = match &result.raw_text {
                Some(t) => Some(t.as_str()),
                None => None,
            };
            self.chain.observe(raw_text, description, pts_end_ms);
            if self.visual_diff && frame_count > 0 {
                self.prev_frame = Some((index, frame_count / 2));
            }
        }
        let ghost before = self.results@;
        let ghost c = result@;
        self.results.set(index, Some(result));
        assert(chunk_views(self.results@) =~= chunk_views(before).update(index as int, Some(c)));
        true
    }

    /// Takes in that the task of a chunk broke down.
    pub fn task_broke(&mut self, index: usize, pts_end_ms: u64, error: &str) -> (r: bool)
        requires
            old(self).wf(),
        ensures
            final(self).wf(),
            r == old(self)@.in_work(index as int),
            r ==> final(self)@ == old(self)@.brought_back(
                index as int,
                0,
                pts_end_ms,
                fallen_back(begun(), "join_error:"@ + error@),
            ),
            !r ==> final(self)@ == old(self)@,
    {
        self.chunk_done(index, 0, pts_end_ms, semantic_join_failure_result(error))
    }

    /// Whether no chunk is in work.
    pub fn is_idle(&self) -> (r: bool)
        requires
            self.wf(),
        ensures
            r == (self@.dispatch.running == 0),
    {
        self.dispatch.is_idle()
    }

    /// What is known of each chunk.
    pub fn into_results(self) -> (r: Vec<Option<ChunkSemanticResult>>)
        ensures
            chunk_views(r@) == self@.results,
    {
        self.results
    }
}

// ---------------------------------------------------------------- laws
/// A chained chunk is handed out only when every chunk before it is done, so
/// that it can be told what they showed.
pub proof fn chained_chunks_wait_for_each_other(d: SemanticDispatchView, i: int)
    requires
        d.valid(),
        d.chained,
        d.dispatch.running < d.dispatch.limit,
        0 <= i < d.dispatch.next,
    ensures
        d.dispatch.done[i],
{
    lemma_done_bounds(d.dispatch.done, d.dispatch.next);
}

/// Chunks that are not chained are all asked the same, and no frame of another
/// chunk goes along.
pub proof fn unchained_chunks_do_not_depend_on_each_other(
    d: SemanticDispatchView,
    semantic_prompt: Seq<char>,
)
    requires
        !d.chained,
    ensures
        d.prompt(semantic_prompt) == semantic_prompt,
        d.frame_along() is None,
{
}

/// The result of one chunk leaves those of the others as they are.
pub proof fn results_are_kept(
    d: SemanticDispatchView,
    index: int,
    frame_count: int,
    pts_end_ms: u64,
    c: ChunkView,
    other: int,
)
    requires
        d.valid(),
        d.in_work(index),
        0 <= other < d.results.len(),
    ensures
        d.brought_back(index, frame_count, pts_end_ms, c).results[other] == if other
            == index {
            Some(c)
        } else {
            d.results[other]
        },
{
}

/// A result that is brought back takes its own place, and a chunk that ended
/// frees a place for the next.
pub proof fn results_take_their_place(
    d: SemanticDispatchView,
    index: int,
    frame_count: int,
    pts_end_ms: u64,
    c: ChunkView,
    other: int,
)
    requires
        d.valid(),
        d.in_work(index),
    ensures
        ({
            let after = d.brought_back(index, frame_count, pts_end_ms, c);
            &&& after.results[index] == Some(c)
            &&& 0 <= other < d.results.len() && other != index ==> after.results[other]
                == d.results[other]
            &&& after.results.len() == d.results.len()
            &&& after.dispatch.running == d.dispatch.running - 1
            &&& after.dispatch.next == d.dispatch.next
            &&& !d.chained ==> after.chain == d.chain && after.prev_frame == d.prev_frame
        }),
{
}

/// Unchained chunks are all asked the same; chained ones with what was told of
/// those before.
pub proof fn unchained_prompts_are_the_same(d: SemanticDispatchView, semantic_prompt: Seq<char>)
    ensures
        !d.chained ==> d.prompt(semantic_prompt) == semantic_prompt && d.frame_along() is None,
        d.chained ==> d.prompt(semantic_prompt) == chain_prompt_of(d.chain, semantic_prompt),
        d.chained && d.visual_diff ==> d.frame_along() == d.prev_frame,
{
}

} // verus!
