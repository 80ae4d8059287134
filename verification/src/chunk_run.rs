//! The inference over one chunk as a whole: from how a task stands and what
//! came back of the last step to what is to be done next.

use vstd::prelude::*;

use crate::chunk_infer::{
    apply_audio, apply_feedback, apply_outcome, begin_chunk, begin_result, begun, chunk_images,
    chunk_prompt, chunk_request, evidence_of, extraction_failed, fallen_back, feedback_text,
    finish_local_audio_result, frame_texts, image_texts, jpeg_text, media_evidence, prompt_of, read_as_overlay,
    request_of, spoken_text, with_audio, with_feedback, with_local_audio, with_outcome, AudioCall,
    AudioOutcome, ChunkRequest, ChunkRequestView, ChunkStart, DecodedJpegFrame, ExtractedClip,
    FeedbackOutcome, InferenceImage, ProviderOutcome,
};
use crate::chunk_result::{untried, ChunkSemanticResult, ChunkView};
use crate::chunks::{
    chosen, index_views, select_semantic_images, ClipSpec, MediaResolution, SemanticMediaMode,
};
use crate::codec::encodable;
use crate::text::{opt_text, owned};

verus! {

/// A chunk that a model is to look at, and how.
#[derive(Debug)]
pub struct ChunkTask {
    /// Whether inference is wanted and possible at all.
    pub semantic_available: bool,
    /// Whether there is a provider to ask.
    pub has_provider: bool,
    pub first_pass_model: String,
    pub semantic_prompt: String,
    pub timeout_ms: u64,
    pub frames_per_chunk: usize,
    pub frames: Vec<DecodedJpegFrame>,
    pub frame_start_index: u64,
    pub pts_start_ms: u64,
    pub pts_end_ms: u64,
    pub custom_schema: Option<String>,
    pub prev_jpeg: Option<Vec<u8>>,
    pub clip_spec: Option<ClipSpec>,
    /// Whether something listens to the sound of clips.
    pub local_audio: bool,
    pub voice_feedback: bool,
}

impl ChunkTask {
    /// Every picture fits the text that it is sent as.
    pub open spec fn wf(&self) -> bool {
        &&& forall|i: int|
            0 <= i < self.frames@.len() ==> encodable((#[trigger] self.frames@[i]).jpeg_bytes@)
        &&& self.prev_jpeg is Some ==> encodable(self.prev_jpeg->0@)
    }

    /// Something listens to this chunk: only a clip has sound.
    pub open spec fn listens(&self) -> bool {
        self.clip_spec is Some && self.local_audio
    }

    /// What the clip shows, where there is one.
    pub open spec fn mode(&self) -> Option<SemanticMediaMode> {
        match self.clip_spec {
            Some(c) => Some(c.mode),
            None => None,
        }
    }

    /// The frames that stand for the chunk.
    pub open spec fn picked(&self) -> Seq<int> {
        chosen(self.frames@.len() as int, self.frames_per_chunk as int)
    }
}

/// A question to a model about a chunk.
#[derive(Debug)]
pub struct ChunkQuestion {
    pub model: String,
    pub prompt: String,
    pub images: Vec<InferenceImage>,
    /// Whether the clip of the chunk goes along.
    pub shows_clip: bool,
    /// How finely the clip is to be looked at, where it goes along.
    pub media_resolution: Option<MediaResolution>,
    pub request: ChunkRequest,
}

/// What a question to a model is.
pub ghost struct QuestionView {
    pub model: Seq<char>,
    pub prompt: Seq<char>,
    /// The kind of each picture, and its bytes in base64.
    pub images: Seq<(Seq<char>, Seq<char>)>,
    pub shows_clip: bool,
    pub media_resolution: Option<MediaResolution>,
    pub request: ChunkRequestView,
}

impl View for ChunkQuestion {
    type V = QuestionView;

    open spec fn view(&self) -> QuestionView {
        QuestionView {
            model: self.model@,
            prompt: self.prompt@,
            images: image_texts(self.images@),
            shows_clip: self.shows_clip,
            media_resolution: self.media_resolution,
            request: self.request@,
        }
    }
}

/// The pictures that go with a question: none with a clip; else the frame of the
/// chunk before, where it goes along, and the frames that stand for this one.
pub open spec fn pictures_of(task: ChunkTask) -> Seq<(Seq<char>, Seq<char>)> {
    if task.clip_spec is Some {
        Seq::empty()
    } else {
        (match task.prev_jpeg {
            Some(b) => seq![jpeg_text(b@)],
            None => Seq::empty(),
        }) + task.picked().map_values(|p: int| jpeg_text(task.frames@[p].jpeg_bytes@))
    }
}

/// The question about a chunk of which something is known.
pub open spec fn question_of(task: ChunkTask, c: ChunkView) -> QuestionView {
    QuestionView {
        model: task.first_pass_model@,
        prompt: prompt_of(
            task.semantic_prompt@,
            task.mode(),
            c.local_audio,
            task.frame_start_index,
            task.frames@.len() as int,
            task.pts_start_ms,
            task.pts_end_ms,
        ),
        images: pictures_of(task),
        shows_clip: task.clip_spec is Some,
        media_resolution: match task.clip_spec {
            Some(clip) => Some(clip.resolution),
            None => None,
        },
        request: request_of(
            opt_text(task.custom_schema),
            task.mode() == Some(SemanticMediaMode::AudioVideo),
            task.timeout_ms,
            task.frame_start_index,
        ),
    }
}

/// How far the inference over a chunk has come.
#[derive(Clone, Copy, Debug, PartialEq, Eq, Structural)]
pub enum ChunkStage {
    /// Nothing was done yet.
    Waiting,
    /// The clip is being cut.
    Extracting,
    /// The sound of the clip, which took so long to cut and has so many bytes,
    /// is being listened to.
    Listening(u64, u64),
    /// A model is being asked.
    Asking,
    /// The feedback is being spoken.
    Speaking,
    /// It is over.
    Over,
}

/// The sound of a clip: how long it took to cut, and how many bytes it has.
#[derive(Clone, Copy, Debug, PartialEq, Eq, Structural)]
pub struct WavFacts {
    pub extraction_ms: u64,
    pub bytes: u64,
}

/// What came back of a step.
#[derive(Debug)]
pub enum ChunkEvent {
    /// The chunk's turn has come.
    Begin,
    /// The clip was cut, and its sound where something listens.
    Extracted(ExtractedClip, Option<WavFacts>),
    /// The source refused to be cut.
    ExtractionFailed(String),
    /// The worker that cuts broke down.
    ExtractionBroke(String),
    /// What was heard, and after how long.
    Listened(u64, AudioOutcome),
    /// What the provider answered.
    Asked(ProviderOutcome),
    /// What became of the feedback, and after how long.
    Spoke(u64, FeedbackOutcome),
}

/// What is to be done next.
#[derive(Debug)]
pub enum ChunkAction {
    /// Nothing: the step came at the wrong time.
    Wait,
    /// Cut the clip.
    Extract,
    /// Listen to the sound of the clip.
    Listen,
    /// Ask a model.
    Ask(ChunkQuestion),
    /// Speak a text.
    Speak(String),
    /// Nothing: it is over.
    Finish,
}

/// What is to be done next.
pub ghost enum ActionView {
    Wait,
    Extract,
    Listen,
    Ask(QuestionView),
    Speak(Seq<char>),
    Finish,
}

impl View for ChunkAction {
    type V = ActionView;

    open spec fn view(&self) -> ActionView {
        match self {
            ChunkAction::Wait => ActionView::Wait,
            ChunkAction::Extract => ActionView::Extract,
            ChunkAction::Listen => ActionView::Listen,
            ChunkAction::Ask(q) => ActionView::Ask(q@),
            ChunkAction::Speak(t) => ActionView::Speak(t@),
            ChunkAction::Finish => ActionView::Finish,
        }
    }
}

/// How the inference over a chunk stands, and what is to be done next.
pub ghost struct StepView {
    pub stage: ChunkStage,
    pub result: ChunkView,
    pub action: ActionView,
}

/// It is over with a result.
pub open spec fn over(c: ChunkView) -> StepView {
    StepView { stage: ChunkStage::Over, result: c, action: ActionView::Finish }
}

/// The result is there: what is left is to speak it, where feedback is wanted
/// and something listens and speaks.
pub open spec fn spoken_or_over(task: ChunkTask, c: ChunkView) -> StepView {
    match spoken_text(c, task.listens() && task.voice_feedback) {
        Some(text) => StepView {
            stage: ChunkStage::Speaking,
            result: c,
            action: ActionView::Speak(text),
        },
        None => over(c),
    }
}

/// All evidence is there: a model is asked; without one, what was heard is all
/// there is.
pub open spec fn asked_or_local(task: ChunkTask, c: ChunkView) -> StepView {
    if task.has_provider {
        StepView {
            stage: ChunkStage::Asking,
            result: c,
            action: ActionView::Ask(question_of(task, c)),
        }
    } else {
        spoken_or_over(task, with_local_audio(c))
    }
}

/// How the inference over a chunk goes on.
pub open spec fn next_step(task: ChunkTask, stage: ChunkStage, c: ChunkView, e: ChunkEvent) -> StepView {
    match (stage, e) {
        (ChunkStage::Waiting, ChunkEvent::Begin) => if !task.semantic_available {
            over(untried())
        } else if task.clip_spec is Some {
            StepView {
                stage: ChunkStage::Extracting,
                result: begun(),
                action: ActionView::Extract,
            }
        } else if task.picked().len() == 0 {
            over(fallen_back(begun(), "chunk_has_no_jpeg_frames"@))
        } else {
            asked_or_local(task, begun())
        },
        (ChunkStage::Extracting, ChunkEvent::Extracted(clip, wav)) => {
            let seen = ChunkView {
                media: match task.clip_spec {
                    Some(spec_) => Some(evidence_of(spec_, clip)),
                    None => None,
                },
                ..c
            };
            match wav {
                Some(w) => if task.listens() {
                    StepView {
                        stage: ChunkStage::Listening(w.extraction_ms, w.bytes),
                        result: seen,
                        action: ActionView::Listen,
                    }
                } else {
                    asked_or_local(task, seen)
                },
                None => asked_or_local(task, seen),
            }
        },
        (ChunkStage::Extracting, ChunkEvent::ExtractionFailed(error)) => over(
            fallen_back(begun(), "media_extraction_failed:"@ + error@),
        ),
        (ChunkStage::Extracting, ChunkEvent::ExtractionBroke(error)) => over(
            fallen_back(begun(), "media_extraction_join_error:"@ + error@),
        ),
        (
            ChunkStage::Listening(extraction_ms, bytes),
            ChunkEvent::Listened(round_trip_ms, outcome),
        ) => asked_or_local(
            task,
            with_audio(
                c,
                AudioCall {
                    wav_extraction_ms: extraction_ms,
                    wav_bytes: bytes,
                    requested_duration_ms: match task.clip_spec {
                        Some(spec_) => spec_.duration_ms,
                        None => 0,
                    },
                    round_trip_ms,
                },
                outcome,
                task.pts_start_ms,
                task.pts_end_ms,
            ),
        ),
        (ChunkStage::Asking, ChunkEvent::Asked(outcome)) => {
            let told = with_outcome(c, outcome, task.custom_schema is Some);
            if read_as_overlay(c, outcome, task.custom_schema is Some) {
                spoken_or_over(task, told)
            } else {
                over(told)
            }
        },
        (ChunkStage::Speaking, ChunkEvent::Spoke(round_trip_ms, outcome)) => over(
            with_feedback(c, round_trip_ms, outcome),
        ),
        _ => StepView { stage, result: c, action: ActionView::Wait },
    }
}

/// The inference over one chunk.
#[derive(Debug)]
pub struct ChunkRun {
    pub stage: ChunkStage,
    pub result: ChunkSemanticResult,
}

impl ChunkRun {
    /// How it stands with what is to be done next.
    pub open spec fn stands(&self, action: ChunkAction) -> StepView {
        StepView { stage: self.stage, result: self.result@, action: action@ }
    }

    /// Before the chunk's turn.
    pub fn new() -> (r: Self)
        ensures
            r.stage == ChunkStage::Waiting,
            r.result@ == untried(),
    {
        ChunkRun { stage: ChunkStage::Waiting, result: ChunkSemanticResult::default() }
    }

    fn finish(&mut self) -> (r: ChunkAction)
        ensures
            final(self).stands(r) == over(old(self).result@),
    {
        self.stage = ChunkStage::Over;
        ChunkAction::Finish
    }

    fn speak_or_finish(&mut self, task: &ChunkTask) -> (r: ChunkAction)
        ensures
            final(self).stands(r) == spoken_or_over(*task, old(self).result@),
    {
        let wanted = task.clip_spec.is_some() && task.local_audio && task.voice_feedback;
        match feedback_text(&self.result, wanted) {
            Some(text) => {
                self.stage = ChunkStage::Speaking;
                ChunkAction::Speak(text)
            },
            None => self.finish(),
        }
    }

    fn ask_or_finish(&mut self, task: &ChunkTask) -> (r: ChunkAction)
        requires
            task.wf(),
        ensures
            final(self).stands(r) == asked_or_local(*task, old(self).result@),
    {
        if !task.has_provider {
            finish_local_audio_result(&mut self.result);
            return self.speak_or_finish(task);
        }
        self.stage = ChunkStage::Asking;
        ChunkAction::Ask(chunk_question(task, &self.result))
    }

    /// Takes in what came back of a step, and says what is to be done next.
    pub fn infer_chunk_semantics(&mut self, task: &ChunkTask, event: ChunkEvent) -> (r: ChunkAction)
        requires
            task.wf(),
        ensures
            final(self).stands(r) == next_step(*task, old(self).stage, old(self).result@, event),
    {
        match (self.stage, event) {
            (ChunkStage::Waiting, ChunkEvent::Begin) => {
                let start = begin_chunk(
                    task.semantic_available,
                    task.clip_spec.is_some(),
                    task.frames.len(),
                    task.frames_per_chunk,
                );
                match start {
                    ChunkStart::Finished(result) => {
                        self.result = result;
                        self.finish()
                    },
                    ChunkStart::Clip => {
                        self.result = begin_result();
                        self.stage = ChunkStage::Extracting;
                        ChunkAction::Extract
                    },
                    ChunkStart::Frames(_) => {
                        self.result = begin_result();
                        self.ask_or_finish(task)
                    },
                }
            },
            (ChunkStage::Extracting, ChunkEvent::Extracted(clip, wav)) => {
                self.result.media = match &task.clip_spec {
                    Some(clip_spec) => Some(media_evidence(clip_spec, clip)),
                    None => None,
                };
                match wav {
                    Some(w) => {
                        if task.clip_spec.is_some() && task.local_audio {
                            self.stage = ChunkStage::Listening(w.extraction_ms, w.bytes);
                            return ChunkAction::Listen;
                        }
                    },
                    None => {},
                }
                self.ask_or_finish(task)
            },
            (ChunkStage::Extracting, ChunkEvent::ExtractionFailed(error)) => {
                self.result = extraction_failed(error.as_str(), false);
                self.finish()
            },
            (ChunkStage::Extracting, ChunkEvent::ExtractionBroke(error)) => {
                self.result = extraction_failed(error.as_str(), true);
                self.finish()
            },
            (
                ChunkStage::Listening(extraction_ms, bytes),
                ChunkEvent::Listened(round_trip_ms, outcome),
            ) => {
                let call = AudioCall {
                    wav_extraction_ms: extraction_ms,
                    wav_bytes: bytes,
                    requested_duration_ms: match &task.clip_spec {
                        Some(clip_spec) => clip_spec.duration_ms,
                        None => 0,
                    },
                    round_trip_ms,
                };
                apply_audio(&mut self.result, call, outcome, task.pts_start_ms, task.pts_end_ms);
                self.ask_or_finish(task)
            },
            (ChunkStage::Asking, ChunkEvent::Asked(outcome)) => {
                let custom = task.custom_schema.is_some();
                let read = apply_outcome(&mut self.result, outcome, custom);
                if read {
                    self.speak_or_finish(task)
                } else {
                    self.finish()
                }
            },
            (ChunkStage::Speaking, ChunkEvent::Spoke(round_trip_ms, outcome)) => {
                apply_feedback(&mut self.result, round_trip_ms, outcome);
                self.finish()
            },
            _ => ChunkAction::Wait,
        }
    }
}

/// The question about a chunk of which something is known.
pub fn chunk_question(task: &ChunkTask, result: &ChunkSemanticResult) -> (r: ChunkQuestion)
    requires
        task.wf(),
    ensures
        r@ == question_of(*task, result@),
{
    let mode = match &task.clip_spec {
        Some(c) => Some(c.mode),
        None => None,
    };
    let with_sound = match mode {
        Some(SemanticMediaMode::AudioVideo) => true,
        _ => false,
    };
    let prompt = chunk_prompt(
        task.semantic_prompt.as_str(),
        mode,
        result.local_audio.as_ref(),
        task.frame_start_index,
        task.frames.len(),
        task.pts_start_ms,
        task.pts_end_ms,
    );
    let images = if task.clip_spec.is_some() {
        let none: Vec<InferenceImage> = Vec::new();
        assert(image_texts(none@) =~= Seq::empty());
        none
    } else {
        let picked = select_semantic_images(task.frames.len(), task.frames_per_chunk);
        proof {
            let texts = |p: int| jpeg_text(task.frames@[p].jpeg_bytes@);
            assert(frame_texts(task.frames@, picked@) =~= task.picked().map_values(texts)) by {
                assert(index_views(picked@) == task.picked());
            }
        }
        chunk_images(&task.frames, &picked, task.prev_jpeg.as_ref())
    };
    let custom = match &task.custom_schema {
        Some(s) => Some(s.as_str()),
        None => None,
    };
    ChunkQuestion {
        model: owned(task.first_pass_model.as_str()),
        prompt,
        images,
        shows_clip: task.clip_spec.is_some(),
        media_resolution: match &task.clip_spec {
            Some(clip) => Some(clip.resolution),
            None => None,
        },
        request: chunk_request(custom, with_sound, task.timeout_ms, task.frame_start_index),
    }
}

/// What the provider counts as an error of the first pass: it failed, or the
/// worker broke down. That there was no free place is none.
pub fn counts_as_error(outcome: &ProviderOutcome) -> (r: bool)
    ensures
        r == (*outcome is Failed || *outcome is Broke),
{
    match outcome {
        ProviderOutcome::Failed(_) => true,
        ProviderOutcome::Broke(_) => true,
        _ => false,
    }
}

// ---------------------------------------------------------------- laws
/// How many steps are left at most.
pub open spec fn steps_left(stage: ChunkStage) -> nat {
    match stage {
        ChunkStage::Waiting => 5,
        ChunkStage::Extracting => 4,
        ChunkStage::Listening(_, _) => 3,
        ChunkStage::Asking => 2,
        ChunkStage::Speaking => 1,
        ChunkStage::Over => 0,
    }
}

/// The inference over a chunk comes to its end: every step that is not out of
/// turn leaves fewer to be taken, and no more than five are ever taken.
pub proof fn chunks_come_to_an_end(task: ChunkTask, stage: ChunkStage, c: ChunkView, e: ChunkEvent)
    ensures
        ({
            let s = next_step(task, stage, c, e);
            &&& steps_left(stage) <= 5
            &&& s.action is Wait || steps_left(s.stage) < steps_left(stage)
            &&& s.action is Wait ==> s.stage == stage && s.result == c
            &&& s.action is Finish ==> s.stage == ChunkStage::Over
        }),
{
}

/// What is over stays as it is.
pub proof fn finished_chunks_stay(task: ChunkTask, c: ChunkView, e: ChunkEvent)
    ensures
        next_step(task, ChunkStage::Over, c, e) == (StepView {
            stage: ChunkStage::Over,
            result: c,
            action: ActionView::Wait,
        }),
{
}

/// Without a provider no model is asked, and what is asked of one always goes
/// with a picture or a clip.
pub proof fn models_are_asked_with_evidence(
    task: ChunkTask,
    stage: ChunkStage,
    c: ChunkView,
    e: ChunkEvent,
)
    requires
        stage == ChunkStage::Extracting || stage is Listening ==> task.clip_spec is Some,
    ensures
        next_step(task, stage, c, e).action matches ActionView::Ask(q) ==> task.has_provider && (
        q.shows_clip || q.images.len() > 0),
{
}

/// A chunk begins as its task says: not at all without semantics, by cutting its
/// clip where it has one, and else by asking about its pictures, of which there
/// has to be one.
pub proof fn chunks_begin_as_their_task_says(task: ChunkTask, c: ChunkView)
    ensures
        ({
            let step = next_step(task, ChunkStage::Waiting, c, ChunkEvent::Begin);
            &&& !task.semantic_available ==> step.action is Finish && !step.result.attempted
                && step.result.error is None
            &&& task.semantic_available ==> step.result.attempted
            &&& step.action is Extract <==> task.semantic_available && task.clip_spec is Some
            &&& task.semantic_available && task.clip_spec is None && task.picked().len() == 0
                ==> step.action is Finish && step.result.used_fallback && step.result.error == Some(
                "chunk_has_no_jpeg_frames"@,
            )
            &&& step.action is Ask <==> task.semantic_available && task.clip_spec is None
                && task.picked().len() > 0 && task.has_provider
            &&& step.action !is Listen
        }),
{
}

/// What was cut is kept as evidence; it is listened to where the task says so
/// and there is sound, and else goes to the model.
pub proof fn clips_are_listened_to_on_request(
    task: ChunkTask,
    c: ChunkView,
    clip: ExtractedClip,
    wav: Option<WavFacts>,
)
    requires
        task.clip_spec is Some,
    ensures
        ({
            let step = next_step(
                task,
                ChunkStage::Extracting,
                c,
                ChunkEvent::Extracted(clip, wav),
            );
            &&& step.action is Listen <==> wav is Some && task.local_audio
            &&& step.result.media is Some && step.result.media->0.bytes == clip.bytes@
            &&& step.action is Ask <==> !(wav is Some && task.local_audio) && task.has_provider
            &&& step.result.moments == c.moments
            &&& step.action is Ask || step.action is Listen ==> step.result.error == c.error
        }),
{
}

/// A clip that could not be cut ends its chunk with the reason.
pub proof fn uncut_clips_end_their_chunk(task: ChunkTask, c: ChunkView, error: String)
    ensures
        ({
            let failed = next_step(
                task,
                ChunkStage::Extracting,
                c,
                ChunkEvent::ExtractionFailed(error),
            );
            let broke = next_step(
                task,
                ChunkStage::Extracting,
                c,
                ChunkEvent::ExtractionBroke(error),
            );
            &&& failed.action is Finish && failed.result.used_fallback
            &&& failed.result.error == Some("media_extraction_failed:"@ + error@)
            &&& broke.action is Finish && broke.result.used_fallback
            &&& broke.result.error == Some("media_extraction_join_error:"@ + error@)
        }),
{
}

/// An answer ends its chunk, but for one that was read and is to be spoken.
pub proof fn answers_are_spoken_on_request(task: ChunkTask, c: ChunkView, outcome: ProviderOutcome)
    ensures
        ({
            let step = next_step(task, ChunkStage::Asking, c, ChunkEvent::Asked(outcome));
            &&& step.action is Speak || step.action is Finish
            &&& step.result == with_outcome(c, outcome, task.custom_schema is Some)
            &&& step.action is Speak ==> task.clip_spec is Some && task.local_audio
                && task.voice_feedback && outcome is Answered && task.custom_schema is None
            &&& outcome !is Answered ==> step.action is Finish
        }),
{
}

/// A model is asked with the pictures that were picked, in order, behind the one
/// before them where there is one; with a clip it is shown none.
pub proof fn pictures_go_with_the_question(task: ChunkTask, c: ChunkView)
    ensures
        ({
            let q = question_of(task, c);
            let ahead: int = if task.prev_jpeg is Some {
                1
            } else {
                0
            };
            &&& q.model == task.first_pass_model@
            &&& q.shows_clip <==> task.clip_spec is Some
            &&& task.clip_spec is Some ==> q.images.len() == 0
            &&& task.clip_spec is None ==> {
                &&& q.images.len() == ahead + task.picked().len()
                &&& task.prev_jpeg is Some ==> q.images[0] == jpeg_text(task.prev_jpeg->0@)
                &&& forall|i: int| #![trigger task.picked()[i]]
                    0 <= i < task.picked().len() ==> q.images[ahead + i] == jpeg_text(
                        task.frames@[task.picked()[i]].jpeg_bytes@,
                    )
            }
        }),
{
    if task.clip_spec is None {
        let shown = task.picked().map_values(|p: int| jpeg_text(task.frames@[p].jpeg_bytes@));
        let q = question_of(task, c);
        let ahead: int = if task.prev_jpeg is Some {
            1
        } else {
            0
        };
        assert forall|i: int| #![trigger task.picked()[i]] 0 <= i < task.picked().len() implies q.images[ahead
            + i] == jpeg_text(task.frames@[task.picked()[i]].jpeg_bytes@) by {
            assert(shown[i] == jpeg_text(task.frames@[task.picked()[i]].jpeg_bytes@));
        }
    }
}

} // verus!
