//! The worker of one webhook: from how it stands and what came back of the last
//! step to what is to be done next.

use vstd::prelude::*;

use crate::delivery_metrics::{raised, DeliveryMetrics};
use crate::event_stream::REPLAY_BATCH;
use crate::text::with_tail;
use crate::timeline::{event_views, read_behind, EventView, TimelineEvent};
use crate::webhook_delivery::{
    after_attempt, begun, checkpoint_of, checkpoint_record, cursor_of, cut, delivery_record,
    error_in, goes_to, next_delivery, record_of, replay_cursor, retry_delay, settle_checkpoint,
    settle_delivery, settle_failure, settled, AttemptState, AttemptView, DeliveryAttempt,
    DeliveryRecord, RecordView, MAX_DELIVERY_ATTEMPTS,
};
use crate::webhooks::{ConfigView, StatusView, WebhookConfig, WorkerStatus};

verus! {

/// How far a worker has come.
#[derive(Clone, Copy, Debug, PartialEq, Eq, Structural)]
pub enum WorkerStage {
    /// It has nothing to do.
    Resting,
    /// The log is being read.
    Reading,
    /// The body of an event is being written.
    Preparing,
    /// An event is being sent.
    Sending,
    /// That an event is tried again is being recorded.
    Retrying,
    /// Time passes before an event is tried again.
    Pausing,
    /// What became of an event is being recorded.
    Ending,
    /// How far the log was read is being recorded.
    Checkpointing,
}

/// What came back of a step.
#[derive(Debug)]
pub enum WorkerEvent {
    /// There may be something to do.
    Wake,
    /// Events behind the one asked for.
    Batch(Vec<TimelineEvent>),
    /// The log could not be read.
    ReadFailed(String),
    /// The reader broke down.
    ReadBroke(String),
    /// The body of the event has so many bytes.
    Prepared(usize),
    /// The body of the event could not be written.
    PrepareFailed(String),
    /// What the attempt came to.
    Sent(Result<(), String>),
    /// What the attempt to record came to.
    Recorded(Result<(), String>),
    /// The time has passed.
    Paused,
}

/// What is to be done next.
#[derive(Debug)]
pub enum WorkerAction {
    /// Nothing: the step came at the wrong time.
    Wait,
    /// Read the events behind one.
    Read(u64),
    /// Write the body of the event at a place of the batch.
    Prepare(usize),
    /// Send the event at a place of the batch.
    Send(usize),
    /// Record something.
    Record(DeliveryRecord),
    /// Let so many milliseconds pass.
    Pause(u64),
    /// Rest until there is something to do.
    Rest,
    /// Rest for a moment, or until there is something to do.
    RestBriefly,
}

/// What is to be done next.
pub ghost enum WorkerActionView {
    Wait,
    Read(u64),
    Prepare(int),
    Send(int),
    Record(RecordView),
    Pause(u64),
    Rest,
    RestBriefly,
}

impl View for WorkerAction {
    type V = WorkerActionView;

    open spec fn view(&self) -> WorkerActionView {
        match self {
            WorkerAction::Wait => WorkerActionView::Wait,
            WorkerAction::Read(after) => WorkerActionView::Read(*after),
            WorkerAction::Prepare(at) => WorkerActionView::Prepare(*at as int),
            WorkerAction::Send(at) => WorkerActionView::Send(*at as int),
            WorkerAction::Record(r) => WorkerActionView::Record(r@),
            WorkerAction::Pause(ms) => WorkerActionView::Pause(*ms),
            WorkerAction::Rest => WorkerActionView::Rest,
            WorkerAction::RestBriefly => WorkerActionView::RestBriefly,
        }
    }
}

/// The worker of one webhook.
#[derive(Debug)]
pub struct HookWorker {
    pub config: WebhookConfig,
    pub status: WorkerStatus,
    pub stage: WorkerStage,
    pub batch: Vec<TimelineEvent>,
    pub at: usize,
    pub attempt: DeliveryAttempt,
}

/// How a worker stands.
pub ghost struct WorkerView {
    pub config: ConfigView,
    pub status: StatusView,
    pub stage: WorkerStage,
    pub batch: Seq<EventView>,
    pub at: int,
    pub attempt: AttemptView,
}

impl View for HookWorker {
    type V = WorkerView;

    open spec fn view(&self) -> WorkerView {
        WorkerView {
            config: self.config@,
            status: self.status@,
            stage: self.stage,
            batch: event_views(self.batch@),
            at: self.at as int,
            attempt: self.attempt@,
        }
    }
}

/// How a worker stands, and what is to be done next.
pub ghost struct WorkerStep {
    pub worker: WorkerView,
    pub action: WorkerActionView,
}

/// The place of the first event of a batch, from a place on, that goes to a
/// webhook; the end of the batch where there is none.
pub open spec fn next_place(config: ConfigView, batch: Seq<EventView>, from: int) -> int
    decreases batch.len() - from,
{
    if from >= batch.len() || goes_to(config, batch[from]) {
        from
    } else {
        next_place(config, batch, from + 1)
    }
}

impl WorkerView {
    /// An event of the batch is being dealt with.
    pub open spec fn has_event(self) -> bool {
        match self.stage {
            WorkerStage::Preparing => true,
            WorkerStage::Sending => true,
            WorkerStage::Retrying => true,
            WorkerStage::Pausing => true,
            WorkerStage::Ending => true,
            _ => false,
        }
    }

    /// What is being dealt with is there, and is tried only as long as it may
    /// be.
    pub open spec fn valid(self) -> bool {
        &&& self.has_event() ==> 0 <= self.at < self.batch.len()
        &&& self.stage == WorkerStage::Checkpointing ==> self.batch.len() > 0
        &&& match self.stage {
            WorkerStage::Sending => self.attempt.state == AttemptState::Open,
            WorkerStage::Retrying => self.attempt.state == AttemptState::Open,
            WorkerStage::Pausing => self.attempt.state == AttemptState::Open,
            WorkerStage::Ending => self.attempt.state != AttemptState::Open,
            _ => true,
        }
        &&& self.attempt.state == AttemptState::Open ==> self.attempt.attempts
            < MAX_DELIVERY_ATTEMPTS
    }

    /// The log is read behind what is done with.
    pub open spec fn reading(self) -> WorkerStep {
        WorkerStep {
            worker: WorkerView { stage: WorkerStage::Reading, ..self },
            action: WorkerActionView::Read(cursor_of(self.status, self.config)),
        }
    }

    /// The worker rests.
    pub open spec fn resting(self) -> WorkerStep {
        WorkerStep {
            worker: WorkerView { stage: WorkerStage::Resting, ..self },
            action: WorkerActionView::Rest,
        }
    }

    /// The worker failed.
    pub open spec fn failed(self, error: Seq<char>) -> WorkerStep {
        WorkerStep {
            worker: WorkerView {
                stage: WorkerStage::Resting,
                status: StatusView { last_error: Some(cut(error)), ..self.status },
                ..self
            },
            action: WorkerActionView::RestBriefly,
        }
    }

    /// The next event from a place on is taken up; at the end of the batch it is
    /// recorded how far the log was read.
    pub open spec fn seeking(self, from: int) -> WorkerStep {
        let place = next_place(self.config, self.batch, from);
        if place < self.batch.len() {
            WorkerStep {
                worker: WorkerView { stage: WorkerStage::Preparing, at: place, ..self },
                action: WorkerActionView::Prepare(place),
            }
        } else {
            WorkerStep {
                worker: WorkerView { stage: WorkerStage::Checkpointing, ..self },
                action: WorkerActionView::Record(
                    checkpoint_of(self.config, self.batch.last().seq),
                ),
            }
        }
    }

    /// An event is sent, or what became of it is recorded.
    pub open spec fn sending(self, attempt: AttemptView) -> WorkerStep {
        if attempt.state == AttemptState::Open {
            WorkerStep {
                worker: WorkerView { stage: WorkerStage::Sending, attempt, ..self },
                action: WorkerActionView::Send(self.at),
            }
        } else {
            WorkerStep {
                worker: WorkerView { stage: WorkerStage::Ending, attempt, ..self },
                action: WorkerActionView::Record(
                    record_of(self.config, self.batch[self.at].seq, attempt),
                ),
            }
        }
    }

    /// How a worker goes on.
    pub open spec fn next(self, e: WorkerEvent) -> WorkerStep {
        match (self.stage, e) {
            (WorkerStage::Resting, WorkerEvent::Wake) => self.reading(),
            (WorkerStage::Reading, WorkerEvent::Batch(batch)) => if batch@.len() == 0 {
                self.resting()
            } else {
                WorkerView { batch: event_views(batch@), ..self }.seeking(0)
            },
            (WorkerStage::Reading, WorkerEvent::ReadFailed(error)) => self.failed(
                "webhook WAL replay failed: "@ + error@,
            ),
            (WorkerStage::Reading, WorkerEvent::ReadBroke(error)) => self.failed(
                "webhook WAL replay worker failed: "@ + error@,
            ),
            (WorkerStage::Preparing, WorkerEvent::Prepared(bytes)) => self.sending(
                begun(bytes as nat),
            ),
            (WorkerStage::Preparing, WorkerEvent::PrepareFailed(error)) => self.failed(
                "failed to serialize webhook event: "@ + error@,
            ),
            (WorkerStage::Sending, WorkerEvent::Sent(result)) => {
                let attempt = after_attempt(self.attempt, error_in(result));
                if attempt.state == AttemptState::Open {
                    WorkerStep {
                        worker: WorkerView { stage: WorkerStage::Retrying, attempt, ..self },
                        action: WorkerActionView::Record(
                            record_of(self.config, self.batch[self.at].seq, attempt),
                        ),
                    }
                } else {
                    self.sending(attempt)
                }
            },
            (WorkerStage::Retrying, WorkerEvent::Recorded(result)) => match error_in(result) {
                None => WorkerStep {
                    worker: WorkerView { stage: WorkerStage::Pausing, ..self },
                    action: WorkerActionView::Pause(
                        if self.attempt.attempts == 1 {
                            100
                        } else {
                            500
                        },
                    ),
                },
                Some(error) => self.failed(error),
            },
            (WorkerStage::Pausing, WorkerEvent::Paused) => self.sending(self.attempt),
            (WorkerStage::Ending, WorkerEvent::Recorded(result)) => match error_in(result) {
                None => WorkerView {
                    status: settled(self.status, self.batch[self.at].seq, self.attempt),
                    ..self
                }.seeking(self.at + 1),
                Some(error) => self.failed(error),
            },
            (WorkerStage::Checkpointing, WorkerEvent::Recorded(result)) => match error_in(result) {
                None => {
                    let done = WorkerView {
                        status: StatusView {
                            last_terminal_seq: self.batch.last().seq,
                            ..self.status
                        },
                        ..self
                    };
                    if self.batch.len() == REPLAY_BATCH {
                        done.reading()
                    } else {
                        done.resting()
                    }
                },
                Some(error) => self.failed(error),
            },
            _ => WorkerStep { worker: self, action: WorkerActionView::Wait },
        }
    }

    /// The counts after a step.
    pub open spec fn counted(self, e: WorkerEvent, m: DeliveryMetrics) -> DeliveryMetrics {
        match (self.stage, e) {
            (WorkerStage::Sending, WorkerEvent::Sent(result)) => DeliveryMetrics {
                webhook_attempts: raised(m.webhook_attempts, 1),
                webhook_retries: raised(
                    m.webhook_retries,
                    if after_attempt(self.attempt, error_in(result)).state == AttemptState::Open {
                        1
                    } else {
                        0
                    },
                ),
                ..m
            },
            (WorkerStage::Ending, WorkerEvent::Recorded(result)) => if error_in(result) is Some {
                m
            } else if self.attempt.state == AttemptState::Delivered {
                DeliveryMetrics { webhook_delivered: raised(m.webhook_delivered, 1), ..m }
            } else {
                DeliveryMetrics { webhook_dead_letters: raised(m.webhook_dead_letters, 1), ..m }
            },
            _ => m,
        }
    }
}

proof fn lemma_next_place(config: ConfigView, batch: Seq<EventView>, from: int, place: int)
    requires
        0 <= from <= place <= batch.len(),
        forall|j: int| from <= j < place ==> !goes_to(config, #[trigger] batch[j]),
        place < batch.len() ==> goes_to(config, batch[place]),
    ensures
        next_place(config, batch, from) == place,
    decreases place - from,
{
    if from < place {
        assert(!goes_to(config, batch[from]));
        lemma_next_place(config, batch, from + 1, place);
    }
}

impl HookWorker {
    /// What is being dealt with is there.
    pub open spec fn wf(&self) -> bool {
        self@.valid()
    }

    /// A worker that goes on from a status.
    pub fn new(config: WebhookConfig, status: WorkerStatus) -> (r: Self)
        ensures
            r.wf(),
            r@.config == config@,
            r@.status == status@,
            r@.stage == WorkerStage::Resting,
            r@.batch == Seq::<EventView>::empty(),
    {
        let batch: Vec<TimelineEvent> = Vec::new();
        assert(event_views(batch@) =~= Seq::empty());
        HookWorker {
            config,
            status,
            stage: WorkerStage::Resting,
            batch,
            at: 0,
            attempt: DeliveryAttempt::new(0),
        }
    }

    fn read(&mut self) -> (r: WorkerAction)
        requires
            old(self).wf(),
        ensures
            final(self).wf(),
            (WorkerStep { worker: final(self)@, action: r@ }) == old(self)@.reading(),
    {
        self.stage = WorkerStage::Reading;
        WorkerAction::Read(replay_cursor(&self.status, &self.config))
    }

    fn rest(&mut self) -> (r: WorkerAction)
        requires
            old(self).wf(),
        ensures
            final(self).wf(),
            (WorkerStep { worker: final(self)@, action: r@ }) == old(self)@.resting(),
    {
        self.stage = WorkerStage::Resting;
        WorkerAction::Rest
    }

    fn fail(&mut self, error: &str) -> (r: WorkerAction)
        requires
            old(self).wf(),
        ensures
            final(self).wf(),
            (WorkerStep { worker: final(self)@, action: r@ }) == old(self)@.failed(error@),
    {
        self.stage = WorkerStage::Resting;
        settle_failure(&mut self.status, error);
        WorkerAction::RestBriefly
    }

    fn seek(&mut self, from: usize) -> (r: WorkerAction)
        requires
            old(self)@.attempt.state == AttemptState::Open ==> old(self)@.attempt.attempts
                < MAX_DELIVERY_ATTEMPTS,
            from <= old(self).batch@.len(),
            old(self).batch@.len() > 0,
        ensures
            final(self).wf(),
            (WorkerStep { worker: final(self)@, action: r@ }) == old(self)@.seeking(from as int),
    {
        let ghost batch = event_views(self.batch@);
        match next_delivery(&self.config, &self.batch, from) {
            Some(i) => {
                proof {
                    assert forall|j: int| from <= j < i implies !goes_to(
                        self.config@,
                        #[trigger] batch[j],
                    ) by {
                        assert(batch[j] == self.batch@[j]@);
                    }
                    lemma_next_place(self.config@, batch, from as int, i as int);
                }
                self.stage = WorkerStage::Preparing;
                self.at = i;
                WorkerAction::Prepare(i)
            },
            None => {
                proof {
                    assert forall|j: int| from <= j < batch.len() implies !goes_to(
                        self.config@,
                        #[trigger] batch[j],
                    ) by {
                        assert(batch[j] == self.batch@[j]@);
                    }
                    lemma_next_place(self.config@, batch, from as int, batch.len() as int);
                }
                self.stage = WorkerStage::Checkpointing;
                let last: usize = self.batch.len() - 1;
                WorkerAction::Record(checkpoint_record(&self.config, self.batch[last].seq))
            },
        }
    }

    fn send(&mut self) -> (r: WorkerAction)
        requires
            old(self).at < old(self).batch@.len(),
            old(self)@.attempt.state == AttemptState::Open ==> old(self)@.attempt.attempts
                < MAX_DELIVERY_ATTEMPTS,
        ensures
            final(self).wf(),
            (WorkerStep { worker: final(self)@, action: r@ }) == old(self)@.sending(
                old(self)@.attempt,
            ),
    {
        match self.attempt.state {
            AttemptState::Open => {
                self.stage = WorkerStage::Sending;
                WorkerAction::Send(self.at)
            },
            _ => {
                self.stage = WorkerStage::Ending;
                WorkerAction::Record(
                    delivery_record(&self.config, self.batch[self.at].seq, &self.attempt),
                )
            },
        }
    }

    /// Takes in what came back of a step, and says what is to be done next.
    pub fn replay_hook(&mut self, event: WorkerEvent, metrics: &mut DeliveryMetrics) -> (r:
        WorkerAction)
        requires
            old(self).wf(),
        ensures
            final(self).wf(),
            (WorkerStep { worker: final(self)@, action: r@ }) == old(self)@.next(event),
            *final(metrics) == old(self)@.counted(event, *old(metrics)),
    {
        match (self.stage, event) {
            (WorkerStage::Resting, WorkerEvent::Wake) => self.read(),
            (WorkerStage::Reading, WorkerEvent::Batch(batch)) => {
                if batch.is_empty() {
                    return self.rest();
                }
                self.batch = batch;
                self.seek(0)
            },
            (WorkerStage::Reading, WorkerEvent::ReadFailed(error)) => self.fail(
                with_tail("webhook WAL replay failed: ", error.as_str()).as_str(),
            ),
            (WorkerStage::Reading, WorkerEvent::ReadBroke(error)) => self.fail(
                with_tail("webhook WAL replay worker failed: ", error.as_str()).as_str(),
            ),
            (WorkerStage::Preparing, WorkerEvent::Prepared(bytes)) => {
                self.attempt = DeliveryAttempt::new(bytes);
                self.send()
            },
            (WorkerStage::Preparing, WorkerEvent::PrepareFailed(error)) => self.fail(
                with_tail("failed to serialize webhook event: ", error.as_str()).as_str(),
            ),
            (WorkerStage::Sending, WorkerEvent::Sent(result)) => {
                self.attempt.note(result, metrics);
                match self.attempt.state {
                    AttemptState::Open => {
                        self.stage = WorkerStage::Retrying;
                        WorkerAction::Record(
                            delivery_record(&self.config, self.batch[self.at].seq, &self.attempt),
                        )
                    },
                    _ => self.send(),
                }
            },
            (WorkerStage::Retrying, WorkerEvent::Recorded(result)) => match result {
                Ok(_) => {
                    self.stage = WorkerStage::Pausing;
                    WorkerAction::Pause(retry_delay(self.attempt.attempts))
                },
                Err(error) => self.fail(error.as_str()),
            },
            (WorkerStage::Pausing, WorkerEvent::Paused) => self.send(),
            (WorkerStage::Ending, WorkerEvent::Recorded(result)) => match result {
                Ok(_) => {
                    let seq: u64 = self.batch[self.at].seq;
                    settle_delivery(&mut self.status, seq, &self.attempt, metrics);
                    let count: usize = self.batch.len();
                    assert(self.at < count);
                    let from: usize = self.at + 1;
                    self.seek(from)
                },
                Err(error) => self.fail(error.as_str()),
            },
            (WorkerStage::Checkpointing, WorkerEvent::Recorded(result)) => match result {
                Ok(_) => {
                    let last: usize = self.batch.len() - 1;
                    let seq: u64 = self.batch[last].seq;
                    settle_checkpoint(&mut self.status, seq);
                    if self.batch.len() == REPLAY_BATCH {
                        self.read()
                    } else {
                        self.rest()
                    }
                },
                Err(error) => self.fail(error.as_str()),
            },
            _ => WorkerAction::Wait,
        }
    }
}

// ----------------------------------------------------------- laws
/// What is done with lies before what is being dealt with.
pub open spec fn on_the_way(w: WorkerView) -> bool {
    &&& w.valid()
    &&& w.has_event() ==> read_behind(0, w.batch) && w.status.last_terminal_seq
        < w.batch[w.at].seq
    &&& w.stage == WorkerStage::Checkpointing ==> w.status.last_terminal_seq
        <= w.batch.last().seq
}

/// No event that goes to a webhook is passed over: what lies between a place
/// and the next one taken up goes elsewhere.
pub proof fn nothing_is_passed_over(config: ConfigView, batch: Seq<EventView>, from: int, j: int)
    requires
        0 <= from <= j < next_place(config, batch, from),
        j < batch.len(),
    ensures
        !goes_to(config, batch[j]),
    decreases batch.len() - from,
{
    if from < j {
        nothing_is_passed_over(config, batch, from + 1, j);
    }
}

proof fn lemma_place_bounds(config: ConfigView, batch: Seq<EventView>, from: int)
    requires
        0 <= from <= batch.len(),
    ensures
        from <= next_place(config, batch, from) <= batch.len(),
    decreases batch.len() - from,
{
    if from < batch.len() && !goes_to(config, batch[from]) {
        lemma_place_bounds(config, batch, from + 1);
    }
}

/// A worker never goes back: whatever comes back of a step, it ends no further
/// to the front of the log than it was, as long as the log hands out events in
/// their order and behind the one asked for.
pub proof fn workers_never_go_back(w: WorkerView, e: WorkerEvent)
    requires
        on_the_way(w),
        e matches WorkerEvent::Batch(batch) ==> read_behind(
            cursor_of(w.status, w.config),
            event_views(batch@),
        ),
    ensures
        on_the_way(w.next(e).worker),
        w.next(e).worker.status.last_terminal_seq >= w.status.last_terminal_seq,
{
    match (w.stage, e) {
        (WorkerStage::Reading, WorkerEvent::Batch(batch)) => {
            let b = event_views(batch@);
            if batch@.len() > 0 {
                lemma_place_bounds(w.config, b, 0);
                assert(b.last() == b[b.len() - 1]);
            }
        },
        (WorkerStage::Ending, WorkerEvent::Recorded(result)) => {
            lemma_place_bounds(w.config, w.batch, w.at + 1);
            assert(w.batch.last() == w.batch[w.batch.len() - 1]);
        },
        _ => {},
    }
}

/// A failure loses nothing: what was done with and what was counted stay, so
/// that the worker takes up the event again.
pub proof fn failures_lose_nothing(w: WorkerView, e: WorkerEvent)
    requires
        w.next(e).action is RestBriefly,
    ensures
        ({
            let s = w.next(e).worker.status;
            &&& s.last_terminal_seq == w.status.last_terminal_seq
            &&& s.delivered == w.status.delivered
            &&& s.dead_letters == w.status.dead_letters
            &&& s.last_error is Some
        }),
        cursor_of(w.next(e).worker.status, w.config) == cursor_of(w.status, w.config),
{
}

/// An event is done with only after that was recorded.
pub proof fn records_come_first(w: WorkerView, e: WorkerEvent)
    requires
        w.next(e).worker.status.last_terminal_seq != w.status.last_terminal_seq,
    ensures
        e matches WorkerEvent::Recorded(result) && result is Ok,
        w.stage == WorkerStage::Ending || w.stage == WorkerStage::Checkpointing,
{
}

/// The next event is the first one, from a place on, that goes to the webhook.
pub proof fn the_next_event_goes_to_the_webhook(config: ConfigView, batch: Seq<EventView>, from: int)
    requires
        0 <= from <= batch.len(),
    ensures
        from <= next_place(config, batch, from) <= batch.len(),
        next_place(config, batch, from) < batch.len() ==> goes_to(
            config,
            batch[next_place(config, batch, from)],
        ),
        forall|j: int|
            from <= j < next_place(config, batch, from) ==> !goes_to(config, #[trigger] batch[j]),
    decreases batch.len() - from,
{
    if from < batch.len() && !goes_to(config, batch[from]) {
        the_next_event_goes_to_the_webhook(config, batch, from + 1);
    }
}

/// A worker pauses a tenth of a second after the first attempt and half a second
/// after the second.
pub proof fn later_pauses_are_longer(w: WorkerView, e: WorkerEvent)
    requires
        w.valid(),
        w.next(e).action is Pause,
    ensures
        w.attempt.attempts == 1 ==> w.next(e).action == WorkerActionView::Pause(100),
        w.attempt.attempts == 2 ==> w.next(e).action == WorkerActionView::Pause(500),
        w.next(e).worker.attempt == w.attempt,
        w.next(e).worker.batch == w.batch,
        w.next(e).worker.at == w.at,
{
}

/// What is sent is the event that the worker is at, and only while its delivery
/// is open.
pub proof fn the_event_at_hand_is_sent(w: WorkerView, e: WorkerEvent)
    requires
        w.next(e).action is Send,
    ensures
        w.next(e).action == WorkerActionView::Send(w.at),
        w.next(e).worker.at == w.at,
        w.next(e).worker.attempt.state == AttemptState::Open,
        w.next(e).worker.status == w.status,
{
}

/// A worker that is done with an event goes on behind it, and one that is done
/// with a batch goes on behind its last event.
pub proof fn workers_move_on(w: WorkerView, e: WorkerEvent)
    requires
        w.valid(),
        e matches WorkerEvent::Recorded(result) && result is Ok,
        w.stage == WorkerStage::Ending || w.stage == WorkerStage::Checkpointing,
    ensures
        w.stage == WorkerStage::Ending ==> w.next(e).worker.status.last_terminal_seq
            == w.batch[w.at].seq,
        w.next(e).action matches WorkerActionView::Prepare(at) ==> w.at < at < w.batch.len()
            && goes_to(w.config, w.batch[at]),
        w.stage == WorkerStage::Checkpointing ==> w.next(e).worker.status.last_terminal_seq
            == w.batch[w.batch.len() - 1].seq && w.next(e).worker.status.delivered
            == w.status.delivered && w.next(e).worker.status.dead_letters
            == w.status.dead_letters,
{
    if w.stage == WorkerStage::Ending {
        the_next_event_goes_to_the_webhook(w.config, w.batch, w.at + 1);
    }
}

/// A step counts one attempt for each answer, one retry where another attempt
/// follows, and one end for each event that is done with.
pub proof fn steps_are_counted(w: WorkerView, e: WorkerEvent, m: DeliveryMetrics)
    requires
        w.valid(),
        m.webhook_attempts < u64::MAX,
        m.webhook_retries < u64::MAX,
        m.webhook_delivered < u64::MAX,
        m.webhook_dead_letters < u64::MAX,
    ensures
        ({
            let c = w.counted(e, m);
            let answered = w.stage == WorkerStage::Sending && e is Sent;
            let ended = w.stage == WorkerStage::Ending && (e matches WorkerEvent::Recorded(r)
                && r is Ok);
            &&& c.webhook_attempts == m.webhook_attempts + if answered {
                1int
            } else {
                0
            }
            &&& c.webhook_retries > m.webhook_retries <==> answered && (e matches WorkerEvent::Sent(
                r,
            ) && r is Err) && w.attempt.attempts < 2
            &&& m.webhook_retries <= c.webhook_retries <= m.webhook_retries + 1
            &&& c.webhook_delivered == m.webhook_delivered + if ended && w.attempt.state
                == AttemptState::Delivered {
                1int
            } else {
                0
            }
            &&& c.webhook_dead_letters == m.webhook_dead_letters + if ended && w.attempt.state
                == AttemptState::Dead {
                1int
            } else {
                0
            }
        }),
{
}

} // verus!
