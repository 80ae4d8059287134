//! How events get to webhooks: attempts, retries, dead letters, and the record
//! of them from which a worker goes on.

use hmac::{Hmac, Mac};
use sha2::Sha256;
use vstd::prelude::*;

use crate::address::{address_error, parse_address};
use crate::codec::{hashable, hex_bytes, hex_of};
use crate::delivery_metrics::{raise, raised, DeliveryMetrics};
use crate::text::{clipped, opt_text, owned, owned_opt, same, truncate_context};
use crate::text_map::TextMap;
use crate::timeline::{EventView, TimelineEvent};
use crate::webhooks::{
    matches_kind, status_at, status_views, webhook_matches, ConfigView, StatusView, WebhookConfig,
    WorkerStatus,
};

verus! {

/// How many bytes the body of a delivery has at most.
pub const MAX_WEBHOOK_BODY_BYTES: usize = 1048576;

/// How often a delivery is tried at most.
pub const MAX_DELIVERY_ATTEMPTS: u32 = 3;

/// The file name of the record where the log has its usual name.
pub const WEBHOOK_DELIVERY_LOG: &'static str = "webhook-delivery.wal";

/// The file name of the record of deliveries that goes with a log.
pub open spec fn delivery_log_name(file_name: Option<Seq<char>>) -> Seq<char> {
    match file_name {
        Some(name) => if name == "timeline.wal"@ {
            WEBHOOK_DELIVERY_LOG@
        } else {
            name + ".webhook-delivery.wal"@
        },
        None => "timeline.wal"@ + ".webhook-delivery.wal"@,
    }
}

/// The file name of the record of deliveries that goes with a log, from the
/// file name of the log where that is readable.
pub fn delivery_log_path_for(file_name: Option<&str>) -> (r: String)
    ensures
        r@ == delivery_log_name(crate::text::opt_str(file_name)),
{
    let name: &str = match file_name {
        Some(n) => {
            if same(n, "timeline.wal") {
                return owned(WEBHOOK_DELIVERY_LOG);
            }
            n
        },
        None => "timeline.wal",
    };
    let mut out = owned(name);
    out.push_str(".webhook-delivery.wal");
    out
}

/// An error, cut to 256 characters.
pub open spec fn cut(error: Seq<char>) -> Seq<char> {
    clipped(error, 256)
}

/// An error, cut to 256 characters.
pub fn truncate_error(error: &str) -> (r: String)
    ensures
        r@ == cut(error@),
{
    truncate_context(error, 256)
}

/// The milliseconds to wait after so many attempts.
pub fn retry_delay(attempt: u32) -> (r: u64)
    ensures
        r == if attempt == 1 {
            100u64
        } else {
            500
        },
{
    if attempt == 1 {
        100
    } else {
        500
    }
}

// ----------------------------------------------------------- records
/// One line of the record of deliveries.
#[derive(Debug)]
pub struct DeliveryRecord {
    pub webhook_id: String,
    pub seq: u64,
    pub state: String,
    pub error: Option<String>,
}

/// What a line of the record says.
pub ghost struct RecordView {
    pub webhook_id: Seq<char>,
    pub seq: u64,
    pub state: Seq<char>,
    pub error: Option<Seq<char>>,
}

impl View for DeliveryRecord {
    type V = RecordView;

    open spec fn view(&self) -> RecordView {
        RecordView {
            webhook_id: self.webhook_id@,
            seq: self.seq,
            state: self.state@,
            error: opt_text(self.error),
        }
    }
}

/// The larger of two numbers.
pub open spec fn larger(a: u64, b: u64) -> u64 {
    if a >= b {
        a
    } else {
        b
    }
}

/// A count with one more, up to the largest number.
pub open spec fn one_more(count: u64) -> u64 {
    if count == u64::MAX {
        count
    } else {
        (count + 1) as u64
    }
}

/// A status with one more line of the record.
pub open spec fn with_record(s: StatusView, r: RecordView) -> StatusView {
    if r.state == "delivered"@ {
        StatusView {
            last_terminal_seq: larger(s.last_terminal_seq, r.seq),
            delivered: one_more(s.delivered),
            ..s
        }
    } else if r.state == "dead_letter"@ {
        StatusView {
            last_terminal_seq: larger(s.last_terminal_seq, r.seq),
            dead_letters: one_more(s.dead_letters),
            last_error: r.error,
            ..s
        }
    } else if r.state == "checkpoint"@ {
        StatusView { last_terminal_seq: larger(s.last_terminal_seq, r.seq), ..s }
    } else {
        s
    }
}

/// How far each webhook has come, as a record says.
pub open spec fn states_of(records: Seq<RecordView>) -> Map<Seq<char>, StatusView>
    decreases records.len(),
{
    if records.len() == 0 {
        Map::empty()
    } else {
        let before = states_of(records.drop_last());
        let r = records.last();
        before.insert(r.webhook_id, with_record(status_at(before, r.webhook_id), r))
    }
}

fn max_of(a: u64, b: u64) -> (r: u64)
    ensures
        r == larger(a, b),
{
    if a >= b {
        a
    } else {
        b
    }
}

fn count_one(count: u64) -> (r: u64)
    ensures
        r == one_more(count),
{
    count.saturating_add(1)
}

/// How far each webhook has come, as a record says.
pub fn load_delivery_state(records: &Vec<DeliveryRecord>) -> (r: TextMap<WorkerStatus>)
    ensures
        status_views(r@) == states_of(crate::sort::views(records@)),
{
    let ghost all = crate::sort::views(records@);
    let mut states: TextMap<WorkerStatus> = TextMap::new();
    let mut i: usize = 0;
    assert(all.take(0) =~= Seq::empty());
    assert(status_views(states@) =~= Map::empty());
    while i < records.len()
        invariant
            all == crate::sort::views(records@),
            i <= records@.len(),
            status_views(states@) == states_of(all.take(i as int)),
        decreases records@.len() - i,
    {
        assert(all.take(i + 1).drop_last() =~= all.take(i as int));
        assert(all.take(i + 1).last() == records@[i as int]@);
        let ghost before = status_views(states@);
        let record = &records[i];
        let mut status = match states.get(record.webhook_id.as_str()) {
            Some(s) => s.copy(),
            None => WorkerStatus::fresh(),
        };
        assert(status@ == status_at(before, record@.webhook_id));
        let state = record.state.as_str();
        if same(state, "delivered") {
            status.last_terminal_seq = max_of(status.last_terminal_seq, record.seq);
            status.delivered = count_one(status.delivered);
        } else if same(state, "dead_letter") {
            status.last_terminal_seq = max_of(status.last_terminal_seq, record.seq);
            status.dead_letters = count_one(status.dead_letters);
            status.last_error = owned_opt(&record.error);
        } else if same(state, "checkpoint") {
            status.last_terminal_seq = max_of(status.last_terminal_seq, record.seq);
        }
        let ghost sv = status@;
        states.insert(owned(record.webhook_id.as_str()), status);
        assert(status_views(states@) =~= before.insert(record@.webhook_id, sv));
        i += 1;
    }
    assert(all.take(i as int) =~= all);
    states
}

// ----------------------------------------------------------- deliveries
/// The event behind which a webhook goes on.
pub open spec fn cursor_of(status: StatusView, config: ConfigView) -> u64 {
    larger(status.last_terminal_seq, config.registered_seq)
}

/// The event behind which a webhook goes on.
pub fn replay_cursor(status: &WorkerStatus, config: &WebhookConfig) -> (r: u64)
    ensures
        r == cursor_of(status@, config@),
{
    max_of(status.last_terminal_seq, config.registered_seq)
}

/// An event goes to a webhook.
pub open spec fn goes_to(config: ConfigView, event: EventView) -> bool {
    event.run_id == config.run_id && matches_kind(config, event)
}

/// The next event of a batch, from a place on, that goes to a webhook.
pub fn next_delivery(config: &WebhookConfig, batch: &Vec<TimelineEvent>, from: usize) -> (r: Option<
    usize,
>)
    ensures
        match r {
            Some(i) => from <= i < batch@.len() && goes_to(config@, batch@[i as int]@) && (forall|
                j: int,
            |
                from <= j < i ==> !goes_to(config@, (#[trigger] batch@[j])@)),
            None => forall|j: int|
                from <= j < batch@.len() ==> !goes_to(config@, (#[trigger] batch@[j])@),
        },
{
    let mut i: usize = from;
    while i < batch.len()
        invariant
            from <= i,
            forall|j: int| from <= j < i ==> !goes_to(config@, (#[trigger] batch@[j])@),
        decreases batch@.len() - i,
    {
        if same(batch[i].run_id.as_str(), config.run_id.as_str()) && webhook_matches(
            config,
            &batch[i],
        ) {
            return Some(i);
        }
        i += 1;
    }
    None
}

/// How a delivery stands.
#[derive(Clone, Copy, Debug, PartialEq, Eq, Structural)]
pub enum AttemptState {
    /// It is to be tried, or tried again.
    Open,
    /// It arrived.
    Delivered,
    /// It is given up.
    Dead,
}

/// The attempts to deliver one event.
#[derive(Debug)]
pub struct DeliveryAttempt {
    pub attempts: u32,
    pub last_error: Option<String>,
    pub state: AttemptState,
}

/// How the attempts to deliver one event stand.
pub ghost struct AttemptView {
    pub attempts: u32,
    pub last_error: Option<Seq<char>>,
    pub state: AttemptState,
}

impl View for DeliveryAttempt {
    type V = AttemptView;

    open spec fn view(&self) -> AttemptView {
        AttemptView {
            attempts: self.attempts,
            last_error: opt_text(self.last_error),
            state: self.state,
        }
    }
}

/// A delivery whose body has so many bytes, before it is tried.
pub open spec fn begun(body_bytes: nat) -> AttemptView {
    if body_bytes > MAX_WEBHOOK_BODY_BYTES {
        AttemptView {
            attempts: 0,
            last_error: Some("webhook event body exceeds 1048576 bytes"@),
            state: AttemptState::Dead,
        }
    } else {
        AttemptView { attempts: 0, last_error: None, state: AttemptState::Open }
    }
}

/// A delivery after one more attempt: without an error it arrived.
pub open spec fn after_attempt(a: AttemptView, error: Option<Seq<char>>) -> AttemptView {
    let attempts = (a.attempts + 1) as u32;
    match error {
        None => AttemptView { attempts, state: AttemptState::Delivered, ..a },
        Some(e) => AttemptView {
            attempts,
            last_error: Some(cut(e)),
            state: if attempts < MAX_DELIVERY_ATTEMPTS {
                AttemptState::Open
            } else {
                AttemptState::Dead
            },
        },
    }
}

/// What an attempt came to.
pub open spec fn error_in(result: Result<(), String>) -> Option<Seq<char>> {
    match result {
        Ok(_) => None,
        Err(e) => Some(e@),
    }
}

impl DeliveryAttempt {
    /// A delivery that is open was not tried as often as it may be.
    pub open spec fn wf(&self) -> bool {
        self.state == AttemptState::Open ==> self.attempts < MAX_DELIVERY_ATTEMPTS
    }

    /// A delivery whose body has so many bytes.
    pub fn new(body_bytes: usize) -> (r: Self)
        ensures
            r.wf(),
            r@ == begun(body_bytes as nat),
    {
        if body_bytes > MAX_WEBHOOK_BODY_BYTES {
            DeliveryAttempt {
                attempts: 0,
                last_error: Some(owned("webhook event body exceeds 1048576 bytes")),
                state: AttemptState::Dead,
            }
        } else {
            DeliveryAttempt { attempts: 0, last_error: None, state: AttemptState::Open }
        }
    }

    /// Notes what an attempt came to.
    pub fn note(&mut self, result: Result<(), String>, metrics: &mut DeliveryMetrics)
        requires
            old(self).wf(),
            old(self).state == AttemptState::Open,
        ensures
            final(self).wf(),
            final(self)@ == after_attempt(old(self)@, error_in(result)),
            *final(metrics) == (DeliveryMetrics {
                webhook_attempts: raised(old(metrics).webhook_attempts, 1),
                webhook_retries: raised(
                    old(metrics).webhook_retries,
                    if final(self).state == AttemptState::Open {
                        1
                    } else {
                        0
                    },
                ),
                ..*old(metrics)
            }),
    {
        metrics.webhook_attempts = raise(metrics.webhook_attempts, 1);
        self.attempts = self.attempts + 1;
        match result {
            Ok(_) => {
                self.state = AttemptState::Delivered;
            },
            Err(e) => {
                self.last_error = Some(truncate_error(e.as_str()));
                if self.attempts < MAX_DELIVERY_ATTEMPTS {
                    metrics.webhook_retries = raise(metrics.webhook_retries, 1);
                } else {
                    self.state = AttemptState::Dead;
                }
            },
        }
    }
}

/// The name of a state in the record.
pub open spec fn state_name(state: AttemptState) -> Seq<char> {
    match state {
        AttemptState::Open => "retry"@,
        AttemptState::Delivered => "delivered"@,
        AttemptState::Dead => "dead_letter"@,
    }
}

/// The line that tells how a delivery stands.
pub open spec fn record_of(config: ConfigView, seq: u64, a: AttemptView) -> RecordView {
    RecordView {
        webhook_id: config.webhook_id,
        seq,
        state: state_name(a.state),
        error: a.last_error,
    }
}

/// The line that tells how a delivery stands.
pub fn delivery_record(config: &WebhookConfig, seq: u64, attempt: &DeliveryAttempt) -> (r:
    DeliveryRecord)
    ensures
        r@ == record_of(config@, seq, attempt@),
{
    let state = match attempt.state {
        AttemptState::Open => owned("retry"),
        AttemptState::Delivered => owned("delivered"),
        AttemptState::Dead => owned("dead_letter"),
    };
    DeliveryRecord {
        webhook_id: owned(config.webhook_id.as_str()),
        seq,
        state,
        error: owned_opt(&attempt.last_error),
    }
}

/// The line that tells how far the log was read.
pub open spec fn checkpoint_of(config: ConfigView, scanned_to: u64) -> RecordView {
    RecordView {
        webhook_id: config.webhook_id,
        seq: scanned_to,
        state: "checkpoint"@,
        error: None,
    }
}

/// The line that tells how far the log was read.
pub fn checkpoint_record(config: &WebhookConfig, scanned_to: u64) -> (r: DeliveryRecord)
    ensures
        r@ == checkpoint_of(config@, scanned_to),
{
    DeliveryRecord {
        webhook_id: owned(config.webhook_id.as_str()),
        seq: scanned_to,
        state: owned("checkpoint"),
        error: None,
    }
}

/// A status once a delivery is done with.
pub open spec fn settled(s: StatusView, seq: u64, a: AttemptView) -> StatusView {
    if a.state == AttemptState::Delivered {
        StatusView {
            last_terminal_seq: seq,
            delivered: one_more(s.delivered),
            last_error: None,
            ..s
        }
    } else {
        StatusView {
            last_terminal_seq: seq,
            dead_letters: one_more(s.dead_letters),
            last_error: a.last_error,
            ..s
        }
    }
}

/// Notes that a delivery is done with.
pub fn settle_delivery(
    status: &mut WorkerStatus,
    seq: u64,
    attempt: &DeliveryAttempt,
    metrics: &mut DeliveryMetrics,
)
    requires
        attempt.state != AttemptState::Open,
    ensures
        final(status)@ == settled(old(status)@, seq, attempt@),
        *final(metrics) == if attempt.state == AttemptState::Delivered {
            DeliveryMetrics {
                webhook_delivered: raised(old(metrics).webhook_delivered, 1),
                ..*old(metrics)
            }
        } else {
            DeliveryMetrics {
                webhook_dead_letters: raised(old(metrics).webhook_dead_letters, 1),
                ..*old(metrics)
            }
        },
{
    status.last_terminal_seq = seq;
    match attempt.state {
        AttemptState::Delivered => {
            status.last_error = None;
            status.delivered = count_one(status.delivered);
            metrics.webhook_delivered = raise(metrics.webhook_delivered, 1);
        },
        _ => {
            status.last_error = owned_opt(&attempt.last_error);
            status.dead_letters = count_one(status.dead_letters);
            metrics.webhook_dead_letters = raise(metrics.webhook_dead_letters, 1);
        },
    }
}

/// Notes how far the log was read.
pub fn settle_checkpoint(status: &mut WorkerStatus, scanned_to: u64)
    ensures
        final(status)@ == (StatusView { last_terminal_seq: scanned_to, ..old(status)@ }),
{
    status.last_terminal_seq = scanned_to;
}

/// Notes that a worker failed.
pub fn settle_failure(status: &mut WorkerStatus, error: &str)
    ensures
        final(status)@ == (StatusView { last_error: Some(cut(error@)), ..old(status)@ }),
{
    status.last_error = Some(truncate_error(error));
}

// ----------------------------------------------------------- the wire
/// The HMAC-SHA-256 of a body under a secret.
pub uninterp spec fn hmac_sha256(secret: Seq<u8>, body: Seq<u8>) -> Seq<u8>;

/// `hmac::Hmac::<sha2::Sha256>`: `new_from_slice` with the secret, which takes a
/// secret of any length, `update` with the body, and `finalize`. The 32 bytes
/// depend on the secret and the body alone.
#[verifier::external_body]
fn hmac_bytes(secret: &[u8], body: &[u8]) -> (r: Vec<u8>)
    requires
        hashable(secret@),
        hashable(body@),
    ensures
        r@ == hmac_sha256(secret@, body@),
        r@.len() == 32,
{
    let mut mac = Hmac::<Sha256>::new_from_slice(secret).unwrap();
    mac.update(body);
    mac.finalize().into_bytes().to_vec()
}

/// The signature that goes with a body: the version, and the HMAC-SHA-256 in
/// hexadecimal.
pub open spec fn signature_of(mac: Seq<u8>) -> Seq<char> {
    "v1="@ + hex_of(mac)
}

/// The signature for some bytes of an HMAC.
pub fn signature_text(mac: &[u8]) -> (r: String)
    ensures
        r@ == signature_of(mac@),
{
    let mut out = owned("v1=");
    out.push_str(hex_bytes(mac).as_str());
    out
}

/// The signature that goes with a body.
pub fn sign_webhook(secret: &[u8], body: &[u8]) -> (r: String)
    requires
        hashable(secret@),
        hashable(body@),
    ensures
        r@ == signature_of(hmac_sha256(secret@, body@)),
        r@.len() == 67,
{
    let mac = hmac_bytes(secret, body);
    proof {
        reveal_strlit("v1=");
        crate::codec::hex_doubles_the_length(mac@);
    }
    signature_text(mac.as_slice())
}

/// What is wrong with the address of a webhook as a text, with what the parser
/// says of it.
pub open spec fn url_problem(raw: Seq<char>, error: Option<Seq<char>>) -> Option<Seq<char>> {
    if vstd::utf8::encode_utf8(raw).len() > 2048 {
        Some("webhook URL exceeds 2048 bytes"@)
    } else {
        match error {
            Some(e) => Some("invalid webhook URL: "@ + e),
            None => None,
        }
    }
}

/// What is wrong with the address of a webhook as a text, with what the parser
/// says of it.
pub fn judge_webhook_url(raw: &str, error: Option<String>) -> (r: Option<String>)
    ensures
        opt_text(r) == url_problem(raw@, opt_text(error)),
{
    if raw.as_bytes().len() > 2048 {
        return Some(owned("webhook URL exceeds 2048 bytes"));
    }
    match error {
        Some(e) => {
            let mut out = owned("invalid webhook URL: ");
            out.push_str(e.as_str());
            Some(out)
        },
        None => None,
    }
}

/// What is wrong with the address of a webhook as a text.
pub fn validate_webhook_url(raw: &str) -> (r: Option<String>)
    ensures
        opt_text(r) == url_problem(raw@, address_error(raw@)),
{
    judge_webhook_url(raw, parse_address(raw).err())
}

/// The name of a status code as `axum::http::StatusCode` shows it.
pub uninterp spec fn shown_status(code: u16) -> Seq<char>;

/// `axum::http::StatusCode::from_u16` and its `to_string`: the number and the
/// name that goes with it, a function of the number alone.
#[verifier::external_body]
fn status_text(code: u16) -> (r: String)
    requires
        100 <= code <= 999,
    ensures
        r@ == shown_status(code),
{
    axum::http::StatusCode::from_u16(code).unwrap().to_string()
}

/// What is wrong with the answer of a webhook, whose status shows as a text.
pub open spec fn response_problem(code: u16, shown: Seq<char>) -> Option<Seq<char>> {
    if 300 <= code < 400 {
        Some("webhook redirect rejected"@)
    } else if 200 <= code < 300 {
        None
    } else {
        Some("webhook returned HTTP "@ + shown)
    }
}

/// What the answer of a webhook comes to.
pub fn judge_response(code: u16) -> (r: Result<(), String>)
    requires
        100 <= code <= 999,
    ensures
        error_in(r) == response_problem(code, shown_status(code)),
{
    if 300 <= code && code < 400 {
        return Err(owned("webhook redirect rejected"));
    }
    if 200 <= code && code < 300 {
        return Ok(());
    }
    let mut out = owned("webhook returned HTTP ");
    out.push_str(status_text(code).as_str());
    Err(out)
}

// ----------------------------------------------------------- laws
/// How a delivery stands after some attempts, each with its error or none.
pub open spec fn after_attempts(errors: Seq<Option<Seq<char>>>) -> AttemptView
    decreases errors.len(),
{
    if errors.len() == 0 {
        begun(0)
    } else {
        after_attempt(after_attempts(errors.drop_last()), errors.last())
    }
}

/// A delivery is tried again until it arrives or failed three times: attempts
/// that all fail leave it open below three and dead at three, and one that
/// arrives ends it.
pub proof fn deliveries_end(errors: Seq<Option<Seq<char>>>)
    requires
        1 <= errors.len() <= 3,
        forall|i: int| 0 <= i < errors.len() - 1 ==> (#[trigger] errors[i]) is Some,
    ensures
        after_attempts(errors).attempts == errors.len(),
        errors.last() is None ==> after_attempts(errors).state == AttemptState::Delivered,
        errors.last() is Some && errors.len() < 3 ==> after_attempts(errors).state
            == AttemptState::Open,
        errors.last() is Some && errors.len() == 3 ==> after_attempts(errors).state
            == AttemptState::Dead && after_attempts(errors).last_error == Some(
            cut(errors.last()->0),
        ),
    decreases errors.len(),
{
    let rest = errors.drop_last();
    if rest.len() > 0 {
        assert(errors[rest.len() - 1] is Some);
        assert forall|i: int| 0 <= i < rest.len() - 1 implies (#[trigger] rest[i]) is Some by {
            assert(rest[i] == errors[i]);
        }
        deliveries_end(rest);
    } else {
        assert(after_attempts(rest) == begun(0));
    }
}

/// A line that says that a delivery is tried again changes nothing of what a
/// record says.
pub proof fn retries_do_not_advance(records: Seq<RecordView>, retry: RecordView, webhook_id: Seq<char>)
    requires
        retry.state == state_name(AttemptState::Open),
    ensures
        status_at(states_of(records.push(retry)), webhook_id) == status_at(
            states_of(records),
            webhook_id,
        ),
{
    lemma_state_names();
    assert(records.push(retry).drop_last() =~= records);
}

proof fn lemma_state_names()
    ensures
        "retry"@ != "delivered"@,
        "retry"@ != "dead_letter"@,
        "retry"@ != "checkpoint"@,
        "delivered"@ != "dead_letter"@,
        "checkpoint"@ != "delivered"@,
        "checkpoint"@ != "dead_letter"@,
{
    reveal_strlit("retry");
    reveal_strlit("delivered");
    reveal_strlit("dead_letter");
    reveal_strlit("checkpoint");
    assert("retry"@.len() == 5 && "delivered"@.len() == 9 && "dead_letter"@.len() == 11
        && "checkpoint"@.len() == 10);
}

/// No line takes a webhook back behind an event that is done with.
pub proof fn cursors_never_go_back(records: Seq<RecordView>, r: RecordView, webhook_id: Seq<char>)
    ensures
        status_at(states_of(records.push(r)), webhook_id).last_terminal_seq >= status_at(
            states_of(records),
            webhook_id,
        ).last_terminal_seq,
{
    assert(records.push(r).drop_last() =~= records);
}

/// A worker that starts anew from the record goes on where it was: a record
/// that agrees with the worker before an event agrees with it after.
pub proof fn workers_go_on_where_they_were(
    records: Seq<RecordView>,
    config: ConfigView,
    status: StatusView,
    seq: u64,
    a: AttemptView,
)
    requires
        a.state != AttemptState::Open,
        status.last_terminal_seq <= seq,
        status_at(states_of(records), config.webhook_id).last_terminal_seq
            == status.last_terminal_seq,
        status_at(states_of(records), config.webhook_id).delivered == status.delivered,
        status_at(states_of(records), config.webhook_id).dead_letters == status.dead_letters,
    ensures
        ({
            let read = status_at(
                states_of(records.push(record_of(config, seq, a))),
                config.webhook_id,
            );
            let now = settled(status, seq, a);
            &&& read.last_terminal_seq == now.last_terminal_seq == seq
            &&& read.delivered == now.delivered
            &&& read.dead_letters == now.dead_letters
        }),
{
    lemma_state_names();
    assert(records.push(record_of(config, seq, a)).drop_last() =~= records);
}

/// A worker that starts anew behind a checkpoint goes on where the log was read
/// to.
pub proof fn checkpoints_are_read_back(
    records: Seq<RecordView>,
    config: ConfigView,
    status: StatusView,
    scanned_to: u64,
)
    requires
        status.last_terminal_seq <= scanned_to,
        status_at(states_of(records), config.webhook_id).last_terminal_seq
            == status.last_terminal_seq,
    ensures
        status_at(
            states_of(records.push(checkpoint_of(config, scanned_to))),
            config.webhook_id,
        ).last_terminal_seq == scanned_to,
{
    lemma_state_names();
    assert(records.push(checkpoint_of(config, scanned_to)).drop_last() =~= records);
}

/// A line of the record counts for its webhook alone: one more arrived, one
/// more was given up with its error, or neither; and each of the three kinds of
/// line that end something moves the webhook on to its event, if it is later.
pub proof fn each_line_counts_for_its_webhook(
    records: Seq<RecordView>,
    r: RecordView,
    webhook_id: Seq<char>,
)
    ensures
        ({
            let before = status_at(states_of(records), webhook_id);
            let after = status_at(states_of(records.push(r)), webhook_id);
            let arrived = r.webhook_id == webhook_id && r.state == "delivered"@;
            let dead = r.webhook_id == webhook_id && r.state == "dead_letter"@;
            let read = r.webhook_id == webhook_id && r.state == "checkpoint"@;
            &&& arrived && before.delivered < u64::MAX ==> after.delivered == before.delivered + 1
            &&& !arrived ==> after.delivered == before.delivered
            &&& dead && before.dead_letters < u64::MAX ==> after.dead_letters
                == before.dead_letters + 1
            &&& !dead ==> after.dead_letters == before.dead_letters
            &&& after.last_error == if dead {
                r.error
            } else {
                before.last_error
            }
            &&& arrived || dead || read ==> after.last_terminal_seq >= r.seq && (
            after.last_terminal_seq == r.seq || after.last_terminal_seq
                == before.last_terminal_seq)
            &&& !arrived && !dead && !read || r.seq <= before.last_terminal_seq
                ==> after.last_terminal_seq == before.last_terminal_seq
        }),
{
    lemma_state_names();
    assert(records.push(r).drop_last() =~= records);
}

/// A webhook that no line names has done nothing yet.
pub proof fn webhooks_begin_fresh(webhook_id: Seq<char>)
    ensures
        ({
            let s = status_at(states_of(Seq::empty()), webhook_id);
            &&& s.last_terminal_seq == 0
            &&& s.delivered == 0
            &&& s.dead_letters == 0
            &&& s.last_error is None
        }),
{
}

/// A body of up to a mebibyte is tried; a larger one is given up at once.
pub proof fn large_bodies_are_given_up(body_bytes: nat)
    ensures
        begun(body_bytes).state == AttemptState::Open <==> body_bytes <= 1024 * 1024,
        begun(body_bytes).state != AttemptState::Open ==> begun(body_bytes).state
            == AttemptState::Dead && begun(body_bytes).last_error is Some,
        begun(body_bytes).attempts == 0,
{
}

/// One attempt more is counted; it ends the delivery if it arrived, and if it
/// was the third.
pub proof fn each_attempt_is_counted(a: AttemptView, error: Option<Seq<char>>)
    requires
        a.attempts < 3,
    ensures
        ({
            let next = after_attempt(a, error);
            &&& next.attempts == a.attempts + 1
            &&& next.state == AttemptState::Delivered <==> error is None
            &&& next.state == AttemptState::Open <==> error is Some && a.attempts < 2
            &&& next.state == AttemptState::Dead <==> error is Some && a.attempts == 2
            &&& error is Some ==> next.last_error == Some(clipped(error->0, 256))
        }),
{
}

/// An answer is taken as a success exactly in the two hundreds.
pub proof fn answers_arrive_in_the_two_hundreds(code: u16, shown: Seq<char>)
    ensures
        response_problem(code, shown) is None <==> code / 100 == 2,
        code / 100 == 3 ==> response_problem(code, shown) == Some("webhook redirect rejected"@),
        code / 100 != 2 && code / 100 != 3 ==> response_problem(code, shown) == Some(
            "webhook returned HTTP "@ + shown,
        ),
{
}

/// A URL is refused exactly if it has more than two thousand and forty-eight
/// bytes or cannot be read.
pub proof fn long_urls_are_refused(raw: Seq<char>, error: Option<Seq<char>>)
    ensures
        url_problem(raw, error) is None <==> vstd::utf8::encode_utf8(raw).len() <= 2 * 1024
            && error is None,
{
}

/// A worker that ends an event counts it once, as arrived or as given up, and
/// keeps the error of the latter.
pub proof fn each_event_is_settled_once(s: StatusView, seq: u64, a: AttemptView)
    requires
        s.delivered < u64::MAX,
        s.dead_letters < u64::MAX,
    ensures
        ({
            let now = settled(s, seq, a);
            &&& now.last_terminal_seq == seq
            &&& now.delivered + now.dead_letters == s.delivered + s.dead_letters + 1
            &&& a.state == AttemptState::Delivered <==> now.delivered > s.delivered
            &&& now.delivered > s.delivered ==> now.last_error is None
            &&& now.dead_letters > s.dead_letters ==> now.last_error == a.last_error
        }),
{
}

/// A webhook reads on behind its registration and behind what is done with.
pub proof fn cursors_lie_behind_what_is_done(status: StatusView, config: ConfigView)
    ensures
        cursor_of(status, config) >= status.last_terminal_seq,
        cursor_of(status, config) >= config.registered_seq,
        cursor_of(status, config) == status.last_terminal_seq || cursor_of(status, config)
            == config.registered_seq,
{
}

/// An event goes to the webhooks of its own run that asked for its kind.
pub proof fn events_stay_within_their_run(config: ConfigView, event: EventView)
    ensures
        goes_to(config, event) ==> event.run_id == config.run_id,
        goes_to(config, event) ==> config.event_kinds.len() == 0 || config.event_kinds.contains(
            event.kind,
        ),
        event.run_id == config.run_id && event.kind.len() < 8 && config.event_kinds.len() == 0
            ==> goes_to(config, event),
{
    reveal_strlit("webhook_");
    assert("webhook_"@.len() == 8);
}

/// The log of deliveries lies beside the log of events, under a name of its own.
pub proof fn the_delivery_log_has_its_own_name(file_name: Seq<char>)
    ensures
        delivery_log_name(Some(file_name)) != file_name,
        file_name != "timeline.wal"@ ==> delivery_log_name(Some(file_name)) == file_name
            + ".webhook-delivery.wal"@,
        delivery_log_name(Some("timeline.wal"@)) == WEBHOOK_DELIVERY_LOG@,
{
    reveal_strlit("timeline.wal");
    reveal_strlit(".webhook-delivery.wal");
    reveal_strlit("webhook-delivery.wal");
    assert("timeline.wal"@.len() == 12 && ".webhook-delivery.wal"@.len() == 21);
    assert((file_name + ".webhook-delivery.wal"@).len() == file_name.len() + 21);
    assert("webhook-delivery.wal"@.len() == 20);
}

} // verus!
