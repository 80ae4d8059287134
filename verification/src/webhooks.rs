//! Webhooks: which events they want, how they are registered, and what is told
//! of them.

use vstd::prelude::*;

use crate::event_stream::{bad_request_error, bad_request_view, MAX_FILTER_LEN};
use crate::ids::{random_bytes, valid_run_id, validate_run_id};
use crate::json::{
    json_views, jsons_of, list_of, number_view, text_or_null, text_views, texts_among, texts_in,
    Fields, Json, JsonView, ToJson,
};
use crate::models::FieldError;
use crate::response::{
    detail_view, detail_views, error_view, invalid_field, invalid_field_view, missing_field,
    not_found_view, ok, ok_view, structured_error, Reply, ReplyView,
};
use crate::runs::{
    load_run_snapshot, opt_snapshot, run_not_found, visible, EventAppend, RunSnapshot,
    SnapshotView,
};
use crate::sort::{sorted, stable_sort, views, Alphabetical, Ranked};
use crate::text::{
    has_prefix, has_text, opt_text, owned, owned_list, owned_opt, same, starts_with, text_le,
    text_order_is_total, text_order_is_transitive, texts, trim, trimmed,
};
use crate::text_map::TextMap;
use crate::timeline::{event_views, payloads_of, read_payloads, EventView, TimelineEvent};

verus! {

/// How many webhooks there are at most.
pub const MAX_WEBHOOKS: usize = 64;

/// How many kinds of events a webhook names at most.
pub const MAX_EVENT_FILTERS: usize = 32;

// ----------------------------------------------------------- filters
/// The event is one that tells of webhooks.
pub open spec fn is_bookkeeping(kind: Seq<char>) -> bool {
    has_prefix(kind, "webhook_"@)
}

/// What is wrong with the name of a kind.
pub open spec fn filter_problem(filter: Seq<char>) -> Option<Seq<char>> {
    if filter.len() == 0 || vstd::utf8::encode_utf8(filter).len() > MAX_FILTER_LEN {
        Some("each event kind must contain 1..=96 bytes"@)
    } else if is_bookkeeping(filter) {
        Some("webhook delivery bookkeeping cannot be subscribed to"@)
    } else {
        None
    }
}

/// The first thing that is wrong with the names of some kinds.
pub open spec fn first_problem(filters: Seq<Seq<char>>) -> Option<Seq<char>>
    decreases filters.len(),
{
    if filters.len() == 0 {
        None
    } else {
        match first_problem(filters.drop_last()) {
            Some(p) => Some(p),
            None => filter_problem(trimmed(filters.last())),
        }
    }
}

/// What is wrong with a list of kinds.
pub open spec fn filters_problem(filters: Seq<Seq<char>>) -> Option<Seq<char>> {
    if filters.len() > MAX_EVENT_FILTERS {
        Some("at most 32 event kinds are allowed"@)
    } else {
        first_problem(filters)
    }
}

/// The kinds of a list, each once and without the spaces around it.
pub open spec fn distinct_filters(filters: Seq<Seq<char>>) -> Seq<Seq<char>>
    decreases filters.len(),
{
    if filters.len() == 0 {
        Seq::empty()
    } else {
        let before = distinct_filters(filters.drop_last());
        let t = trimmed(filters.last());
        if before.contains(t) {
            before
        } else {
            before.push(t)
        }
    }
}

/// The kinds of a list, each once and in alphabetical order.
pub open spec fn normalized_filters(filters: Seq<Seq<char>>) -> Seq<Seq<char>> {
    sorted::<String, Alphabetical>(distinct_filters(filters))
}

proof fn lemma_first_problem_stays(filters: Seq<Seq<char>>, n: int)
    requires
        0 <= n <= filters.len(),
        first_problem(filters.take(n)) is Some,
    ensures
        first_problem(filters) == first_problem(filters.take(n)),
    decreases filters.len() - n,
{
    if n < filters.len() {
        assert(filters.take(n + 1).drop_last() =~= filters.take(n));
        lemma_first_problem_stays(filters, n + 1);
    } else {
        assert(filters.take(n) =~= filters);
    }
}

/// The kinds that a webhook wants, each once and in alphabetical order.
pub fn normalize_event_filters(filters: &Vec<String>) -> (r: Result<Vec<String>, String>)
    ensures
        match r {
            Ok(kinds) => filters_problem(texts(filters@)) is None && texts(kinds@)
                == normalized_filters(texts(filters@)),
            Err(problem) => filters_problem(texts(filters@)) == Some(problem@),
        },
{
    if filters.len() > MAX_EVENT_FILTERS {
        return Err(owned("at most 32 event kinds are allowed"));
    }
    let ghost all = texts(filters@);
    let mut out: Vec<String> = Vec::new();
    let mut i: usize = 0;
    assert(all.take(0) =~= Seq::empty());
    assert(texts(out@) =~= Seq::empty());
    while i < filters.len()
        invariant
            all == texts(filters@),
            all.len() <= MAX_EVENT_FILTERS,
            i <= filters@.len(),
            first_problem(all.take(i as int)) is None,
            texts(out@) == distinct_filters(all.take(i as int)),
        decreases filters@.len() - i,
    {
        let t = trim(filters[i].as_str());
        let ghost tv = t@;
        let ghost before = texts(out@);
        proof {
            assert(all.take(i + 1).drop_last() =~= all.take(i as int));
            assert(all.take(i + 1).last() == filters@[i as int]@);
            if filter_problem(tv) is Some {
                lemma_first_problem_stays(all, i + 1);
            }
        }
        if t.as_str().is_empty() || t.as_str().as_bytes().len() > MAX_FILTER_LEN {
            return Err(owned("each event kind must contain 1..=96 bytes"));
        }
        if starts_with(t.as_str(), "webhook_") {
            return Err(owned("webhook delivery bookkeeping cannot be subscribed to"));
        }
        if !has_text(&out, t.as_str()) {
            out.push(t);
            assert(texts(out@) =~= before.push(tv));
        }
        i += 1;
    }
    assert(all.take(i as int) =~= all);
    assert(views(out@) =~= texts(out@));
    stable_sort::<String, Alphabetical>(&mut out);
    assert(views(out@) =~= texts(out@));
    Ok(out)
}

// ----------------------------------------------------------- webhooks
/// A webhook: where events go, and which.
#[derive(Debug)]
pub struct WebhookConfig {
    pub webhook_id: String,
    pub run_id: String,
    pub url: String,
    pub event_kinds: Vec<String>,
    /// The event behind which the webhook begins.
    pub registered_seq: u64,
}

/// What a webhook is.
pub ghost struct ConfigView {
    pub webhook_id: Seq<char>,
    pub run_id: Seq<char>,
    pub url: Seq<char>,
    pub event_kinds: Seq<Seq<char>>,
    pub registered_seq: u64,
}

impl View for WebhookConfig {
    type V = ConfigView;

    open spec fn view(&self) -> ConfigView {
        ConfigView {
            webhook_id: self.webhook_id@,
            run_id: self.run_id@,
            url: self.url@,
            event_kinds: texts(self.event_kinds@),
            registered_seq: self.registered_seq,
        }
    }
}

impl WebhookConfig {
    /// The same webhook once more.
    pub fn copy(&self) -> (r: Self)
        ensures
            r@ == self@,
    {
        WebhookConfig {
            webhook_id: owned(self.webhook_id.as_str()),
            run_id: owned(self.run_id.as_str()),
            url: owned(self.url.as_str()),
            event_kinds: owned_list(&self.event_kinds),
            registered_seq: self.registered_seq,
        }
    }
}

/// A webhook wants an event of its run: it named the kind or none at all, and
/// the event does not tell of webhooks.
pub open spec fn matches_kind(config: ConfigView, event: EventView) -> bool {
    !is_bookkeeping(event.kind) && (config.event_kinds.len() == 0 || config.event_kinds.contains(
        event.kind,
    ))
}

/// Whether a webhook wants an event of its run.
pub fn webhook_matches(config: &WebhookConfig, event: &TimelineEvent) -> (r: bool)
    ensures
        r == matches_kind(config@, event@),
{
    if starts_with(event.kind.as_str(), "webhook_") {
        return false;
    }
    config.event_kinds.len() == 0 || has_text(&config.event_kinds, event.kind.as_str())
}

/// The webhooks after one more event.
pub open spec fn hooks_after(
    hooks: Map<Seq<char>, ConfigView>,
    event: EventView,
    payload: JsonView,
) -> Map<Seq<char>, ConfigView> {
    if event.kind == "webhook_registered"@ {
        match (payload.text_at("webhook_id"@), payload.text_at("url"@)) {
            (Some(webhook_id), Some(url)) => hooks.insert(
                webhook_id,
                ConfigView {
                    webhook_id,
                    run_id: event.run_id,
                    url,
                    event_kinds: match payload.items_at("event_kinds"@) {
                        Some(items) => texts_among(items),
                        None => Seq::empty(),
                    },
                    registered_seq: event.seq,
                },
            ),
            _ => hooks,
        }
    } else if event.kind == "webhook_deleted"@ {
        match payload.text_at("webhook_id"@) {
            Some(webhook_id) => hooks.remove(webhook_id),
            None => hooks,
        }
    } else {
        hooks
    }
}

/// The webhooks that some events tell of.
pub open spec fn restored(events: Seq<EventView>, payloads: Seq<JsonView>) -> Map<
    Seq<char>,
    ConfigView,
>
    decreases events.len(),
{
    if events.len() == 0 {
        Map::empty()
    } else {
        hooks_after(
            restored(events.drop_last(), payloads),
            events.last(),
            payloads[events.len() - 1],
        )
    }
}

/// Some webhooks are those of a map, each once.
pub open spec fn holds_exactly(configs: Seq<ConfigView>, m: Map<Seq<char>, ConfigView>) -> bool {
    &&& configs.len() == m.dom().len()
    &&& forall|i: int|
        0 <= i < configs.len() ==> m.contains_key((#[trigger] configs[i]).webhook_id)
            && m[configs[i].webhook_id] == configs[i]
    &&& forall|i: int, j: int|
        #![trigger configs[i], configs[j]]
        0 <= i < j < configs.len() ==> configs[i].webhook_id != configs[j].webhook_id
    &&& forall|k: Seq<char>| #[trigger]
        m.contains_key(k) ==> exists|i: int|
            0 <= i < configs.len() && (#[trigger] configs[i]).webhook_id == k
}

spec fn config_views(m: Map<Seq<char>, WebhookConfig>) -> Map<Seq<char>, ConfigView> {
    Map::new(|k: Seq<char>| m.contains_key(k), |k: Seq<char>| m[k]@)
}

/// Each webhook that events tell of is under its own name.
proof fn lemma_restored_names(events: Seq<EventView>, payloads: Seq<JsonView>)
    ensures
        forall|k: Seq<char>| #[trigger]
            restored(events, payloads).contains_key(k) ==> restored(events, payloads)[k].webhook_id
                == k,
    decreases events.len(),
{
    if events.len() > 0 {
        lemma_restored_names(events.drop_last(), payloads);
        let before = restored(events.drop_last(), payloads);
        let after = restored(events, payloads);
        assert forall|k: Seq<char>| #[trigger] after.contains_key(k) implies after[k].webhook_id
            == k by {
            if before.contains_key(k) {
                assert(before[k].webhook_id == k);
            }
        }
    }
}

fn note_hook_event(hooks: &mut TextMap<WebhookConfig>, event: &TimelineEvent, payload: &Json)
    ensures
        config_views(final(hooks)@) == hooks_after(config_views(old(hooks)@), event@, payload@),
{
    let ghost before = hooks@;
    if event.is("webhook_registered") {
        match payload.text_at("webhook_id") {
            Some(webhook_id) => match payload.text_at("url") {
                Some(url) => {
                    let event_kinds = match payload.items_at("event_kinds") {
                        Some(items) => texts_in(items),
                        None => Vec::new(),
                    };
                    let config = WebhookConfig {
                        webhook_id: owned(webhook_id),
                        run_id: owned(event.run_id.as_str()),
                        url: owned(url),
                        event_kinds,
                        registered_seq: event.seq,
                    };
                    proof {
                        let want = match payload@.items_at("event_kinds"@) {
                            Some(items) => texts_among(items),
                            None => Seq::empty(),
                        };
                        assert(config@.event_kinds =~= want);
                    }
                    hooks.insert(owned(webhook_id), config);
                    assert(config_views(hooks@) =~= config_views(before).insert(
                        webhook_id@,
                        config@,
                    ));
                },
                None => {},
            },
            None => {},
        }
    } else if event.is("webhook_deleted") {
        match payload.text_at("webhook_id") {
            Some(webhook_id) => {
                let _ = hooks.remove(webhook_id);
                assert(config_views(hooks@) =~= config_views(before).remove(webhook_id@));
            },
            None => {},
        }
    }
}

/// The webhooks that some events tell of, from what the payloads of the events
/// are. Their order is not fixed.
pub fn restore_hooks(events: &Vec<TimelineEvent>, payloads: &Vec<Json>) -> (r: Vec<WebhookConfig>)
    requires
        payloads@.len() == events@.len(),
    ensures
        holds_exactly(views(r@), restored(event_views(events@), json_views(payloads@))),
{
    let ghost all = event_views(events@);
    let ghost read = json_views(payloads@);
    let mut hooks: TextMap<WebhookConfig> = TextMap::new();
    let mut i: usize = 0;
    assert(all.take(0) =~= Seq::empty());
    assert(config_views(hooks@) =~= Map::empty());
    while i < events.len()
        invariant
            all == event_views(events@),
            read == json_views(payloads@),
            payloads@.len() == events@.len(),
            i <= events@.len(),
            config_views(hooks@) == restored(all.take(i as int), read),
        decreases events@.len() - i,
    {
        assert(all.take(i + 1).drop_last() =~= all.take(i as int));
        assert(all.take(i + 1).last() == events@[i as int]@);
        assert(read[i as int] == payloads@[i as int]@);
        note_hook_event(&mut hooks, &events[i], &payloads[i]);
        i += 1;
    }
    assert(all.take(i as int) =~= all);
    let ghost m = restored(all, read);
    proof {
        lemma_restored_names(all, read);
    }
    let keys = hooks.keys();
    let ghost kv = texts(keys@);
    let mut out: Vec<WebhookConfig> = Vec::new();
    let mut j: usize = 0;
    while j < keys.len()
        invariant
            kv == texts(keys@),
            m == config_views(hooks@),
            forall|k: Seq<char>| kv.contains(k) <==> #[trigger] hooks@.contains_key(k),
            forall|k: Seq<char>| #[trigger] m.contains_key(k) ==> m[k].webhook_id == k,
            j <= keys@.len(),
            out@.len() == j,
            forall|k: int|
                0 <= k < j ==> m.contains_key(kv[k]) && (#[trigger] out@[k])@ == m[kv[k]],
        decreases keys@.len() - j,
    {
        assert(kv[j as int] == keys@[j as int]@);
        assert(kv.contains(kv[j as int]));
        assert(hooks@.contains_key(kv[j as int]));
        match hooks.get(keys[j].as_str()) {
            Some(config) => {
                out.push(config.copy());
            },
            None => {},
        }
        j += 1;
    }
    proof {
        let configs = views(out@);
        assert forall|a: int| 0 <= a < configs.len() implies m.contains_key(
            (#[trigger] configs[a]).webhook_id,
        ) && m[configs[a].webhook_id] == configs[a] && configs[a].webhook_id == kv[a] by {
            assert(configs[a] == out@[a]@);
        }
        assert forall|a: int, b: int|
            #![trigger configs[a], configs[b]]
            0 <= a < b < configs.len() implies configs[a].webhook_id != configs[b].webhook_id by {
            assert(kv[a] != kv[b]);
        }
        assert forall|k: Seq<char>| #[trigger] m.contains_key(k) implies exists|a: int|
            0 <= a < configs.len() && (#[trigger] configs[a]).webhook_id == k by {
            assert(hooks@.contains_key(k));
            let a = choose|a: int| 0 <= a < kv.len() && kv[a] == k;
            assert(configs[a].webhook_id == k);
        }
        assert(m.dom() =~= hooks@.dom());
    }
    out
}

/// The webhooks that some events tell of. Their order is not fixed.
pub fn restore_webhook_configs(events: &Vec<TimelineEvent>) -> (r: Vec<WebhookConfig>)
    ensures
        holds_exactly(
            views(r@),
            restored(event_views(events@), payloads_of(event_views(events@))),
        ),
{
    restore_hooks(events, &read_payloads(events))
}

// ----------------------------------------------------------- registry
/// How far a webhook has come.
#[derive(Debug)]
pub struct WorkerStatus {
    /// The last event that is done with.
    pub last_terminal_seq: u64,
    pub delivered: u64,
    pub dead_letters: u64,
    pub last_error: Option<String>,
}

/// How far a webhook has come.
pub ghost struct StatusView {
    pub last_terminal_seq: u64,
    pub delivered: u64,
    pub dead_letters: u64,
    pub last_error: Option<Seq<char>>,
}

/// A webhook that has done nothing yet.
pub open spec fn fresh_status() -> StatusView {
    StatusView { last_terminal_seq: 0, delivered: 0, dead_letters: 0, last_error: None }
}

impl View for WorkerStatus {
    type V = StatusView;

    open spec fn view(&self) -> StatusView {
        StatusView {
            last_terminal_seq: self.last_terminal_seq,
            delivered: self.delivered,
            dead_letters: self.dead_letters,
            last_error: opt_text(self.last_error),
        }
    }
}

impl WorkerStatus {
    /// The status of a webhook that has done nothing yet.
    pub fn fresh() -> (r: Self)
        ensures
            r@ == fresh_status(),
    {
        WorkerStatus { last_terminal_seq: 0, delivered: 0, dead_letters: 0, last_error: None }
    }

    /// The same status once more.
    pub fn copy(&self) -> (r: Self)
        ensures
            r@ == self@,
    {
        WorkerStatus {
            last_terminal_seq: self.last_terminal_seq,
            delivered: self.delivered,
            dead_letters: self.dead_letters,
            last_error: owned_opt(&self.last_error),
        }
    }
}

/// A webhook that is known: it waits to be activated, or events go to it.
#[derive(Debug)]
pub struct HookEntry {
    pub config: WebhookConfig,
    pub active: bool,
}

/// What is known of a webhook.
pub ghost struct EntryView {
    pub config: ConfigView,
    pub active: bool,
}

impl View for HookEntry {
    type V = EntryView;

    open spec fn view(&self) -> EntryView {
        EntryView { config: self.config@, active: self.active }
    }
}

spec fn entry_views(m: Map<Seq<char>, HookEntry>) -> Map<Seq<char>, EntryView> {
    Map::new(|k: Seq<char>| m.contains_key(k), |k: Seq<char>| m[k]@)
}

/// What is told of a webhook.
#[derive(Debug)]
pub struct WebhookSummary {
    pub webhook_id: String,
    pub url: String,
    pub event_kinds: Vec<String>,
    pub registered_seq: u64,
    pub last_terminal_seq: u64,
    pub delivered: u64,
    pub dead_letters: u64,
    pub last_error: Option<String>,
    pub state: &'static str,
}

/// What is told of a webhook.
pub ghost struct SummaryView {
    pub webhook_id: Seq<char>,
    pub url: Seq<char>,
    pub event_kinds: Seq<Seq<char>>,
    pub registered_seq: u64,
    pub status: StatusView,
    pub state: Seq<char>,
}

impl View for WebhookSummary {
    type V = SummaryView;

    open spec fn view(&self) -> SummaryView {
        SummaryView {
            webhook_id: self.webhook_id@,
            url: self.url@,
            event_kinds: texts(self.event_kinds@),
            registered_seq: self.registered_seq,
            status: StatusView {
                last_terminal_seq: self.last_terminal_seq,
                delivered: self.delivered,
                dead_letters: self.dead_letters,
                last_error: opt_text(self.last_error),
            },
            state: self.state@,
        }
    }
}

/// What is told of a webhook that has come so far.
pub open spec fn summary_of(entry: EntryView, status: StatusView) -> SummaryView {
    SummaryView {
        webhook_id: entry.config.webhook_id,
        url: entry.config.url,
        event_kinds: entry.config.event_kinds,
        registered_seq: entry.config.registered_seq,
        status,
        state: if entry.active {
            "active"@
        } else {
            "pending"@
        },
    }
}

/// What is told of a webhook that has come so far.
pub fn hook_summary(entry: &HookEntry, status: &WorkerStatus) -> (r: WebhookSummary)
    ensures
        r@ == summary_of(entry@, status@),
{
    WebhookSummary {
        webhook_id: owned(entry.config.webhook_id.as_str()),
        url: owned(entry.config.url.as_str()),
        event_kinds: owned_list(&entry.config.event_kinds),
        registered_seq: entry.config.registered_seq,
        last_terminal_seq: status.last_terminal_seq,
        delivered: status.delivered,
        dead_letters: status.dead_letters,
        last_error: owned_opt(&status.last_error),
        state: if entry.active {
            "active"
        } else {
            "pending"
        },
    }
}

/// The order of the list: by the name of the webhook.
pub struct ByWebhook;

impl Ranked<ByWebhook> for WebhookSummary {
    open spec fn ranks_before(a: SummaryView, b: SummaryView) -> bool {
        text_le(a.webhook_id, b.webhook_id)
    }

    fn may_precede(&self, other: &Self) -> (r: bool) {
        crate::text::le(self.webhook_id.as_str(), other.webhook_id.as_str())
    }

    proof fn rank_is_total(a: SummaryView, b: SummaryView) {
        text_order_is_total(a.webhook_id, b.webhook_id);
    }

    proof fn rank_is_transitive(a: SummaryView, b: SummaryView, c: SummaryView) {
        text_order_is_transitive(a.webhook_id, b.webhook_id, c.webhook_id);
    }
}

/// What is said where no webhook can be signed.
pub const NO_SECRET_PROBLEM: &'static str =
    "webhook delivery requires VIDARAX_WEBHOOK_SECRET with at least 32 bytes";

/// A secret is long enough to sign with.
pub open spec fn secret_fits(secret: Option<Seq<char>>) -> bool {
    match secret {
        Some(s) => vstd::utf8::encode_utf8(s).len() >= 32,
        None => false,
    }
}

/// Whether a secret is long enough to sign with.
pub fn webhooks_enabled(secret: &Option<String>) -> (r: bool)
    ensures
        r == secret_fits(opt_text(*secret)),
{
    match secret {
        Some(s) => s.as_str().as_bytes().len() >= 32,
        None => false,
    }
}

/// What stands in the way of one more webhook.
pub open spec fn reserve_problem(
    hooks: Map<Seq<char>, EntryView>,
    webhook_id: Seq<char>,
    has_secret: bool,
    has_log: bool,
) -> Option<Seq<char>> {
    if !has_secret {
        Some(NO_SECRET_PROBLEM@)
    } else if !has_log {
        Some("webhook delivery log is unavailable"@)
    } else if hooks.dom().len() >= MAX_WEBHOOKS {
        Some("webhook limit reached (64)"@)
    } else if hooks.contains_key(webhook_id) {
        Some("webhook id collision"@)
    } else {
        None
    }
}

/// What stands in the way of activating a webhook.
pub open spec fn activate_problem(
    hooks: Map<Seq<char>, EntryView>,
    webhook_id: Seq<char>,
) -> Option<Seq<char>> {
    if !hooks.contains_key(webhook_id) {
        Some("webhook reservation was not found"@)
    } else if hooks[webhook_id].active {
        Some("webhook is already active"@)
    } else {
        None
    }
}

/// The webhooks that are known.
pub struct HookRegistry {
    hooks: TextMap<HookEntry>,
}

impl View for HookRegistry {
    type V = Map<Seq<char>, EntryView>;

    closed spec fn view(&self) -> Map<Seq<char>, EntryView> {
        entry_views(self.hooks@)
    }
}

impl HookRegistry {
    /// There are no more webhooks than there may be, each under its own name.
    pub open spec fn wf(&self) -> bool {
        &&& self@.dom().finite()
        &&& self@.dom().len() <= MAX_WEBHOOKS
        &&& forall|k: Seq<char>| #[trigger]
            self@.contains_key(k) ==> self@[k].config.webhook_id == k
    }

    /// No webhook.
    pub fn new() -> (r: Self)
        ensures
            r.wf(),
            r@ == Map::<Seq<char>, EntryView>::empty(),
    {
        let r = HookRegistry { hooks: TextMap::new() };
        assert(r@ =~= Map::empty());
        r
    }

    /// How many webhooks there are.
    pub fn len(&self) -> (r: usize)
        ensures
            r == self@.dom().len(),
    {
        assert(self@.dom() =~= self.hooks@.dom());
        self.hooks.len()
    }

    /// Takes up, as active, the first webhooks of a list, as many as there may
    /// be.
    pub fn restore(configs: &Vec<WebhookConfig>) -> (r: Self)
        requires
            forall|i: int, j: int|
                #![trigger configs@[i], configs@[j]]
                0 <= i < j < configs@.len() ==> configs@[i].webhook_id@ != configs@[j].webhook_id@,
        ensures
            r.wf(),
            r@.dom().len() == if configs@.len() <= MAX_WEBHOOKS {
                configs@.len()
            } else {
                MAX_WEBHOOKS as nat
            },
            forall|i: int|
                0 <= i < configs@.len() && i < MAX_WEBHOOKS ==> r@.contains_key(
                    (#[trigger] configs@[i]).webhook_id@,
                ) && r@[configs@[i].webhook_id@] == (EntryView {
                    config: configs@[i]@,
                    active: true,
                }),
    {
        let mut registry = HookRegistry::new();
        let mut i: usize = 0;
        while i < configs.len() && i < MAX_WEBHOOKS
            invariant
                i <= configs@.len(),
                i <= MAX_WEBHOOKS,
                registry.wf(),
                registry@.dom().len() == i,
                forall|a: int, b: int|
                    #![trigger configs@[a], configs@[b]]
                    0 <= a < b < configs@.len() ==> configs@[a].webhook_id@
                        != configs@[b].webhook_id@,
                forall|k: Seq<char>| #[trigger]
                    registry@.contains_key(k) ==> exists|j: int|
                        0 <= j < i && (#[trigger] configs@[j]).webhook_id@ == k,
                forall|j: int|
                    0 <= j < i ==> registry@.contains_key((#[trigger] configs@[j]).webhook_id@)
                        && registry@[configs@[j].webhook_id@] == (EntryView {
                        config: configs@[j]@,
                        active: true,
                    }),
            decreases configs@.len() - i,
        {
            let ghost before = registry@;
            let ghost was = registry.hooks@;
            let config = configs[i].copy();
            let ghost cv = config@;
            let ghost id = configs@[i as int].webhook_id@;
            registry.hooks.insert(owned(configs[i].webhook_id.as_str()), HookEntry { config, active: true });
            proof {
                let after = registry@;
                assert(after =~= before.insert(id, EntryView { config: cv, active: true }));
                assert(!before.contains_key(id)) by {
                    if before.contains_key(id) {
                        let j = choose|j: int| 0 <= j < i && (#[trigger] configs@[j]).webhook_id@ == id;
                        assert(configs@[j].webhook_id@ != configs@[i as int].webhook_id@);
                    }
                }
                assert(after.dom() =~= before.dom().insert(id));
                assert forall|k: Seq<char>| #[trigger] after.contains_key(k) implies exists|j: int|
                    0 <= j < i + 1 && (#[trigger] configs@[j]).webhook_id@ == k by {
                    if k == id {
                        assert(configs@[i as int].webhook_id@ == k);
                    } else {
                        assert(before.contains_key(k));
                    }
                }
                assert forall|j: int| 0 <= j < i + 1 implies after.contains_key(
                    (#[trigger] configs@[j]).webhook_id@,
                ) && after[configs@[j].webhook_id@] == (EntryView {
                    config: configs@[j]@,
                    active: true,
                }) by {
                    if j < i {
                        assert(configs@[j].webhook_id@ != configs@[i as int].webhook_id@);
                    }
                }
            }
            i += 1;
        }
        registry
    }

    /// Keeps a place for one more webhook, which waits to be activated.
    pub fn reserve(&mut self, config: WebhookConfig, has_secret: bool, has_log: bool) -> (r: Result<
        (),
        String,
    >)
        requires
            old(self).wf(),
        ensures
            final(self).wf(),
            match r {
                Ok(_) => reserve_problem(
                    old(self)@,
                    config@.webhook_id,
                    has_secret,
                    has_log,
                ) is None && final(self)@ == old(self)@.insert(
                    config@.webhook_id,
                    EntryView { config: config@, active: false },
                ),
                Err(problem) => reserve_problem(
                    old(self)@,
                    config@.webhook_id,
                    has_secret,
                    has_log,
                ) == Some(problem@) && final(self)@ == old(self)@,
            },
    {
        let ghost before = self@;
        if !has_secret {
            return Err(owned(NO_SECRET_PROBLEM));
        }
        if !has_log {
            return Err(owned("webhook delivery log is unavailable"));
        }
        if self.len() >= MAX_WEBHOOKS {
            return Err(owned("webhook limit reached (64)"));
        }
        if self.hooks.get(config.webhook_id.as_str()).is_some() {
            return Err(owned("webhook id collision"));
        }
        let ghost cv = config@;
        self.hooks.insert(owned(config.webhook_id.as_str()), HookEntry { config, active: false });
        assert(self@ =~= before.insert(
            cv.webhook_id,
            EntryView { config: cv, active: false },
        ));
        assert(self@.dom() =~= before.dom().insert(cv.webhook_id));
        Ok(())
    }

    /// Activates a webhook that waits: it begins behind an event.
    pub fn activate(&mut self, webhook_id: &str, registered_seq: u64) -> (r: Result<(), String>)
        requires
            old(self).wf(),
        ensures
            final(self).wf(),
            match r {
                Ok(_) => activate_problem(old(self)@, webhook_id@) is None && final(self)@
                    == old(self)@.insert(
                    webhook_id@,
                    EntryView {
                        config: ConfigView {
                            registered_seq,
                            ..old(self)@[webhook_id@].config
                        },
                        active: true,
                    },
                ),
                Err(problem) => activate_problem(old(self)@, webhook_id@) == Some(problem@)
                    && final(self)@ == old(self)@,
            },
    {
        let ghost before = self@;
        let mut config = match self.hooks.get(webhook_id) {
            Some(entry) => {
                if entry.active {
                    return Err(owned("webhook is already active"));
                }
                entry.config.copy()
            },
            None => {
                return Err(owned("webhook reservation was not found"));
            },
        };
        config.registered_seq = registered_seq;
        let ghost cv = config@;
        self.hooks.insert(owned(webhook_id), HookEntry { config, active: true });
        assert(self@ =~= before.insert(webhook_id@, EntryView { config: cv, active: true }));
        assert(self@.dom() =~= before.dom());
        Ok(())
    }

    /// Forgets a webhook. Whether events went to it, so that they must stop, is
    /// what is returned.
    pub fn remove(&mut self, webhook_id: &str) -> (r: bool)
        requires
            old(self).wf(),
        ensures
            final(self).wf(),
            final(self)@ == old(self)@.remove(webhook_id@),
            r == (old(self)@.contains_key(webhook_id@) && old(self)@[webhook_id@].active),
    {
        let ghost before = self@;
        let removed = self.hooks.remove(webhook_id);
        assert(self@ =~= before.remove(webhook_id@));
        assert(self@.dom() =~= before.dom().remove(webhook_id@));
        match removed {
            Some(entry) => entry.active,
            None => false,
        }
    }

    /// The webhooks to which events go: those of a run, or all.
    pub fn hooks_to_wake(&self, run_id: Option<&str>) -> (r: Vec<String>)
        ensures
            texts(r@).no_duplicates(),
            forall|k: Seq<char>| #[trigger]
                texts(r@).contains(k) <==> self@.contains_key(k) && self@[k].active && match run_id {
                    Some(run) => self@[k].config.run_id == run@,
                    None => true,
                },
    {
        let keys = self.hooks.keys();
        let ghost kv = texts(keys@);
        let mut out: Vec<String> = Vec::new();
        let mut i: usize = 0;
        assert(kv.take(0) =~= Seq::empty());
        assert(texts(out@) =~= Seq::empty());
        while i < keys.len()
            invariant
                kv == texts(keys@),
                kv.no_duplicates(),
                forall|k: Seq<char>| kv.contains(k) <==> #[trigger] self.hooks@.contains_key(k),
                i <= keys@.len(),
                texts(out@).no_duplicates(),
                forall|k: Seq<char>| #[trigger]
                    texts(out@).contains(k) <==> kv.take(i as int).contains(k) && self@[k].active
                        && match run_id {
                        Some(run) => self@[k].config.run_id == run@,
                        None => true,
                    },
            decreases keys@.len() - i,
        {
            let ghost before = texts(out@);
            let ghost id = kv[i as int];
            assert(id == keys@[i as int]@);
            assert(kv.contains(id));
            assert(self.hooks@.contains_key(id));
            assert(kv.take(i + 1) =~= kv.take(i as int).push(id));
            assert(!kv.take(i as int).contains(id)) by {
                if kv.take(i as int).contains(id) {
                    let j = choose|j: int| 0 <= j < i && kv.take(i as int)[j] == id;
                    assert(kv[j] == kv[i as int]);
                }
            }
            assert(!before.contains(id));
            match self.hooks.get(keys[i].as_str()) {
                Some(entry) => {
                    let wanted = match run_id {
                        Some(run) => same(entry.config.run_id.as_str(), run),
                        None => true,
                    };
                    if entry.active && wanted {
                        out.push(owned(keys[i].as_str()));
                        assert(texts(out@) =~= before.push(id));
                    }
                },
                None => {},
            }
            proof {
                let now = texts(out@);
                assert forall|k: Seq<char>| #[trigger] now.contains(k) <==> kv.take(
                    i + 1,
                ).contains(k) && self@[k].active && match run_id {
                    Some(run) => self@[k].config.run_id == run@,
                    None => true,
                } by {
                    lemma_push_contains(kv.take(i as int), id, k);
                    lemma_push_contains(before, id, k);
                }
            }
            i += 1;
        }
        assert(kv.take(i as int) =~= kv);
        proof {
            assert forall|k: Seq<char>| kv.contains(k) <==> #[trigger] self@.contains_key(k) by {
                assert(kv.contains(k) <==> self.hooks@.contains_key(k));
            }
        }
        out
    }
}

proof fn lemma_push_contains<A>(s: Seq<A>, x: A, y: A)
    ensures
        s.push(x).contains(y) <==> s.contains(y) || x == y,
{
    if s.contains(y) {
        let i = choose|i: int| 0 <= i < s.len() && s[i] == y;
        assert(s.push(x)[i] == y);
    }
    if x == y {
        assert(s.push(x)[s.len() as int] == y);
    }
}

/// Sorting keeps what is there, and keeps it as often.
proof fn lemma_sorted_same<T: Ranked<O>, O>(s: Seq<T::V>)
    ensures
        forall|v: T::V| #[trigger] sorted::<T, O>(s).contains(v) <==> s.contains(v),
        s.no_duplicates() ==> sorted::<T, O>(s).no_duplicates(),
{
    broadcast use vstd::seq_lib::group_to_multiset_ensures;

    crate::sort::sorting_orders_and_permutes::<T, O>(s);
    let t = sorted::<T, O>(s);
    assert forall|v: T::V| #[trigger] t.contains(v) <==> s.contains(v) by {
        vstd::seq_lib::to_multiset_contains(t, v);
        vstd::seq_lib::to_multiset_contains(s, v);
    }
    if s.no_duplicates() {
        s.lemma_multiset_has_no_duplicates();
        t.lemma_multiset_has_no_duplicates_conv();
    }
}

/// How far a webhook has come, where that is known.
pub open spec fn status_at(statuses: Map<Seq<char>, StatusView>, webhook_id: Seq<char>) -> StatusView {
    if statuses.contains_key(webhook_id) {
        statuses[webhook_id]
    } else {
        fresh_status()
    }
}

/// What the statuses of some webhooks are.
pub open spec fn status_views(m: Map<Seq<char>, WorkerStatus>) -> Map<Seq<char>, StatusView> {
    Map::new(|k: Seq<char>| m.contains_key(k), |k: Seq<char>| m[k]@)
}

/// A summary is that of a webhook of a run.
pub open spec fn is_summary(
    hooks: Map<Seq<char>, EntryView>,
    statuses: Map<Seq<char>, StatusView>,
    run_id: Seq<char>,
    v: SummaryView,
) -> bool {
    &&& hooks.contains_key(v.webhook_id)
    &&& hooks[v.webhook_id].config.run_id == run_id
    &&& v == summary_of(hooks[v.webhook_id], status_at(statuses, v.webhook_id))
}

impl HookRegistry {
    /// What is told of the webhooks of a run, by their names.
    pub fn list(&self, run_id: &str, statuses: &TextMap<WorkerStatus>) -> (r: Vec<WebhookSummary>)
        requires
            self.wf(),
        ensures
            crate::sort::in_order::<WebhookSummary, ByWebhook>(views(r@)),
            views(r@).no_duplicates(),
            forall|v: SummaryView| #[trigger]
                views(r@).contains(v) <==> is_summary(self@, status_views(statuses@), run_id@, v),
    {
        let ghost hooks = self@;
        let ghost known = status_views(statuses@);
        let keys = self.hooks.keys();
        let ghost kv = texts(keys@);
        let mut out: Vec<WebhookSummary> = Vec::new();
        let mut i: usize = 0;
        assert(kv.take(0) =~= Seq::empty());
        assert(views(out@) =~= Seq::empty());
        while i < keys.len()
            invariant
                self.wf(),
                hooks == self@,
                known == status_views(statuses@),
                kv == texts(keys@),
                kv.no_duplicates(),
                forall|k: Seq<char>| kv.contains(k) <==> #[trigger] self.hooks@.contains_key(k),
                i <= keys@.len(),
                views(out@).no_duplicates(),
                forall|v: SummaryView| #[trigger]
                    views(out@).contains(v) <==> kv.take(i as int).contains(v.webhook_id)
                        && is_summary(hooks, known, run_id@, v),
            decreases keys@.len() - i,
        {
            let ghost before = views(out@);
            let ghost id = kv[i as int];
            let ghost seen = kv.take(i as int);
            assert(id == keys@[i as int]@);
            assert(kv.contains(id));
            assert(self.hooks@.contains_key(id));
            assert(hooks.contains_key(id));
            assert(kv.take(i + 1) =~= seen.push(id));
            assert(!seen.contains(id)) by {
                if seen.contains(id) {
                    let j = choose|j: int| 0 <= j < i && seen[j] == id;
                    assert(kv[j] == kv[i as int]);
                }
            }
            let ghost one = summary_of(hooks[id], status_at(known, id));
            assert(one.webhook_id == id);
            match self.hooks.get(keys[i].as_str()) {
                Some(entry) => {
                    if same(entry.config.run_id.as_str(), run_id) {
                        let summary = match statuses.get(keys[i].as_str()) {
                            Some(status) => hook_summary(entry, status),
                            None => hook_summary(entry, &WorkerStatus::fresh()),
                        };
                        assert(summary@ == one);
                        assert(!before.contains(one));
                        out.push(summary);
                        assert(views(out@) =~= before.push(one));
                    }
                },
                None => {},
            }
            proof {
                let now = views(out@);
                assert forall|v: SummaryView| #[trigger] now.contains(v) <==> kv.take(
                    i + 1,
                ).contains(v.webhook_id) && is_summary(hooks, known, run_id@, v) by {
                    lemma_push_contains(seen, id, v.webhook_id);
                    lemma_push_contains(before, one, v);
                }
            }
            i += 1;
        }
        assert(kv.take(i as int) =~= kv);
        proof {
            lemma_sorted_same::<WebhookSummary, ByWebhook>(views(out@));
            crate::sort::sorting_orders_and_permutes::<WebhookSummary, ByWebhook>(views(out@));
            assert forall|v: SummaryView| is_summary(hooks, known, run_id@, v) implies kv.contains(
                v.webhook_id,
            ) by {
                assert(self.hooks@.contains_key(v.webhook_id));
            }
        }
        let ghost unsorted = views(out@);
        stable_sort::<WebhookSummary, ByWebhook>(&mut out);
        proof {
            let now = views(out@);
            assert forall|v: SummaryView| #[trigger] now.contains(v) <==> is_summary(
                hooks,
                known,
                run_id@,
                v,
            ) by {
                assert(now.contains(v) <==> unsorted.contains(v));
            }
        }
        out
    }
}

/// Kinds that are accepted are no more than there may be, distinct and in
/// alphabetical order; each is one that was asked for, and none tells of
/// webhooks.
pub proof fn accepted_filters_are_bounded(filters: Seq<Seq<char>>)
    requires
        filters_problem(filters) is None,
    ensures
        ({
            let kinds = normalized_filters(filters);
            &&& kinds.len() <= MAX_EVENT_FILTERS
            &&& kinds.no_duplicates()
            &&& crate::sort::in_order::<String, Alphabetical>(kinds)
            &&& forall|i: int|
                0 <= i < kinds.len() ==> filter_problem(#[trigger] kinds[i]) is None
                    && !is_bookkeeping(kinds[i])
            &&& forall|i: int|
                0 <= i < filters.len() ==> kinds.contains(trimmed(#[trigger] filters[i]))
        }),
{
    let d = distinct_filters(filters);
    let kinds = normalized_filters(filters);
    lemma_distinct(filters);
    lemma_sorted_same::<String, Alphabetical>(d);
    crate::sort::sorting_orders_and_permutes::<String, Alphabetical>(d);
    assert forall|i: int| 0 <= i < kinds.len() implies filter_problem(#[trigger] kinds[i]) is None
        && !is_bookkeeping(kinds[i]) by {
        assert(kinds.contains(kinds[i]));
        assert(d.contains(kinds[i]));
    }
    assert forall|i: int| 0 <= i < filters.len() implies kinds.contains(
        trimmed(#[trigger] filters[i]),
    ) by {
        assert(d.contains(trimmed(filters[i])));
    }
}

proof fn lemma_distinct(filters: Seq<Seq<char>>)
    requires
        first_problem(filters) is None,
    ensures
        distinct_filters(filters).no_duplicates(),
        distinct_filters(filters).len() <= filters.len(),
        forall|k: Seq<char>| #[trigger]
            distinct_filters(filters).contains(k) ==> filter_problem(k) is None,
        forall|i: int|
            0 <= i < filters.len() ==> distinct_filters(filters).contains(
                trimmed(#[trigger] filters[i]),
            ),
    decreases filters.len(),
{
    if filters.len() > 0 {
        let rest = filters.drop_last();
        lemma_distinct(rest);
        let before = distinct_filters(rest);
        let t = trimmed(filters.last());
        let now = distinct_filters(filters);
        assert forall|k: Seq<char>| #[trigger] now.contains(k) implies filter_problem(k) is None by {
            lemma_push_contains(before, t, k);
        }
        assert forall|i: int| 0 <= i < filters.len() implies now.contains(
            trimmed(#[trigger] filters[i]),
        ) by {
            lemma_push_contains(before, t, trimmed(filters[i]));
            if i < rest.len() {
                assert(rest[i] == filters[i]);
            }
        }
    }
}

// ----------------------------------------------------------- requests
/// The name of a webhook from twelve bytes.
pub fn webhook_id_from_bytes(bytes: &[u8]) -> (r: String)
    ensures
        r@ == "wh_"@ + crate::codec::hex_of(bytes@),
{
    let mut id = owned("wh_");
    id.push_str(crate::codec::hex_bytes(bytes).as_str());
    id
}

/// A name of a webhook that cannot be guessed: that of twelve random bytes.
/// `None` where the operating system has no random source to give.
pub fn random_webhook_id() -> (r: Option<String>)
    ensures
        r is Some ==> exists|bytes: Seq<u8>|
            bytes.len() == 12 && r->0@ == "wh_"@ + #[trigger] crate::codec::hex_of(bytes),
        r is Some ==> r->0@.len() == 27 && has_prefix(r->0@, "wh_"@),
{
    match random_bytes(12) {
        Some(bytes) => {
            let id = webhook_id_from_bytes(bytes.as_slice());
            proof {
                reveal_strlit("wh_");
                crate::codec::hex_doubles_the_length(bytes@);
                assert(id@.subrange(0, 3) =~= "wh_"@);
            }
            Some(id)
        },
        None => None,
    }
}

/// The refusal of a request to make a webhook, as far as the run decides.
pub open spec fn webhook_refusal(
    request_id: Seq<char>,
    run_id: Seq<char>,
    snapshot: Option<SnapshotView>,
    principal: Seq<char>,
) -> Option<ReplyView> {
    if !valid_run_id(run_id) {
        Some(bad_request_view(request_id, "invalid webhook request"@, Seq::empty()))
    } else if !visible(snapshot, principal) {
        Some(run_not_found(request_id, run_id))
    } else {
        None
    }
}

/// Refuses a request to make a webhook for a run that the caller may not see.
pub fn check_webhook_run(
    request_id: &str,
    run_id: &str,
    snapshot: &Option<RunSnapshot>,
    principal: &str,
) -> (r: Option<Reply>)
    ensures
        match r {
            Some(reply) => webhook_refusal(
                request_id@,
                run_id@,
                opt_snapshot(*snapshot),
                principal@,
            ) == Some(reply@),
            None => webhook_refusal(request_id@, run_id@, opt_snapshot(*snapshot), principal@)
                is None,
        },
{
    if !validate_run_id(run_id) {
        let none: Vec<FieldError> = Vec::new();
        assert(detail_views(none@) =~= Seq::empty());
        return Some(bad_request_error(request_id, "invalid webhook request", &none));
    }
    match load_run_snapshot(request_id, run_id, snapshot, principal) {
        Ok(_) => None,
        Err(reply) => Some(reply),
    }
}

/// The webhook that a request asks for, with what was found of its address, or
/// the refusal. It begins nowhere yet.
pub fn create_webhook(
    request_id: &str,
    run_id: &str,
    webhook_id: &str,
    url: &str,
    url_problem: Option<String>,
    event_kinds: &Vec<String>,
) -> (r: Result<WebhookConfig, Reply>)
    ensures
        ({
            let problem = filters_problem(texts(event_kinds@));
            match (url_problem, r) {
                (Some(p), Err(reply)) => reply@ == invalid_field_view(
                    request_id@,
                    "invalid webhook request"@,
                    "url"@,
                    p@,
                ),
                (None, Err(reply)) => problem is Some && reply@ == invalid_field_view(
                    request_id@,
                    "invalid webhook request"@,
                    "event_kinds"@,
                    problem->0,
                ),
                (None, Ok(config)) => problem is None && config@ == (ConfigView {
                    webhook_id: webhook_id@,
                    run_id: run_id@,
                    url: url@,
                    event_kinds: normalized_filters(texts(event_kinds@)),
                    registered_seq: 0,
                }),
                _ => false,
            }
        }),
{
    match url_problem {
        Some(p) => {
            return Err(invalid_field(request_id, "invalid webhook request", "url", p));
        },
        None => {},
    }
    match normalize_event_filters(event_kinds) {
        Err(p) => Err(invalid_field(request_id, "invalid webhook request", "event_kinds", p)),
        Ok(kinds) => Ok(
            WebhookConfig {
                webhook_id: owned(webhook_id),
                run_id: owned(run_id),
                url: owned(url),
                event_kinds: kinds,
                registered_seq: 0,
            },
        ),
    }
}

/// The reply where a webhook cannot be had now.
pub fn webhooks_unavailable(request_id: &str, problem: &str) -> (r: Reply)
    ensures
        r@ == (ReplyView {
            status: 503,
            body: error_view("webhooks_unavailable"@, problem@, request_id@, Seq::empty()),
        }),
{
    let none: Vec<FieldError> = Vec::new();
    assert(detail_views(none@) =~= Seq::empty());
    structured_error(request_id, 503, "webhooks_unavailable", problem, &none)
}

/// The event that tells of a new webhook.
pub open spec fn registered_event(c: ConfigView) -> (Seq<char>, JsonView) {
    (
        "webhook_registered"@,
        JsonView::Object(
            seq![
                ("webhook_id"@, JsonView::Text(c.webhook_id)),
                ("url"@, JsonView::Text(c.url)),
                ("event_kinds"@, JsonView::Array(text_views(c.event_kinds))),
            ],
        ),
    )
}

/// The event that tells of a new webhook.
pub fn register_webhook(config: &WebhookConfig) -> (r: EventAppend)
    ensures
        r@ == registered_event(config@),
{
    let mut o = Fields::new();
    o.put("webhook_id", Json::text(config.webhook_id.as_str()));
    o.put("url", Json::text(config.url.as_str()));
    o.put("event_kinds", Json::text_list(&config.event_kinds));
    assert(o@ =~= registered_event(config@).1->Object_0);
    EventAppend { kind: "webhook_registered", payload: o.object() }
}

/// The reply that tells of a new webhook.
pub open spec fn registered_reply(request_id: Seq<char>, c: ConfigView, seq: u64) -> ReplyView {
    ReplyView {
        status: 201,
        body: JsonView::Object(
            seq![
                ("request_id"@, JsonView::Text(request_id)),
                ("run_id"@, JsonView::Text(c.run_id)),
                ("webhook_id"@, JsonView::Text(c.webhook_id)),
                ("url"@, JsonView::Text(c.url)),
                ("event_kinds"@, JsonView::Array(text_views(c.event_kinds))),
                ("registered_seq"@, number_view(seq)),
            ],
        ),
    }
}

/// The reply that tells of a new webhook.
pub fn created_webhook(request_id: &str, config: &WebhookConfig, registered_seq: u64) -> (r: Reply)
    ensures
        r@ == registered_reply(request_id@, config@, registered_seq),
{
    let mut o = Fields::new();
    o.put("request_id", Json::text(request_id));
    o.put("run_id", Json::text(config.run_id.as_str()));
    o.put("webhook_id", Json::text(config.webhook_id.as_str()));
    o.put("url", Json::text(config.url.as_str()));
    o.put("event_kinds", Json::text_list(&config.event_kinds));
    o.put("registered_seq", Json::number(registered_seq));
    assert(o@ =~= registered_reply(request_id@, config@, registered_seq).body->Object_0);
    Reply { status: 201, body: o.object() }
}

/// A webhook as JSON.
pub open spec fn summary_view(s: SummaryView) -> JsonView {
    JsonView::Object(
        seq![
            ("webhook_id"@, JsonView::Text(s.webhook_id)),
            ("url"@, JsonView::Text(s.url)),
            ("event_kinds"@, JsonView::Array(text_views(s.event_kinds))),
            ("registered_seq"@, number_view(s.registered_seq)),
            ("last_terminal_seq"@, number_view(s.status.last_terminal_seq)),
            ("delivered"@, number_view(s.status.delivered)),
            ("dead_letters"@, number_view(s.status.dead_letters)),
            ("last_error"@, text_or_null(s.status.last_error)),
            ("state"@, JsonView::Text(s.state)),
        ],
    )
}

impl ToJson for WebhookSummary {
    open spec fn json_of(v: SummaryView) -> JsonView {
        summary_view(v)
    }

    fn to_json(&self) -> (r: Json) {
        let mut o = Fields::new();
        o.put("webhook_id", Json::text(self.webhook_id.as_str()));
        o.put("url", Json::text(self.url.as_str()));
        o.put("event_kinds", Json::text_list(&self.event_kinds));
        o.put("registered_seq", Json::number(self.registered_seq));
        o.put("last_terminal_seq", Json::number(self.last_terminal_seq));
        o.put("delivered", Json::number(self.delivered));
        o.put("dead_letters", Json::number(self.dead_letters));
        o.put("last_error", Json::text_or_null(&self.last_error));
        o.put("state", Json::text(self.state));
        assert(o@ =~= summary_view(self@)->Object_0);
        o.object()
    }
}

/// The reply that lists the webhooks of a run.
pub fn list_webhooks(request_id: &str, run_id: &str, webhooks: &Vec<WebhookSummary>) -> (r: Reply)
    ensures
        r@ == ok_view(
            JsonView::Object(
                seq![
                    ("request_id"@, JsonView::Text(request_id@)),
                    ("run_id"@, JsonView::Text(run_id@)),
                    (
                        "webhooks"@,
                        JsonView::Array(jsons_of::<WebhookSummary>(views(webhooks@))),
                    ),
                ],
            ),
        ),
{
    let mut o = Fields::new();
    o.put("request_id", Json::text(request_id));
    o.put("run_id", Json::text(run_id));
    o.put("webhooks", list_of(webhooks));
    assert(o@ =~= seq![
        ("request_id"@, JsonView::Text(request_id@)),
        ("run_id"@, JsonView::Text(run_id@)),
        ("webhooks"@, JsonView::Array(jsons_of::<WebhookSummary>(views(webhooks@)))),
    ]);
    ok(o.object())
}

/// A webhook is among some.
pub open spec fn names_webhook(webhooks: Seq<SummaryView>, webhook_id: Seq<char>) -> bool {
    exists|i: int| 0 <= i < webhooks.len() && (#[trigger] webhooks[i]).webhook_id == webhook_id
}

/// The event that tells that a webhook is gone, where the run has it.
pub fn delete_webhook(
    request_id: &str,
    webhooks: &Vec<WebhookSummary>,
    webhook_id: &str,
) -> (r: Result<EventAppend, Reply>)
    ensures
        match r {
            Ok(append) => names_webhook(views(webhooks@), webhook_id@) && append@ == (
                "webhook_deleted"@,
                JsonView::Object(seq![("webhook_id"@, JsonView::Text(webhook_id@))]),
            ),
            Err(reply) => !names_webhook(views(webhooks@), webhook_id@) && reply@ == not_found_view(
                request_id@,
                "webhook not found"@,
                seq![
                    detail_view("webhook_id"@, "no webhook with this id exists for the run"@),
                ],
            ),
        },
{
    let ghost all = views(webhooks@);
    let mut i: usize = 0;
    while i < webhooks.len()
        invariant
            all == views(webhooks@),
            i <= webhooks@.len(),
            forall|j: int| 0 <= j < i ==> (#[trigger] all[j]).webhook_id != webhook_id@,
        decreases webhooks@.len() - i,
    {
        assert(all[i as int] == webhooks@[i as int]@);
        if same(webhooks[i].webhook_id.as_str(), webhook_id) {
            let mut o = Fields::new();
            o.put("webhook_id", Json::text(webhook_id));
            assert(o@ =~= seq![("webhook_id"@, JsonView::Text(webhook_id@))]);
            return Ok(EventAppend { kind: "webhook_deleted", payload: o.object() });
        }
        i += 1;
    }
    Err(
        missing_field(
            request_id,
            "webhook not found",
            "webhook_id",
            owned("no webhook with this id exists for the run"),
        ),
    )
}

/// The reply that a webhook is gone.
pub fn deleted_webhook(request_id: &str, run_id: &str, webhook_id: &str) -> (r: Reply)
    ensures
        r@ == ok_view(
            JsonView::Object(
                seq![
                    ("request_id"@, JsonView::Text(request_id@)),
                    ("run_id"@, JsonView::Text(run_id@)),
                    ("webhook_id"@, JsonView::Text(webhook_id@)),
                    ("deleted"@, JsonView::Bool(true)),
                ],
            ),
        ),
{
    let mut o = Fields::new();
    o.put("request_id", Json::text(request_id));
    o.put("run_id", Json::text(run_id));
    o.put("webhook_id", Json::text(webhook_id));
    o.put("deleted", Json::Bool(true));
    assert(o@ =~= seq![
        ("request_id"@, JsonView::Text(request_id@)),
        ("run_id"@, JsonView::Text(run_id@)),
        ("webhook_id"@, JsonView::Text(webhook_id@)),
        ("deleted"@, JsonView::Bool(true)),
    ]);
    ok(o.object())
}

/// A webhook that was registered is restored from its event, and begins behind
/// that event; one that was deleted is not.
pub proof fn webhooks_are_restored(
    hooks: Map<Seq<char>, ConfigView>,
    config: ConfigView,
    registered: EventView,
    deleted: EventView,
)
    requires
        registered.kind == registered_event(config).0,
        registered.run_id == config.run_id,
        deleted.kind == "webhook_deleted"@,
    ensures
        ({
            let after = hooks_after(hooks, registered, registered_event(config).1);
            &&& after == hooks.insert(
                config.webhook_id,
                ConfigView { registered_seq: registered.seq, ..config },
            )
            &&& !hooks_after(
                after,
                deleted,
                JsonView::Object(seq![("webhook_id"@, JsonView::Text(config.webhook_id))]),
            ).contains_key(config.webhook_id)
        }),
{
    reveal_strlit("webhook_id");
    reveal_strlit("url");
    reveal_strlit("event_kinds");
    reveal_strlit("webhook_registered");
    reveal_strlit("webhook_deleted");
    assert("webhook_id"@.len() == 10 && "url"@.len() == 3 && "event_kinds"@.len() == 11);
    assert("webhook_registered"@.len() == 18 && "webhook_deleted"@.len() == 15);
    let fields = registered_event(config).1->Object_0;
    crate::json::field_is_found(fields, 0);
    crate::json::field_is_found(fields, 1);
    crate::json::field_is_found(fields, 2);
    crate::json::lemma_texts_are_read_back(config.event_kinds);
    let gone = seq![("webhook_id"@, JsonView::Text(config.webhook_id))];
    crate::json::field_is_found(gone, 0);
}

/// A webhook hears of an event that it asked for, or of every one if it asked
/// for none in particular; what tells of webhooks themselves, it never hears.
pub proof fn webhooks_hear_what_they_asked_for(config: ConfigView, event: EventView)
    ensures
        matches_kind(config, event) <==> {
            &&& !(event.kind.len() >= 8 && event.kind.take(8) == "webhook_"@)
            &&& config.event_kinds.len() == 0 || exists|i: int|
                0 <= i < config.event_kinds.len() && #[trigger] config.event_kinds[i] == event.kind
        },
{
    reveal_strlit("webhook_");
    assert("webhook_"@.len() == 8);
    if event.kind.len() >= 8 {
        assert(event.kind.take(8) =~= event.kind.subrange(0, 8));
    }
}

/// Kinds are accepted exactly if there are at most thirty-two of them and each,
/// without the blanks around it, has between one and ninety-six bytes and does
/// not tell of webhooks.
pub proof fn filters_are_accepted_within_bounds(filters: Seq<Seq<char>>)
    ensures
        filters_problem(filters) is None <==> {
            &&& filters.len() <= 32
            &&& forall|i: int| #![trigger filters[i]]
                0 <= i < filters.len() ==> {
                    let kind = trimmed(filters[i]);
                    &&& kind.len() > 0
                    &&& vstd::utf8::encode_utf8(kind).len() <= 96
                    &&& !(kind.len() >= 8 && kind.take(8) == "webhook_"@)
                }
        },
{
    reveal_strlit("webhook_");
    assert("webhook_"@.len() == 8);
    lemma_first_problem(filters);
    assert forall|i: int| #![trigger filters[i]] 0 <= i < filters.len() implies (filter_problem(
        trimmed(filters[i]),
    ) is None <==> {
        let kind = trimmed(filters[i]);
        &&& kind.len() > 0
        &&& vstd::utf8::encode_utf8(kind).len() <= 96
        &&& !(kind.len() >= 8 && kind.take(8) == "webhook_"@)
    }) by {
        let kind = trimmed(filters[i]);
        if kind.len() >= 8 {
            assert(kind.take(8) =~= kind.subrange(0, 8));
        }
    }
}

proof fn lemma_first_problem(filters: Seq<Seq<char>>)
    ensures
        first_problem(filters) is None <==> forall|i: int| #![trigger filters[i]]
            0 <= i < filters.len() ==> filter_problem(trimmed(filters[i])) is None,
    decreases filters.len(),
{
    if filters.len() > 0 {
        let rest = filters.drop_last();
        lemma_first_problem(rest);
        assert forall|i: int| 0 <= i < rest.len() implies rest[i] == #[trigger] filters[i] by {}
        if first_problem(filters) is None {
            assert forall|i: int| #![trigger filters[i]] 0 <= i < filters.len() implies filter_problem(
                trimmed(filters[i]),
            ) is None by {
                if i < rest.len() {
                    assert(rest[i] == filters[i]);
                }
            }
        } else if first_problem(rest) is Some {
            let i = choose|i: int| #![trigger rest[i]]
                0 <= i < rest.len() && filter_problem(trimmed(rest[i])) is Some;
            assert(rest[i] == filters[i]);
        } else {
            assert(filters[filters.len() - 1] == filters.last());
        }
    }
}

/// The kinds that are kept are those that were asked for, without the blanks
/// around them: each once, in alphabetical order, and no others.
pub proof fn kept_kinds_are_those_asked_for(filters: Seq<Seq<char>>)
    ensures
        ({
            let kinds = normalized_filters(filters);
            &&& forall|k: Seq<char>| #[trigger]
                kinds.contains(k) <==> exists|i: int|
                    0 <= i < filters.len() && trimmed(#[trigger] filters[i]) == k
            &&& forall|i: int, j: int|
                #![trigger kinds[i], kinds[j]]
                0 <= i < j < kinds.len() ==> kinds[i] != kinds[j] && text_le(kinds[i], kinds[j])
        }),
{
    let d = distinct_filters(filters);
    let kinds = normalized_filters(filters);
    lemma_distinct_holds(filters);
    lemma_sorted_same::<String, Alphabetical>(d);
    crate::sort::sorting_orders_and_permutes::<String, Alphabetical>(d);
    assert forall|i: int, j: int|
        #![trigger kinds[i], kinds[j]]
        0 <= i < j < kinds.len() implies kinds[i] != kinds[j] && text_le(kinds[i], kinds[j]) by {
        assert(<String as Ranked<Alphabetical>>::ranks_before(kinds[i], kinds[j]));
    }
}

proof fn lemma_distinct_holds(filters: Seq<Seq<char>>)
    ensures
        distinct_filters(filters).no_duplicates(),
        forall|k: Seq<char>| #[trigger]
            distinct_filters(filters).contains(k) <==> exists|i: int|
                0 <= i < filters.len() && trimmed(#[trigger] filters[i]) == k,
    decreases filters.len(),
{
    if filters.len() > 0 {
        let rest = filters.drop_last();
        let before = distinct_filters(rest);
        let now = distinct_filters(filters);
        let t = trimmed(filters.last());
        lemma_distinct_holds(rest);
        assert forall|k: Seq<char>| now.contains(k) <==> before.contains(k) || k == t by {
            if !before.contains(t) {
                assert(now == before.push(t));
                assert(now[before.len() as int] == t);
                if before.contains(k) {
                    let i = choose|i: int| 0 <= i < before.len() && before[i] == k;
                    assert(now[i] == k);
                }
            }
        }
        assert forall|k: Seq<char>| #[trigger] now.contains(k) <==> exists|i: int|
            0 <= i < filters.len() && trimmed(#[trigger] filters[i]) == k by {
            if before.contains(k) {
                let i = choose|i: int| 0 <= i < rest.len() && trimmed(#[trigger] rest[i]) == k;
                assert(filters[i] == rest[i]);
            }
            if k == t {
                assert(trimmed(filters[filters.len() - 1]) == k);
            }
            if exists|i: int| 0 <= i < filters.len() && trimmed(#[trigger] filters[i]) == k {
                let i = choose|i: int| 0 <= i < filters.len() && trimmed(#[trigger] filters[i]) == k;
                if i < rest.len() {
                    assert(rest[i] == filters[i]);
                }
            }
        }
    }
}

/// An event of the log changes the webhooks by what it tells: one that is
/// registered is added or replaced, one that is deleted goes, and every other
/// stays as it is.
pub proof fn the_log_tells_its_webhooks(
    events: Seq<EventView>,
    payloads: Seq<JsonView>,
    event: EventView,
    payload: JsonView,
    webhook_id: Seq<char>,
)
    requires
        events.len() == payloads.len(),
    ensures
        ({
            let before = restored(events, payloads);
            let after = restored(events.push(event), payloads.push(payload));
            let named = payload.text_at("webhook_id"@) == Some(webhook_id);
            let registers = event.kind == "webhook_registered"@ && named && payload.text_at(
                "url"@,
            ) is Some;
            let deletes = event.kind == "webhook_deleted"@ && named;
            &&& registers ==> after.contains_key(webhook_id) && {
                let c = after[webhook_id];
                &&& c.webhook_id == webhook_id
                &&& c.run_id == event.run_id
                &&& payload.text_at("url"@) == Some(c.url)
                &&& c.registered_seq == event.seq
            }
            &&& deletes ==> !after.contains_key(webhook_id)
            &&& !registers && !deletes ==> (after.contains_key(webhook_id) <==> before.contains_key(
                webhook_id,
            )) && (before.contains_key(webhook_id) ==> after[webhook_id] == before[webhook_id])
        }),
{
    reveal_strlit("webhook_registered");
    reveal_strlit("webhook_deleted");
    assert("webhook_registered"@.len() == 18 && "webhook_deleted"@.len() == 15);
    let es = events.push(event);
    assert(es.drop_last() =~= events);
    lemma_restored_alone(events, payloads, payloads.push(payload));
}

proof fn lemma_restored_alone(events: Seq<EventView>, p: Seq<JsonView>, q: Seq<JsonView>)
    requires
        events.len() <= p.len(),
        events.len() <= q.len(),
        forall|i: int| 0 <= i < events.len() ==> p[i] == q[i],
    ensures
        restored(events, p) == restored(events, q),
    decreases events.len(),
{
    if events.len() > 0 {
        lemma_restored_alone(events.drop_last(), p, q);
    }
}

/// A webhook is taken in exactly if there is a secret and a log, fewer than
/// sixty-four others and none of its name; it is made active exactly if it was
/// taken in and is not active yet. A secret has thirty-two bytes or more.
pub proof fn webhooks_are_taken_in_within_bounds(
    hooks: Map<Seq<char>, EntryView>,
    webhook_id: Seq<char>,
    has_secret: bool,
    has_log: bool,
    secret: Option<Seq<char>>,
)
    ensures
        reserve_problem(hooks, webhook_id, has_secret, has_log) is None <==> {
            &&& has_secret
            &&& has_log
            &&& hooks.dom().len() < 64
            &&& !hooks.contains_key(webhook_id)
        },
        activate_problem(hooks, webhook_id) is None <==> {
            &&& hooks.contains_key(webhook_id)
            &&& !hooks[webhook_id].active
        },
        secret_fits(secret) <==> secret is Some && vstd::utf8::encode_utf8(secret->0).len() > 31,
{
}

/// What is told of a webhook is what was registered and what became of its
/// deliveries.
pub proof fn webhooks_are_told_whole(entry: EntryView, status: StatusView)
    ensures
        ({
            let told = summary_view(summary_of(entry, status));
            let c = entry.config;
            &&& told.text_at("webhook_id"@) == Some(c.webhook_id)
            &&& told.text_at("url"@) == Some(c.url)
            &&& told.items_at("event_kinds"@) == Some(text_views(c.event_kinds))
            &&& told.unsigned_at("registered_seq"@) == Some(c.registered_seq)
            &&& told.unsigned_at("last_terminal_seq"@) == Some(status.last_terminal_seq)
            &&& told.unsigned_at("delivered"@) == Some(status.delivered)
            &&& told.unsigned_at("dead_letters"@) == Some(status.dead_letters)
            &&& told.text_at("last_error"@) == status.last_error
            &&& told.text_at("state"@) == Some(
                if entry.active {
                    "active"@
                } else {
                    "pending"@
                },
            )
        }),
{
    reveal_strlit("webhook_id");
    reveal_strlit("url");
    reveal_strlit("event_kinds");
    reveal_strlit("registered_seq");
    reveal_strlit("last_terminal_seq");
    reveal_strlit("delivered");
    reveal_strlit("dead_letters");
    reveal_strlit("last_error");
    reveal_strlit("state");
    assert("webhook_id"@.len() == 10 && "url"@.len() == 3 && "event_kinds"@.len() == 11);
    assert("registered_seq"@.len() == 14 && "last_terminal_seq"@.len() == 17);
    assert("delivered"@.len() == 9 && "dead_letters"@.len() == 12 && "state"@.len() == 5);
    assert("last_error"@.len() == 10 && "last_error"@[0] == 'l' && "webhook_id"@[0] == 'w');
    let fields = summary_view(summary_of(entry, status))->Object_0;
    crate::json::field_is_found(fields, 0);
    crate::json::field_is_found(fields, 1);
    crate::json::field_is_found(fields, 2);
    crate::json::field_is_found(fields, 3);
    crate::json::field_is_found(fields, 4);
    crate::json::field_is_found(fields, 5);
    crate::json::field_is_found(fields, 6);
    crate::json::field_is_found(fields, 7);
    crate::json::field_is_found(fields, 8);
}

/// A run's webhooks are told and changed by its owner alone.
pub proof fn webhooks_belong_to_the_owner(
    request_id: Seq<char>,
    run_id: Seq<char>,
    snapshot: Option<SnapshotView>,
    principal: Seq<char>,
)
    ensures
        webhook_refusal(request_id, run_id, snapshot, principal) is None <==> valid_run_id(run_id)
            && snapshot is Some && !snapshot->0.deleted && snapshot->0.principal_key == principal,
        !valid_run_id(run_id) ==> webhook_refusal(
            request_id,
            run_id,
            snapshot,
            principal,
        )->0.status == 400,
        valid_run_id(run_id) && webhook_refusal(request_id, run_id, snapshot, principal) is Some
            ==> webhook_refusal(request_id, run_id, snapshot, principal)->0.status == 404,
{
}

/// A registered webhook is told back as it was registered.
pub proof fn registered_webhooks_are_told(request_id: Seq<char>, c: ConfigView, seq: u64)
    ensures
        ({
            let told = registered_reply(request_id, c, seq);
            &&& told.status == 201
            &&& told.body.text_at("request_id"@) == Some(request_id)
            &&& told.body.text_at("run_id"@) == Some(c.run_id)
            &&& told.body.text_at("webhook_id"@) == Some(c.webhook_id)
            &&& told.body.text_at("url"@) == Some(c.url)
            &&& told.body.items_at("event_kinds"@) == Some(text_views(c.event_kinds))
            &&& told.body.unsigned_at("registered_seq"@) == Some(seq)
        }),
{
    reveal_strlit("request_id");
    reveal_strlit("run_id");
    reveal_strlit("webhook_id");
    reveal_strlit("url");
    reveal_strlit("event_kinds");
    reveal_strlit("registered_seq");
    assert("request_id"@.len() == 10);
    assert("run_id"@.len() == 6);
    assert("webhook_id"@.len() == 10);
    assert("url"@.len() == 3);
    assert("event_kinds"@.len() == 11);
    assert("registered_seq"@.len() == 14);
    assert("request_id"@[0] == 'r' && "webhook_id"@[0] == 'w');
    let fields = registered_reply(request_id, c, seq).body->Object_0;
    crate::json::field_is_found(fields, 0);
    crate::json::field_is_found(fields, 1);
    crate::json::field_is_found(fields, 2);
    crate::json::field_is_found(fields, 3);
    crate::json::field_is_found(fields, 4);
    crate::json::field_is_found(fields, 5);
}

/// What is listed of a run is each of its webhooks, as it was registered and
/// with what became of its deliveries; of one without deliveries, that there
/// were none.
pub proof fn listed_webhooks_are_the_runs(
    hooks: Map<Seq<char>, EntryView>,
    statuses: Map<Seq<char>, StatusView>,
    run_id: Seq<char>,
    webhook_id: Seq<char>,
)
    requires
        hooks.contains_key(webhook_id),
        hooks[webhook_id].config.webhook_id == webhook_id,
    ensures
        (exists|v: SummaryView|
            #[trigger] is_summary(hooks, statuses, run_id, v) && v.webhook_id == webhook_id)
            <==> hooks[webhook_id].config.run_id == run_id,
        forall|v: SummaryView| #[trigger]
            is_summary(hooks, statuses, run_id, v) && v.webhook_id == webhook_id ==> {
                &&& v.url == hooks[webhook_id].config.url
                &&& v.event_kinds == hooks[webhook_id].config.event_kinds
                &&& v.registered_seq == hooks[webhook_id].config.registered_seq
                &&& statuses.contains_key(webhook_id) ==> v.status == statuses[webhook_id]
                &&& !statuses.contains_key(webhook_id) ==> v.status.delivered == 0
                    && v.status.dead_letters == 0 && v.status.last_terminal_seq == 0
                    && v.status.last_error is None
            },
{
    let v = summary_of(hooks[webhook_id], status_at(statuses, webhook_id));
    if hooks[webhook_id].config.run_id == run_id {
        assert(is_summary(hooks, statuses, run_id, v));
    }
}

} // verus!
