//! Counters on inference, and how they are shown to Prometheus.

use vstd::prelude::*;

use crate::digits::{decimal, push_decimal};
use crate::models::TokenUsage;

verus! {

/// Who answers a request for inference.
#[derive(Clone, Copy, Debug, PartialEq, Eq, Structural)]
pub enum ProviderKind {
    Vllm,
    Sglang,
    Gemini,
    Mlx,
}

impl ProviderKind {
    /// The name of a provider.
    pub open spec fn label(self) -> Seq<char> {
        match self {
            ProviderKind::Vllm => "vllm"@,
            ProviderKind::Sglang => "sglang"@,
            ProviderKind::Gemini => "gemini"@,
            ProviderKind::Mlx => "mlx"@,
        }
    }

    /// The name of a provider.
    pub fn name(self) -> (r: &'static str)
        ensures
            r@ == self.label(),
    {
        match self {
            ProviderKind::Vllm => "vllm",
            ProviderKind::Sglang => "sglang",
            ProviderKind::Gemini => "gemini",
            ProviderKind::Mlx => "mlx",
        }
    }
}

/// The bound of each latency bucket, in milliseconds.
pub open spec fn bucket_bound(i: int) -> u64 {
    if i == 0 {
        10
    } else if i == 1 {
        25
    } else if i == 2 {
        50
    } else if i == 3 {
        100
    } else if i == 4 {
        250
    } else if i == 5 {
        500
    } else if i == 6 {
        1000
    } else if i == 7 {
        2500
    } else if i == 8 {
        5000
    } else if i == 9 {
        10000
    } else if i == 10 {
        15000
    } else if i == 11 {
        20000
    } else if i == 12 {
        30000
    } else {
        60000
    }
}

fn latency_bound(i: usize) -> (r: u64)
    ensures
        r == bucket_bound(i as int),
{
    if i == 0 {
        10
    } else if i == 1 {
        25
    } else if i == 2 {
        50
    } else if i == 3 {
        100
    } else if i == 4 {
        250
    } else if i == 5 {
        500
    } else if i == 6 {
        1000
    } else if i == 7 {
        2500
    } else if i == 8 {
        5000
    } else if i == 9 {
        10000
    } else if i == 10 {
        15000
    } else if i == 11 {
        20000
    } else if i == 12 {
        30000
    } else {
        60000
    }
}

/// How many latency buckets there are.
pub const LATENCY_BUCKETS: usize = 14;

/// The first bucket, from `i` on, that a latency fits into; the number of
/// buckets where it fits into none.
pub open spec fn bucket_for(latency_ms: u64, i: int) -> int
    decreases LATENCY_BUCKETS - i,
{
    if i >= LATENCY_BUCKETS || latency_ms <= bucket_bound(i) {
        i
    } else {
        bucket_for(latency_ms, i + 1)
    }
}

/// The sum of two counters, which begin again at zero after the largest number.
pub open spec fn counted(a: u64, b: u64) -> u64 {
    ((a + b) % 0x1_0000_0000_0000_0000) as u64
}

fn count(a: u64, b: u64) -> (r: u64)
    ensures
        r == counted(a, b),
{
    a.wrapping_add(b)
}

/// What is counted of one provider.
#[derive(Debug)]
pub struct ProviderMetrics {
    pub success_total: u64,
    pub error_total: u64,
    pub fallback_total: u64,
    pub prompt_tokens_total: u64,
    pub completion_tokens_total: u64,
    pub thinking_tokens_total: u64,
    pub latency_sum_ms: u64,
    pub latency_count: u64,
    /// How many requests fell into each bucket and into none before it.
    pub latency_buckets: Vec<u64>,
}

/// What is counted of one provider.
#[verifier::ext_equal]
pub ghost struct ProviderCounts {
    pub success_total: u64,
    pub error_total: u64,
    pub fallback_total: u64,
    pub prompt_tokens_total: u64,
    pub completion_tokens_total: u64,
    pub thinking_tokens_total: u64,
    pub latency_sum_ms: u64,
    pub latency_count: u64,
    pub latency_buckets: Seq<u64>,
}

impl View for ProviderMetrics {
    type V = ProviderCounts;

    open spec fn view(&self) -> ProviderCounts {
        ProviderCounts {
            success_total: self.success_total,
            error_total: self.error_total,
            fallback_total: self.fallback_total,
            prompt_tokens_total: self.prompt_tokens_total,
            completion_tokens_total: self.completion_tokens_total,
            thinking_tokens_total: self.thinking_tokens_total,
            latency_sum_ms: self.latency_sum_ms,
            latency_count: self.latency_count,
            latency_buckets: self.latency_buckets@,
        }
    }
}

/// The sum of the first buckets.
pub open spec fn bucket_sum(buckets: Seq<u64>, k: int) -> u64
    decreases k,
{
    if k <= 0 {
        0
    } else {
        counted(bucket_sum(buckets, k - 1), buckets[k - 1])
    }
}

/// A product that stops at the largest number.
pub open spec fn scaled(a: u64, b: u64) -> u64 {
    if a * b > u64::MAX {
        u64::MAX
    } else {
        (a * b) as u64
    }
}

fn scale(a: u64, b: u64) -> (r: u64)
    ensures
        r == scaled(a, b),
{
    assert(0 <= a * b <= 0xffff_ffff_ffff_ffff * 0xffff_ffff_ffff_ffff) by (nonlinear_arith)
        requires
            0 <= a <= 0xffff_ffff_ffff_ffff,
            0 <= b <= 0xffff_ffff_ffff_ffff,
    ;
    let product: u128 = a as u128 * b as u128;
    if product > u64::MAX as u128 {
        u64::MAX
    } else {
        product as u64
    }
}

impl ProviderCounts {
    /// Nothing counted yet.
    pub open spec fn none() -> ProviderCounts {
        ProviderCounts {
            success_total: 0,
            error_total: 0,
            fallback_total: 0,
            prompt_tokens_total: 0,
            completion_tokens_total: 0,
            thinking_tokens_total: 0,
            latency_sum_ms: 0,
            latency_count: 0,
            latency_buckets: Seq::new(LATENCY_BUCKETS as nat, |i: int| 0u64),
        }
    }

    /// These counts after one more latency.
    pub open spec fn with_latency(self, latency_ms: u64) -> ProviderCounts {
        let at = bucket_for(latency_ms, 0);
        ProviderCounts {
            latency_sum_ms: counted(self.latency_sum_ms, latency_ms),
            latency_count: counted(self.latency_count, 1),
            latency_buckets: if at < LATENCY_BUCKETS {
                self.latency_buckets.update(at, counted(self.latency_buckets[at], 1))
            } else {
                self.latency_buckets
            },
            ..self
        }
    }

    /// These counts after one more answer.
    pub open spec fn with_success(
        self,
        latency_ms: u64,
        fallback_used: bool,
        usage: TokenUsage,
    ) -> ProviderCounts {
        (ProviderCounts {
            success_total: counted(self.success_total, 1),
            fallback_total: if fallback_used {
                counted(self.fallback_total, 1)
            } else {
                self.fallback_total
            },
            prompt_tokens_total: counted(self.prompt_tokens_total, usage.prompt_tokens as u64),
            completion_tokens_total: counted(
                self.completion_tokens_total,
                usage.completion_tokens as u64,
            ),
            thinking_tokens_total: counted(
                self.thinking_tokens_total,
                usage.thinking_tokens as u64,
            ),
            ..self
        }).with_latency(latency_ms)
    }

    /// These counts after one more failure.
    pub open spec fn with_error(self, latency_ms: u64) -> ProviderCounts {
        (ProviderCounts { error_total: counted(self.error_total, 1), ..self }).with_latency(
            latency_ms,
        )
    }

    /// Of at least ten requests fewer than 95 in a hundred took no more than
    /// five seconds.
    pub open spec fn slow(self) -> bool {
        self.latency_count >= 10 && scaled(bucket_sum(self.latency_buckets, 9), 100) < scaled(
            self.latency_count,
            95,
        )
    }
}

impl ProviderMetrics {
    /// There is a count for each bucket.
    pub open spec fn wf(self) -> bool {
        self.latency_buckets@.len() == LATENCY_BUCKETS
    }

    fn new() -> (r: Self)
        ensures
            r.wf(),
            r@ == ProviderCounts::none(),
    {
        let mut latency_buckets: Vec<u64> = Vec::new();
        let mut i: usize = 0;
        while i < LATENCY_BUCKETS
            invariant
                i <= LATENCY_BUCKETS,
                latency_buckets@ == Seq::new(i as nat, |k: int| 0u64),
            decreases LATENCY_BUCKETS - i,
        {
            latency_buckets.push(0);
            i += 1;
            assert(latency_buckets@ =~= Seq::new(i as nat, |k: int| 0u64));
        }
        ProviderMetrics {
            success_total: 0,
            error_total: 0,
            fallback_total: 0,
            prompt_tokens_total: 0,
            completion_tokens_total: 0,
            thinking_tokens_total: 0,
            latency_sum_ms: 0,
            latency_count: 0,
            latency_buckets,
        }
    }

    fn sum_buckets(&self, k: usize) -> (r: u64)
        requires
            k <= self.latency_buckets@.len(),
        ensures
            r == bucket_sum(self.latency_buckets@, k as int),
    {
        let mut sum: u64 = 0;
        let mut i: usize = 0;
        while i < k
            invariant
                i <= k,
                k <= self.latency_buckets@.len(),
                sum == bucket_sum(self.latency_buckets@, i as int),
            decreases k - i,
        {
            sum = count(sum, self.latency_buckets[i]);
            i += 1;
        }
        sum
    }

    /// Whether the provider is slow: of at least ten requests fewer than 95 in
    /// a hundred took no more than five seconds.
    pub fn is_high_latency(&self) -> (r: bool)
        requires
            self.wf(),
        ensures
            r == self@.slow(),
    {
        let total: u64 = self.latency_count;
        if total < 10 {
            return false;
        }
        let within: u64 = self.sum_buckets(9);
        scale(within, 100) < scale(total, 95)
    }

    fn record_latency(&mut self, latency_ms: u64)
        requires
            old(self).wf(),
        ensures
            final(self).wf(),
            final(self)@ == old(self)@.with_latency(latency_ms),
    {
        self.latency_sum_ms = count(self.latency_sum_ms, latency_ms);
        self.latency_count = count(self.latency_count, 1);
        let mut i: usize = 0;
        while i < LATENCY_BUCKETS && latency_ms > latency_bound(i)
            invariant
                i <= LATENCY_BUCKETS,
                bucket_for(latency_ms, 0) == bucket_for(latency_ms, i as int),
            ensures
                i <= LATENCY_BUCKETS,
                i == bucket_for(latency_ms, 0),
            decreases LATENCY_BUCKETS - i,
        {
            i += 1;
        }
        if i < LATENCY_BUCKETS {
            let n: u64 = count(self.latency_buckets[i], 1);
            self.latency_buckets.set(i, n);
        }
    }
}

/// What is counted of all providers.
#[derive(Debug)]
pub struct InferenceMetrics {
    pub vllm: ProviderMetrics,
    pub sglang: ProviderMetrics,
    pub gemini: ProviderMetrics,
    pub mlx: ProviderMetrics,
}

/// What is left of each provider's error budget, as text.
#[derive(Debug)]
pub struct ErrorBudgets {
    pub vllm: String,
    pub sglang: String,
    pub gemini: String,
    pub mlx: String,
}

/// A text with one more line: a name between two pieces, and a number.
pub open spec fn with_line(
    before: Seq<char>,
    head: Seq<char>,
    name: Seq<char>,
    tail: Seq<char>,
    n: u64,
) -> Seq<char> {
    before + head + name + tail + decimal(n as nat) + "\n"@
}

fn push_line(out: &mut String, head: &str, name: &str, tail: &str, n: u64)
    ensures
        final(out)@ == with_line(old(out)@, head@, name@, tail@, n),
{
    out.push_str(head);
    out.push_str(name);
    out.push_str(tail);
    push_decimal(out, n);
    out.push_str("\n");
}

/// A text with the lines of the first `k` buckets, each with the sum up to it.
pub open spec fn with_bucket_lines(
    before: Seq<char>,
    name: Seq<char>,
    buckets: Seq<u64>,
    k: int,
) -> Seq<char>
    decreases k,
{
    if k <= 0 {
        before
    } else {
        with_line(
            with_bucket_lines(before, name, buckets, k - 1),
            "vidarax_infer_latency_ms_bucket{provider=\""@,
            name,
            "\",le=\""@ + decimal(bucket_bound(k - 1) as nat) + "\"} "@,
            bucket_sum(buckets, k),
        )
    }
}

/// A text with the lines of one provider's counts of requests and tokens.
pub open spec fn with_totals(before: Seq<char>, name: Seq<char>, p: ProviderCounts) -> Seq<char> {
    let requests = "vidarax_infer_requests_total{provider=\""@;
    let tokens = "vidarax_infer_tokens_total{provider=\""@;
    let a = with_line(before, requests, name, "\",status=\"ok\"} "@, p.success_total);
    let b = with_line(a, requests, name, "\",status=\"error\"} "@, p.error_total);
    let c = with_line(
        b,
        "vidarax_infer_fallback_total{provider=\""@,
        name,
        "\"} "@,
        p.fallback_total,
    );
    let d = with_line(c, tokens, name, "\",kind=\"prompt\"} "@, p.prompt_tokens_total);
    let e = with_line(d, tokens, name, "\",kind=\"completion\"} "@, p.completion_tokens_total);
    with_line(e, tokens, name, "\",kind=\"thinking\"} "@, p.thinking_tokens_total)
}

/// A text with the lines of one provider's latencies.
pub open spec fn with_latencies(
    before: Seq<char>,
    name: Seq<char>,
    p: ProviderCounts,
) -> Seq<char> {
    let a = with_bucket_lines(before, name, p.latency_buckets, LATENCY_BUCKETS as int);
    let b = with_line(
        a,
        "vidarax_infer_latency_ms_bucket{provider=\""@,
        name,
        "\",le=\"+Inf\"} "@,
        p.latency_count,
    );
    let c = with_line(
        b,
        "vidarax_infer_latency_ms_sum{provider=\""@,
        name,
        "\"} "@,
        p.latency_sum_ms,
    );
    with_line(c, "vidarax_infer_latency_ms_count{provider=\""@, name, "\"} "@, p.latency_count)
}

/// A text with the lines of one provider.
pub open spec fn with_provider(
    before: Seq<char>,
    name: Seq<char>,
    p: ProviderCounts,
    budget: Seq<char>,
) -> Seq<char> {
    with_latencies(with_totals(before, name, p), name, p)
        + "vidarax_infer_slo_target_ratio{provider=\""@ + name + "\"} 0.99\n"@
        + "vidarax_infer_error_budget_remaining_ratio{provider=\""@ + name + "\"} "@ + budget
        + "\n"@
}

fn render_totals(name: &str, p: &ProviderMetrics, out: &mut String)
    ensures
        final(out)@ == with_totals(old(out)@, name@, p@),
{
    let requests = "vidarax_infer_requests_total{provider=\"";
    let tokens = "vidarax_infer_tokens_total{provider=\"";
    push_line(out, requests, name, "\",status=\"ok\"} ", p.success_total);
    push_line(out, requests, name, "\",status=\"error\"} ", p.error_total);
    push_line(
        out,
        "vidarax_infer_fallback_total{provider=\"",
        name,
        "\"} ",
        p.fallback_total,
    );
    push_line(out, tokens, name, "\",kind=\"prompt\"} ", p.prompt_tokens_total);
    push_line(out, tokens, name, "\",kind=\"completion\"} ", p.completion_tokens_total);
    push_line(out, tokens, name, "\",kind=\"thinking\"} ", p.thinking_tokens_total);
}

fn render_latencies(name: &str, p: &ProviderMetrics, out: &mut String)
    requires
        p.wf(),
    ensures
        final(out)@ == with_latencies(old(out)@, name@, p@),
{
    let ghost before = out@;
    let mut sum: u64 = 0;
    let mut i: usize = 0;
    while i < LATENCY_BUCKETS
        invariant
            p.wf(),
            i <= LATENCY_BUCKETS,
            sum == bucket_sum(p.latency_buckets@, i as int),
            out@ == with_bucket_lines(before, name@, p.latency_buckets@, i as int),
        decreases LATENCY_BUCKETS - i,
    {
        sum = count(sum, p.latency_buckets[i]);
        let mut tail = crate::text::owned("\",le=\"");
        push_decimal(&mut tail, latency_bound(i));
        tail.push_str("\"} ");
        push_line(
            out,
            "vidarax_infer_latency_ms_bucket{provider=\"",
            name,
            tail.as_str(),
            sum,
        );
        i += 1;
    }
    push_line(
        out,
        "vidarax_infer_latency_ms_bucket{provider=\"",
        name,
        "\",le=\"+Inf\"} ",
        p.latency_count,
    );
    push_line(
        out,
        "vidarax_infer_latency_ms_sum{provider=\"",
        name,
        "\"} ",
        p.latency_sum_ms,
    );
    push_line(
        out,
        "vidarax_infer_latency_ms_count{provider=\"",
        name,
        "\"} ",
        p.latency_count,
    );
}

fn render_provider(name: &str, p: &ProviderMetrics, budget: &str, out: &mut String)
    requires
        p.wf(),
    ensures
        final(out)@ == with_provider(old(out)@, name@, p@, budget@),
{
    render_totals(name, p, out);
    render_latencies(name, p, out);
    out.push_str("vidarax_infer_slo_target_ratio{provider=\"");
    out.push_str(name);
    out.push_str("\"} 0.99\n");
    out.push_str("vidarax_infer_error_budget_remaining_ratio{provider=\"");
    out.push_str(name);
    out.push_str("\"} ");
    out.push_str(budget);
    out.push_str("\n");
}

/// What is known of the admission of requests for inference.
#[derive(Clone, Copy, Debug)]
pub struct AdmissionSnapshot {
    pub active: u64,
    pub waiting: u64,
    pub acquired_total: u64,
    pub timeout_global_total: u64,
    pub timeout_principal_total: u64,
    pub waiter_rejected_total: u64,
    pub wait_duration_us: u64,
    pub wait_duration_count: u64,
    pub active_tokens: u64,
    pub active_bytes: u64,
    pub deadline_missed_total: u64,
    pub budget_rejected_total: u64,
    pub urgent_acquired_total: u64,
    pub live_acquired_total: u64,
    pub offline_acquired_total: u64,
}

/// The limits on requests in flight.
#[derive(Clone, Copy, Debug)]
pub struct AdmissionBudget {
    pub max_in_flight_tokens: u64,
    pub max_in_flight_bytes: u64,
}

/// A text with one more line: a label and a number.
pub open spec fn with_count(before: Seq<char>, label: Seq<char>, n: u64) -> Seq<char> {
    before + label + " "@ + decimal(n as nat) + "\n"@
}

/// Adds a line: a label and a number.
pub fn push_count(out: &mut String, label: &str, n: u64)
    ensures
        final(out)@ == with_count(old(out)@, label@, n),
{
    out.push_str(label);
    out.push_str(" ");
    push_decimal(out, n);
    out.push_str("\n");
}

/// The lines on who was let in, who waits, and who was turned away.
pub open spec fn admission_waits(s: AdmissionSnapshot) -> Seq<char> {
    let a = with_count(Seq::empty(), "vidarax_infer_admission_active"@, s.active);
    let b = with_count(a, "vidarax_infer_admission_waiting"@, s.waiting);
    let c = with_count(b, "vidarax_infer_admission_acquired_total"@, s.acquired_total);
    let d = with_count(
        c,
        "vidarax_infer_admission_timeouts_total{limit=\"global\"}"@,
        s.timeout_global_total,
    );
    let e = with_count(
        d,
        "vidarax_infer_admission_timeouts_total{limit=\"principal\"}"@,
        s.timeout_principal_total,
    );
    let f = with_count(
        e,
        "vidarax_infer_admission_waiter_rejections_total"@,
        s.waiter_rejected_total,
    );
    let g = with_count(f, "vidarax_infer_admission_wait_duration_us_sum"@, s.wait_duration_us);
    with_count(g, "vidarax_infer_admission_wait_duration_us_count"@, s.wait_duration_count)
}

/// The lines on what is in flight, and on the limits.
pub open spec fn with_admission_budget(
    before: Seq<char>,
    s: AdmissionSnapshot,
    limits: AdmissionBudget,
) -> Seq<char> {
    let a = with_count(before, "vidarax_infer_admission_active_tokens"@, s.active_tokens);
    let b = with_count(a, "vidarax_infer_admission_active_bytes"@, s.active_bytes);
    let c = with_count(
        b,
        "vidarax_infer_admission_token_limit"@,
        limits.max_in_flight_tokens,
    );
    let d = with_count(c, "vidarax_infer_admission_byte_limit"@, limits.max_in_flight_bytes);
    let e = with_count(
        d,
        "vidarax_infer_admission_deadline_missed_total"@,
        s.deadline_missed_total,
    );
    with_count(e, "vidarax_infer_admission_budget_rejections_total"@, s.budget_rejected_total)
}

/// The lines on who was let in, by class.
pub open spec fn with_admission_classes(before: Seq<char>, s: AdmissionSnapshot) -> Seq<char> {
    let a = with_count(
        before,
        "vidarax_infer_admission_acquired_by_class_total{class=\"urgent_live\"}"@,
        s.urgent_acquired_total,
    );
    let b = with_count(
        a,
        "vidarax_infer_admission_acquired_by_class_total{class=\"live\"}"@,
        s.live_acquired_total,
    );
    let c = with_count(
        b,
        "vidarax_infer_admission_acquired_by_class_total{class=\"offline\"}"@,
        s.offline_acquired_total,
    );
    let d = with_count(
        c,
        "vidarax_infer_admission_urgent_live_acquired_total"@,
        s.urgent_acquired_total,
    );
    let e = with_count(d, "vidarax_infer_admission_live_acquired_total"@, s.live_acquired_total);
    with_count(e, "vidarax_infer_admission_offline_acquired_total"@, s.offline_acquired_total)
}

// ------------------------------------------------------- recorded calls
/// A call that was recorded.
pub ghost enum Call {
    Answered { provider: ProviderKind, latency_ms: u64, fallback_used: bool, usage: TokenUsage },
    Failed { provider: ProviderKind, latency_ms: u64 },
}

/// Something that calls add to.
pub ghost enum Counter {
    Requests,
    Answers,
    Failures,
    Fallbacks,
    PromptTokens,
    CompletionTokens,
    ThinkingTokens,
    Latency,
    /// The calls that took at most so many milliseconds.
    Within(u64),
}

impl Call {
    /// Who was called.
    pub open spec fn provider(self) -> ProviderKind {
        match self {
            Call::Answered { provider, .. } => provider,
            Call::Failed { provider, .. } => provider,
        }
    }

    /// How long the call took.
    pub open spec fn latency(self) -> u64 {
        match self {
            Call::Answered { latency_ms, .. } => latency_ms,
            Call::Failed { latency_ms, .. } => latency_ms,
        }
    }

    /// What the call adds to a counter of its provider.
    pub open spec fn adds(self, what: Counter) -> nat {
        match what {
            Counter::Requests => 1,
            Counter::Answers => if self is Answered {
                1
            } else {
                0
            },
            Counter::Failures => if self is Failed {
                1
            } else {
                0
            },
            Counter::Fallbacks => match self {
                Call::Answered { fallback_used, .. } => if fallback_used {
                    1
                } else {
                    0
                },
                Call::Failed { .. } => 0,
            },
            Counter::PromptTokens => match self {
                Call::Answered { usage, .. } => usage.prompt_tokens as nat,
                Call::Failed { .. } => 0,
            },
            Counter::CompletionTokens => match self {
                Call::Answered { usage, .. } => usage.completion_tokens as nat,
                Call::Failed { .. } => 0,
            },
            Counter::ThinkingTokens => match self {
                Call::Answered { usage, .. } => usage.thinking_tokens as nat,
                Call::Failed { .. } => 0,
            },
            Counter::Latency => self.latency() as nat,
            Counter::Within(bound) => if self.latency() <= bound {
                1
            } else {
                0
            },
        }
    }
}

/// What the calls of one provider add to a counter, all together.
pub open spec fn total(history: Seq<Call>, provider: ProviderKind, what: Counter) -> nat
    decreases history.len(),
{
    if history.len() == 0 {
        0
    } else {
        total(history.drop_last(), provider, what) + if history.last().provider() == provider {
            history.last().adds(what)
        } else {
            0
        }
    }
}

/// The counts of one provider after some calls.
pub open spec fn counts_after(history: Seq<Call>, provider: ProviderKind) -> ProviderCounts
    decreases history.len(),
{
    if history.len() == 0 {
        ProviderCounts::none()
    } else {
        let before = counts_after(history.drop_last(), provider);
        let call = history.last();
        if call.provider() != provider {
            before
        } else {
            match call {
                Call::Answered { latency_ms, fallback_used, usage, .. } => before.with_success(
                    latency_ms,
                    fallback_used,
                    usage,
                ),
                Call::Failed { latency_ms, .. } => before.with_error(latency_ms),
            }
        }
    }
}

/// No counter of a provider has begun again at zero.
#[verifier::opaque]
pub open spec fn no_overflow(history: Seq<Call>) -> bool {
    forall|p: ProviderKind, what: Counter| #[trigger] total(history, p, what) <= u64::MAX
}

/// A text with the lines on how many calls took at most as long as each of the
/// first `k` bounds.
pub open spec fn with_call_buckets(
    before: Seq<char>,
    history: Seq<Call>,
    provider: ProviderKind,
    k: int,
) -> Seq<char>
    decreases k,
{
    if k <= 0 {
        before
    } else {
        with_line(
            with_call_buckets(before, history, provider, k - 1),
            "vidarax_infer_latency_ms_bucket{provider=\""@,
            provider.label(),
            "\",le=\""@ + decimal(bucket_bound(k - 1) as nat) + "\"} "@,
            total(history, provider, Counter::Within(bucket_bound(k - 1))) as u64,
        )
    }
}

/// A text with the lines on the calls of one provider.
pub open spec fn with_calls(
    before: Seq<char>,
    history: Seq<Call>,
    provider: ProviderKind,
    budget: Seq<char>,
) -> Seq<char> {
    let name = provider.label();
    let requests = "vidarax_infer_requests_total{provider=\""@;
    let tokens = "vidarax_infer_tokens_total{provider=\""@;
    let buckets = "vidarax_infer_latency_ms_bucket{provider=\""@;
    let of = |what: Counter| total(history, provider, what) as u64;
    let a = with_line(before, requests, name, "\",status=\"ok\"} "@, of(Counter::Answers));
    let b = with_line(a, requests, name, "\",status=\"error\"} "@, of(Counter::Failures));
    let c = with_line(
        b,
        "vidarax_infer_fallback_total{provider=\""@,
        name,
        "\"} "@,
        of(Counter::Fallbacks),
    );
    let d = with_line(c, tokens, name, "\",kind=\"prompt\"} "@, of(Counter::PromptTokens));
    let e = with_line(d, tokens, name, "\",kind=\"completion\"} "@, of(Counter::CompletionTokens));
    let f = with_line(e, tokens, name, "\",kind=\"thinking\"} "@, of(Counter::ThinkingTokens));
    let g = with_call_buckets(f, history, provider, LATENCY_BUCKETS as int);
    let h = with_line(g, buckets, name, "\",le=\"+Inf\"} "@, of(Counter::Requests));
    let i = with_line(
        h,
        "vidarax_infer_latency_ms_sum{provider=\""@,
        name,
        "\"} "@,
        of(Counter::Latency),
    );
    let j = with_line(
        i,
        "vidarax_infer_latency_ms_count{provider=\""@,
        name,
        "\"} "@,
        of(Counter::Requests),
    );
    j + "vidarax_infer_slo_target_ratio{provider=\""@ + name + "\"} 0.99\n"@
        + "vidarax_infer_error_budget_remaining_ratio{provider=\""@ + name + "\"} "@ + budget
        + "\n"@
}

impl InferenceMetrics {
    /// What is counted is what these calls add.
    pub open spec fn has_recorded(self, history: Seq<Call>) -> bool {
        forall|p: ProviderKind| #[trigger] self.counts(p) == counts_after(history, p)
    }

    /// The counts of each provider are well formed.
    pub open spec fn wf(self) -> bool {
        self.vllm.wf() && self.sglang.wf() && self.gemini.wf() && self.mlx.wf()
    }

    /// The counts of one provider.
    pub open spec fn counts(self, provider: ProviderKind) -> ProviderCounts {
        match provider {
            ProviderKind::Vllm => self.vllm@,
            ProviderKind::Sglang => self.sglang@,
            ProviderKind::Gemini => self.gemini@,
            ProviderKind::Mlx => self.mlx@,
        }
    }

    /// Nothing counted yet.
    pub fn new() -> (r: Self)
        ensures
            r.wf(),
            forall|p: ProviderKind| #[trigger] r.counts(p) == ProviderCounts::none(),
            r.has_recorded(Seq::empty()),
    {
        InferenceMetrics {
            vllm: ProviderMetrics::new(),
            sglang: ProviderMetrics::new(),
            gemini: ProviderMetrics::new(),
            mlx: ProviderMetrics::new(),
        }
    }

    /// Counts one more answer. Other providers' counts stay as they are.
    pub fn record_success(
        &mut self,
        provider: ProviderKind,
        latency_ms: u64,
        fallback_used: bool,
        usage: TokenUsage,
    )
        requires
            old(self).wf(),
        ensures
            final(self).wf(),
            forall|p: ProviderKind|
                #[trigger] final(self).counts(p) == if p == provider {
                    old(self).counts(p).with_success(latency_ms, fallback_used, usage)
                } else {
                    old(self).counts(p)
                },
            forall|history: Seq<Call>|
                old(self).has_recorded(history) ==> final(self).has_recorded(
                    #[trigger] history.push(
                        Call::Answered { provider, latency_ms, fallback_used, usage },
                    ),
                ),
    {
        match provider {
            ProviderKind::Vllm => add_success(&mut self.vllm, latency_ms, fallback_used, usage),
            ProviderKind::Sglang => add_success(&mut self.sglang, latency_ms, fallback_used, usage),
            ProviderKind::Gemini => add_success(&mut self.gemini, latency_ms, fallback_used, usage),
            ProviderKind::Mlx => add_success(&mut self.mlx, latency_ms, fallback_used, usage),
        }
        proof {
            let call = Call::Answered { provider, latency_ms, fallback_used, usage };
            assert forall|history: Seq<Call>| old(self).has_recorded(history) implies self.has_recorded(
                #[trigger] history.push(call),
            ) by {
                assert(history.push(call).drop_last() =~= history);
                assert forall|p: ProviderKind| #[trigger] self.counts(p) == counts_after(
                    history.push(call),
                    p,
                ) by {
                    assert(old(self).counts(p) == counts_after(history, p));
                }
            }
        }
    }

    /// Counts one more failure. Other providers' counts stay as they are.
    pub fn record_error(&mut self, provider: ProviderKind, latency_ms: u64)
        requires
            old(self).wf(),
        ensures
            final(self).wf(),
            forall|p: ProviderKind|
                #[trigger] final(self).counts(p) == if p == provider {
                    old(self).counts(p).with_error(latency_ms)
                } else {
                    old(self).counts(p)
                },
            forall|history: Seq<Call>|
                old(self).has_recorded(history) ==> final(self).has_recorded(
                    #[trigger] history.push(Call::Failed { provider, latency_ms }),
                ),
    {
        match provider {
            ProviderKind::Vllm => add_error(&mut self.vllm, latency_ms),
            ProviderKind::Sglang => add_error(&mut self.sglang, latency_ms),
            ProviderKind::Gemini => add_error(&mut self.gemini, latency_ms),
            ProviderKind::Mlx => add_error(&mut self.mlx, latency_ms),
        }
        proof {
            let call = Call::Failed { provider, latency_ms };
            assert forall|history: Seq<Call>| old(self).has_recorded(history) implies self.has_recorded(
                #[trigger] history.push(call),
            ) by {
                assert(history.push(call).drop_last() =~= history);
                assert forall|p: ProviderKind| #[trigger] self.counts(p) == counts_after(
                    history.push(call),
                    p,
                ) by {
                    assert(old(self).counts(p) == counts_after(history, p));
                }
            }
        }
    }

    /// Whether any provider is slow.
    pub fn is_high_latency(&self) -> (r: bool)
        requires
            self.wf(),
        ensures
            r == exists|p: ProviderKind| #[trigger] self.counts(p).slow(),
    {
        let r = self.vllm.is_high_latency() || self.sglang.is_high_latency()
            || self.gemini.is_high_latency() || self.mlx.is_high_latency();
        proof {
            assert(self.counts(ProviderKind::Vllm) == self.vllm@);
            assert(self.counts(ProviderKind::Sglang) == self.sglang@);
            assert(self.counts(ProviderKind::Gemini) == self.gemini@);
            assert(self.counts(ProviderKind::Mlx) == self.mlx@);
            if !r {
                assert forall|p: ProviderKind| !(#[trigger] self.counts(p).slow()) by {
                    match p {
                        ProviderKind::Vllm => {},
                        ProviderKind::Sglang => {},
                        ProviderKind::Gemini => {},
                        ProviderKind::Mlx => {},
                    }
                }
            }
        }
        r
    }

    /// The counts of all providers as Prometheus reads them.
    pub open spec fn shown(self, budgets: ErrorBudgets) -> Seq<char> {
        let a = with_provider(Seq::empty(), "vllm"@, self.vllm@, budgets.vllm@);
        let b = with_provider(a, "sglang"@, self.sglang@, budgets.sglang@);
        let c = with_provider(b, "gemini"@, self.gemini@, budgets.gemini@);
        with_provider(c, "mlx"@, self.mlx@, budgets.mlx@)
    }

    /// The counts of all providers as Prometheus reads them. What is left of
    /// each error budget comes as text.
    pub fn render_prometheus(&self, budgets: &ErrorBudgets) -> (r: String)
        requires
            self.wf(),
        ensures
            r@ == self.shown(*budgets),
    {
        let mut out = String::new();
        render_provider("vllm", &self.vllm, budgets.vllm.as_str(), &mut out);
        render_provider("sglang", &self.sglang, budgets.sglang.as_str(), &mut out);
        render_provider("gemini", &self.gemini, budgets.gemini.as_str(), &mut out);
        render_provider("mlx", &self.mlx, budgets.mlx.as_str(), &mut out);
        out
    }

    /// What is known of admission, as Prometheus reads it. It names no caller.
    pub fn render_admission_prometheus(
        snapshot: &AdmissionSnapshot,
        limits: &AdmissionBudget,
    ) -> (r: String)
        ensures
            r@ == with_admission_classes(
                with_admission_budget(admission_waits(*snapshot), *snapshot, *limits),
                *snapshot,
            ),
    {
        let mut out = String::new();
        let s = snapshot;
        push_count(&mut out, "vidarax_infer_admission_active", s.active);
        push_count(&mut out, "vidarax_infer_admission_waiting", s.waiting);
        push_count(&mut out, "vidarax_infer_admission_acquired_total", s.acquired_total);
        push_count(
            &mut out,
            "vidarax_infer_admission_timeouts_total{limit=\"global\"}",
            s.timeout_global_total,
        );
        push_count(
            &mut out,
            "vidarax_infer_admission_timeouts_total{limit=\"principal\"}",
            s.timeout_principal_total,
        );
        push_count(
            &mut out,
            "vidarax_infer_admission_waiter_rejections_total",
            s.waiter_rejected_total,
        );
        push_count(&mut out, "vidarax_infer_admission_wait_duration_us_sum", s.wait_duration_us);
        push_count(
            &mut out,
            "vidarax_infer_admission_wait_duration_us_count",
            s.wait_duration_count,
        );
        push_count(&mut out, "vidarax_infer_admission_active_tokens", s.active_tokens);
        push_count(&mut out, "vidarax_infer_admission_active_bytes", s.active_bytes);
        push_count(
            &mut out,
            "vidarax_infer_admission_token_limit",
            limits.max_in_flight_tokens,
        );
        push_count(&mut out, "vidarax_infer_admission_byte_limit", limits.max_in_flight_bytes);
        push_count(
            &mut out,
            "vidarax_infer_admission_deadline_missed_total",
            s.deadline_missed_total,
        );
        push_count(
            &mut out,
            "vidarax_infer_admission_budget_rejections_total",
            s.budget_rejected_total,
        );
        push_count(
            &mut out,
            "vidarax_infer_admission_acquired_by_class_total{class=\"urgent_live\"}",
            s.urgent_acquired_total,
        );
        push_count(
            &mut out,
            "vidarax_infer_admission_acquired_by_class_total{class=\"live\"}",
            s.live_acquired_total,
        );
        push_count(
            &mut out,
            "vidarax_infer_admission_acquired_by_class_total{class=\"offline\"}",
            s.offline_acquired_total,
        );
        push_count(
            &mut out,
            "vidarax_infer_admission_urgent_live_acquired_total",
            s.urgent_acquired_total,
        );
        push_count(&mut out, "vidarax_infer_admission_live_acquired_total", s.live_acquired_total);
        push_count(
            &mut out,
            "vidarax_infer_admission_offline_acquired_total",
            s.offline_acquired_total,
        );
        out
    }
}

fn add_success(p: &mut ProviderMetrics, latency_ms: u64, fallback_used: bool, usage: TokenUsage)
    requires
        old(p).wf(),
    ensures
        final(p).wf(),
        final(p)@ == old(p)@.with_success(latency_ms, fallback_used, usage),
{
    p.success_total = count(p.success_total, 1);
    if fallback_used {
        p.fallback_total = count(p.fallback_total, 1);
    }
    p.prompt_tokens_total = count(p.prompt_tokens_total, usage.prompt_tokens as u64);
    p.completion_tokens_total = count(p.completion_tokens_total, usage.completion_tokens as u64);
    p.thinking_tokens_total = count(p.thinking_tokens_total, usage.thinking_tokens as u64);
    p.record_latency(latency_ms);
}

fn add_error(p: &mut ProviderMetrics, latency_ms: u64)
    requires
        old(p).wf(),
    ensures
        final(p).wf(),
        final(p)@ == old(p)@.with_error(latency_ms),
{
    p.error_total = count(p.error_total, 1);
    p.record_latency(latency_ms);
}

/// The reply to `GET /metrics`: the runs, the events, and then what each part
/// of the server shows of itself.
pub fn metrics(runs: u64, events: u64, inference: &str, pipeline: &str) -> (r: String)
    ensures
        r@ == "vidarax_runs_created_total "@ + decimal(runs as nat)
            + "\nvidarax_timeline_events_total "@ + decimal(events as nat) + "\n"@ + inference@
            + pipeline@,
{
    let mut out = crate::text::owned("vidarax_runs_created_total ");
    push_decimal(&mut out, runs);
    out.push_str("\nvidarax_timeline_events_total ");
    push_decimal(&mut out, events);
    out.push_str("\n");
    out.push_str(inference);
    out.push_str(pipeline);
    out
}

/// Every latency is counted in at most one bucket, the first that it fits into.
pub proof fn latency_falls_into_its_bucket(latency_ms: u64)
    ensures
        ({
            let at = bucket_for(latency_ms, 0);
            &&& 0 <= at <= LATENCY_BUCKETS
            &&& at < LATENCY_BUCKETS <==> latency_ms <= 60000
            &&& at < LATENCY_BUCKETS ==> latency_ms <= bucket_bound(at)
            &&& forall|i: int| 0 <= i < at ==> latency_ms > #[trigger] bucket_bound(i)
        }),
{
    lemma_bucket_for(latency_ms, 0);
}

proof fn lemma_bucket_for(latency_ms: u64, i: int)
    requires
        0 <= i <= LATENCY_BUCKETS,
        forall|k: int| 0 <= k < i ==> latency_ms > #[trigger] bucket_bound(k),
    ensures
        ({
            let at = bucket_for(latency_ms, i);
            &&& i <= at <= LATENCY_BUCKETS
            &&& at < LATENCY_BUCKETS <==> latency_ms <= 60000
            &&& at < LATENCY_BUCKETS ==> latency_ms <= bucket_bound(at)
            &&& forall|k: int| 0 <= k < at ==> latency_ms > #[trigger] bucket_bound(k)
        }),
    decreases LATENCY_BUCKETS - i,
{
    if i < LATENCY_BUCKETS && latency_ms > bucket_bound(i) {
        lemma_bucket_for(latency_ms, i + 1);
    } else if i == LATENCY_BUCKETS {
        assert(latency_ms > bucket_bound(13));
    }
}

proof fn lemma_bounds_ascend(i: int, j: int)
    requires
        0 <= i <= j < LATENCY_BUCKETS,
    ensures
        bucket_bound(i) <= bucket_bound(j),
{
}

proof fn lemma_bucket_added(buckets: Seq<u64>, at: int, k: int)
    requires
        0 <= at < buckets.len(),
        0 <= k <= buckets.len(),
    ensures
        bucket_sum(buckets.update(at, counted(buckets[at], 1)), k) == counted(
            bucket_sum(buckets, k),
            if at < k {
                1
            } else {
                0
            },
        ),
    decreases k,
{
    if k > 0 {
        lemma_bucket_added(buckets, at, k - 1);
    }
}

proof fn lemma_total_grows(history: Seq<Call>, provider: ProviderKind, what: Counter)
    requires
        history.len() > 0,
    ensures
        total(history.drop_last(), provider, what) <= total(history, provider, what),
{
}

proof fn lemma_no_buckets(k: int)
    requires
        0 <= k <= LATENCY_BUCKETS,
    ensures
        bucket_sum(ProviderCounts::none().latency_buckets, k) == 0,
    decreases k,
{
    if k > 0 {
        lemma_no_buckets(k - 1);
    }
}

proof fn lemma_shorter_fits(history: Seq<Call>)
    requires
        no_overflow(history),
        history.len() > 0,
    ensures
        no_overflow(history.drop_last()),
{
    reveal(no_overflow);
    assert forall|p: ProviderKind, what: Counter| #[trigger]
        total(history.drop_last(), p, what) <= u64::MAX by {
        lemma_total_grows(history, p, what);
        assert(total(history, p, what) <= u64::MAX);
    }
}

proof fn lemma_requests_fit(history: Seq<Call>, provider: ProviderKind)
    requires
        no_overflow(history),
    ensures
        total(history, provider, Counter::Requests) <= u64::MAX,
{
    reveal(no_overflow);
}

proof fn lemma_added(history: Seq<Call>, provider: ProviderKind, what: Counter)
    requires
        no_overflow(history),
        history.len() > 0,
        history.last().provider() == provider,
    ensures
        total(history.drop_last(), provider, what) + history.last().adds(what) == total(
            history,
            provider,
            what,
        ),
        total(history, provider, what) <= u64::MAX,
{
    reveal(no_overflow);
}

/// The counts, but for the buckets, are the totals.
spec fn totals_counted(c: ProviderCounts, history: Seq<Call>, provider: ProviderKind) -> bool {
    &&& c.success_total == total(history, provider, Counter::Answers)
    &&& c.error_total == total(history, provider, Counter::Failures)
    &&& c.fallback_total == total(history, provider, Counter::Fallbacks)
    &&& c.prompt_tokens_total == total(history, provider, Counter::PromptTokens)
    &&& c.completion_tokens_total == total(history, provider, Counter::CompletionTokens)
    &&& c.thinking_tokens_total == total(history, provider, Counter::ThinkingTokens)
    &&& c.latency_sum_ms == total(history, provider, Counter::Latency)
    &&& c.latency_count == total(history, provider, Counter::Requests)
}

proof fn lemma_counted_fits(a: u64, b: u64)
    requires
        a + b <= u64::MAX,
    ensures
        counted(a, b) == a + b,
{
}

proof fn lemma_call_counted(before: ProviderCounts, history: Seq<Call>, provider: ProviderKind)
    requires
        no_overflow(history),
        history.len() > 0,
        history.last().provider() == provider,
        totals_counted(before, history.drop_last(), provider),
    ensures
        match history.last() {
            Call::Answered { latency_ms, fallback_used, usage, .. } => totals_counted(
                before.with_success(latency_ms, fallback_used, usage),
                history,
                provider,
            ),
            Call::Failed { latency_ms, .. } => totals_counted(
                before.with_error(latency_ms),
                history,
                provider,
            ),
        },
{
    lemma_added(history, provider, Counter::Answers);
    lemma_added(history, provider, Counter::Failures);
    lemma_added(history, provider, Counter::Fallbacks);
    lemma_added(history, provider, Counter::PromptTokens);
    lemma_added(history, provider, Counter::CompletionTokens);
    lemma_added(history, provider, Counter::ThinkingTokens);
    lemma_added(history, provider, Counter::Latency);
    lemma_added(history, provider, Counter::Requests);
    lemma_counted_fits(before.latency_count, 1);
    lemma_counted_fits(before.latency_sum_ms, history.last().latency());
    match history.last() {
        Call::Answered { fallback_used, usage, .. } => {
            lemma_counted_fits(before.success_total, 1);
            if fallback_used {
                lemma_counted_fits(before.fallback_total, 1);
            }
            lemma_counted_fits(before.prompt_tokens_total, usage.prompt_tokens as u64);
            lemma_counted_fits(before.completion_tokens_total, usage.completion_tokens as u64);
            lemma_counted_fits(before.thinking_tokens_total, usage.thinking_tokens as u64);
        },
        Call::Failed { .. } => {
            lemma_counted_fits(before.error_total, 1);
        },
    }
}

proof fn lemma_totals_counted(history: Seq<Call>, provider: ProviderKind)
    requires
        no_overflow(history),
    ensures
        totals_counted(counts_after(history, provider), history, provider),
    decreases history.len(),
{
    if history.len() > 0 {
        lemma_shorter_fits(history);
        lemma_totals_counted(history.drop_last(), provider);
        if history.last().provider() == provider {
            lemma_call_counted(counts_after(history.drop_last(), provider), history, provider);
        }
    }
}

proof fn lemma_latency_counted(before: ProviderCounts, latency_ms: u64, k: int)
    requires
        before.latency_buckets.len() == LATENCY_BUCKETS,
        0 < k <= LATENCY_BUCKETS,
    ensures
        before.with_latency(latency_ms).latency_buckets.len() == LATENCY_BUCKETS,
        bucket_sum(before.with_latency(latency_ms).latency_buckets, k) == counted(
            bucket_sum(before.latency_buckets, k),
            if latency_ms <= bucket_bound(k - 1) {
                1
            } else {
                0
            },
        ),
{
    let at = bucket_for(latency_ms, 0);
    latency_falls_into_its_bucket(latency_ms);
    if at < LATENCY_BUCKETS {
        lemma_bucket_added(before.latency_buckets, at, k);
        if at < k {
            lemma_bounds_ascend(at, k - 1);
        }
    }
}

proof fn lemma_buckets_counted(history: Seq<Call>, provider: ProviderKind, k: int)
    requires
        total(history, provider, Counter::Requests) <= u64::MAX,
        0 < k <= LATENCY_BUCKETS,
    ensures
        counts_after(history, provider).latency_buckets.len() == LATENCY_BUCKETS,
        counts_after(history, provider).latency_count == total(
            history,
            provider,
            Counter::Requests,
        ),
        bucket_sum(counts_after(history, provider).latency_buckets, k) == total(
            history,
            provider,
            Counter::Within(bucket_bound(k - 1)),
        ),
    decreases history.len(),
{
    if history.len() == 0 {
        lemma_no_buckets(k);
    } else {
        let call = history.last();
        lemma_total_grows(history, provider, Counter::Requests);
        lemma_buckets_counted(history.drop_last(), provider, k);
        if call.provider() == provider {
            let before = counts_after(history.drop_last(), provider);
            let sum = bucket_sum(before.latency_buckets, k);
            let bound = bucket_bound(k - 1);
            totals_agree(history, provider, bound, bound);
            lemma_counted_fits(before.latency_count, 1);
            lemma_counted_fits(sum, call.adds(Counter::Within(bucket_bound(k - 1))) as u64);
            match call {
                Call::Answered { latency_ms, fallback_used, usage, .. } => {
                    let now = before.with_success(latency_ms, fallback_used, usage);
                    assert(now.latency_buckets == before.with_latency(latency_ms).latency_buckets);
                    lemma_latency_counted(before, latency_ms, k);
                },
                Call::Failed { latency_ms, .. } => {
                    let now = before.with_error(latency_ms);
                    assert(now.latency_buckets == before.with_latency(latency_ms).latency_buckets);
                    lemma_latency_counted(before, latency_ms, k);
                },
            }
        }
    }
}

/// Over all recorded calls, a provider is slow exactly where it was called at
/// least ten times and fewer than 95 in a hundred of its calls took at most
/// five seconds. So where each provider was called never or at least ten times,
/// the latency is high exactly where some provider had fewer than 95 in a
/// hundred calls that took at most five seconds. This leaves out more calls than
/// are counted, and so many that both sides reach the largest number.
pub proof fn high_latency_is_judged_over_all_calls(m: InferenceMetrics, history: Seq<Call>)
    requires
        m.has_recorded(history),
        forall|p: ProviderKind| #[trigger] total(history, p, Counter::Requests) <= u64::MAX,
        forall|p: ProviderKind|
            !(u64::MAX <= 100 * total(history, p, Counter::Within(5000)) < 95 * #[trigger] total(
                history,
                p,
                Counter::Requests,
            )),
    ensures
        forall|p: ProviderKind| #[trigger]
            m.counts(p).slow() <==> total(history, p, Counter::Requests) >= 10 && 100 * total(
                history,
                p,
                Counter::Within(5000),
            ) < 95 * total(history, p, Counter::Requests),
        (forall|p: ProviderKind|
            {
                let n = #[trigger] total(history, p, Counter::Requests);
                n == 0 || n >= 10
            }) ==> ((exists|p: ProviderKind| #[trigger] m.counts(p).slow()) <==> exists|
            p: ProviderKind,
        |
            100 * total(history, p, Counter::Within(5000)) < 95 * #[trigger] total(
                history,
                p,
                Counter::Requests,
            )),
{
    assert forall|p: ProviderKind| #[trigger] m.counts(p).slow() <==> total(
        history,
        p,
        Counter::Requests,
    ) >= 10 && 100 * total(history, p, Counter::Within(5000)) < 95 * total(
        history,
        p,
        Counter::Requests,
    ) by {
        assert(m.counts(p) == counts_after(history, p));
        assert(total(history, p, Counter::Requests) <= u64::MAX);
        lemma_buckets_counted(history, p, 9);
        assert(bucket_bound(8) == 5000);
        totals_agree(history, p, 5000, 5000);
    }
    if exists|p: ProviderKind|
        100 * total(history, p, Counter::Within(5000)) < 95 * #[trigger] total(
            history,
            p,
            Counter::Requests,
        ) {
        let p = choose|p: ProviderKind|
            100 * total(history, p, Counter::Within(5000)) < 95 * #[trigger] total(
                history,
                p,
                Counter::Requests,
            );
        if forall|q: ProviderKind|
            {
                let n = #[trigger] total(history, q, Counter::Requests);
                n == 0 || n >= 10
            } {
            assert(m.counts(p).slow());
        }
    }
}

/// Every call of a provider is answered or has failed, and the calls within a
/// bound grow with the bound up to all of them.
pub proof fn totals_agree(history: Seq<Call>, provider: ProviderKind, low: u64, high: u64)
    requires
        low <= high,
    ensures
        total(history, provider, Counter::Requests) == total(history, provider, Counter::Answers)
            + total(history, provider, Counter::Failures),
        total(history, provider, Counter::Within(low)) <= total(
            history,
            provider,
            Counter::Within(high),
        ),
        total(history, provider, Counter::Within(high)) <= total(
            history,
            provider,
            Counter::Requests,
        ),
    decreases history.len(),
{
    if history.len() > 0 {
        totals_agree(history.drop_last(), provider, low, high);
    }
}

/// Calls for another provider change nothing of what is shown of a provider.
pub proof fn calls_count_for_their_provider(
    history: Seq<Call>,
    call: Call,
    provider: ProviderKind,
    before: Seq<char>,
    budget: Seq<char>,
)
    requires
        call.provider() != provider,
    ensures
        forall|what: Counter| #[trigger]
            total(history.push(call), provider, what) == total(history, provider, what),
        with_calls(before, history.push(call), provider, budget) == with_calls(
            before,
            history,
            provider,
            budget,
        ),
{
    let longer = history.push(call);
    assert(longer.drop_last() =~= history);
    assert forall|what: Counter| #[trigger]
        total(longer, provider, what) == total(history, provider, what) by {}
    assert forall|text: Seq<char>, k: int| k <= LATENCY_BUCKETS implies #[trigger] with_call_buckets(
        text,
        longer,
        provider,
        k,
    ) == with_call_buckets(text, history, provider, k) by {
        lemma_same_buckets(text, longer, history, provider, k);
    }
}

proof fn lemma_same_buckets(
    before: Seq<char>,
    a: Seq<Call>,
    b: Seq<Call>,
    provider: ProviderKind,
    k: int,
)
    requires
        forall|what: Counter| #[trigger] total(a, provider, what) == total(b, provider, what),
    ensures
        with_call_buckets(before, a, provider, k) == with_call_buckets(before, b, provider, k),
    decreases k,
{
    if k > 0 {
        lemma_same_buckets(before, a, b, provider, k - 1);
        assert(total(a, provider, Counter::Within(bucket_bound(k - 1))) == total(
            b,
            provider,
            Counter::Within(bucket_bound(k - 1)),
        ));
    }
}

proof fn lemma_buckets_shown(
    before: Seq<char>,
    history: Seq<Call>,
    provider: ProviderKind,
    k: int,
)
    requires
        no_overflow(history),
        k <= LATENCY_BUCKETS,
    ensures
        with_bucket_lines(
            before,
            provider.label(),
            counts_after(history, provider).latency_buckets,
            k,
        ) == with_call_buckets(before, history, provider, k),
    decreases k,
{
    if k > 0 {
        lemma_buckets_shown(before, history, provider, k - 1);
        lemma_requests_fit(history, provider);
        lemma_buckets_counted(history, provider, k);
    }
}

proof fn lemma_provider_shown(
    before: Seq<char>,
    history: Seq<Call>,
    provider: ProviderKind,
    budget: Seq<char>,
)
    requires
        no_overflow(history),
    ensures
        with_provider(before, provider.label(), counts_after(history, provider), budget)
            == with_calls(before, history, provider, budget),
{
    let c = counts_after(history, provider);
    lemma_totals_counted(history, provider);
    lemma_buckets_shown(
        with_totals(before, provider.label(), c),
        history,
        provider,
        LATENCY_BUCKETS as int,
    );
}

/// What is shown of the providers is what their calls add up to: the answers,
/// the failures, the tokens, the calls that took at most as long as each bound,
/// all calls, and how long they took together.
pub proof fn calls_are_shown(m: InferenceMetrics, history: Seq<Call>, budgets: ErrorBudgets)
    requires
        m.has_recorded(history),
        no_overflow(history),
    ensures
        m.shown(budgets) == ({
            let a = with_calls(Seq::empty(), history, ProviderKind::Vllm, budgets.vllm@);
            let b = with_calls(a, history, ProviderKind::Sglang, budgets.sglang@);
            let c = with_calls(b, history, ProviderKind::Gemini, budgets.gemini@);
            with_calls(c, history, ProviderKind::Mlx, budgets.mlx@)
        }),
{
    assert(m.counts(ProviderKind::Vllm) == m.vllm@);
    assert(m.counts(ProviderKind::Sglang) == m.sglang@);
    assert(m.counts(ProviderKind::Gemini) == m.gemini@);
    assert(m.counts(ProviderKind::Mlx) == m.mlx@);
    let a = with_calls(Seq::empty(), history, ProviderKind::Vllm, budgets.vllm@);
    let b = with_calls(a, history, ProviderKind::Sglang, budgets.sglang@);
    let c = with_calls(b, history, ProviderKind::Gemini, budgets.gemini@);
    lemma_provider_shown(Seq::empty(), history, ProviderKind::Vllm, budgets.vllm@);
    lemma_provider_shown(a, history, ProviderKind::Sglang, budgets.sglang@);
    lemma_provider_shown(b, history, ProviderKind::Gemini, budgets.gemini@);
    lemma_provider_shown(c, history, ProviderKind::Mlx, budgets.mlx@);
}

/// A call adds to its own provider alone: one answer with its tokens, or one
/// failure, and its time either way.
pub proof fn each_call_adds_to_its_provider(history: Seq<Call>, call: Call, provider: ProviderKind)
    ensures
        ({
            let before = counts_after(history, provider);
            let after = counts_after(history.push(call), provider);
            &&& call.provider() != provider ==> after == before
            &&& call.provider() == provider ==> (call matches Call::Answered {
                latency_ms,
                fallback_used,
                usage,
                ..
            } ==> {
                &&& after.success_total == (before.success_total + 1) % 0x1_0000_0000_0000_0000
                &&& after.error_total == before.error_total
                &&& after.prompt_tokens_total == (before.prompt_tokens_total + usage.prompt_tokens)
                    % 0x1_0000_0000_0000_0000
                &&& after.completion_tokens_total == (before.completion_tokens_total
                    + usage.completion_tokens) % 0x1_0000_0000_0000_0000
                &&& after.thinking_tokens_total == (before.thinking_tokens_total
                    + usage.thinking_tokens) % 0x1_0000_0000_0000_0000
                &&& after.latency_sum_ms == (before.latency_sum_ms + latency_ms)
                    % 0x1_0000_0000_0000_0000
                &&& !fallback_used ==> after.fallback_total == before.fallback_total
                &&& fallback_used ==> after.fallback_total == (before.fallback_total + 1)
                    % 0x1_0000_0000_0000_0000
            })
            &&& call.provider() == provider ==> (call matches Call::Failed { latency_ms, .. } ==> {
                &&& after.success_total == before.success_total
                &&& after.error_total == (before.error_total + 1) % 0x1_0000_0000_0000_0000
                &&& after.fallback_total == before.fallback_total
                &&& after.prompt_tokens_total == before.prompt_tokens_total
                &&& after.latency_sum_ms == (before.latency_sum_ms + latency_ms)
                    % 0x1_0000_0000_0000_0000
            })
            &&& call.provider() == provider ==> after.latency_count == (before.latency_count + 1)
                % 0x1_0000_0000_0000_0000
        }),
{
    assert(history.push(call).drop_last() =~= history);
}

/// The bounds of the buckets ascend from ten milliseconds to a minute.
pub proof fn bucket_bounds_ascend(i: int)
    requires
        0 <= i < 14,
    ensures
        LATENCY_BUCKETS == 14,
        bucket_bound(i) == seq![
            10u64,
            25,
            50,
            100,
            250,
            500,
            1000,
            2500,
            5000,
            10000,
            15000,
            20000,
            30000,
            60000,
        ][i],
        i < 13 ==> bucket_bound(i) < bucket_bound(i + 1),
{
}

/// A provider is slow exactly if, of ten calls or more, fewer than ninety-five in
/// a hundred took five seconds at most.
pub proof fn slow_providers_are_slow_in_most_calls(c: ProviderCounts)
    requires
        c.latency_count * 95 <= u64::MAX,
        bucket_sum(c.latency_buckets, 9) * 100 <= u64::MAX,
    ensures
        c.slow() <==> c.latency_count >= 10 && bucket_sum(c.latency_buckets, 9) * 100
            < c.latency_count * 95,
        bucket_bound(8) == 5000,
{
}

} // verus!
