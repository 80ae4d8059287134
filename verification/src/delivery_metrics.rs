//! Counts of what was delivered.

use vstd::prelude::*;

use crate::inference_metrics::{push_count, with_count};

verus! {

/// Counts of what was sent to listeners and to webhooks. A count begins at zero
/// again behind the largest number of 64 bits.
#[derive(Clone, Copy, Debug, PartialEq, Eq, Structural)]
pub struct DeliveryMetrics {
    pub sse_active: u64,
    pub sse_events: u64,
    pub sse_replayed: u64,
    pub sse_notification_lag: u64,
    pub sse_output_stalls: u64,
    pub webhook_configured: u64,
    pub webhook_attempts: u64,
    pub webhook_delivered: u64,
    pub webhook_retries: u64,
    pub webhook_dead_letters: u64,
    pub webhook_wake_coalesced: u64,
    pub webhook_notification_lag: u64,
}

/// A count with so many more.
pub open spec fn raised(count: u64, by: u64) -> u64 {
    if count + by > u64::MAX {
        (count + by - 0x1_0000_0000_0000_0000) as u64
    } else {
        (count + by) as u64
    }
}

/// A count with so many more.
pub fn raise(count: u64, by: u64) -> (r: u64)
    ensures
        r == raised(count, by),
{
    count.wrapping_add(by)
}

/// The counts on listeners, as Prometheus reads them.
pub open spec fn listener_lines(m: DeliveryMetrics) -> Seq<char> {
    let a = with_count(Seq::empty(), "vidarax_sse_subscribers_active"@, m.sse_active);
    let b = with_count(a, "vidarax_sse_events_total"@, m.sse_events);
    let c = with_count(b, "vidarax_sse_replayed_events_total"@, m.sse_replayed);
    let d = with_count(c, "vidarax_sse_notification_lag_total"@, m.sse_notification_lag);
    with_count(d, "vidarax_sse_output_queue_stalls_total"@, m.sse_output_stalls)
}

/// All the counts, as Prometheus reads them.
pub open spec fn delivery_lines(m: DeliveryMetrics) -> Seq<char> {
    let a = with_count(listener_lines(m), "vidarax_webhooks_configured"@, m.webhook_configured);
    let b = with_count(a, "vidarax_webhook_attempts_total"@, m.webhook_attempts);
    let c = with_count(b, "vidarax_webhook_delivered_total"@, m.webhook_delivered);
    let d = with_count(c, "vidarax_webhook_retries_total"@, m.webhook_retries);
    let e = with_count(d, "vidarax_webhook_dead_letters_total"@, m.webhook_dead_letters);
    let f = with_count(e, "vidarax_webhook_wake_coalesced_total"@, m.webhook_wake_coalesced);
    with_count(f, "vidarax_webhook_notification_lag_total"@, m.webhook_notification_lag)
}

impl DeliveryMetrics {
    /// Counts of nothing.
    pub fn new() -> (r: Self)
        ensures
            r == (DeliveryMetrics {
                sse_active: 0,
                sse_events: 0,
                sse_replayed: 0,
                sse_notification_lag: 0,
                sse_output_stalls: 0,
                webhook_configured: 0,
                webhook_attempts: 0,
                webhook_delivered: 0,
                webhook_retries: 0,
                webhook_dead_letters: 0,
                webhook_wake_coalesced: 0,
                webhook_notification_lag: 0,
            }),
    {
        DeliveryMetrics {
            sse_active: 0,
            sse_events: 0,
            sse_replayed: 0,
            sse_notification_lag: 0,
            sse_output_stalls: 0,
            webhook_configured: 0,
            webhook_attempts: 0,
            webhook_delivered: 0,
            webhook_retries: 0,
            webhook_dead_letters: 0,
            webhook_wake_coalesced: 0,
            webhook_notification_lag: 0,
        }
    }

    /// The counts as Prometheus reads them.
    pub fn render_prometheus(&self) -> (r: String)
        ensures
            r@ == delivery_lines(*self),
    {
        let mut out = String::new();
        push_count(&mut out, "vidarax_sse_subscribers_active", self.sse_active);
        push_count(&mut out, "vidarax_sse_events_total", self.sse_events);
        push_count(&mut out, "vidarax_sse_replayed_events_total", self.sse_replayed);
        push_count(&mut out, "vidarax_sse_notification_lag_total", self.sse_notification_lag);
        push_count(&mut out, "vidarax_sse_output_queue_stalls_total", self.sse_output_stalls);
        push_count(&mut out, "vidarax_webhooks_configured", self.webhook_configured);
        push_count(&mut out, "vidarax_webhook_attempts_total", self.webhook_attempts);
        push_count(&mut out, "vidarax_webhook_delivered_total", self.webhook_delivered);
        push_count(&mut out, "vidarax_webhook_retries_total", self.webhook_retries);
        push_count(&mut out, "vidarax_webhook_dead_letters_total", self.webhook_dead_letters);
        push_count(&mut out, "vidarax_webhook_wake_coalesced_total", self.webhook_wake_coalesced);
        push_count(
            &mut out,
            "vidarax_webhook_notification_lag_total",
            self.webhook_notification_lag,
        );
        out
    }
}

} // verus!
