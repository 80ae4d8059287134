use vidarax_api::inference_metrics::{
    metrics as metrics_page, AdmissionBudget, AdmissionSnapshot, ErrorBudgets, InferenceMetrics, ProviderKind,
};
use vidarax_api::models::TokenUsage;

fn budgets() -> ErrorBudgets {
    ErrorBudgets {
        vllm: "1.000000".to_string(),
        sglang: "1.000000".to_string(),
        gemini: "1.000000".to_string(),
        mlx: "1.000000".to_string(),
    }
}

fn usage(prompt: u32, completion: u32, thinking: u32) -> TokenUsage {
    TokenUsage {
        prompt_tokens: prompt,
        completion_tokens: completion,
        thinking_tokens: thinking,
        total_tokens: prompt + completion + thinking,
    }
}

#[test]
fn renders_provider_metrics() {
    let mut metrics = InferenceMetrics::new();
    metrics.record_success(ProviderKind::Vllm, 30, false, usage(120, 45, 0));
    metrics.record_error(ProviderKind::Vllm, 300);
    let text = metrics.render_prometheus(&budgets());
    assert!(text.contains("vidarax_infer_requests_total{provider=\"vllm\",status=\"ok\"} 1"));
    assert!(text.contains("vidarax_infer_requests_total{provider=\"vllm\",status=\"error\"} 1"));
    assert!(text.contains("vidarax_infer_latency_ms_count{provider=\"vllm\"} 2"));
    assert!(text.contains("vidarax_infer_tokens_total{provider=\"vllm\",kind=\"prompt\"} 120"));
    assert!(text.contains("vidarax_infer_tokens_total{provider=\"vllm\",kind=\"completion\"} 45"));
}

#[test]
fn renders_admission_metrics_without_principal_labels() {
    let snapshot = AdmissionSnapshot {
        active: 1,
        waiting: 0,
        acquired_total: 1,
        timeout_global_total: 0,
        timeout_principal_total: 1,
        waiter_rejected_total: 0,
        wait_duration_us: 5_000,
        wait_duration_count: 2,
        active_tokens: 0,
        active_bytes: 0,
        deadline_missed_total: 0,
        budget_rejected_total: 0,
        urgent_acquired_total: 0,
        live_acquired_total: 0,
        offline_acquired_total: 1,
    };
    let limits = AdmissionBudget {
        max_in_flight_tokens: 1_000_000,
        max_in_flight_bytes: 1024 * 1024 * 1024,
    };
    let text = InferenceMetrics::render_admission_prometheus(&snapshot, &limits);
    assert!(text.contains("vidarax_infer_admission_active 1"));
    assert!(text.contains("vidarax_infer_admission_timeouts_total{limit=\"principal\"} 1"));
    assert!(text.contains("vidarax_infer_admission_wait_duration_us_count 2"));
    assert!(!text.contains("secret-tenant-name"));
}

#[test]
fn renders_mlx_metrics_under_its_own_label_distinct_from_vllm() {
    let mut metrics = InferenceMetrics::new();
    metrics.record_success(ProviderKind::Mlx, 15, false, usage(80, 20, 0));
    let text = metrics.render_prometheus(&budgets());
    assert!(text.contains("vidarax_infer_requests_total{provider=\"mlx\",status=\"ok\"} 1"));
    assert!(text.contains("vidarax_infer_tokens_total{provider=\"mlx\",kind=\"prompt\"} 80"));
    assert!(text.contains("vidarax_infer_requests_total{provider=\"vllm\",status=\"ok\"} 0"));
}

#[test]
fn accumulates_tokens_across_calls() {
    let mut metrics = InferenceMetrics::new();
    for _ in 0..3 {
        metrics.record_success(ProviderKind::Gemini, 10, false, usage(100, 10, 50));
    }
    let text = metrics.render_prometheus(&budgets());
    assert!(text.contains("vidarax_infer_tokens_total{provider=\"gemini\",kind=\"prompt\"} 300"));
    assert!(text.contains("vidarax_infer_tokens_total{provider=\"gemini\",kind=\"thinking\"} 150"));
}

#[test]
fn latencies_are_counted_up_to_each_bound() {
    let mut metrics = InferenceMetrics::new();
    metrics.record_success(ProviderKind::Sglang, 30, true, TokenUsage::none());
    assert_eq!(metrics.sglang.latency_sum_ms, 30);
    assert_eq!(metrics.sglang.fallback_total, 1);
    assert_eq!(metrics.sglang.latency_buckets.iter().sum::<u64>(), 1);
    let text = metrics.render_prometheus(&budgets());
    assert!(text.contains("vidarax_infer_latency_ms_bucket{provider=\"sglang\",le=\"10\"} 0"));
    assert!(text.contains("vidarax_infer_latency_ms_bucket{provider=\"sglang\",le=\"50\"} 1"));
    assert!(text.contains("vidarax_infer_latency_ms_bucket{provider=\"sglang\",le=\"+Inf\"} 1"));
}

#[test]
fn latency_is_high_when_too_few_answers_are_quick() {
    let mut metrics = InferenceMetrics::new();
    for _ in 0..9 {
        metrics.record_error(ProviderKind::Vllm, 30_000);
    }
    assert!(!metrics.is_high_latency());
    metrics.record_error(ProviderKind::Vllm, 30_000);
    assert!(metrics.is_high_latency());
}

#[test]
fn the_metrics_page_holds_its_parts() {
    let page = metrics_page(3, 7, "inference_part 1\n", "pipeline_part 2\n");
    assert!(page.contains(" 3\n"));
    assert!(page.contains(" 7\n"));
    assert!(page.contains("inference_part 1\n"));
    assert!(page.contains("pipeline_part 2\n"));
}

#[test]
fn calls_are_counted_for_their_provider() {
    let mut m = InferenceMetrics::new();
    for _ in 0..18 {
        m.record_error(ProviderKind::Gemini, 5_000);
    }
    m.record_error(ProviderKind::Gemini, 5_001);
    assert!(m.is_high_latency());
    m.record_error(ProviderKind::Gemini, 10);
    assert!(!m.is_high_latency());
    let budgets = ErrorBudgets {
        vllm: String::new(),
        sglang: String::new(),
        gemini: String::new(),
        mlx: String::new(),
    };
    let shown = m.render_prometheus(&budgets);
    for line in [
        "vidarax_infer_latency_ms_bucket{provider=\"gemini\",le=\"10\"} 1\n",
        "vidarax_infer_latency_ms_bucket{provider=\"gemini\",le=\"5000\"} 19\n",
        "vidarax_infer_latency_ms_bucket{provider=\"gemini\",le=\"10000\"} 20\n",
        "vidarax_infer_latency_ms_bucket{provider=\"gemini\",le=\"+Inf\"} 20\n",
        "vidarax_infer_latency_ms_sum{provider=\"gemini\"} 95011\n",
        "vidarax_infer_requests_total{provider=\"gemini\",status=\"error\"} 20\n",
        "vidarax_infer_latency_ms_count{provider=\"mlx\"} 0\n",
    ] {
        assert!(shown.contains(line), "{line}");
    }
}
