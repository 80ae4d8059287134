use vidarax_api::models::SamplingPolicy;

#[test]
fn sampling_policy_parses_adaptive_aliases() {
    assert_eq!(
        SamplingPolicy::parse(Some("source_fps_adaptive")),
        Ok(SamplingPolicy::SourceFpsAdaptive)
    );
    assert_eq!(
        SamplingPolicy::parse(Some("adaptive")),
        Ok(SamplingPolicy::SourceFpsAdaptive)
    );
}

#[test]
fn sampling_policy_parses_fixed() {
    assert_eq!(
        SamplingPolicy::parse(Some("fixed")),
        Ok(SamplingPolicy::Fixed)
    );
}

#[test]
fn sampling_policy_defaults_to_adaptive_when_none() {
    assert_eq!(
        SamplingPolicy::parse(None),
        Ok(SamplingPolicy::SourceFpsAdaptive)
    );
}

#[test]
fn sampling_policy_rejects_unknown_value() {
    let result = SamplingPolicy::parse(Some("random"));
    assert!(result.is_err());
}
