use doc_photos::rules::{classify_rule, has_blocking_failure, not_measurable_key, RuleKind, Status};
use doc_photos::spec::Severity;

#[test]
fn unmeasurable_rules_are_reported_with_their_reason() {
    assert_eq!(not_measurable_key("head_width"), Some("rule.not_checked.head_width"));
    assert_eq!(not_measurable_key("photo_age"), Some("rule.not_checked.photo_age"));
    assert_eq!(not_measurable_key("head_height"), None);
    assert_eq!(classify_rule("mouth_closed"), RuleKind::NotMeasurable("rule.not_checked.mouth_closed"));
}

#[test]
fn measurable_rules_get_their_check_and_unknown_ones_are_flagged() {
    assert_eq!(classify_rule("head_height"), RuleKind::HeadHeight);
    assert_eq!(classify_rule("eye_distance"), RuleKind::EyeDistance);
    assert_eq!(classify_rule("horizontal_center"), RuleKind::HorizontalCenter);
    assert_eq!(classify_rule("pose_roll"), RuleKind::PoseRoll);
    assert_eq!(classify_rule("resolution_min"), RuleKind::ResolutionMin);
    assert_eq!(classify_rule("background_uniform"), RuleKind::BackgroundUniform);
    assert_eq!(classify_rule("sharpness"), RuleKind::Sharpness);
    assert_eq!(classify_rule("exposure"), RuleKind::Exposure);
    assert_eq!(classify_rule("shoe_size"), RuleKind::Unknown);
}

#[test]
fn only_error_severity_failures_block_printing() {
    let warn_only = [(Status::Fail, Severity::Warning), (Status::Pass, Severity::Error)];
    assert!(!has_blocking_failure(&warn_only), "a warning must not block");
    let not_checked = [(Status::NotChecked, Severity::Error)];
    assert!(!has_blocking_failure(&not_checked));
    let failed = [(Status::Pass, Severity::Error), (Status::Fail, Severity::Error)];
    assert!(has_blocking_failure(&failed), "a failed error rule must block");
    assert!(!has_blocking_failure(&[]));
}
