//! The parts of photo validation that need no measurement: the outcome of a
//! rule, and the table of rules a five-point face detector cannot check.
//!
//! Rules the detector cannot measure are reported as [`Status::NotChecked`]
//! rather than passing: a green tick beside "mouth closed" would promise
//! something the program never checked.

use vstd::prelude::*;
use crate::text::same_text;
use crate::spec::Severity;

verus! {

/// The outcome of one rule.
#[derive(Debug, Clone, Copy, PartialEq, Eq, Structural)]
pub enum Status {
    Pass,
    Warn,
    Fail,
    /// The criterion exists in the spec but nothing here can measure it.
    NotChecked,
}

/// The i18n key explaining why rule `id` cannot be measured, for the rules a
/// five-point detector cannot see.
///
/// `head_width` is the uncomfortable one: the spec marks it an error, but it
/// is measured ear base to ear base and the detector reports only a bounding
/// box, which is not the width of the skull.
pub open spec fn unmeasurable_reason(id: Seq<char>) -> Option<Seq<char>> {
    if id == "head_width"@ {
        Some("rule.not_checked.head_width"@)
    } else if id == "pose_yaw"@ {
        Some("rule.not_checked.pose_yaw"@)
    } else if id == "pose_pitch"@ {
        Some("rule.not_checked.pose_pitch"@)
    } else if id == "eyes_open"@ {
        Some("rule.not_checked.eyes_open"@)
    } else if id == "mouth_closed"@ {
        Some("rule.not_checked.mouth_closed"@)
    } else if id == "background_shadows"@ {
        Some("rule.not_checked.background_shadows"@)
    } else if id == "glasses_glare"@ {
        Some("rule.not_checked.glasses_glare"@)
    } else if id == "red_eye"@ {
        Some("rule.not_checked.red_eye"@)
    } else if id == "photo_age"@ {
        Some("rule.not_checked.photo_age"@)
    } else {
        None
    }
}

/// Look up why a rule cannot be measured; `None` for a measurable rule.
pub fn not_measurable_key(rule_id: &str) -> (r: Option<&'static str>)
    ensures
        match r {
            Some(k) => unmeasurable_reason(rule_id@) == Some(k@),
            None => unmeasurable_reason(rule_id@) is None,
        },
{
    if same_text(rule_id, "head_width") {
        Some("rule.not_checked.head_width")
    } else if same_text(rule_id, "pose_yaw") {
        Some("rule.not_checked.pose_yaw")
    } else if same_text(rule_id, "pose_pitch") {
        Some("rule.not_checked.pose_pitch")
    } else if same_text(rule_id, "eyes_open") {
        Some("rule.not_checked.eyes_open")
    } else if same_text(rule_id, "mouth_closed") {
        Some("rule.not_checked.mouth_closed")
    } else if same_text(rule_id, "background_shadows") {
        Some("rule.not_checked.background_shadows")
    } else if same_text(rule_id, "glasses_glare") {
        Some("rule.not_checked.glasses_glare")
    } else if same_text(rule_id, "red_eye") {
        Some("rule.not_checked.red_eye")
    } else if same_text(rule_id, "photo_age") {
        Some("rule.not_checked.photo_age")
    } else {
        None
    }
}


/// Which check a rule of a spec calls for.
#[derive(Debug, Clone, Copy, PartialEq, Eq)]
pub enum RuleKind {
    /// Reported as not checked, with the key explaining why.
    NotMeasurable(&'static str),
    HeadHeight,
    EyeDistance,
    HorizontalCenter,
    PoseRoll,
    ResolutionMin,
    BackgroundUniform,
    Sharpness,
    Exposure,
    /// An id nothing here knows; it must not silently pass either.
    Unknown,
}

/// The check a measurable rule `id` gets.
pub open spec fn rule_kind(id: Seq<char>) -> RuleKind {
    if id == "head_height"@ {
        RuleKind::HeadHeight
    } else if id == "eye_distance"@ {
        RuleKind::EyeDistance
    } else if id == "horizontal_center"@ {
        RuleKind::HorizontalCenter
    } else if id == "pose_roll"@ {
        RuleKind::PoseRoll
    } else if id == "resolution_min"@ {
        RuleKind::ResolutionMin
    } else if id == "background_uniform"@ {
        RuleKind::BackgroundUniform
    } else if id == "sharpness"@ {
        RuleKind::Sharpness
    } else if id == "exposure"@ {
        RuleKind::Exposure
    } else {
        RuleKind::Unknown
    }
}

/// Decide which check rule `id` gets. Rules the detector cannot see come
/// first, so a measurable-looking id on that list is still reported as not
/// checked.
pub fn classify_rule(id: &str) -> (k: RuleKind)
    ensures
        unmeasurable_reason(id@) matches Some(reason) ==> k matches RuleKind::NotMeasurable(key)
            && key@ == reason,
        unmeasurable_reason(id@) is None ==> k == rule_kind(id@),
{
    if let Some(key) = not_measurable_key(id) {
        return RuleKind::NotMeasurable(key);
    }
    if same_text(id, "head_height") {
        RuleKind::HeadHeight
    } else if same_text(id, "eye_distance") {
        RuleKind::EyeDistance
    } else if same_text(id, "horizontal_center") {
        RuleKind::HorizontalCenter
    } else if same_text(id, "pose_roll") {
        RuleKind::PoseRoll
    } else if same_text(id, "resolution_min") {
        RuleKind::ResolutionMin
    } else if same_text(id, "background_uniform") {
        RuleKind::BackgroundUniform
    } else if same_text(id, "sharpness") {
        RuleKind::Sharpness
    } else if same_text(id, "exposure") {
        RuleKind::Exposure
    } else {
        RuleKind::Unknown
    }
}

/// Whether a rule failed at error severity, which blocks printing.
pub open spec fn blocks(outcome: (Status, Severity)) -> bool {
    outcome.0 == Status::Fail && outcome.1 == Severity::Error
}

/// True when something failed at error severity. A failed warning, or a
/// rule that could not be checked, never blocks.
pub fn has_blocking_failure(outcomes: &[(Status, Severity)]) -> (r: bool)
    ensures
        r == exists|i: int| 0 <= i < outcomes@.len() && blocks(#[trigger] outcomes@[i]),
        r == exists|i: int|
            0 <= i < outcomes@.len() && (#[trigger] outcomes@[i]).0 == Status::Fail
                && outcomes@[i].1 == Severity::Error,
{
    let mut i: usize = 0;
    while i < outcomes.len()
        invariant
            i <= outcomes@.len(),
            forall|j: int| 0 <= j < i ==> !blocks(#[trigger] outcomes@[j]),
        decreases outcomes@.len() - i,
    {
        let (status, severity) = outcomes[i];
        if status == Status::Fail && severity == Severity::Error {
            assert(blocks(outcomes@[i as int]));
            return true;
        }
        i += 1;
    }
    false
}

/// Only a failure at error severity blocks printing. A list of outcomes
/// blocks exactly when one of them failed at error severity; a warning, a
/// pass or an unchecked rule never blocks, whatever its severity, and a
/// failure at warning severity does not block either.
pub proof fn law_only_an_error_failure_blocks(outcomes: Seq<(Status, Severity)>)
    ensures
        (exists|i: int| 0 <= i < outcomes.len() && blocks(#[trigger] outcomes[i])) <==> (exists|
            i: int,
        |
            0 <= i < outcomes.len() && (#[trigger] outcomes[i]).0 == Status::Fail && outcomes[i].1
                == Severity::Error),
        forall|o: (Status, Severity)| o.0 != Status::Fail ==> !#[trigger] blocks(o),
        forall|o: (Status, Severity)| o.1 != Severity::Error ==> !#[trigger] blocks(o),
        blocks((Status::Fail, Severity::Error)),
        !blocks((Status::Warn, Severity::Error)),
{
    assert((exists|i: int| 0 <= i < outcomes.len() && blocks(#[trigger] outcomes[i])) ==> (exists|
        i: int,
    |
        0 <= i < outcomes.len() && (#[trigger] outcomes[i]).0 == Status::Fail && outcomes[i].1
            == Severity::Error));
}

} // verus!
