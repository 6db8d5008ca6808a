use jevx::route::{
    difficulty_of_level, parse_model, parse_reasoning, route_evidence_from_payload, route_for,
    ModelFamily, ReasoningLevel, RouteEvidence, RoutePlan, RouteStatus, TaskDifficulty,
};

#[test]
fn difficulty_maps_to_requested_model_and_escalation_chain() {
    let low = RoutePlan::planned(difficulty_of_level(0), true, "accepted");
    assert_eq!(low.model, Some(ModelFamily::Luna));
    assert_eq!(low.reasoning, Some(ReasoningLevel::Max));
    assert_eq!(low.fallback_chain, vec![ModelFamily::Luna, ModelFamily::Terra, ModelFamily::Sol]);
    let medium = RoutePlan::planned(difficulty_of_level(1), true, "accepted");
    assert_eq!(medium.model, Some(ModelFamily::Terra));
    assert_eq!(medium.reasoning, Some(ReasoningLevel::High));
    let high = RoutePlan::planned(difficulty_of_level(2), true, "accepted");
    assert_eq!(high.model, Some(ModelFamily::Sol));
    assert_eq!(high.reasoning, Some(ReasoningLevel::Medium));
    assert_eq!(high.status, RouteStatus::Degraded);
    assert_eq!(high.reason, "hook_cannot_apply_model_route");
}

#[test]
fn application_is_applied_only_when_model_and_reasoning_match() {
    let decision = RoutePlan::planned(TaskDifficulty::Low, true, "accepted");
    let applied = decision.clone().with_application(Some(RouteEvidence {
        model: Some(ModelFamily::Luna),
        reasoning: Some(ReasoningLevel::Max),
    }));
    assert_eq!(applied.status, RouteStatus::Applied);
    assert_eq!(applied.reason, "route_applied_with_hook_evidence");
    let failed = decision.clone().with_application(Some(RouteEvidence {
        model: Some(ModelFamily::Sol),
        reasoning: Some(ReasoningLevel::Medium),
    }));
    assert_eq!(failed.status, RouteStatus::Failed);
    assert_eq!(failed.reason, "route_application_mismatch");
    assert_eq!(decision.clone().with_application(None), decision);
}

#[test]
fn malformed_or_unapplied_routes_are_explicit() {
    assert_eq!(difficulty_of_level(3), TaskDifficulty::Unknown);
    assert_eq!(difficulty_of_level(-1), TaskDifficulty::Unknown);
    assert_eq!(route_for(TaskDifficulty::Unknown).2, Vec::<ModelFamily>::new());
    assert_eq!(parse_model("gpt-5.6-terra"), Some(ModelFamily::Terra));
    assert_eq!(parse_model("LUNA"), Some(ModelFamily::Luna));
    assert_eq!(parse_model("sol"), Some(ModelFamily::Sol));
    assert_eq!(parse_model("  Sol \n"), Some(ModelFamily::Sol));
    assert_eq!(parse_model("unknown"), None);
    assert_eq!(parse_reasoning("med"), Some(ReasoningLevel::Medium));
    assert_eq!(parse_reasoning("MAX"), Some(ReasoningLevel::Max));
    assert_eq!(parse_reasoning("high"), Some(ReasoningLevel::High));
    assert_eq!(parse_reasoning("unknown"), None);
    assert!(route_evidence_from_payload(None, None).is_none());
    assert!(route_evidence_from_payload(Some("unknown"), Some("unknown")).is_none());
    let failed = RoutePlan::failed("timeout");
    assert_eq!(failed.status, RouteStatus::Failed);
    assert!(failed.model.is_none());
    assert_eq!(failed.reason, "timeout");
    let deferred = RoutePlan::planned(TaskDifficulty::Medium, false, "confidence_below_threshold");
    assert_eq!(deferred.status, RouteStatus::Failed);
    assert_eq!(deferred.reason, "confidence_below_threshold");
}

#[test]
fn route_predicate_helpers_cover_answer_evidence() {
    let route = RoutePlan::planned(difficulty_of_level(1), true, "accepted")
        .with_application(route_evidence_from_payload(Some("terra"), Some("high")));
    assert_eq!(route.status, RouteStatus::Applied);
    assert_eq!(route.model, Some(ModelFamily::Terra));
    let partial = route_evidence_from_payload(Some("sol"), Some("bogus")).unwrap();
    assert_eq!(partial.model, Some(ModelFamily::Sol));
    assert_eq!(partial.reasoning, None);
}
