use jevx::error::JevxError;
use jevx::evaluation::{local_rank_case, summarize_counts, ObservationFacts};
use jevx::ranking::try_rank_candidates;
use jevx::evaluation::{
    local_keyword_prediction, prediction_matches, validate_fixture, EvaluationFixture, FixtureSet,
};
use jevx::stats::percentile;
use jevx::types::SkillRecord;

fn skill(id: &str, description: &str) -> SkillRecord {
    SkillRecord::new(id.to_owned(), description.to_owned(), format!("/{id}/SKILL.md"), "test".to_owned())
}

fn fixture(id: &str) -> EvaluationFixture {
    EvaluationFixture {
        id: id.to_owned(),
        kind: "synthetic".to_owned(),
        prompt: "prompt".to_owned(),
        expected: "none".to_owned(),
        keywords: vec![],
    }
}

#[test]
fn fixture_validation_rejects_missing_fields_and_duplicate_ids() {
    let missing = EvaluationFixture {
        id: String::new(),
        kind: "synthetic".to_owned(),
        prompt: "prompt".to_owned(),
        expected: "none".to_owned(),
        keywords: vec![],
    };
    assert!(validate_fixture(&missing, 3).is_err());
}

#[test]
fn fixture_messages_and_duplicates() {
    let missing = EvaluationFixture { kind: " ".to_owned(), ..fixture("a") };
    match validate_fixture(&missing, 12) {
        Err(JevxError::InvalidInput(message)) => assert_eq!(message, "fixture at line 12 is missing kind"),
        other => panic!("unexpected {other:?}"),
    }
    let mut set = FixtureSet::new();
    assert!(set.finish().is_err());
    assert!(set.accept(&fixture("Case-1"), 1).is_ok());
    match set.accept(&fixture("case-1"), 2) {
        Err(JevxError::InvalidInput(message)) => assert_eq!(message, "duplicate fixture id at line 2: case-1"),
        other => panic!("unexpected {other:?}"),
    }
    assert!(set.accept(&fixture("case-2"), 3).is_ok());
    assert!(set.finish().is_ok());
}

#[test]
fn local_keyword_matching_is_deterministic_and_supports_none() {
    let skills = vec![skill("zeta", "alpha"), skill("alpha", "alpha")];
    assert_eq!(local_keyword_prediction("alpha", &skills).as_deref(), Some("alpha"));
    assert_eq!(local_keyword_prediction("unrelated", &skills), None);
}

#[test]
fn percentile_and_average_handle_empty_and_round_up() {
    assert_eq!(percentile(&[], 50), None);
    assert_eq!(percentile(&[30, 10, 20], 50), Some(20));
    assert_eq!(percentile(&[30, 10, 20], 95), Some(30));
}

#[test]
fn prediction_and_error_codes_cover_all_paths() {
    assert!(prediction_matches(&None, "none"));
    assert!(!prediction_matches(&None, "pdf"));
    assert!(prediction_matches(&Some("PDF".to_owned()), "pdf"));
    assert!(!prediction_matches(&Some("pdf".to_owned()), "none"));
    let errors = [
        JevxError::InvalidInput("x".to_owned()),
        JevxError::MissingApiKey,
        JevxError::Provider("x".to_owned()),
        JevxError::Timeout,
        JevxError::Io(std::io::Error::other("x")),
        JevxError::Json(serde_json::from_str::<serde_json::Value>("{").expect_err("json")),
        JevxError::Yaml(serde_yaml::from_str::<serde_yaml::Value>("[").expect_err("yaml")),
    ];
    assert_eq!(errors.iter().map(|e| e.code()).count(), 7);
    let codes = errors.iter().map(|e| e.code()).collect::<Vec<_>>();
    assert_eq!(codes, vec!["invalid_input", "missing_api_key", "provider_error", "timeout", "io_error", "json_error", "yaml_error"]);
    assert_eq!(errors.iter().map(|e| e.exit_code()).collect::<Vec<_>>(), vec![2, 2, 3, 3, 2, 2, 2]);
}

#[test]
fn mode_counts_follow_expected_answers() {
    let obs = |prediction: Option<&str>, miss: bool, error: bool, retries: u32| ObservationFacts {
        prediction: prediction.map(str::to_owned),
        candidate_miss: miss,
        error,
        fallback: error,
        cache_hit: false,
        retries,
    };
    let expected = vec!["pdf".to_owned(), "None".to_owned(), "docx".to_owned()];
    let observations = vec![obs(Some("PDF"), false, false, 1), obs(None, false, false, 0), obs(None, true, true, 0)];
    let counts = summarize_counts(&expected, &observations, true);
    assert_eq!(counts.cases, 3);
    assert_eq!(counts.correct, 2);
    assert_eq!(counts.expected_none, 1);
    assert_eq!(counts.none_correct, 1);
    assert_eq!(counts.positive_expected, 2);
    assert_eq!(counts.candidate_misses, 1);
    assert_eq!(counts.errors, 1);
    assert_eq!(counts.fallbacks, 1);
    assert_eq!(counts.retry_cases, 1);
    assert_eq!(summarize_counts(&expected, &observations, false).candidate_misses, 0);
}

#[test]
fn mode_counts_pair_answers_with_observations_as_far_as_both_go() {
    let obs = |prediction: Option<&str>, error: bool| ObservationFacts {
        prediction: prediction.map(str::to_owned),
        candidate_miss: false,
        error,
        fallback: false,
        cache_hit: false,
        retries: 0,
    };
    let expected = vec!["pdf".to_owned(), "none".to_owned(), "docx".to_owned()];
    let fewer = summarize_counts(&expected, &vec![obs(Some("pdf"), true)], true);
    assert_eq!(fewer.cases, 3);
    assert_eq!(fewer.correct, 1);
    assert_eq!(fewer.expected_none, 1);
    assert_eq!(fewer.none_correct, 0);
    assert_eq!(fewer.positive_expected, 2);
    assert_eq!(fewer.errors, 1);
    let more = summarize_counts(&vec!["none".to_owned()], &vec![obs(None, false), obs(None, true)], true);
    assert_eq!(more.cases, 1);
    assert_eq!(more.none_correct, 1);
    assert_eq!(more.errors, 1);
}

#[test]
fn local_rank_case_predicts_a_positive_top_candidate_and_reports_misses() {
    let skills = vec![skill("review", "review code changes"), skill("deploy", "deploy the service")];
    let ranking = try_rank_candidates("please review my code", &skills, 32).expect("ranking");
    let case = local_rank_case(&ranking, "Review");
    assert_eq!(case.prediction.as_deref(), Some("review"));
    assert_eq!(case.candidate_count, 2);
    assert!(!case.candidate_miss);
    let truncated = try_rank_candidates("please review my code", &skills, 1).expect("ranking");
    assert!(local_rank_case(&truncated, "deploy").candidate_miss);
    assert!(!local_rank_case(&truncated, "NONE").candidate_miss);
    let unrelated = try_rank_candidates("zzz", &skills, 32).expect("ranking");
    assert_eq!(local_rank_case(&unrelated, "none").prediction, None);
}
