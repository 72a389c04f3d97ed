use bowbend_core::{
    BasicHttpGetProbeResult, BasicSSLProbeResult, NginxDetectionRuleResult, RuleOutcome,
    RuleResults, ServiceDetectionCertainty, ServiceDetectionConclusion,
};

#[test]
fn test_insert_and_collect_results() {
    let result = RuleOutcome::Nginx(NginxDetectionRuleResult {
        conclusion: Some(ServiceDetectionConclusion {
            certainty: ServiceDetectionCertainty::Advertised,
            service_name: String::from("test"),
            service_version: None,
        }),
    });
    let id = result.get_rule_id();
    let mut results = RuleResults::new();
    results.insert_result(result);
    let fetched = results.get_results(id);
    assert_eq!(fetched.get_rule_id(), id);
    assert_eq!(results.get_conclusion().len(), 1);
}

#[test]
fn conclusions_skip_rules_that_conclude_nothing() {
    let mut results = RuleResults::new();
    results.insert_result(RuleOutcome::Ssl(BasicSSLProbeResult { ssl_enabled: true }));
    results.insert_result(RuleOutcome::Http(BasicHttpGetProbeResult {
        status_code: 200,
        headers: vec![],
    }));
    results.insert_result(RuleOutcome::Nginx(NginxDetectionRuleResult { conclusion: None }));
    assert!(results.get_conclusion().is_empty());
}

#[test]
fn typed_retrieval_finds_the_dependency_result() {
    let mut results = RuleResults::new();
    results.insert_result(RuleOutcome::Ssl(BasicSSLProbeResult { ssl_enabled: true }));
    let ssl_id = RuleOutcome::Ssl(BasicSSLProbeResult { ssl_enabled: false }).get_rule_id();
    match results.get_results(ssl_id) {
        RuleOutcome::Ssl(ssl) => assert!(ssl.ssl_enabled),
        other => panic!("wrong payload {:?}", other),
    }
}
