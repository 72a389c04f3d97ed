use bowbend_core::{
    get_all_rules, IpAddress, PortTestPlan, PortToAnalyze, RuleId, RuleLoudness, TargetInstance,
};

fn port_to_analyze(port: u16) -> PortToAnalyze {
    PortToAnalyze::new(None, TargetInstance::IP(IpAddress::V4(0x0a000001)), port)
}

#[test]
fn rules_have_stable_distinct_ids() {
    let rules = get_all_rules();
    assert_eq!(rules.len(), 3);
    for j in 0..rules.len() {
        for k in (j + 1)..rules.len() {
            assert_ne!(rules[j].id, rules[k].id);
        }
    }
    assert!(matches!(rules[0].loudness, RuleLoudness::Standard));
    assert!(matches!(rules[2].loudness, RuleLoudness::Silent));
}

#[test]
fn plan_on_port_80_stages_rules_by_dependency() {
    let rules = get_all_rules();
    let ssl_id = rules[0].id;
    let http_id = rules[1].id;
    let nginx_id = rules[2].id;

    // Stage one: only the dependency-free TLS probe runs.
    let plan = PortTestPlan::new(port_to_analyze(80), get_all_rules());
    assert!(plan.has_actions_to_run());
    assert_eq!(plan.rules_to_run().len(), 1);
    assert_eq!(plan.rules_to_run()[0].id, ssl_id);

    // Stage two: its success unblocks the HTTP probe.
    let plan = plan.build_next_stage_plan(vec![ssl_id]);
    assert!(plan.has_actions_to_run());
    assert_eq!(plan.rules_to_run().len(), 1);
    assert_eq!(plan.rules_to_run()[0].id, http_id);

    // Stage three: the HTTP probe's success unblocks the nginx detector.
    let plan = plan.build_next_stage_plan(vec![http_id]);
    assert!(plan.has_actions_to_run());
    assert_eq!(plan.rules_to_run().len(), 1);
    assert_eq!(plan.rules_to_run()[0].id, nginx_id);

    // Stage four: nothing is left.
    let plan = plan.build_next_stage_plan(vec![nginx_id]);
    assert!(!plan.has_actions_to_run());
}

#[test]
fn failed_dependency_prunes_dependents() {
    let rules = get_all_rules();
    let ssl_id = rules[0].id;

    let plan = PortTestPlan::new(port_to_analyze(80), get_all_rules());
    assert_eq!(plan.rules_to_run().len(), 1);
    // The TLS probe failed: nothing is reported as succeeded, so the HTTP
    // probe and everything behind it silently never runs.
    let plan = plan.build_next_stage_plan(vec![]);
    assert!(!plan.has_actions_to_run());
    let _ = ssl_id;
}

#[test]
fn plan_filters_rules_whose_hints_miss_the_port() {
    // Port 1337 is covered by the any-port hints (TLS probe, nginx
    // detector) but not by the HTTP probe's hints; once the TLS probe is
    // done, the nginx detector stays blocked on the absent HTTP probe.
    let rules = get_all_rules();
    let ssl_id = rules[0].id;
    let plan = PortTestPlan::new(port_to_analyze(1337), get_all_rules());
    assert_eq!(plan.rules_to_run().len(), 1);
    assert_eq!(plan.rules_to_run()[0].id, ssl_id);
    let plan = plan.build_next_stage_plan(vec![ssl_id]);
    assert!(!plan.has_actions_to_run());
}

#[test]
fn rule_id_equality_follows_the_value() {
    assert_eq!(RuleId::new(41), RuleId::new(41));
    assert_ne!(RuleId::new(41), RuleId::new(42));
}
