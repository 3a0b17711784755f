use zeroclaw::approval::ApprovalDecision;
use zeroclaw::{ApprovalManager, AutonomyLevel, SecurityPolicy};

#[test]
fn record_action_allows_exactly_the_budget_in_one_window() {
    let mut policy = SecurityPolicy::new(AutonomyLevel::Supervised, Some(3), 1000);
    let results: Vec<bool> = (0..5).map(|i| policy.record_action(1000 + i)).collect();
    assert_eq!(results, vec![true, true, true, false, false]);
    assert_eq!(policy.actions_in_window(), 3);
}

#[test]
fn zero_budget_never_records() {
    let mut policy = SecurityPolicy::new(AutonomyLevel::Full, Some(0), 0);
    assert!(!policy.record_action(0));
    assert!(!policy.record_action(10_000));
    assert_eq!(policy.actions_in_window(), 0);
}

#[test]
fn unlimited_budget_always_records() {
    let mut policy = SecurityPolicy::new(AutonomyLevel::Full, None, 0);
    for t in 0..100 {
        assert!(policy.record_action(t));
    }
    assert_eq!(policy.actions_in_window(), 100);
}

#[test]
fn new_window_restores_budget() {
    let mut policy = SecurityPolicy::new(AutonomyLevel::Supervised, Some(1), 100);
    assert!(policy.record_action(100));
    assert!(!policy.record_action(3699));
    assert!(policy.record_action(3700));
    assert_eq!(policy.window_start, 3700);
}

#[test]
fn can_act_only_outside_read_only() {
    assert!(!SecurityPolicy::new(AutonomyLevel::ReadOnly, None, 0).can_act());
    assert!(SecurityPolicy::new(AutonomyLevel::Supervised, None, 0).can_act());
    assert!(SecurityPolicy::new(AutonomyLevel::Full, None, 0).can_act());
}

#[test]
fn default_policy_values() {
    let p = SecurityPolicy::default();
    assert_eq!(p.autonomy, AutonomyLevel::Supervised);
    assert_eq!(p.max_actions_per_hour, Some(20));
    assert_eq!(p.actions_in_window(), 0);
}

#[test]
fn approval_decisions_by_level() {
    let sensitive = vec!["shell".to_string()];
    let full = ApprovalManager::from_config(AutonomyLevel::Full, sensitive.clone());
    assert_eq!(full.decide("shell", None), ApprovalDecision::NotRequired);
    assert!(!full.needs_approval("shell"));

    let sup = ApprovalManager::from_config(AutonomyLevel::Supervised, sensitive.clone());
    assert!(sup.needs_approval("shell"));
    assert!(!sup.needs_approval("browser_open"));
    assert_eq!(sup.decide("browser_open", None), ApprovalDecision::NotRequired);
    assert_eq!(sup.decide("shell", Some(true)), ApprovalDecision::Approved);
    assert_eq!(sup.decide("shell", Some(false)), ApprovalDecision::Denied);
    assert_eq!(sup.decide("shell", None), ApprovalDecision::Denied);

    let ro = ApprovalManager::from_config(AutonomyLevel::ReadOnly, sensitive);
    assert_eq!(ro.decide("browser_open", Some(true)), ApprovalDecision::Denied);
}
