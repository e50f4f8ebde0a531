use its_hub_rs::orchestrator::LMOrchestrator;

#[test]
fn test_orchestrator_creation() {
    let orch = LMOrchestrator::new(32);
    assert_eq!(orch.max_concurrency(), 32);
    assert!(orch.semaphore.is_some());
}

#[test]
fn test_orchestrator_unlimited() {
    let orch = LMOrchestrator::new(0);
    assert_eq!(orch.max_concurrency(), 0);
    assert!(orch.semaphore.is_none());
}

#[test]
fn test_orchestrator_default() {
    let orch = LMOrchestrator::default();
    assert_eq!(orch.max_concurrency(), 32);
}
