use venom_domain::findings::{
    AcceptRiskChange, ArtifactKind, ArtifactRef, FindingGovernance, FindingGovernanceState,
    FindingRef, PackageCoordinate, RiskAcceptance, SuppressFindingChange, Suppression,
};

fn finding() -> FindingRef {
    FindingRef::new(
        "component:payments-api",
        ArtifactRef::new(
            ArtifactKind::ContainerImage,
            "registry.example/payments@sha256:111",
        ),
        "CVE-2026-0001",
        PackageCoordinate::new("openssl", "3.0.0"),
    )
}

#[test]
fn accepting_risk_persists_one_decision() {
    let mut governance = FindingGovernance::new();

    let result = governance.accept_risk(
        finding(),
        RiskAcceptance::new("Compensating control in place").until_unix_ms(1_760_000_000_000),
    );

    assert_eq!(result.change, AcceptRiskChange::Accepted);
    assert!(governance.decision(&finding()).is_some());
}

#[test]
fn identical_risk_acceptance_is_idempotent() {
    let mut governance = FindingGovernance::new();
    let acceptance = RiskAcceptance::new("Compensating control in place");

    let first = governance.accept_risk(finding(), acceptance.clone());
    let second = governance.accept_risk(finding(), acceptance);

    assert_eq!(first.change, AcceptRiskChange::Accepted);
    assert_eq!(second.change, AcceptRiskChange::Unchanged);
}

#[test]
fn suppressing_one_finding_persists_one_decision() {
    let mut governance = FindingGovernance::new();

    let result = governance.suppress(finding(), Suppression::new("Known upstream false alarm"));

    assert_eq!(result.change, SuppressFindingChange::Suppressed);
    assert!(governance.decision(&finding()).is_some());
}

#[test]
fn decisions_expose_state_reason_and_expiry() {
    let mut governance = FindingGovernance::new();
    assert!(governance.decision(&finding()).is_none());
    let _ = governance.accept_risk(
        finding(),
        RiskAcceptance::new("Compensating control in place").until_unix_ms(42),
    );
    let decision = governance.decision(&finding()).expect("decision");
    assert_eq!(decision.state(), FindingGovernanceState::RiskAccepted);
    assert_eq!(decision.reason(), Some("Compensating control in place"));
    assert_eq!(decision.until_unix_ms(), Some(42));
    assert!(decision.risk_acceptance().is_some());
    assert!(decision.suppression().is_none());

    let result = governance.suppress(finding(), Suppression::new("false alarm"));
    assert_eq!(result.change, SuppressFindingChange::Suppressed);
    let decision = governance.decision(&finding()).expect("decision");
    assert_eq!(decision.state(), FindingGovernanceState::Suppressed);
    assert_eq!(decision.until_unix_ms(), None);
    let again = governance.suppress(finding(), Suppression::new("false alarm"));
    assert_eq!(again.change, SuppressFindingChange::Unchanged);
}

#[test]
fn governance_names_are_stable() {
    assert_eq!(FindingGovernanceState::Open.as_str(), "open");
    assert_eq!(FindingGovernanceState::RiskAccepted.as_str(), "risk-accepted");
    assert_eq!(FindingGovernanceState::Suppressed.as_str(), "suppressed");
    assert_eq!(AcceptRiskChange::Accepted.as_str(), "accepted");
    assert_eq!(AcceptRiskChange::Unchanged.as_str(), "unchanged");
    assert_eq!(SuppressFindingChange::Suppressed.as_str(), "suppressed");
    assert_eq!(SuppressFindingChange::Unchanged.as_str(), "unchanged");
}
