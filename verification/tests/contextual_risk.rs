use venom_domain::findings::{
    contextual_risk_level, ActiveFindingProjection, ArtifactKind, ArtifactRef,
    ContextualActiveFindingProjection, ContextualRiskLevel, FindingGovernanceState, FindingRef,
    PackageCoordinate, Severity,
};
use venom_domain::inventory::{
    ContextFactorOrigin, ContextFactorSource, ContextProfileRef, ContextProfileValues,
    EffectiveContextFactorSources, EffectiveContextProfile, ManagedContextProfile,
};

#[test]
fn medium_finding_in_internet_production_context_becomes_critical() {
    let profile = ManagedContextProfile {
        profile_key: "context:internet-prod".into(),
        name: "Internet Production".into(),
        internet_exposed: Some(true),
        production: Some(true),
        mission_critical: Some(true),
        vpn_restricted: None,
        non_privileged_user: None,
    };

    assert_eq!(
        contextual_risk_level(Severity::Medium, Some(&profile.values())),
        ContextualRiskLevel::Critical
    );
}

#[test]
fn medium_finding_in_critical_internal_context_becomes_high() {
    let profile = ManagedContextProfile {
        profile_key: "context:internal-critical".into(),
        name: "Internal Critical".into(),
        internet_exposed: Some(false),
        production: Some(true),
        mission_critical: Some(true),
        vpn_restricted: Some(true),
        non_privileged_user: Some(true),
    };

    assert_eq!(
        contextual_risk_level(Severity::Medium, Some(&profile.values())),
        ContextualRiskLevel::High
    );
}

#[test]
fn high_finding_without_context_stays_high() {
    assert_eq!(
        contextual_risk_level(Severity::High, None),
        ContextualRiskLevel::High
    );
}

#[test]
fn high_finding_in_vpn_restricted_non_privileged_context_becomes_medium() {
    let profile = ManagedContextProfile {
        profile_key: "context:corp-api-private".into(),
        name: "Corporate Private API".into(),
        internet_exposed: None,
        production: None,
        mission_critical: None,
        vpn_restricted: Some(true),
        non_privileged_user: Some(true),
    };

    assert_eq!(
        contextual_risk_level(Severity::High, Some(&profile.values())),
        ContextualRiskLevel::Medium
    );
}

#[test]
fn low_finding_on_public_edge_becomes_medium() {
    let profile = ManagedContextProfile {
        profile_key: "context:public-edge".into(),
        name: "Public Edge".into(),
        internet_exposed: Some(true),
        production: Some(false),
        mission_critical: Some(false),
        vpn_restricted: None,
        non_privileged_user: None,
    };

    assert_eq!(
        contextual_risk_level(Severity::Low, Some(&profile.values())),
        ContextualRiskLevel::Medium
    );
}

fn medium_projection() -> ActiveFindingProjection {
    ActiveFindingProjection {
        finding: FindingRef::new(
            "component:payments-api",
            ArtifactRef::new(
                ArtifactKind::ContainerImage,
                "registry.example/payments@sha256:111",
            ),
            "CVE-2026-0001",
            PackageCoordinate::new("openssl", "3.0.0"),
        ),
        severity: Severity::Medium,
        governance_state: FindingGovernanceState::Open,
        governance_reason: None,
        governance_until_unix_ms: None,
    }
}

#[test]
fn contextual_projection_keeps_context_profile_identity() {
    let projection = medium_projection();
    let profile = ManagedContextProfile {
        profile_key: "context:internet-prod".into(),
        name: "Internet Production".into(),
        internet_exposed: Some(true),
        production: Some(true),
        mission_critical: Some(true),
        vpn_restricted: None,
        non_privileged_user: None,
    };

    let contextual = ContextualActiveFindingProjection::from_active_finding(
        projection,
        Some(EffectiveContextProfile {
            values: profile.values(),
            factor_sources: EffectiveContextFactorSources {
                internet_exposed: Some(ContextFactorOrigin::new(
                    ContextFactorSource::Component,
                    "context:internet-prod",
                )),
                production: Some(ContextFactorOrigin::new(
                    ContextFactorSource::Component,
                    "context:internet-prod",
                )),
                mission_critical: Some(ContextFactorOrigin::new(
                    ContextFactorSource::Component,
                    "context:internet-prod",
                )),
                vpn_restricted: None,
                non_privileged_user: None,
            },
            component_profile: Some(profile.reference()),
            collection_profile: None,
            tag_profiles: Vec::new(),
        }),
    );

    assert_eq!(contextual.contextual_risk, ContextualRiskLevel::Critical);
    assert_eq!(
        contextual.context_profile_key.as_deref(),
        Some("context:internet-prod")
    );
    assert_eq!(
        contextual.context_profile_name.as_deref(),
        Some("Internet Production")
    );
}

#[test]
fn contextual_projection_drops_singular_identity_for_composite_provenance() {
    let projection = medium_projection();

    let contextual = ContextualActiveFindingProjection::from_active_finding(
        projection,
        Some(EffectiveContextProfile {
            values: ContextProfileValues {
                internet_exposed: Some(true),
                production: Some(true),
                mission_critical: Some(true),
                vpn_restricted: None,
                non_privileged_user: None,
            },
            factor_sources: EffectiveContextFactorSources {
                internet_exposed: Some(ContextFactorOrigin::new(
                    ContextFactorSource::Component,
                    "context:payments-edge",
                )),
                production: Some(ContextFactorOrigin::new(
                    ContextFactorSource::Collection,
                    "context:corp-api-baseline",
                )),
                mission_critical: Some(ContextFactorOrigin::new(
                    ContextFactorSource::Collection,
                    "context:corp-api-baseline",
                )),
                vpn_restricted: None,
                non_privileged_user: None,
            },
            component_profile: Some(ContextProfileRef {
                profile_key: "context:payments-edge".into(),
                name: "Payments Edge".into(),
            }),
            collection_profile: Some(ContextProfileRef {
                profile_key: "context:corp-api-baseline".into(),
                name: "Corporate API Baseline".into(),
            }),
            tag_profiles: Vec::new(),
        }),
    );

    assert!(contextual.context_profile_key.is_none());
    assert!(contextual.context_profile_name.is_none());
    assert_eq!(
        contextual
            .component_context_profile
            .as_ref()
            .map(|profile| profile.profile_key.as_str()),
        Some("context:payments-edge")
    );
    assert_eq!(
        contextual
            .collection_context_profile
            .as_ref()
            .map(|profile| profile.profile_key.as_str()),
        Some("context:corp-api-baseline")
    );
    assert_eq!(
        contextual
            .contextual_factor_provenance
            .iter()
            .find(|factor| factor.factor.as_str() == "production:true")
            .map(|factor| (factor.source.as_str(), factor.identity.as_str())),
        Some(("collection", "context:corp-api-baseline"))
    );
}

#[test]
fn projection_without_context_keeps_raw_severity() {
    let contextual = ContextualActiveFindingProjection::from_active_finding(medium_projection(), None);
    assert_eq!(contextual.contextual_risk, ContextualRiskLevel::Medium);
    assert_eq!(contextual.contextual_posture, "unspecified");
    assert_eq!(contextual.contextual_rule, "raw-severity");
    assert!(contextual.contextual_factors.is_empty());
    assert!(contextual.contextual_factor_provenance.is_empty());
    assert!(contextual.context_profile_key.is_none());
    assert!(contextual.tag_context_profiles.is_empty());
}

#[test]
fn factor_labels_posture_and_rule_follow_the_context() {
    let values = ContextProfileValues {
        internet_exposed: Some(false),
        production: None,
        mission_critical: None,
        vpn_restricted: Some(true),
        non_privileged_user: Some(true),
    };
    let contextual = ContextualActiveFindingProjection::from_active_finding(
        medium_projection(),
        Some(EffectiveContextProfile {
            values,
            factor_sources: EffectiveContextFactorSources {
                internet_exposed: None,
                production: None,
                mission_critical: None,
                vpn_restricted: Some(ContextFactorOrigin::new(ContextFactorSource::Tag, "context:vpn")),
                non_privileged_user: Some(ContextFactorOrigin::new(ContextFactorSource::Tag, "context:vpn")),
            },
            component_profile: None,
            collection_profile: None,
            tag_profiles: vec![ContextProfileRef {
                profile_key: "context:vpn".into(),
                name: "VPN".into(),
            }],
        }),
    );
    assert_eq!(contextual.contextual_posture, "hardened-private");
    assert_eq!(contextual.contextual_rule, "mitigated-private-downgrade");
    assert_eq!(contextual.contextual_risk, ContextualRiskLevel::Low);
    assert_eq!(
        contextual.contextual_factors,
        vec![
            "internet-exposed:false".to_string(),
            "vpn-restricted:true".to_string(),
            "non-privileged-user:true".to_string()
        ]
    );
    assert_eq!(contextual.contextual_factor_provenance.len(), 2);
    assert_eq!(contextual.contextual_factor_provenance[0].source, "tag");
    assert_eq!(contextual.context_profile_name.as_deref(), Some("VPN"));
}

#[test]
fn unknown_none_and_critical_ignore_context() {
    let public = ContextProfileValues {
        internet_exposed: Some(true),
        production: Some(true),
        mission_critical: None,
        vpn_restricted: None,
        non_privileged_user: None,
    };
    assert_eq!(contextual_risk_level(Severity::Unknown, Some(&public)), ContextualRiskLevel::Unknown);
    assert_eq!(contextual_risk_level(Severity::NoImpact, Some(&public)), ContextualRiskLevel::NoImpact);
    assert_eq!(contextual_risk_level(Severity::Critical, Some(&public)), ContextualRiskLevel::Critical);
    assert_eq!(contextual_risk_level(Severity::Low, Some(&public)), ContextualRiskLevel::High);
    assert_eq!(ContextualRiskLevel::NoImpact.as_str(), "none");
}
