//! Contextual risk: a deterministic reading of a finding's severity in the
//! execution context of the component that carries it.

use crate::findings::finding_governance::{FindingGovernanceState, FindingRef};
use crate::findings::finding_provider::Severity;
use crate::findings::finding_read_model::ActiveFindingProjection;
use crate::inventory::context_profile::{
    singular_profile_of, ContextFactorOrigin, ContextFactorSource, ContextProfileRef,
    ContextProfileValues, EffectiveContextProfile,
};
use crate::order::{opt_text, owned, texts};
use vstd::prelude::*;

verus! {

/// The exposure posture that a set of context factors describes.
#[derive(Debug, Clone, Copy, PartialEq, Eq, Structural)]
pub enum ContextualPosture {
    Unspecified,
    InternalRestricted,
    HardenedPrivate,
    ProductionService,
    CriticalInternal,
    PublicEdge,
    PublicCritical,
}

/// The operator-facing name of a posture.
pub open spec fn posture_name(p: ContextualPosture) -> Seq<char> {
    match p {
        ContextualPosture::Unspecified => "unspecified"@,
        ContextualPosture::InternalRestricted => "internal-restricted"@,
        ContextualPosture::HardenedPrivate => "hardened-private"@,
        ContextualPosture::ProductionService => "production-service"@,
        ContextualPosture::CriticalInternal => "critical-internal"@,
        ContextualPosture::PublicEdge => "public-edge"@,
        ContextualPosture::PublicCritical => "public-critical"@,
    }
}

impl ContextualPosture {
    pub fn as_str(self) -> (r: &'static str)
        ensures
            r@ == posture_name(self),
    {
        match self {
            Self::Unspecified => "unspecified",
            Self::InternalRestricted => "internal-restricted",
            Self::HardenedPrivate => "hardened-private",
            Self::ProductionService => "production-service",
            Self::CriticalInternal => "critical-internal",
            Self::PublicEdge => "public-edge",
            Self::PublicCritical => "public-critical",
        }
    }
}

/// An unset factor counts as false.
pub open spec fn factor_set(o: Option<bool>) -> bool {
    o == Some(true)
}

/// The posture of a context: internet exposure dominates, then business
/// criticality, then access restrictions; unset factors count as false.
pub open spec fn posture_of(v: ContextProfileValues) -> ContextualPosture {
    let internet = factor_set(v.internet_exposed);
    let production = factor_set(v.production);
    let critical = factor_set(v.mission_critical);
    let vpn = factor_set(v.vpn_restricted);
    let unprivileged = factor_set(v.non_privileged_user);
    if internet && (production || critical) {
        ContextualPosture::PublicCritical
    } else if internet {
        ContextualPosture::PublicEdge
    } else if production && critical {
        ContextualPosture::CriticalInternal
    } else if production || critical {
        ContextualPosture::ProductionService
    } else if vpn && unprivileged {
        ContextualPosture::HardenedPrivate
    } else if vpn || unprivileged {
        ContextualPosture::InternalRestricted
    } else {
        ContextualPosture::Unspecified
    }
}

fn flag(o: Option<bool>) -> (r: bool)
    ensures
        r == factor_set(o),
{
    match o {
        Some(b) => b,
        None => false,
    }
}

fn contextual_posture(v: ContextProfileValues) -> (r: ContextualPosture)
    ensures
        r == posture_of(v),
{
    let internet = flag(v.internet_exposed);
    let production = flag(v.production);
    let critical = flag(v.mission_critical);
    let vpn = flag(v.vpn_restricted);
    let unprivileged = flag(v.non_privileged_user);
    if internet && (production || critical) {
        ContextualPosture::PublicCritical
    } else if internet {
        ContextualPosture::PublicEdge
    } else if production && critical {
        ContextualPosture::CriticalInternal
    } else if production || critical {
        ContextualPosture::ProductionService
    } else if vpn && unprivileged {
        ContextualPosture::HardenedPrivate
    } else if vpn || unprivileged {
        ContextualPosture::InternalRestricted
    } else {
        ContextualPosture::Unspecified
    }
}

/// Deterministic operator-facing risk level after execution context is applied.
#[derive(Debug, Clone, Copy, PartialEq, Eq, Structural, PartialOrd, Ord)]
pub enum ContextualRiskLevel {
    Unknown,
    /// The provider reported no severity or no impact.
    NoImpact,
    Low,
    Medium,
    High,
    Critical,
}

impl ContextualRiskLevel {
    pub fn as_str(self) -> (r: &'static str)
        ensures
            r@ == (match self {
                Self::Unknown => "unknown"@,
                Self::NoImpact => "none"@,
                Self::Low => "low"@,
                Self::Medium => "medium"@,
                Self::High => "high"@,
                Self::Critical => "critical"@,
            }),
    {
        match self {
            Self::Unknown => "unknown",
            Self::NoImpact => "none",
            Self::Low => "low",
            Self::Medium => "medium",
            Self::High => "high",
            Self::Critical => "critical",
        }
    }
}

/// The risk level that a severity has without context.
pub open spec fn raw_level(s: Severity) -> ContextualRiskLevel {
    match s {
        Severity::Unknown => ContextualRiskLevel::Unknown,
        Severity::NoImpact => ContextualRiskLevel::NoImpact,
        Severity::Low => ContextualRiskLevel::Low,
        Severity::Medium => ContextualRiskLevel::Medium,
        Severity::High => ContextualRiskLevel::High,
        Severity::Critical => ContextualRiskLevel::Critical,
    }
}

/// The contextual risk level: unknown, none and critical severities keep
/// their level; high, medium and low move with the posture.
pub open spec fn risk_level(s: Severity, ctx: Option<ContextProfileValues>) -> ContextualRiskLevel {
    match ctx {
        None => raw_level(s),
        Some(v) => {
            let p = posture_of(v);
            match s {
                Severity::High => match p {
                    ContextualPosture::HardenedPrivate => ContextualRiskLevel::Medium,
                    ContextualPosture::PublicEdge | ContextualPosture::PublicCritical
                    | ContextualPosture::CriticalInternal => ContextualRiskLevel::Critical,
                    _ => ContextualRiskLevel::High,
                },
                Severity::Medium => match p {
                    ContextualPosture::HardenedPrivate => ContextualRiskLevel::Low,
                    ContextualPosture::PublicCritical => ContextualRiskLevel::Critical,
                    ContextualPosture::PublicEdge | ContextualPosture::ProductionService
                    | ContextualPosture::CriticalInternal => ContextualRiskLevel::High,
                    _ => ContextualRiskLevel::Medium,
                },
                Severity::Low => match p {
                    ContextualPosture::PublicCritical => ContextualRiskLevel::High,
                    ContextualPosture::PublicEdge | ContextualPosture::ProductionService
                    | ContextualPosture::CriticalInternal => ContextualRiskLevel::Medium,
                    _ => ContextualRiskLevel::Low,
                },
                _ => raw_level(s),
            }
        },
    }
}

/// The name of the rule that produced the contextual risk level.
pub open spec fn risk_rule(s: Severity, ctx: Option<ContextProfileValues>) -> Seq<char> {
    match ctx {
        None => "raw-severity"@,
        Some(v) => {
            let p = posture_of(v);
            match s {
                Severity::High => match p {
                    ContextualPosture::HardenedPrivate => "mitigated-private-downgrade"@,
                    ContextualPosture::PublicEdge | ContextualPosture::PublicCritical
                    | ContextualPosture::CriticalInternal => "critical-surface-escalation"@,
                    _ => "high-baseline"@,
                },
                Severity::Medium => match p {
                    ContextualPosture::HardenedPrivate => "mitigated-private-downgrade"@,
                    ContextualPosture::PublicCritical => "public-critical-escalation"@,
                    ContextualPosture::PublicEdge | ContextualPosture::ProductionService
                    | ContextualPosture::CriticalInternal => "service-surface-escalation"@,
                    _ => "medium-baseline"@,
                },
                Severity::Low => match p {
                    ContextualPosture::PublicCritical => "public-critical-escalation"@,
                    ContextualPosture::PublicEdge | ContextualPosture::ProductionService
                    | ContextualPosture::CriticalInternal => "service-surface-escalation"@,
                    _ => "low-baseline"@,
                },
                _ => "raw-severity"@,
            }
        },
    }
}

/// The values of an optional context.
pub open spec fn context_values(ctx: Option<&ContextProfileValues>) -> Option<ContextProfileValues> {
    match ctx {
        Some(v) => Some(*v),
        None => None,
    }
}

/// Risk level of a finding of the given severity in an optional context.
pub fn contextual_risk_level(severity: Severity, context_profile: Option<&ContextProfileValues>) -> (r:
    ContextualRiskLevel)
    ensures
        r == risk_level(severity, context_values(context_profile)),
{
    let v = match context_profile {
        None => {
            return match severity {
                Severity::Unknown => ContextualRiskLevel::Unknown,
                Severity::NoImpact => ContextualRiskLevel::NoImpact,
                Severity::Low => ContextualRiskLevel::Low,
                Severity::Medium => ContextualRiskLevel::Medium,
                Severity::High => ContextualRiskLevel::High,
                Severity::Critical => ContextualRiskLevel::Critical,
            };
        },
        Some(v) => *v,
    };
    let posture = contextual_posture(v);
    match severity {
        Severity::Unknown => ContextualRiskLevel::Unknown,
        Severity::NoImpact => ContextualRiskLevel::NoImpact,
        Severity::Critical => ContextualRiskLevel::Critical,
        Severity::High => match posture {
            ContextualPosture::HardenedPrivate => ContextualRiskLevel::Medium,
            ContextualPosture::PublicEdge | ContextualPosture::PublicCritical
            | ContextualPosture::CriticalInternal => ContextualRiskLevel::Critical,
            ContextualPosture::Unspecified | ContextualPosture::InternalRestricted
            | ContextualPosture::ProductionService => ContextualRiskLevel::High,
        },
        Severity::Medium => match posture {
            ContextualPosture::HardenedPrivate => ContextualRiskLevel::Low,
            ContextualPosture::PublicCritical => ContextualRiskLevel::Critical,
            ContextualPosture::PublicEdge | ContextualPosture::ProductionService
            | ContextualPosture::CriticalInternal => ContextualRiskLevel::High,
            ContextualPosture::Unspecified
            | ContextualPosture::InternalRestricted => ContextualRiskLevel::Medium,
        },
        Severity::Low => match posture {
            ContextualPosture::PublicCritical => ContextualRiskLevel::High,
            ContextualPosture::PublicEdge | ContextualPosture::ProductionService
            | ContextualPosture::CriticalInternal => ContextualRiskLevel::Medium,
            ContextualPosture::Unspecified | ContextualPosture::InternalRestricted
            | ContextualPosture::HardenedPrivate => ContextualRiskLevel::Low,
        },
    }
}

fn contextual_risk_rule(severity: Severity, context_profile: Option<&ContextProfileValues>) -> (r:
    &'static str)
    ensures
        r@ == risk_rule(severity, context_values(context_profile)),
{
    let v = match context_profile {
        None => {
            return "raw-severity";
        },
        Some(v) => *v,
    };
    let posture = contextual_posture(v);
    match severity {
        Severity::Unknown | Severity::NoImpact | Severity::Critical => "raw-severity",
        Severity::High => match posture {
            ContextualPosture::HardenedPrivate => "mitigated-private-downgrade",
            ContextualPosture::PublicEdge | ContextualPosture::PublicCritical
            | ContextualPosture::CriticalInternal => "critical-surface-escalation",
            ContextualPosture::Unspecified | ContextualPosture::InternalRestricted
            | ContextualPosture::ProductionService => "high-baseline",
        },
        Severity::Medium => match posture {
            ContextualPosture::HardenedPrivate => "mitigated-private-downgrade",
            ContextualPosture::PublicCritical => "public-critical-escalation",
            ContextualPosture::PublicEdge | ContextualPosture::ProductionService
            | ContextualPosture::CriticalInternal => "service-surface-escalation",
            ContextualPosture::Unspecified | ContextualPosture::InternalRestricted => "medium-baseline",
        },
        Severity::Low => match posture {
            ContextualPosture::PublicCritical => "public-critical-escalation",
            ContextualPosture::PublicEdge | ContextualPosture::ProductionService
            | ContextualPosture::CriticalInternal => "service-surface-escalation",
            ContextualPosture::Unspecified | ContextualPosture::InternalRestricted
            | ContextualPosture::HardenedPrivate => "low-baseline",
        },
    }
}

/// A factor label: the factor's name, a colon, and its value.
pub open spec fn factor_label(name: Seq<char>, value: bool) -> Seq<char> {
    name + ":"@ + if value {
        "true"@
    } else {
        "false"@
    }
}

/// The label of a factor when its value is set.
pub open spec fn opt_label(name: Seq<char>, value: Option<bool>) -> Seq<Seq<char>> {
    match value {
        Some(b) => seq![factor_label(name, b)],
        None => seq![],
    }
}

/// The labels of the set factors, in factor order.
pub open spec fn factor_labels(v: ContextProfileValues) -> Seq<Seq<char>> {
    opt_label("internet-exposed"@, v.internet_exposed) + opt_label("production"@, v.production)
        + opt_label("mission-critical"@, v.mission_critical) + opt_label(
        "vpn-restricted"@,
        v.vpn_restricted,
    ) + opt_label("non-privileged-user"@, v.non_privileged_user)
}

/// The name of a factor source.
pub open spec fn source_name(s: ContextFactorSource) -> Seq<char> {
    match s {
        ContextFactorSource::Component => "component"@,
        ContextFactorSource::Collection => "collection"@,
        ContextFactorSource::Tag => "tag"@,
    }
}

/// Provenance of a factor when both its value and its origin are known.
pub open spec fn opt_provenance(name: Seq<char>, value: Option<bool>, origin: Option<
    ContextFactorOrigin,
>) -> Seq<(Seq<char>, Seq<char>, Seq<char>)> {
    match (value, origin) {
        (Some(b), Some(o)) => seq![(factor_label(name, b), source_name(o.source), o.identity@)],
        _ => seq![],
    }
}

/// Provenance of every factor whose value and origin are known, in factor order.
pub open spec fn factor_provenance(c: EffectiveContextProfile) -> Seq<(Seq<char>, Seq<char>, Seq<char>)> {
    let v = c.values;
    let s = c.factor_sources;
    opt_provenance("internet-exposed"@, v.internet_exposed, s.internet_exposed) + opt_provenance(
        "production"@,
        v.production,
        s.production,
    ) + opt_provenance("mission-critical"@, v.mission_critical, s.mission_critical)
        + opt_provenance("vpn-restricted"@, v.vpn_restricted, s.vpn_restricted) + opt_provenance(
        "non-privileged-user"@,
        v.non_privileged_user,
        s.non_privileged_user,
    )
}

/// Where one contextual factor came from.
#[derive(Debug, PartialEq, Eq)]
pub struct ContextualFactorProvenance {
    pub factor: String,
    pub source: String,
    pub identity: String,
}

impl View for ContextualFactorProvenance {
    type V = (Seq<char>, Seq<char>, Seq<char>);

    open spec fn view(&self) -> (Seq<char>, Seq<char>, Seq<char>) {
        (self.factor@, self.source@, self.identity@)
    }
}

fn label(name: &str, value: bool) -> (r: String)
    ensures
        r@ == factor_label(name@, value),
{
    let with_colon = owned(name).concat(":");
    if value {
        with_colon.concat("true")
    } else {
        with_colon.concat("false")
    }
}

fn push_context_factor(factors: &mut Vec<String>, name: &str, value: Option<bool>)
    ensures
        texts(final(factors)@) == texts(old(factors)@) + opt_label(name@, value),
{
    match value {
        Some(b) => {
            let ghost before = factors@;
            factors.push(label(name, b));
            assert(texts(factors@) =~= texts(before) + opt_label(name@, value));
        },
        None => {
            assert(texts(factors@) =~= texts(factors@) + opt_label(name@, value));
        },
    }
}

fn contextual_factor_labels(values: ContextProfileValues) -> (r: Vec<String>)
    ensures
        texts(r@) == factor_labels(values),
{
    let mut factors: Vec<String> = Vec::new();
    assert(texts(factors@) =~= seq![]);
    push_context_factor(&mut factors, "internet-exposed", values.internet_exposed);
    push_context_factor(&mut factors, "production", values.production);
    push_context_factor(&mut factors, "mission-critical", values.mission_critical);
    push_context_factor(&mut factors, "vpn-restricted", values.vpn_restricted);
    push_context_factor(&mut factors, "non-privileged-user", values.non_privileged_user);
    assert(texts(factors@) =~= factor_labels(values));
    factors
}

fn push_factor_provenance(
    factors: &mut Vec<ContextualFactorProvenance>,
    name: &str,
    value: Option<bool>,
    origin: &Option<ContextFactorOrigin>,
)
    ensures
        final(factors)@.map_values(|p: ContextualFactorProvenance| p@) == old(factors)@.map_values(
            |p: ContextualFactorProvenance| p@,
        ) + opt_provenance(name@, value, *origin),
{
    let ghost before = factors@;
    match (value, origin) {
        (Some(b), Some(o)) => {
            factors.push(
                ContextualFactorProvenance {
                    factor: label(name, b),
                    source: owned(o.source.as_str()),
                    identity: o.identity.clone(),
                },
            );
        },
        _ => {},
    }
    assert(factors@.map_values(|p: ContextualFactorProvenance| p@) =~= before.map_values(
        |p: ContextualFactorProvenance| p@,
    ) + opt_provenance(name@, value, *origin));
}

fn contextual_factor_provenance(c: &EffectiveContextProfile) -> (r: Vec<ContextualFactorProvenance>)
    ensures
        r@.map_values(|p: ContextualFactorProvenance| p@) == factor_provenance(*c),
{
    let v = c.values;
    let s = &c.factor_sources;
    let mut factors: Vec<ContextualFactorProvenance> = Vec::new();
    assert(factors@.map_values(|p: ContextualFactorProvenance| p@) =~= seq![]);
    push_factor_provenance(&mut factors, "internet-exposed", v.internet_exposed, &s.internet_exposed);
    push_factor_provenance(&mut factors, "production", v.production, &s.production);
    push_factor_provenance(&mut factors, "mission-critical", v.mission_critical, &s.mission_critical);
    push_factor_provenance(&mut factors, "vpn-restricted", v.vpn_restricted, &s.vpn_restricted);
    push_factor_provenance(
        &mut factors,
        "non-privileged-user",
        v.non_privileged_user,
        &s.non_privileged_user,
    );
    assert(factors@.map_values(|p: ContextualFactorProvenance| p@) =~= factor_provenance(*c));
    factors
}

/// Active-finding projection enriched with deterministic contextual meaning.
#[derive(Debug, PartialEq, Eq)]
pub struct ContextualActiveFindingProjection {
    pub finding: FindingRef,
    pub severity: Severity,
    pub contextual_risk: ContextualRiskLevel,
    pub contextual_posture: String,
    pub contextual_rule: String,
    pub contextual_factors: Vec<String>,
    pub contextual_factor_provenance: Vec<ContextualFactorProvenance>,
    pub context_profile_key: Option<String>,
    pub context_profile_name: Option<String>,
    pub component_context_profile: Option<ContextProfileRef>,
    pub collection_context_profile: Option<ContextProfileRef>,
    pub tag_context_profiles: Vec<ContextProfileRef>,
    pub governance_state: FindingGovernanceState,
    pub governance_reason: Option<String>,
    pub governance_until_unix_ms: Option<u64>,
}

/// The context values, when there is a context.
pub open spec fn effective_values(c: Option<EffectiveContextProfile>) -> Option<ContextProfileValues> {
    match c {
        Some(x) => Some(x.values),
        None => None,
    }
}

fn copy_profile(p: &Option<ContextProfileRef>) -> (r: Option<ContextProfileRef>)
    ensures
        r == *p,
{
    match p {
        Some(x) => Some(x.clone()),
        None => None,
    }
}

impl ContextualActiveFindingProjection {
    /// Read one active finding in its component's effective context.
    pub fn from_active_finding(
        finding: ActiveFindingProjection,
        effective_context: Option<EffectiveContextProfile>,
    ) -> (r: Self)
        ensures
            r.finding == finding.finding,
            r.severity == finding.severity,
            r.governance_state == finding.governance_state,
            r.governance_reason == finding.governance_reason,
            r.governance_until_unix_ms == finding.governance_until_unix_ms,
            r.contextual_risk == risk_level(finding.severity, effective_values(effective_context)),
            r.contextual_rule@ == risk_rule(finding.severity, effective_values(effective_context)),
            r.contextual_posture@ == posture_name(
                match effective_context {
                    Some(c) => posture_of(c.values),
                    None => ContextualPosture::Unspecified,
                },
            ),
            texts(r.contextual_factors@) == match effective_context {
                Some(c) => factor_labels(c.values),
                None => Seq::<Seq<char>>::empty(),
            },
            r.contextual_factor_provenance@.map_values(|p: ContextualFactorProvenance| p@)
                == match effective_context {
                Some(c) => factor_provenance(c),
                None => Seq::<(Seq<char>, Seq<char>, Seq<char>)>::empty(),
            },
            ({
                let single = match effective_context {
                    Some(c) => singular_profile_of(c),
                    None => None,
                };
                &&& opt_text(r.context_profile_key) == match single {
                    Some(p) => Some(p.profile_key@),
                    None => None,
                }
                &&& opt_text(r.context_profile_name) == match single {
                    Some(p) => Some(p.name@),
                    None => None,
                }
            }),
            match effective_context {
                Some(c) => r.component_context_profile == c.component_profile
                    && r.collection_context_profile == c.collection_profile && r.tag_context_profiles
                    == c.tag_profiles,
                None => r.component_context_profile is None && r.collection_context_profile is None
                    && r.tag_context_profiles@.len() == 0,
            },
    {
        match effective_context {
            None => {
                let f: Vec<String> = Vec::new();
                let p: Vec<ContextualFactorProvenance> = Vec::new();
                assert(texts(f@) =~= Seq::<Seq<char>>::empty());
                assert(p@.map_values(|x: ContextualFactorProvenance| x@) =~= Seq::<
                    (Seq<char>, Seq<char>, Seq<char>),
                >::empty());
                ContextualActiveFindingProjection {
                    finding: finding.finding,
                    severity: finding.severity,
                    contextual_risk: contextual_risk_level(finding.severity, None),
                    contextual_posture: owned(ContextualPosture::Unspecified.as_str()),
                    contextual_rule: owned(contextual_risk_rule(finding.severity, None)),
                    contextual_factors: f,
                    contextual_factor_provenance: p,
                    context_profile_key: None,
                    context_profile_name: None,
                    component_context_profile: None,
                    collection_context_profile: None,
                    tag_context_profiles: Vec::new(),
                    governance_state: finding.governance_state,
                    governance_reason: finding.governance_reason,
                    governance_until_unix_ms: finding.governance_until_unix_ms,
                }
            },
            Some(c) => {
                let posture = contextual_posture(c.values);
                let risk = contextual_risk_level(finding.severity, Some(&c.values));
                let rule = contextual_risk_rule(finding.severity, Some(&c.values));
                let factors = contextual_factor_labels(c.values);
                let provenance = contextual_factor_provenance(&c);
                let (key, name) = match c.singular_profile() {
                    Some(p) => (Some(p.profile_key.clone()), Some(p.name.clone())),
                    None => (None, None),
                };
                let component = copy_profile(&c.component_profile);
                let collection = copy_profile(&c.collection_profile);
                ContextualActiveFindingProjection {
                    finding: finding.finding,
                    severity: finding.severity,
                    contextual_risk: risk,
                    contextual_posture: owned(posture.as_str()),
                    contextual_rule: owned(rule),
                    contextual_factors: factors,
                    contextual_factor_provenance: provenance,
                    context_profile_key: key,
                    context_profile_name: name,
                    component_context_profile: component,
                    collection_context_profile: collection,
                    tag_context_profiles: c.tag_profiles,
                    governance_state: finding.governance_state,
                    governance_reason: finding.governance_reason,
                    governance_until_unix_ms: finding.governance_until_unix_ms,
                }
            },
        }
    }
}


/// An internet-exposed context that is also production or mission-critical is
/// public-critical: high and medium findings there are critical, low ones high,
/// and the medium and low escalations are named public-critical.
pub proof fn lemma_public_critical_escalation(v: ContextProfileValues)
    requires
        v.internet_exposed == Some(true),
        v.production == Some(true) || v.mission_critical == Some(true),
    ensures
        posture_name(posture_of(v)) == "public-critical"@,
        risk_level(Severity::High, Some(v)) == ContextualRiskLevel::Critical,
        risk_level(Severity::Medium, Some(v)) == ContextualRiskLevel::Critical,
        risk_level(Severity::Low, Some(v)) == ContextualRiskLevel::High,
        risk_rule(Severity::Medium, Some(v)) == "public-critical-escalation"@,
        risk_rule(Severity::Low, Some(v)) == "public-critical-escalation"@,
        risk_rule(Severity::High, Some(v)) == "critical-surface-escalation"@,
{
}

/// An internet-exposed context that is neither production nor mission-critical
/// is a public edge: high findings become critical, medium ones high and low
/// ones medium.
pub proof fn lemma_public_edge_escalation(v: ContextProfileValues)
    requires
        v.internet_exposed == Some(true),
        v.production != Some(true),
        v.mission_critical != Some(true),
    ensures
        posture_name(posture_of(v)) == "public-edge"@,
        risk_level(Severity::High, Some(v)) == ContextualRiskLevel::Critical,
        risk_level(Severity::Medium, Some(v)) == ContextualRiskLevel::High,
        risk_level(Severity::Low, Some(v)) == ContextualRiskLevel::Medium,
        risk_rule(Severity::High, Some(v)) == "critical-surface-escalation"@,
        risk_rule(Severity::Medium, Some(v)) == "service-surface-escalation"@,
        risk_rule(Severity::Low, Some(v)) == "service-surface-escalation"@,
{
}

/// A context that is not internet-exposed but both production and
/// mission-critical is critical-internal: high findings become critical,
/// medium ones high and low ones medium.
pub proof fn lemma_critical_internal_escalation(v: ContextProfileValues)
    requires
        v.internet_exposed != Some(true),
        v.production == Some(true),
        v.mission_critical == Some(true),
    ensures
        posture_name(posture_of(v)) == "critical-internal"@,
        risk_level(Severity::High, Some(v)) == ContextualRiskLevel::Critical,
        risk_level(Severity::Medium, Some(v)) == ContextualRiskLevel::High,
        risk_level(Severity::Low, Some(v)) == ContextualRiskLevel::Medium,
        risk_rule(Severity::High, Some(v)) == "critical-surface-escalation"@,
        risk_rule(Severity::Medium, Some(v)) == "service-surface-escalation"@,
        risk_rule(Severity::Low, Some(v)) == "service-surface-escalation"@,
{
}

/// A context that is not internet-exposed and exactly one of production and
/// mission-critical is a production service: high findings stay high, medium
/// ones become high and low ones medium.
pub proof fn lemma_production_service_escalation(v: ContextProfileValues)
    requires
        v.internet_exposed != Some(true),
        (v.production == Some(true)) != (v.mission_critical == Some(true)),
    ensures
        posture_name(posture_of(v)) == "production-service"@,
        risk_level(Severity::High, Some(v)) == ContextualRiskLevel::High,
        risk_level(Severity::Medium, Some(v)) == ContextualRiskLevel::High,
        risk_level(Severity::Low, Some(v)) == ContextualRiskLevel::Medium,
        risk_rule(Severity::High, Some(v)) == "high-baseline"@,
        risk_rule(Severity::Medium, Some(v)) == "service-surface-escalation"@,
        risk_rule(Severity::Low, Some(v)) == "service-surface-escalation"@,
{
}

/// A context with none of internet exposure, production or mission
/// criticality, that is both VPN-restricted and run by a non-privileged user,
/// is hardened-private: high findings drop to medium and medium ones to low.
pub proof fn lemma_hardened_private_downgrade(v: ContextProfileValues)
    requires
        v.internet_exposed != Some(true),
        v.production != Some(true),
        v.mission_critical != Some(true),
        v.vpn_restricted == Some(true),
        v.non_privileged_user == Some(true),
    ensures
        posture_name(posture_of(v)) == "hardened-private"@,
        risk_level(Severity::High, Some(v)) == ContextualRiskLevel::Medium,
        risk_level(Severity::Medium, Some(v)) == ContextualRiskLevel::Low,
        risk_level(Severity::Low, Some(v)) == ContextualRiskLevel::Low,
        risk_rule(Severity::High, Some(v)) == "mitigated-private-downgrade"@,
        risk_rule(Severity::Medium, Some(v)) == "mitigated-private-downgrade"@,
        risk_rule(Severity::Low, Some(v)) == "low-baseline"@,
{
}

/// A context with none of internet exposure, production or mission
/// criticality, and not both VPN-restricted and non-privileged, moves no
/// finding: each keeps the level it has without context.
pub proof fn lemma_quiet_context_keeps_level(s: Severity, v: ContextProfileValues)
    requires
        v.internet_exposed != Some(true),
        v.production != Some(true),
        v.mission_critical != Some(true),
        !(v.vpn_restricted == Some(true) && v.non_privileged_user == Some(true)),
    ensures
        risk_level(s, Some(v)) == risk_level(s, None),
        posture_name(posture_of(v)) == if v.vpn_restricted == Some(true) || v.non_privileged_user
            == Some(true) {
            "internal-restricted"@
        } else {
            "unspecified"@
        },
        risk_rule(Severity::High, Some(v)) == "high-baseline"@,
        risk_rule(Severity::Medium, Some(v)) == "medium-baseline"@,
        risk_rule(Severity::Low, Some(v)) == "low-baseline"@,
{
}

/// Unknown, none and critical severities keep their level in every context,
/// under the raw-severity rule; without a context every severity keeps its
/// own level.
pub proof fn lemma_context_leaves_extremes(ctx: Option<ContextProfileValues>)
    ensures
        risk_rule(Severity::Unknown, ctx) == "raw-severity"@,
        risk_rule(Severity::NoImpact, ctx) == "raw-severity"@,
        risk_rule(Severity::Critical, ctx) == "raw-severity"@,
        risk_level(Severity::Unknown, ctx) == ContextualRiskLevel::Unknown,
        risk_level(Severity::NoImpact, ctx) == ContextualRiskLevel::NoImpact,
        risk_level(Severity::Critical, ctx) == ContextualRiskLevel::Critical,
        risk_level(Severity::High, None) == ContextualRiskLevel::High,
        risk_level(Severity::Medium, None) == ContextualRiskLevel::Medium,
        risk_level(Severity::Low, None) == ContextualRiskLevel::Low,
{
}

} // verus!
