//! Compact health of a closed collection: active findings by governance
//! state and by contextual risk.

use crate::collections::views_of;
use crate::findings::contextual_risk::{contextual_risk_level, risk_level, ContextualRiskLevel};
use crate::findings::finding_governance::FindingGovernanceState;
use crate::findings::finding_read_model::{
    finding_ref_of, findings_at, scoped_pairs, state_of, FindingKeyView, FindingReadModel,
    ItemView, ReadModelView,
};
use crate::inventory::component_inventory::CollectionScopedArtifact;
use crate::inventory::context_profile::ContextProfileValues;
use crate::order::text_eq;
use vstd::prelude::*;

verus! {

/// The context that applies to the findings of one component.
#[derive(Debug, PartialEq, Eq)]
pub struct ComponentContext {
    pub component_key: String,
    pub values: Option<ContextProfileValues>,
}

impl View for ComponentContext {
    type V = (Seq<char>, Option<ContextProfileValues>);

    open spec fn view(&self) -> (Seq<char>, Option<ContextProfileValues>) {
        (self.component_key@, self.values)
    }
}

/// The context of a component: the first entry for its key, none when absent.
pub open spec fn context_lookup(
    ctx: Seq<(Seq<char>, Option<ContextProfileValues>)>,
    key: Seq<char>,
) -> Option<ContextProfileValues>
    decreases ctx.len(),
{
    if ctx.len() == 0 {
        None
    } else if ctx[0].0 == key {
        ctx[0].1
    } else {
        context_lookup(ctx.drop_first(), key)
    }
}

/// Look up the context of a component.
pub fn context_for(contexts: &[ComponentContext], component_key: &str) -> (r: Option<
    ContextProfileValues,
>)
    ensures
        r == context_lookup(views_of(contexts@), component_key@),
{
    let ghost c = views_of(contexts@);
    let mut i: usize = 0;
    assert(c.skip(0) =~= c);
    while i < contexts.len()
        invariant
            c == views_of(contexts@),
            i <= contexts@.len(),
            context_lookup(c, component_key@) == context_lookup(c.skip(i as int), component_key@),
        decreases contexts.len() - i,
    {
        assert(c.skip(i as int)[0] == contexts@[i as int]@);
        assert(c.skip(i as int).drop_first() =~= c.skip(i + 1));
        if text_eq(contexts[i].component_key.as_str(), component_key) {
            return contexts[i].values;
        }
        i = i + 1;
    }
    assert(c.skip(i as int).len() == 0);
    None
}

/// Compact operator-facing summary of one closed collection health state.
#[derive(Debug, Clone, Copy, PartialEq, Eq, Default)]
pub struct CollectionHealthSummary {
    pub total: usize,
    pub open: usize,
    pub risk_accepted: usize,
    pub suppressed: usize,
    pub critical_risk: usize,
    pub high_risk: usize,
}

/// The counts of a summary.
pub open spec fn health_model(s: CollectionHealthSummary) -> (nat, nat, nat, nat, nat, nat) {
    (
        s.total as nat,
        s.open as nat,
        s.risk_accepted as nat,
        s.suppressed as nat,
        s.critical_risk as nat,
        s.high_risk as nat,
    )
}

/// What the health of a collection counts of one finding: its governance
/// state and its contextual risk.
pub open spec fn observation(
    v: ReadModelView,
    p: (ItemView, FindingKeyView),
    ctx: Seq<(Seq<char>, Option<ContextProfileValues>)>,
) -> (FindingGovernanceState, ContextualRiskLevel) {
    (
        state_of(v, finding_ref_of(p.0, p.1)),
        risk_level(findings_at(v, p.0)[p.1], context_lookup(ctx, p.0.0)),
    )
}

/// The observations of the findings of a scope, in visit order.
pub open spec fn observations(
    v: ReadModelView,
    scope: Seq<(Seq<char>, (crate::findings::ArtifactKind, Seq<char>))>,
    ctx: Seq<(Seq<char>, Option<ContextProfileValues>)>,
) -> Seq<(FindingGovernanceState, ContextualRiskLevel)> {
    scoped_pairs(v, scope).map_values(|p: (ItemView, FindingKeyView)| observation(v, p, ctx))
}

/// Counts of observations: all of them, by governance state, and those at
/// critical and at high contextual risk.
pub open spec fn health_counts(obs: Seq<(FindingGovernanceState, ContextualRiskLevel)>) -> (
    nat,
    nat,
    nat,
    nat,
    nat,
    nat,
)
    decreases obs.len(),
{
    if obs.len() == 0 {
        (0, 0, 0, 0, 0, 0)
    } else {
        let c = health_counts(obs.drop_last());
        let (state, risk) = obs.last();
        (
            c.0 + 1,
            c.1 + if state == FindingGovernanceState::Open { 1nat } else { 0nat },
            c.2 + if state == FindingGovernanceState::RiskAccepted { 1nat } else { 0nat },
            c.3 + if state == FindingGovernanceState::Suppressed { 1nat } else { 0nat },
            c.4 + if risk == ContextualRiskLevel::Critical { 1nat } else { 0nat },
            c.5 + if risk == ContextualRiskLevel::High { 1nat } else { 0nat },
        )
    }
}

/// The health counts count every observation once and none of the
/// partial counts exceeds them.
pub proof fn lemma_health_counts_bound(obs: Seq<(FindingGovernanceState, ContextualRiskLevel)>)
    ensures
        health_counts(obs).0 == obs.len(),
        health_counts(obs).1 <= obs.len(),
        health_counts(obs).2 <= obs.len(),
        health_counts(obs).3 <= obs.len(),
        health_counts(obs).4 <= obs.len(),
        health_counts(obs).5 <= obs.len(),
    decreases obs.len(),
{
    if obs.len() > 0 {
        lemma_health_counts_bound(obs.drop_last());
    }
}

impl CollectionHealthSummary {
    /// Count one more finding with the given governance state and contextual risk.
    pub fn observe(&mut self, state: FindingGovernanceState, risk: ContextualRiskLevel)
        requires
            old(self).total < usize::MAX,
            old(self).open < usize::MAX,
            old(self).risk_accepted < usize::MAX,
            old(self).suppressed < usize::MAX,
            old(self).critical_risk < usize::MAX,
            old(self).high_risk < usize::MAX,
        ensures
            health_model(*final(self)) == ({
                let c = health_model(*old(self));
                (
                    c.0 + 1,
                    c.1 + if state == FindingGovernanceState::Open { 1nat } else { 0nat },
                    c.2 + if state == FindingGovernanceState::RiskAccepted { 1nat } else { 0nat },
                    c.3 + if state == FindingGovernanceState::Suppressed { 1nat } else { 0nat },
                    c.4 + if risk == ContextualRiskLevel::Critical { 1nat } else { 0nat },
                    c.5 + if risk == ContextualRiskLevel::High { 1nat } else { 0nat },
                )
            }),
    {
        self.total = self.total + 1;
        match state {
            FindingGovernanceState::Open => {
                self.open = self.open + 1;
            },
            FindingGovernanceState::RiskAccepted => {
                self.risk_accepted = self.risk_accepted + 1;
            },
            FindingGovernanceState::Suppressed => {
                self.suppressed = self.suppressed + 1;
            },
        }
        match risk {
            ContextualRiskLevel::Critical => {
                self.critical_risk = self.critical_risk + 1;
            },
            ContextualRiskLevel::High => {
                self.high_risk = self.high_risk + 1;
            },
            _ => {},
        }
    }
}

/// Derive the health of a collection scope from its active findings, their
/// governance state, and their contextual risk in each component's context.
pub fn summarize_collection_health(
    contexts: &[ComponentContext],
    read_model: &FindingReadModel,
    scope: &[CollectionScopedArtifact],
) -> (r: CollectionHealthSummary)
    requires
        read_model.wf(),
    ensures
        health_model(r) == health_counts(
            observations(read_model@, views_of(scope@), views_of(contexts@)),
        ),
{
    let findings = read_model.visit_scoped_active_findings(scope);
    let ghost v = read_model@;
    let ghost ps = scoped_pairs(v, views_of(scope@));
    let ghost obs = observations(v, views_of(scope@), views_of(contexts@));
    let mut summary = CollectionHealthSummary {
        total: 0,
        open: 0,
        risk_accepted: 0,
        suppressed: 0,
        critical_risk: 0,
        high_risk: 0,
    };
    let mut i: usize = 0;
    while i < findings.len()
        invariant
            findings@.len() == ps.len(),
            obs.len() == ps.len(),
            obs == observations(v, views_of(scope@), views_of(contexts@)),
            ps == scoped_pairs(v, views_of(scope@)),
            forall|j: int|
                0 <= j < ps.len() ==> crate::findings::finding_read_model::projects(
                    #[trigger] findings@[j],
                    v,
                    ps[j].0,
                    ps[j].1,
                ),
            i <= findings@.len(),
            health_model(summary) == health_counts(obs.take(i as int)),
        decreases findings.len() - i,
    {
        let f = &findings[i];
        proof {
            lemma_health_counts_bound(obs.take(i as int));
            assert(obs.take(i + 1).drop_last() =~= obs.take(i as int));
            assert(obs[i as int] == observation(v, ps[i as int], views_of(contexts@)));
            assert(f.finding@ == finding_ref_of(ps[i as int].0, ps[i as int].1));
        }
        let ctx = context_for(contexts, f.finding.component_key.as_str());
        let risk = contextual_risk_level(
            f.severity,
            match &ctx {
                Some(x) => Some(x),
                None => None,
            },
        );
        summary.observe(f.governance_state, risk);
        i = i + 1;
    }
    assert(obs.take(i as int) =~= obs);
    summary
}

} // verus!
