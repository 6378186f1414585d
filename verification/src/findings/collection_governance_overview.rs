//! One release-scoped findings workbench: the health of the whole scope,
//! the open cohort a bulk decision would target, and one page of findings.

use crate::collections::{sorted_seq_of, views_of};
use crate::findings::collection_health::{
    context_for, context_lookup, health_counts, health_model, observations,
    summarize_collection_health, CollectionHealthSummary, ComponentContext,
};
use crate::findings::contextual_risk::{contextual_risk_level, risk_level, ContextualRiskLevel};
use crate::findings::finding_governance::FindingGovernanceState;
use crate::findings::finding_provider::{severity_index, severity_rank, Severity};
use crate::findings::finding_read_model::{
    bulk_pairs, finding_ref_of, findings_at, normalized_page_limit, passes, projects, scoped_entries,
    scoped_pairs, state_of, window_len, FindingKeyView, FindingReadModel, ItemView, ReadModelView,
    ScopedActiveFindingsPage, ScopedActiveFindingsQuery, ScopedPageKey,
};
use crate::inventory::component_inventory::{scope_of, CollectionScopedArtifact, ComponentInventory};
use crate::inventory::context_profile::ContextProfileValues;
use crate::order::{opt_text, text_eq};
use vstd::prelude::*;

verus! {

/// The filtered cohort that one bulk governance decision would target.
#[derive(Debug, Clone, Copy, PartialEq, Eq, Default)]
pub struct BulkGovernanceCohortSummary {
    pub targeted: usize,
    pub critical_risk: usize,
    pub high_risk: usize,
}

/// Health of the whole scope, the bulk cohort, and one page of findings.
#[derive(Debug, PartialEq, Eq)]
pub struct CollectionGovernanceOverview {
    pub health: CollectionHealthSummary,
    pub bulk_governance: BulkGovernanceCohortSummary,
    pub page: ScopedActiveFindingsPage,
}

/// Whether a finding belongs to the bulk cohort: in the cohort's state and
/// passing the query's severity and package filters.
pub open spec fn in_cohort(
    v: ReadModelView,
    p: (ItemView, FindingKeyView),
    want: FindingGovernanceState,
    min: Option<Severity>,
    name: Option<Seq<char>>,
) -> bool {
    let state = state_of(v, finding_ref_of(p.0, p.1));
    state == want && passes(findings_at(v, p.0)[p.1], state, p.1.1.0, min, None, name)
}

/// Size of the cohort among `ps`, and how many of it are at critical and at
/// high contextual risk.
pub open spec fn cohort_counts(
    v: ReadModelView,
    ps: Seq<(ItemView, FindingKeyView)>,
    ctx: Seq<(Seq<char>, Option<ContextProfileValues>)>,
    want: FindingGovernanceState,
    min: Option<Severity>,
    name: Option<Seq<char>>,
) -> (nat, nat, nat)
    decreases ps.len(),
{
    if ps.len() == 0 {
        (0, 0, 0)
    } else {
        let c = cohort_counts(v, ps.drop_last(), ctx, want, min, name);
        let p = ps.last();
        if in_cohort(v, p, want, min, name) {
            let risk = risk_level(findings_at(v, p.0)[p.1], context_lookup(ctx, p.0.0));
            (
                c.0 + 1,
                c.1 + if risk == ContextualRiskLevel::Critical { 1nat } else { 0nat },
                c.2 + if risk == ContextualRiskLevel::High { 1nat } else { 0nat },
            )
        } else {
            c
        }
    }
}

/// Neither count of a cohort exceeds the number of findings counted.
pub proof fn lemma_cohort_counts_bound(
    v: ReadModelView,
    ps: Seq<(ItemView, FindingKeyView)>,
    ctx: Seq<(Seq<char>, Option<ContextProfileValues>)>,
    want: FindingGovernanceState,
    min: Option<Severity>,
    name: Option<Seq<char>>,
)
    ensures
        cohort_counts(v, ps, ctx, want, min, name).0 <= ps.len(),
        cohort_counts(v, ps, ctx, want, min, name).1 <= ps.len(),
        cohort_counts(v, ps, ctx, want, min, name).2 <= ps.len(),
    decreases ps.len(),
{
    if ps.len() > 0 {
        lemma_cohort_counts_bound(v, ps.drop_last(), ctx, want, min, name);
    }
}

/// The bulk cohort counts exactly the findings that a bulk decision with the
/// same governance state, minimum severity and package name targets.
pub proof fn lemma_cohort_is_bulk_target(
    v: ReadModelView,
    ps: Seq<(ItemView, FindingKeyView)>,
    ctx: Seq<(Seq<char>, Option<ContextProfileValues>)>,
    want: FindingGovernanceState,
    min: Option<Severity>,
    name: Option<Seq<char>>,
)
    ensures
        cohort_counts(v, ps, ctx, want, min, name).0 == bulk_pairs(v, ps, want, min, name).len(),
    decreases ps.len(),
{
    if ps.len() > 0 {
        lemma_cohort_is_bulk_target(v, ps.drop_last(), ctx, want, min, name);
    }
}

/// The bulk cohort counts exactly the findings that are in the wanted
/// governance state, at least as severe as the minimum severity when there
/// is one, and of the named package when a name is given.
pub proof fn lemma_cohort_counts_filtered_findings(
    v: ReadModelView,
    ps: Seq<(ItemView, FindingKeyView)>,
    ctx: Seq<(Seq<char>, Option<ContextProfileValues>)>,
    want: FindingGovernanceState,
    min: Option<Severity>,
    name: Option<Seq<char>>,
)
    ensures
        cohort_counts(v, ps, ctx, want, min, name).0 == ps.filter(
            |p: (ItemView, FindingKeyView)|
                state_of(v, finding_ref_of(p.0, p.1)) == want && (min matches Some(m)
                    ==> severity_index(findings_at(v, p.0)[p.1]) >= severity_index(m)) && (
                name matches Some(n) ==> p.1.1.0 == n),
        ).len(),
    decreases ps.len(),
{
    reveal(Seq::filter);
    if ps.len() > 0 {
        lemma_cohort_counts_filtered_findings(v, ps.drop_last(), ctx, want, min, name);
    }
}

/// The counts of a cohort summary.
pub open spec fn cohort_model(s: BulkGovernanceCohortSummary) -> (nat, nat, nat) {
    (s.targeted as nat, s.critical_risk as nat, s.high_risk as nat)
}

/// Whether `r` is the page of the scope's findings that a scoped query asks for.
pub open spec fn is_scoped_page(
    r: ScopedActiveFindingsPage,
    v: ReadModelView,
    scope: Seq<ItemView>,
    query: ScopedActiveFindingsQuery,
) -> bool {
    let s = sorted_seq_of::<ScopedPageKey>(
        scoped_entries(v, scope, query.min_severity, query.governance_state, opt_text(query.package_name)),
    );
    &&& r.total == s.len()
    &&& r.offset == query.offset
    &&& r.limit == normalized_page_limit(query.limit)
    &&& r.returned == r.findings@.len()
    &&& r.findings@.len() == window_len(s.len() as int, query.offset as int, r.limit as int)
    &&& forall|i: int|
        0 <= i < r.findings@.len() ==> projects(
            #[trigger] r.findings@[i],
            v,
            s[query.offset + i].1,
            s[query.offset + i].2,
        )
}

/// Count the bulk cohort of a scope.
fn bulk_cohort(
    contexts: &[ComponentContext],
    read_model: &FindingReadModel,
    scope: &[CollectionScopedArtifact],
    want: FindingGovernanceState,
    query: &ScopedActiveFindingsQuery,
) -> (r: BulkGovernanceCohortSummary)
    requires
        read_model.wf(),
    ensures
        cohort_model(r) == cohort_counts(
            read_model@,
            scoped_pairs(read_model@, views_of(scope@)),
            views_of(contexts@),
            want,
            query.min_severity,
            opt_text(query.package_name),
        ),
{
    let findings = read_model.visit_scoped_active_findings(scope);
    let ghost v = read_model@;
    let ghost ps = scoped_pairs(v, views_of(scope@));
    let ghost ctx = views_of(contexts@);
    let ghost name = opt_text(query.package_name);
    let mut summary = BulkGovernanceCohortSummary { targeted: 0, critical_risk: 0, high_risk: 0 };
    let mut i: usize = 0;
    while i < findings.len()
        invariant
            findings@.len() == ps.len(),
            ps == scoped_pairs(v, views_of(scope@)),
            ctx == views_of(contexts@),
            name == opt_text(query.package_name),
            forall|j: int|
                0 <= j < ps.len() ==> projects(#[trigger] findings@[j], v, ps[j].0, ps[j].1),
            i <= findings@.len(),
            cohort_model(summary) == cohort_counts(v, ps.take(i as int), ctx, want, query.min_severity, name),
        decreases findings.len() - i,
    {
        let f = &findings[i];
        proof {
            lemma_cohort_counts_bound(v, ps.take(i as int), ctx, want, query.min_severity, name);
            assert(ps.take(i + 1).drop_last() =~= ps.take(i as int));
            assert(ps.take(i + 1).last() == ps[i as int]);
            assert(f.finding@ == finding_ref_of(ps[i as int].0, ps[i as int].1));
        }
        let severity_ok = match query.min_severity {
            Some(m) => severity_rank(f.severity) >= severity_rank(m),
            None => true,
        };
        let name_ok = match &query.package_name {
            Some(n) => text_eq(f.finding.package.name.as_str(), n.as_str()),
            None => true,
        };
        if f.governance_state == want && severity_ok && name_ok {
            let ctx_values = context_for(contexts, f.finding.component_key.as_str());
            let risk = contextual_risk_level(
                f.severity,
                match &ctx_values {
                    Some(x) => Some(x),
                    None => None,
                },
            );
            summary.targeted = summary.targeted + 1;
            match risk {
                ContextualRiskLevel::Critical => {
                    summary.critical_risk = summary.critical_risk + 1;
                },
                ContextualRiskLevel::High => {
                    summary.high_risk = summary.high_risk + 1;
                },
                _ => {},
            }
        }
        i = i + 1;
    }
    assert(ps.take(i as int) =~= ps);
    summary
}

/// The workbench of one managed collection: the health of its whole
/// scope, the cohort in the query's governance state (open when the query
/// names none) that passes its other filters, and the query's page.
pub fn query_collection_governance_overview(
    inventory: &ComponentInventory,
    contexts: &[ComponentContext],
    read_model: &FindingReadModel,
    collection_key: &str,
    query: &ScopedActiveFindingsQuery,
) -> (r: Option<CollectionGovernanceOverview>)
    requires
        inventory.wf(),
        read_model.wf(),
    ensures
        r is Some <==> inventory@.collections.contains_key(collection_key@),
        r matches Some(o) ==> {
            let scope = scope_of(inventory@, inventory@.collections[collection_key@].members);
            let want = match query.governance_state {
                Some(s) => s,
                None => FindingGovernanceState::Open,
            };
            &&& health_model(o.health) == health_counts(
                observations(read_model@, scope, views_of(contexts@)),
            )
            &&& cohort_model(o.bulk_governance) == cohort_counts(
                read_model@,
                scoped_pairs(read_model@, scope),
                views_of(contexts@),
                want,
                query.min_severity,
                opt_text(query.package_name),
            )
            &&& is_scoped_page(o.page, read_model@, scope, *query)
        },
{
    let scope = match inventory.collection_scoped_artifacts(collection_key) {
        Some(s) => s,
        None => {
            return None;
        },
    };
    let want = match query.governance_state {
        Some(s) => s,
        None => FindingGovernanceState::Open,
    };
    let health = summarize_collection_health(contexts, read_model, scope.as_slice());
    let bulk_governance = bulk_cohort(contexts, read_model, scope.as_slice(), want, query);
    let page = read_model.query_scoped_active_findings(scope.as_slice(), query);
    Some(CollectionGovernanceOverview { health, bulk_governance, page })
}

} // verus!
