//! Execution-context profiles: the facts about where a component runs that
//! turn a raw severity into a contextual risk.
//!
//! These are value types only. The inventory of this crate neither registers
//! profiles nor assigns them to components, tags or collections: a caller
//! builds the effective profile of a component and hands it to the risk
//! functions of `findings::contextual_risk`.

use crate::order::{owned, text_eq};
use vstd::prelude::*;

verus! {

/// The five context factors of a profile; each may be left unset.
#[derive(Debug, Clone, Copy, PartialEq, Eq, Structural)]
pub struct ContextProfileValues {
    pub internet_exposed: Option<bool>,
    pub production: Option<bool>,
    pub mission_critical: Option<bool>,
    pub vpn_restricted: Option<bool>,
    pub non_privileged_user: Option<bool>,
}

/// Identity of one managed context profile.
#[derive(Debug, PartialEq, Eq)]
pub struct ContextProfileRef {
    pub profile_key: String,
    pub name: String,
}

impl View for ContextProfileRef {
    type V = (Seq<char>, Seq<char>);

    open spec fn view(&self) -> (Seq<char>, Seq<char>) {
        (self.profile_key@, self.name@)
    }
}

impl Clone for ContextProfileRef {
    fn clone(&self) -> (r: Self)
        ensures
            r == *self,
    {
        ContextProfileRef { profile_key: self.profile_key.clone(), name: self.name.clone() }
    }
}

/// One managed context profile: its identity and its factor values.
#[derive(Debug, PartialEq, Eq)]
pub struct ManagedContextProfile {
    pub profile_key: String,
    pub name: String,
    pub internet_exposed: Option<bool>,
    pub production: Option<bool>,
    pub mission_critical: Option<bool>,
    pub vpn_restricted: Option<bool>,
    pub non_privileged_user: Option<bool>,
}

impl ManagedContextProfile {
    pub fn values(&self) -> (r: ContextProfileValues)
        ensures
            r.internet_exposed == self.internet_exposed,
            r.production == self.production,
            r.mission_critical == self.mission_critical,
            r.vpn_restricted == self.vpn_restricted,
            r.non_privileged_user == self.non_privileged_user,
    {
        ContextProfileValues {
            internet_exposed: self.internet_exposed,
            production: self.production,
            mission_critical: self.mission_critical,
            vpn_restricted: self.vpn_restricted,
            non_privileged_user: self.non_privileged_user,
        }
    }

    pub fn reference(&self) -> (r: ContextProfileRef)
        ensures
            r.profile_key@ == self.profile_key@,
            r.name@ == self.name@,
    {
        ContextProfileRef { profile_key: self.profile_key.clone(), name: self.name.clone() }
    }
}

/// Where an effective factor value came from.
#[derive(Debug, Clone, Copy, PartialEq, Eq, Structural)]
pub enum ContextFactorSource {
    Component,
    Collection,
    Tag,
}

impl ContextFactorSource {
    pub fn as_str(self) -> (r: &'static str)
        ensures
            r@ == (match self {
                Self::Component => "component"@,
                Self::Collection => "collection"@,
                Self::Tag => "tag"@,
            }),
    {
        match self {
            Self::Component => "component",
            Self::Collection => "collection",
            Self::Tag => "tag",
        }
    }
}

/// The source of one factor value and the profile that supplied it.
#[derive(Debug, PartialEq, Eq)]
pub struct ContextFactorOrigin {
    pub source: ContextFactorSource,
    pub identity: String,
}

impl View for ContextFactorOrigin {
    type V = (ContextFactorSource, Seq<char>);

    open spec fn view(&self) -> (ContextFactorSource, Seq<char>) {
        (self.source, self.identity@)
    }
}

impl Clone for ContextFactorOrigin {
    fn clone(&self) -> (r: Self)
        ensures
            r == *self,
    {
        ContextFactorOrigin { source: self.source, identity: self.identity.clone() }
    }
}

impl ContextFactorOrigin {
    pub fn new(source: ContextFactorSource, identity: &str) -> (r: Self)
        ensures
            r.source == source,
            r.identity@ == identity@,
    {
        ContextFactorOrigin { source, identity: owned(identity) }
    }
}

/// The origin of each effective factor value.
#[derive(Debug, Clone, PartialEq, Eq)]
pub struct EffectiveContextFactorSources {
    pub internet_exposed: Option<ContextFactorOrigin>,
    pub production: Option<ContextFactorOrigin>,
    pub mission_critical: Option<ContextFactorOrigin>,
    pub vpn_restricted: Option<ContextFactorOrigin>,
    pub non_privileged_user: Option<ContextFactorOrigin>,
}

/// The context that applies to one component after component, collection
/// and tag profiles are combined.
#[derive(Debug, Clone, PartialEq, Eq)]
pub struct EffectiveContextProfile {
    pub values: ContextProfileValues,
    pub factor_sources: EffectiveContextFactorSources,
    pub component_profile: Option<ContextProfileRef>,
    pub collection_profile: Option<ContextProfileRef>,
    pub tag_profiles: Vec<ContextProfileRef>,
}

/// The origins of the factors, in factor order.
pub open spec fn factor_origins(s: EffectiveContextFactorSources) -> Seq<Option<ContextFactorOrigin>> {
    seq![s.internet_exposed, s.production, s.mission_critical, s.vpn_restricted, s.non_privileged_user]
}

/// The first factor origin that is present, in factor order.
pub open spec fn first_origin(s: EffectiveContextFactorSources) -> Option<ContextFactorOrigin> {
    if s.internet_exposed is Some {
        s.internet_exposed
    } else if s.production is Some {
        s.production
    } else if s.mission_critical is Some {
        s.mission_critical
    } else if s.vpn_restricted is Some {
        s.vpn_restricted
    } else {
        s.non_privileged_user
    }
}

proof fn lemma_first_origin(s: EffectiveContextFactorSources, k: int)
    requires
        0 <= k < 5,
        factor_origins(s)[k] is Some,
        forall|j: int| 0 <= j < k ==> factor_origins(s)[j] is None,
    ensures
        first_origin(s) == factor_origins(s)[k],
{
    let o = factor_origins(s);
    assert(o[0] == s.internet_exposed);
    assert(o[1] == s.production);
    assert(o[2] == s.mission_critical);
    assert(o[3] == s.vpn_restricted);
    assert(o[4] == s.non_privileged_user);
    if k > 0 {
        assert(o[0] is None);
    }
    if k > 1 {
        assert(o[1] is None);
    }
    if k > 2 {
        assert(o[2] is None);
    }
    if k > 3 {
        assert(o[3] is None);
    }
}

/// The origin that every present factor shares, if they share one.
pub open spec fn shared_origin(s: EffectiveContextFactorSources) -> Option<(ContextFactorSource, Seq<char>)> {
    let o = factor_origins(s);
    match first_origin(s) {
        Some(f) => if forall|i: int| 0 <= i < 5 && #[trigger] o[i] is Some ==> o[i]->Some_0@ == f@ {
            Some(f@)
        } else {
            None
        },
        None => None,
    }
}

/// The profile that supplied every present factor: found among the
/// component, collection or tag profiles by the shared origin's source and key.
pub open spec fn singular_profile_of(c: EffectiveContextProfile) -> Option<ContextProfileRef> {
    match shared_origin(c.factor_sources) {
        Some((ContextFactorSource::Component, key)) => match c.component_profile {
            Some(p) => if p.profile_key@ == key { Some(p) } else { None },
            None => None,
        },
        Some((ContextFactorSource::Collection, key)) => match c.collection_profile {
            Some(p) => if p.profile_key@ == key { Some(p) } else { None },
            None => None,
        },
        Some((ContextFactorSource::Tag, key)) => if exists|i: int|
            0 <= i < c.tag_profiles@.len() && #[trigger] c.tag_profiles@[i].profile_key@ == key {
            Some(c.tag_profiles@[choose|i: int| 0 <= i < c.tag_profiles@.len() && #[trigger] c.tag_profiles@[i].profile_key@ == key && forall|j: int| 0 <= j < i ==> c.tag_profiles@[j].profile_key@ != key])
        } else {
            None
        },
        None => None,
    }
}

impl EffectiveContextProfile {
    /// The single profile behind every present factor, when the factors do
    /// not come from several profiles.
    pub fn singular_profile(&self) -> (r: Option<&ContextProfileRef>)
        ensures
            match singular_profile_of(*self) {
                Some(p) => r matches Some(x) && *x == p,
                None => r is None,
            },
    {
        let origins = [
            &self.factor_sources.internet_exposed,
            &self.factor_sources.production,
            &self.factor_sources.mission_critical,
            &self.factor_sources.vpn_restricted,
            &self.factor_sources.non_privileged_user,
        ];
        let ghost o = factor_origins(self.factor_sources);
        assert(forall|i: int| 0 <= i < 5 ==> *origins@[i] == o[i]);
        let mut first: Option<&ContextFactorOrigin> = None;
        let mut first_at: usize = 0;
        let mut i: usize = 0;
        while i < 5
            invariant
                i <= 5,
                o == factor_origins(self.factor_sources),
                o.len() == 5,
                origins@.len() == 5,
                forall|k: int| 0 <= k < 5 ==> *origins@[k] == o[k],
                first is None ==> forall|k: int| 0 <= k < i ==> o[k] is None,
                first matches Some(f) ==> {
                    &&& first_at < i
                    &&& o[first_at as int] == Some(*f)
                    &&& forall|k: int| 0 <= k < first_at ==> o[k] is None
                    &&& forall|k: int|
                        0 <= k < i && #[trigger] o[k] is Some ==> o[k]->Some_0@ == f@
                },
            decreases 5 - i,
        {
            match origins[i] {
                Some(x) => match first {
                    None => {
                        first = Some(x);
                        first_at = i;
                    },
                    Some(f) => {
                        if !(f.source == x.source && text_eq(f.identity.as_str(), x.identity.as_str())) {
                            proof {
                                lemma_first_origin(self.factor_sources, first_at as int);
                                assert(first_origin(self.factor_sources) == Some(*f));
                                let oi = o[i as int];
                                assert(0 <= i < 5 && oi is Some && !(oi->Some_0@ == f@));
                                assert(shared_origin(self.factor_sources) is None);
                            }
                            return None;
                        }
                    },
                },
                None => {},
            }
            i = i + 1;
        }
        let f = match first {
            Some(f) => f,
            None => {
                return None;
            },
        };
        proof {
            lemma_first_origin(self.factor_sources, first_at as int);
            assert(first_origin(self.factor_sources) == Some(*f));
            assert(shared_origin(self.factor_sources) == Some(f@));
        }
        match f.source {
            ContextFactorSource::Component => match &self.component_profile {
                Some(p) => if text_eq(p.profile_key.as_str(), f.identity.as_str()) {
                    Some(p)
                } else {
                    None
                },
                None => None,
            },
            ContextFactorSource::Collection => match &self.collection_profile {
                Some(p) => if text_eq(p.profile_key.as_str(), f.identity.as_str()) {
                    Some(p)
                } else {
                    None
                },
                None => None,
            },
            ContextFactorSource::Tag => {
                let mut j: usize = 0;
                while j < self.tag_profiles.len()
                    invariant
                        j <= self.tag_profiles@.len(),
                        shared_origin(self.factor_sources) == Some(f@),
                        f.source == ContextFactorSource::Tag,
                        forall|k: int| 0 <= k < j ==> self.tag_profiles@[k].profile_key@ != f.identity@,
                    decreases self.tag_profiles.len() - j,
                {
                    if text_eq(self.tag_profiles[j].profile_key.as_str(), f.identity.as_str()) {
                        proof {
                            assert(shared_origin(self.factor_sources) == Some(f@));
                            let key = f.identity@;
                            let t = self.tag_profiles@;
                            let c = choose|i: int| 0 <= i < t.len() && #[trigger] t[i].profile_key@ == key && forall|m: int| 0 <= m < i ==> t[m].profile_key@ != key;
                            assert(t[j as int].profile_key@ == key);
                            assert(c == j as int) by {
                                if c < j as int {
                                    assert(t[c].profile_key@ != key);
                                }
                                if c > j as int {
                                    assert(t[j as int].profile_key@ != key);
                                }
                            }
                        }
                        return Some(&self.tag_profiles[j]);
                    }
                    j = j + 1;
                }
                None
            },
        }
    }
}

} // verus!
