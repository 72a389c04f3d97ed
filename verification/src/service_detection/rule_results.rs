//! The store of intermediate rule results.
//!
//! Each successfully run rule files its result here, keyed by its rule id;
//! later rules fetch the results of the rules they declared as
//! dependencies, and the scan collects every conclusion at the end.

use vstd::prelude::*;

use crate::service_detection::framework::{RuleId, ServiceDetectionConclusion};
use crate::service_detection::rules::{
    BasicHttpGetProbeResult, BasicSSLProbeResult, NginxDetectionRuleResult, HTTP_GET_PROBE_RULE_ID,
    NGINX_DETECTION_RULE_ID, SSL_PROBE_RULE_ID,
};

verus! {

/// The result of one rule run, as a tagged payload.  The tag decides which
/// rule the payload belongs to.
#[derive(Clone, Debug)]
pub enum RuleOutcome {
    /// A result of the TLS probe.
    Ssl(BasicSSLProbeResult),
    /// A result of the HTTP GET probe.
    Http(BasicHttpGetProbeResult),
    /// A result of the nginx detector.
    Nginx(NginxDetectionRuleResult),
}

impl RuleOutcome {
    /// The id of the rule this outcome belongs to.
    pub open spec fn spec_rule_id(&self) -> RuleId {
        match self {
            RuleOutcome::Ssl(_) => RuleId { internal: SSL_PROBE_RULE_ID },
            RuleOutcome::Http(_) => RuleId { internal: HTTP_GET_PROBE_RULE_ID },
            RuleOutcome::Nginx(_) => RuleId { internal: NGINX_DETECTION_RULE_ID },
        }
    }

    /// The conclusion this outcome contributes, if any: only the nginx
    /// detector ever concludes anything.
    pub open spec fn spec_conclusion(&self) -> Option<ServiceDetectionConclusion> {
        match self {
            RuleOutcome::Ssl(_) => None,
            RuleOutcome::Http(_) => None,
            RuleOutcome::Nginx(n) => n.conclusion,
        }
    }

    /// The id of the rule this outcome belongs to.
    pub fn get_rule_id(&self) -> (r: RuleId)
        ensures
            r == self.spec_rule_id(),
    {
        match self {
            RuleOutcome::Ssl(_) => RuleId::new(SSL_PROBE_RULE_ID),
            RuleOutcome::Http(_) => RuleId::new(HTTP_GET_PROBE_RULE_ID),
            RuleOutcome::Nginx(_) => RuleId::new(NGINX_DETECTION_RULE_ID),
        }
    }

    /// The conclusion this outcome contributes, if any.
    pub fn get_conclusion(&self) -> (r: Option<ServiceDetectionConclusion>)
        ensures
            r == self.spec_conclusion(),
    {
        match self {
            RuleOutcome::Nginx(n) => match &n.conclusion {
                Some(c) => Some(copy_conclusion(c)),
                None => None,
            },
            _ => None,
        }
    }
}

/// Copy a conclusion value field by field.
fn copy_conclusion(c: &ServiceDetectionConclusion) -> (r: ServiceDetectionConclusion)
    ensures
        r == *c,
{
    ServiceDetectionConclusion {
        certainty: c.certainty,
        service_name: c.service_name.clone(),
        service_version: match &c.service_version {
            Some(v) => Some(v.clone()),
            None => None,
        },
    }
}

/// Every conclusion carried by a list of stored outcomes, in store order.
pub open spec fn spec_conclusions(entries: Seq<(RuleId, RuleOutcome)>) -> Seq<
    ServiceDetectionConclusion,
>
    decreases entries.len(),
{
    if entries.len() == 0 {
        Seq::empty()
    } else {
        let rest = spec_conclusions(entries.drop_first());
        match entries[0].1.spec_conclusion() {
            Some(c) => seq![c] + rest,
            None => rest,
        }
    }
}

/// A container that packages up all intermediate rule results of one
/// port's analysis.
#[derive(Clone, Debug)]
pub struct RuleResults {
    store: Vec<(RuleId, RuleOutcome)>,
}

impl RuleResults {
    /// The stored entries, in insertion order.
    pub closed spec fn entries(&self) -> Seq<(RuleId, RuleOutcome)> {
        self.store@
    }

    /// Whether a result for this rule id is stored.
    pub open spec fn spec_contains(&self, id: RuleId) -> bool {
        exists|k: int| 0 <= k < self.entries().len() && (#[trigger] self.entries()[k]).0 == id
    }

    /// The stored outcome for a rule id.
    pub open spec fn spec_get(&self, id: RuleId) -> RuleOutcome {
        let k = choose|k: int|
            0 <= k < self.entries().len() && (#[trigger] self.entries()[k]).0 == id;
        self.entries()[k].1
    }

    /// Keys are unique and every entry is keyed by its own rule id.
    pub open spec fn well_formed(&self) -> bool {
        &&& forall|j: int, k: int|
            0 <= j < k < self.entries().len() ==> (#[trigger] self.entries()[j]).0 != (
            #[trigger] self.entries()[k]).0
        &&& forall|k: int|
            0 <= k < self.entries().len() ==> (#[trigger] self.entries()[k]).1.spec_rule_id()
                == self.entries()[k].0
    }

    /// An empty store.
    pub fn new() -> (r: Self)
        ensures
            r.entries().len() == 0,
            r.well_formed(),
    {
        RuleResults { store: Vec::new() }
    }

    /// File the result of a successfully run rule.  A rule runs at most
    /// once per port, so a result for its id may not already be stored.
    pub fn insert_result(&mut self, result: RuleOutcome)
        requires
            old(self).well_formed(),
            !old(self).spec_contains(result.spec_rule_id()),
        ensures
            final(self).well_formed(),
            final(self).entries() == old(self).entries().push(
                (result.spec_rule_id(), result),
            ),
            final(self).spec_contains(result.spec_rule_id()),
    {
        let id = result.get_rule_id();
        self.store.push((id, result));
        proof {
            let entries = self.store@;
            let prior = old(self).entries();
            assert(entries =~= prior.push((result.spec_rule_id(), result)));
            assert forall|k: int|
                0 <= k < entries.len() implies (#[trigger] entries[k]).1.spec_rule_id()
                == entries[k].0 by {
                if k < entries.len() - 1 {
                    assert(entries[k] == prior[k]);
                }
            }
            assert forall|j: int, k: int|
                0 <= j < k < entries.len() implies (#[trigger] entries[j]).0 != (
            #[trigger] entries[k]).0 by {
                if k == entries.len() - 1 {
                    assert(entries[j] == prior[j]);
                    assert(prior[j].0 != result.spec_rule_id());
                }
            }
            assert(entries[entries.len() - 1].0 == result.spec_rule_id());
        }
    }

    /// Whether a result for this rule id has been filed.
    pub fn contains(&self, id: RuleId) -> (r: bool)
        ensures
            r == self.spec_contains(id),
    {
        let mut i: usize = 0;
        while i < self.store.len()
            invariant
                i <= self.store@.len(),
                forall|k: int| 0 <= k < i ==> (#[trigger] self.store@[k]).0 != id,
            decreases self.store@.len() - i,
        {
            if self.store[i].0 == id {
                proof {
                    assert(self.entries()[i as int].0 == id);
                }
                return true;
            }
            i = i + 1;
        }
        proof {
            assert forall|k: int|
                0 <= k < self.entries().len() implies (#[trigger] self.entries()[k]).0 != id by {
                assert(self.store@[k].0 != id);
            }
        }
        false
    }

    /// Fetch the stored result of a dependency.  Asking for a rule that
    /// was never filed is a programming error, so the caller must know the
    /// result is present.
    pub fn get_results(&self, id: RuleId) -> (r: &RuleOutcome)
        requires
            self.well_formed(),
            self.spec_contains(id),
        ensures
            *r == self.spec_get(id),
            r.spec_rule_id() == id,
    {
        let mut i: usize = 0;
        while i < self.store.len()
            invariant
                self.well_formed(),
                self.spec_contains(id),
                i <= self.store@.len(),
                forall|k: int| 0 <= k < i ==> (#[trigger] self.store@[k]).0 != id,
            decreases self.store@.len() - i,
        {
            if self.store[i].0 == id {
                return &self.store[i].1;
            }
            i = i + 1;
        }
        proof {
            assert(false);
        }
        unreached()
    }

    /// Walk all stored results and return every conclusion, in store
    /// order.  Nothing is ranked or filtered: they are all returned.
    pub fn get_conclusion(&self) -> (r: Vec<ServiceDetectionConclusion>)
        ensures
            r@ == spec_conclusions(self.entries()),
    {
        let mut out: Vec<ServiceDetectionConclusion> = Vec::new();
        let mut i: usize = 0;
        proof {
            assert(self.store@.skip(0int) =~= self.store@);
            assert(out@ + spec_conclusions(self.store@) =~= spec_conclusions(self.store@));
        }
        while i < self.store.len()
            invariant
                i <= self.store@.len(),
                out@ + spec_conclusions(self.store@.skip(i as int)) == spec_conclusions(
                    self.store@,
                ),
            decreases self.store@.len() - i,
        {
            proof {
                assert(self.store@.skip(i as int)[0] == self.store@[i as int]);
                assert(self.store@.skip(i as int).drop_first() =~= self.store@.skip(i + 1int));
            }
            match self.store[i].1.get_conclusion() {
                Some(c) => {
                    proof {
                        assert(out@.push(c) + spec_conclusions(self.store@.skip(i + 1int))
                            =~= out@ + (seq![c] + spec_conclusions(self.store@.skip(i + 1int))));
                    }
                    out.push(c);
                },
                None => {},
            }
            i = i + 1;
        }
        proof {
            assert(self.store@.skip(self.store@.len() as int).len() == 0);
            assert(out@ + Seq::<ServiceDetectionConclusion>::empty() =~= out@);
        }
        out
    }
}

} // verus!
