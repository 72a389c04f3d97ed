//! The staged per-port plan of service-detection rules.
//!
//! A plan holds the rules cleared to run now, the ids of rules that already
//! ran successfully, and the rules still blocked, each filed under one of
//! its unmet dependencies.  The plan clears a rule only once every one of
//! its declared dependencies has run successfully; rules whose dependencies
//! fail are never cleared and silently fall away with them.

use vstd::prelude::*;
use vstd::seq_lib::group_to_multiset_ensures;

use crate::service_detection::framework::{PortToAnalyze, Rule, RuleId};

verus! {

/// Every declared dependency of the rule is among the done ids.
pub open spec fn deps_satisfied(rule: Rule, done: Seq<RuleId>) -> bool {
    forall|k: int|
        0 <= k < rule.dependencies@.len() ==> done.contains(#[trigger] rule.dependencies@[k])
}

/// The applicable rules without dependencies of a rule list, in order:
/// what the first stage of a fresh plan runs.
pub open spec fn spec_initial_to_run(rules: Seq<Rule>, port: u16) -> Seq<Rule>
    decreases rules.len(),
{
    if rules.len() == 0 {
        Seq::empty()
    } else {
        let rest = spec_initial_to_run(rules.drop_first(), port);
        if rules[0].applies_to(port) && rules[0].dependencies@.len() == 0 {
            seq![rules[0]] + rest
        } else {
            rest
        }
    }
}

/// The applicable rules with dependencies of a rule list, in order, each
/// filed under its first dependency: what a fresh plan starts out holding
/// as blocked.
pub open spec fn spec_initial_blocked(rules: Seq<Rule>, port: u16) -> Seq<(RuleId, Rule)>
    decreases rules.len(),
{
    if rules.len() == 0 {
        Seq::empty()
    } else {
        let rest = spec_initial_blocked(rules.drop_first(), port);
        if rules[0].applies_to(port) && rules[0].dependencies@.len() > 0 {
            seq![(rules[0].dependencies@[0], rules[0])] + rest
        } else {
            rest
        }
    }
}

/// The first dependency of the rule that is not among the done ids.
pub open spec fn spec_first_unmet(deps: Seq<RuleId>, done: Seq<RuleId>) -> RuleId
    decreases deps.len(),
{
    if deps.len() == 0 {
        arbitrary()
    } else if !done.contains(deps[0]) {
        deps[0]
    } else {
        spec_first_unmet(deps.drop_first(), done)
    }
}

/// The rules of a blocked list, without their filing keys.
pub open spec fn blocked_rules(blocked: Seq<(RuleId, Rule)>) -> Seq<Rule> {
    blocked.map_values(|p: (RuleId, Rule)| p.1)
}

/// The rules of a blocked list drained by a stage: those filed under a
/// rule that just succeeded, in filing order.
pub open spec fn spec_drained(blocked: Seq<(RuleId, Rule)>, succeeded: Seq<RuleId>) -> Seq<Rule>
    decreases blocked.len(),
{
    if blocked.len() == 0 {
        Seq::empty()
    } else {
        let rest = spec_drained(blocked.drop_first(), succeeded);
        if succeeded.contains(blocked[0].0) {
            seq![blocked[0].1] + rest
        } else {
            rest
        }
    }
}

/// The entries of a blocked list a stage leaves filed: those whose filing
/// key did not just succeed, in filing order.
pub open spec fn spec_kept(blocked: Seq<(RuleId, Rule)>, succeeded: Seq<RuleId>) -> Seq<
    (RuleId, Rule),
>
    decreases blocked.len(),
{
    if blocked.len() == 0 {
        Seq::empty()
    } else {
        let rest = spec_kept(blocked.drop_first(), succeeded);
        if succeeded.contains(blocked[0].0) {
            rest
        } else {
            seq![blocked[0]] + rest
        }
    }
}

/// The drained rules a stage clears to run: those whose dependencies are
/// now all met, in drained order.
pub open spec fn spec_cleared(drained: Seq<Rule>, done: Seq<RuleId>) -> Seq<Rule>
    decreases drained.len(),
{
    if drained.len() == 0 {
        Seq::empty()
    } else {
        let rest = spec_cleared(drained.drop_first(), done);
        if deps_satisfied(drained[0], done) {
            seq![drained[0]] + rest
        } else {
            rest
        }
    }
}

/// The drained rules a stage refiles: those still missing a dependency,
/// in drained order, each filed under its first unmet dependency.
pub open spec fn spec_refiled(drained: Seq<Rule>, done: Seq<RuleId>) -> Seq<(RuleId, Rule)>
    decreases drained.len(),
{
    if drained.len() == 0 {
        Seq::empty()
    } else {
        let rest = spec_refiled(drained.drop_first(), done);
        if deps_satisfied(drained[0], done) {
            rest
        } else {
            seq![(spec_first_unmet(drained[0].dependencies@, done), drained[0])] + rest
        }
    }
}

/// A staged schedule of rules for one port, constructed and advanced by
/// the service-detection planner.
#[derive(Debug)]
pub struct PortTestPlan {
    port_to_analyze: PortToAnalyze,
    to_run: Vec<Rule>,
    already_successfully_run: Vec<RuleId>,
    blocked: Vec<(RuleId, Rule)>,
}

impl PortTestPlan {
    /// The port this plan is for.
    pub closed spec fn spec_port(&self) -> u16 {
        self.port_to_analyze.port
    }

    /// The rules cleared to run in the current stage.
    pub closed spec fn spec_to_run(&self) -> Seq<Rule> {
        self.to_run@
    }

    /// The ids of rules that already ran successfully.
    pub closed spec fn spec_done(&self) -> Seq<RuleId> {
        self.already_successfully_run@
    }

    /// The blocked rules with their filing keys, in filing order.
    pub closed spec fn spec_blocked_entries(&self) -> Seq<(RuleId, Rule)> {
        self.blocked@
    }

    /// The rules still blocked on unmet dependencies.
    pub open spec fn spec_blocked(&self) -> Seq<Rule> {
        blocked_rules(self.spec_blocked_entries())
    }

    /// The plan's invariant.  Its heart is the dependency rule: a rule is
    /// cleared to run only when every one of its declared dependencies has
    /// already run successfully; and a blocked rule is filed under one of
    /// its own dependencies that has not.  Every rule in the plan applies
    /// to the plan's port.
    pub open spec fn well_formed(&self) -> bool {
        &&& forall|k: int|
            0 <= k < self.spec_to_run().len() ==> deps_satisfied(
                #[trigger] self.spec_to_run()[k],
                self.spec_done(),
            )
        &&& forall|k: int|
            0 <= k < self.spec_to_run().len() ==> (#[trigger] self.spec_to_run()[k]).applies_to(
                self.spec_port(),
            )
        &&& forall|k: int|
            0 <= k < self.spec_blocked_entries().len() ==> (
            #[trigger] self.spec_blocked_entries()[k]).1.applies_to(self.spec_port())
        &&& forall|k: int|
            0 <= k < self.spec_blocked_entries().len() ==> (
            #[trigger] self.spec_blocked_entries()[k]).1.dependencies@.contains(
                self.spec_blocked_entries()[k].0,
            )
        &&& forall|k: int|
            0 <= k < self.spec_blocked_entries().len() ==> !self.spec_done().contains(
                (#[trigger] self.spec_blocked_entries()[k]).0,
            )
    }

    /// Build the first stage of a plan: applicable rules without
    /// dependencies are cleared to run, applicable rules with dependencies
    /// are filed as blocked under their first dependency, and rules whose
    /// hints do not cover the port are left out entirely.
    pub fn new(port_to_analyze: PortToAnalyze, rules: Vec<Rule>) -> (r: Self)
        ensures
            r.well_formed(),
            r.spec_port() == port_to_analyze.port,
            r.spec_done().len() == 0,
            r.spec_to_run() == spec_initial_to_run(rules@, port_to_analyze.port),
            r.spec_blocked_entries() == spec_initial_blocked(rules@, port_to_analyze.port),
    {
        let port = port_to_analyze.port;
        let ghost all = rules@;
        let mut remaining = rules;
        let mut to_run: Vec<Rule> = Vec::new();
        let mut blocked: Vec<(RuleId, Rule)> = Vec::new();
        while remaining.len() > 0
            invariant
                to_run@ + spec_initial_to_run(remaining@, port) == spec_initial_to_run(all, port),
                blocked@ + spec_initial_blocked(remaining@, port) == spec_initial_blocked(
                    all,
                    port,
                ),
                forall|k: int| 0 <= k < to_run@.len() ==> (#[trigger] to_run@[k]).applies_to(port),
                forall|k: int|
                    0 <= k < to_run@.len() ==> (#[trigger] to_run@[k]).dependencies@.len() == 0,
                forall|k: int|
                    0 <= k < blocked@.len() ==> (#[trigger] blocked@[k]).1.applies_to(port),
                forall|k: int|
                    0 <= k < blocked@.len() ==> (#[trigger] blocked@[k]).1.dependencies@.contains(
                        blocked@[k].0,
                    ),
            decreases remaining@.len(),
        {
            let ghost before = remaining@;
            let rule = remaining.remove(0);
            proof {
                assert(before.drop_first() =~= remaining@);
            }
            if rule.applies_to_port(port) {
                if rule.dependencies.len() == 0 {
                    proof {
                        assert(to_run@.push(rule) + spec_initial_to_run(remaining@, port)
                            =~= to_run@ + (seq![rule] + spec_initial_to_run(remaining@, port)));
                    }
                    to_run.push(rule);
                } else {
                    let key = rule.dependencies[0];
                    proof {
                        assert(rule.dependencies@.contains(key));
                        assert(blocked@.push((key, rule)) + spec_initial_blocked(remaining@, port)
                            =~= blocked@ + (seq![(key, rule)] + spec_initial_blocked(
                            remaining@,
                            port,
                        )));
                    }
                    blocked.push((key, rule));
                }
            }
        }
        proof {
            assert(to_run@ + Seq::<Rule>::empty() =~= to_run@);
            assert(blocked@ + Seq::<(RuleId, Rule)>::empty() =~= blocked@);
        }
        PortTestPlan {
            port_to_analyze,
            to_run,
            already_successfully_run: Vec::new(),
            blocked,
        }
    }

    /// Advance the plan after a stage ran: record which rules succeeded,
    /// drain their dependents from the blocked list, clear every drained
    /// rule whose dependencies are now all met, and refile the rest under
    /// their first still-unmet dependency.  No blocked rule is invented or
    /// lost: each one either stays blocked or is cleared to run.
    pub fn build_next_stage_plan(self, successfully_run: Vec<RuleId>) -> (r: Self)
        requires
            self.well_formed(),
        ensures
            r.well_formed(),
            r.spec_port() == self.spec_port(),
            r.spec_done() == self.spec_done() + successfully_run@,
            r.spec_to_run() == spec_cleared(
                spec_drained(self.spec_blocked_entries(), successfully_run@),
                r.spec_done(),
            ),
            r.spec_blocked_entries() == spec_kept(self.spec_blocked_entries(), successfully_run@)
                + spec_refiled(
                spec_drained(self.spec_blocked_entries(), successfully_run@),
                r.spec_done(),
            ),
            r.spec_to_run().to_multiset().add(r.spec_blocked().to_multiset())
                == self.spec_blocked().to_multiset(),
    {
        broadcast use group_to_multiset_ensures;

        let PortTestPlan { port_to_analyze, to_run: _, already_successfully_run, blocked } = self;
        let ghost port = port_to_analyze.port;
        let ghost old_blocked = blocked@;
        let ghost sr = successfully_run@;

        // Partition the blocked list: dependents of a rule that just
        // succeeded are drained for re-examination, the rest stay filed.
        let mut drained: Vec<Rule> = Vec::new();
        let mut kept: Vec<(RuleId, Rule)> = Vec::new();
        let mut remaining = blocked;
        proof {
            assert(drained@ + spec_drained(remaining@, sr) =~= spec_drained(old_blocked, sr));
            assert(kept@ + spec_kept(remaining@, sr) =~= spec_kept(old_blocked, sr));
        }
        while remaining.len() > 0
            invariant
                sr == successfully_run@,
                drained@ + spec_drained(remaining@, sr) == spec_drained(old_blocked, sr),
                kept@ + spec_kept(remaining@, sr) == spec_kept(old_blocked, sr),
                drained@.to_multiset().add(blocked_rules(kept@).to_multiset()).add(
                    blocked_rules(remaining@).to_multiset(),
                ) == blocked_rules(old_blocked).to_multiset(),
                forall|k: int|
                    0 <= k < drained@.len() ==> (#[trigger] drained@[k]).applies_to(port),
                forall|k: int| 0 <= k < kept@.len() ==> (#[trigger] kept@[k]).1.applies_to(port),
                forall|k: int|
                    0 <= k < kept@.len() ==> (#[trigger] kept@[k]).1.dependencies@.contains(
                        kept@[k].0,
                    ),
                forall|k: int|
                    0 <= k < kept@.len() ==> !successfully_run@.contains((#[trigger] kept@[k]).0)
                        && !already_successfully_run@.contains(kept@[k].0),
                forall|k: int|
                    0 <= k < remaining@.len() ==> (#[trigger] remaining@[k]).1.applies_to(port),
                forall|k: int|
                    0 <= k < remaining@.len() ==> (
                    #[trigger] remaining@[k]).1.dependencies@.contains(remaining@[k].0),
                forall|k: int|
                    0 <= k < remaining@.len() ==> !already_successfully_run@.contains(
                        (#[trigger] remaining@[k]).0,
                    ),
            decreases remaining@.len(),
        {
            let ghost before = remaining@;
            let ghost d0 = drained@;
            let ghost k0 = kept@;
            let pair = remaining.remove(0);
            proof {
                broadcast use group_to_multiset_ensures;
                broadcast use vstd::multiset::group_multiset_axioms;

                assert(before.drop_first() =~= remaining@);
                assert(blocked_rules(before) =~= blocked_rules(remaining@).insert(
                    0,
                    before[0].1,
                ));
                assert(blocked_rules(remaining@).insert(0, before[0].1).to_multiset()
                    == blocked_rules(remaining@).to_multiset().insert(before[0].1));
            }
            if vec_contains_id(&successfully_run, pair.0) {
                drained.push(pair.1);
                proof {
                    broadcast use group_to_multiset_ensures;
                    broadcast use vstd::multiset::group_multiset_axioms;

                    assert(drained@ =~= d0.push(pair.1));
                    assert(drained@ + spec_drained(remaining@, sr) =~= d0 + (seq![pair.1]
                        + spec_drained(remaining@, sr)));
                    assert(drained@.to_multiset().add(blocked_rules(kept@).to_multiset()).add(
                        blocked_rules(remaining@).to_multiset(),
                    ) =~= d0.to_multiset().add(blocked_rules(k0).to_multiset()).add(
                        blocked_rules(remaining@).to_multiset().insert(pair.1),
                    ));
                }
            } else {
                proof {
                    broadcast use group_to_multiset_ensures;
                    broadcast use vstd::multiset::group_multiset_axioms;

                    assert(blocked_rules(kept@.push(pair)) =~= blocked_rules(kept@).push(pair.1));
                }
                kept.push(pair);
                proof {
                    broadcast use group_to_multiset_ensures;
                    broadcast use vstd::multiset::group_multiset_axioms;

                    assert(kept@ =~= k0.push(pair));
                    assert(blocked_rules(kept@) =~= blocked_rules(k0).push(pair.1));
                    assert(kept@ + spec_kept(remaining@, sr) =~= k0 + (seq![pair]
                        + spec_kept(remaining@, sr)));
                    assert(drained@.to_multiset().add(blocked_rules(kept@).to_multiset()).add(
                        blocked_rules(remaining@).to_multiset(),
                    ) =~= d0.to_multiset().add(blocked_rules(k0).to_multiset()).add(
                        blocked_rules(remaining@).to_multiset().insert(pair.1),
                    ));
                }
            }
        }
        proof {
            assert(drained@ + Seq::<Rule>::empty() =~= drained@);
            assert(kept@ + Seq::<(RuleId, Rule)>::empty() =~= kept@);
        }

        // Record the newly succeeded rules.
        let mut done = already_successfully_run;
        let mut newly = successfully_run;
        done.append(&mut newly);
        let ghost done_ids = done@;
        let ghost drained_all = drained@;
        let ghost kept1 = kept@;

        // Re-examine every drained rule: cleared when all dependencies are
        // met, refiled under its first unmet dependency otherwise.
        let mut to_run: Vec<Rule> = Vec::new();
        let mut queue = drained;
        proof {
            assert(to_run@ + spec_cleared(queue@, done_ids) =~= spec_cleared(
                drained_all,
                done_ids,
            ));
            assert(kept@ + spec_refiled(queue@, done_ids) =~= kept1 + spec_refiled(
                drained_all,
                done_ids,
            ));
        }
        while queue.len() > 0
            invariant
                done@ == done_ids,
                to_run@ + spec_cleared(queue@, done_ids) == spec_cleared(drained_all, done_ids),
                kept@ + spec_refiled(queue@, done_ids) == kept1 + spec_refiled(
                    drained_all,
                    done_ids,
                ),
                to_run@.to_multiset().add(blocked_rules(kept@).to_multiset()).add(
                    queue@.to_multiset(),
                ) == blocked_rules(old_blocked).to_multiset(),
                forall|k: int| 0 <= k < queue@.len() ==> (#[trigger] queue@[k]).applies_to(port),
                forall|k: int| 0 <= k < to_run@.len() ==> (#[trigger] to_run@[k]).applies_to(port),
                forall|k: int|
                    0 <= k < to_run@.len() ==> deps_satisfied(#[trigger] to_run@[k], done@),
                forall|k: int| 0 <= k < kept@.len() ==> (#[trigger] kept@[k]).1.applies_to(port),
                forall|k: int|
                    0 <= k < kept@.len() ==> (#[trigger] kept@[k]).1.dependencies@.contains(
                        kept@[k].0,
                    ),
                forall|k: int| 0 <= k < kept@.len() ==> !done@.contains((#[trigger] kept@[k]).0),
            decreases queue@.len(),
        {
            let ghost before = queue@;
            let ghost t0 = to_run@;
            let ghost k0 = kept@;
            let rule = queue.remove(0);
            proof {
                broadcast use group_to_multiset_ensures;
                broadcast use vstd::multiset::group_multiset_axioms;

                assert(before.drop_first() =~= queue@);
                assert(before =~= queue@.insert(0, rule));
                assert(queue@.insert(0, rule).to_multiset() == queue@.to_multiset().insert(rule));
            }
            match first_unmet_dependency(&rule, &done) {
                None => {
                    to_run.push(rule);
                    proof {
                        broadcast use group_to_multiset_ensures;
                        broadcast use vstd::multiset::group_multiset_axioms;

                        assert(to_run@ =~= t0.push(rule));
                        assert(to_run@ + spec_cleared(queue@, done_ids) =~= t0 + (seq![rule]
                            + spec_cleared(queue@, done_ids)));
                        assert(to_run@.to_multiset().add(blocked_rules(kept@).to_multiset()).add(
                            queue@.to_multiset(),
                        ) =~= t0.to_multiset().add(blocked_rules(k0).to_multiset()).add(
                            queue@.to_multiset().insert(rule),
                        ));
                    }
                },
                Some(key) => {
                    proof {
                        assert(rule.dependencies@.contains(key));
                        assert(!deps_satisfied(rule, done_ids));
                        broadcast use group_to_multiset_ensures;
                        broadcast use vstd::multiset::group_multiset_axioms;

                        assert(blocked_rules(kept@.push((key, rule))) =~= blocked_rules(
                            kept@,
                        ).push(rule));
                    }
                    kept.push((key, rule));
                    proof {
                        broadcast use group_to_multiset_ensures;
                        broadcast use vstd::multiset::group_multiset_axioms;

                        assert(kept@ =~= k0.push((key, rule)));
                        assert(blocked_rules(kept@) =~= blocked_rules(k0).push(rule));
                        assert(kept@ + spec_refiled(queue@, done_ids) =~= k0 + (seq![
                            (key, rule),
                        ] + spec_refiled(queue@, done_ids)));
                        assert(to_run@.to_multiset().add(blocked_rules(kept@).to_multiset()).add(
                            queue@.to_multiset(),
                        ) =~= t0.to_multiset().add(blocked_rules(k0).to_multiset()).add(
                            queue@.to_multiset().insert(rule),
                        ));
                    }
                },
            }
        }
        proof {
            assert(to_run@ + Seq::<Rule>::empty() =~= to_run@);
            assert(kept@ + Seq::<(RuleId, Rule)>::empty() =~= kept@);
        }
        PortTestPlan {
            port_to_analyze,
            to_run,
            already_successfully_run: done,
            blocked: kept,
        }
    }

    /// Whether the current stage has any rule to run.
    pub fn has_actions_to_run(&self) -> (r: bool)
        ensures
            r == (self.spec_to_run().len() > 0),
    {
        self.to_run.len() > 0
    }

    /// The rules cleared to run in the current stage.
    pub fn rules_to_run(&self) -> (r: &Vec<Rule>)
        ensures
            r@ == self.spec_to_run(),
    {
        &self.to_run
    }
}

/// Whether a list of rule ids holds the given id.
fn vec_contains_id(ids: &Vec<RuleId>, id: RuleId) -> (r: bool)
    ensures
        r == ids@.contains(id),
{
    let mut i: usize = 0;
    while i < ids.len()
        invariant
            i <= ids@.len(),
            forall|k: int| 0 <= k < i ==> ids@[k] != id,
        decreases ids@.len() - i,
    {
        if ids[i] == id {
            return true;
        }
        i = i + 1;
    }
    false
}

/// The first unmet dependency is characterized by its position: every
/// dependency before it is done, and it is not.
proof fn lemma_first_unmet_at(deps: Seq<RuleId>, done: Seq<RuleId>, i: int)
    requires
        0 <= i < deps.len(),
        forall|k: int| 0 <= k < i ==> done.contains(#[trigger] deps[k]),
        !done.contains(deps[i]),
    ensures
        spec_first_unmet(deps, done) == deps[i],
    decreases i,
{
    if i > 0 {
        assert forall|k: int| 0 <= k < i - 1 implies done.contains(
            #[trigger] deps.drop_first()[k],
        ) by {
            assert(deps.drop_first()[k] == deps[k + 1]);
        }
        assert(deps.drop_first()[i - 1] == deps[i]);
        lemma_first_unmet_at(deps.drop_first(), done, i - 1);
    }
}

/// The first dependency of the rule that is not yet done, if any.
fn first_unmet_dependency(rule: &Rule, done: &Vec<RuleId>) -> (r: Option<RuleId>)
    ensures
        match r {
            None => deps_satisfied(*rule, done@),
            Some(key) => {
                &&& rule.dependencies@.contains(key)
                &&& !done@.contains(key)
                &&& key == spec_first_unmet(rule.dependencies@, done@)
                &&& !deps_satisfied(*rule, done@)
            },
        },
{
    let mut i: usize = 0;
    while i < rule.dependencies.len()
        invariant
            i <= rule.dependencies@.len(),
            forall|k: int| 0 <= k < i ==> done@.contains(#[trigger] rule.dependencies@[k]),
        decreases rule.dependencies@.len() - i,
    {
        if !vec_contains_id(done, rule.dependencies[i]) {
            proof {
                lemma_first_unmet_at(rule.dependencies@, done@, i as int);
            }
            return Some(rule.dependencies[i]);
        }
        i = i + 1;
    }
    None
}

/// The dependency law of the planner: a well-formed plan clears a rule to
/// run only when every one of the rule's declared dependencies has already
/// run successfully.  Since a plan's done list only ever grows by the rules
/// the driver reports as succeeded, every dependency of a cleared rule ran
/// and succeeded in an earlier stage.
pub proof fn lemma_plan_respects_dependencies(plan: PortTestPlan, k: int)
    requires
        plan.well_formed(),
        0 <= k < plan.spec_to_run().len(),
    ensures
        deps_satisfied(plan.spec_to_run()[k], plan.spec_done()),
{
}

} // verus!
