//! The pipeline: named stages, each with its registered systems, run once per
//! frame in a fixed order after a one-time startup.

use crate::commands::Commands;
use crate::ecs::Ecs;
use crate::model::{lemma_apply_all_frame, World};
use crate::order::{plan_of, resolve_order, resolved, Entry, Scheduled, ScheduledSystem};
use crate::text::names_of;
use crate::system::System;
use vstd::prelude::*;

verus! {

/// The stages of the pipeline. The first three run once, when the first frame
/// is advanced; the other five run every frame, in this order.
#[derive(Clone, Copy, Debug, PartialEq, Eq, Structural)]
pub enum Stage {
    PreStartup,
    Startup,
    PostStartup,
    First,
    PreUpdate,
    Update,
    PostUpdate,
    Last,
}

/// The name of a stage.
pub fn key(stage: Stage) -> (name: &'static str)
    ensures
        name@ == stage_name(stage),
{
    match stage {
        Stage::PreStartup => "pre_startup",
        Stage::Startup => "startup",
        Stage::PostStartup => "post_startup",
        Stage::First => "first",
        Stage::PreUpdate => "pre_update",
        Stage::Update => "update",
        Stage::PostUpdate => "post_update",
        Stage::Last => "last",
    }
}

/// The name of a stage, as text.
pub open spec fn stage_name(stage: Stage) -> Seq<char> {
    match stage {
        Stage::PreStartup => "pre_startup"@,
        Stage::Startup => "startup"@,
        Stage::PostStartup => "post_startup"@,
        Stage::First => "first"@,
        Stage::PreUpdate => "pre_update"@,
        Stage::Update => "update"@,
        Stage::PostUpdate => "post_update"@,
        Stage::Last => "last"@,
    }
}

/// What a pipeline knows: the constraints of the systems registered in each
/// stage, in registration order, and whether the startup stages have run.
pub ghost struct Pipeline {
    pub pre_startup: Seq<Entry>,
    pub startup: Seq<Entry>,
    pub post_startup: Seq<Entry>,
    pub first: Seq<Entry>,
    pub pre_update: Seq<Entry>,
    pub update: Seq<Entry>,
    pub post_update: Seq<Entry>,
    pub last: Seq<Entry>,
    pub ran_startup: bool,
}

impl Pipeline {
    /// The constraints of the systems of `stage`.
    pub open spec fn plan(self, stage: Stage) -> Seq<Entry> {
        match stage {
            Stage::PreStartup => self.pre_startup,
            Stage::Startup => self.startup,
            Stage::PostStartup => self.post_startup,
            Stage::First => self.first,
            Stage::PreUpdate => self.pre_update,
            Stage::Update => self.update,
            Stage::PostUpdate => self.post_update,
            Stage::Last => self.last,
        }
    }

    /// The pipeline with one more system at the end of `stage`.
    pub open spec fn with_system(self, stage: Stage, entry: Entry) -> Pipeline {
        match stage {
            Stage::PreStartup => Pipeline { pre_startup: self.pre_startup.push(entry), ..self },
            Stage::Startup => Pipeline { startup: self.startup.push(entry), ..self },
            Stage::PostStartup => Pipeline { post_startup: self.post_startup.push(entry), ..self },
            Stage::First => Pipeline { first: self.first.push(entry), ..self },
            Stage::PreUpdate => Pipeline { pre_update: self.pre_update.push(entry), ..self },
            Stage::Update => Pipeline { update: self.update.push(entry), ..self },
            Stage::PostUpdate => Pipeline { post_update: self.post_update.push(entry), ..self },
            Stage::Last => Pipeline { last: self.last.push(entry), ..self },
        }
    }

    /// The execution order of the systems of `stage`.
    pub open spec fn order(self, stage: Stage) -> Seq<usize> {
        resolved(self.plan(stage))
    }
}

/// Two pipelines with the same systems in every stage and the same latch are
/// the same.
pub proof fn lemma_same_plans(a: Pipeline, b: Pipeline)
    requires
        forall|stage: Stage| a.plan(stage) == b.plan(stage),
        a.ran_startup == b.ran_startup,
    ensures
        a == b,
{
    assert(a.plan(Stage::PreStartup) == b.plan(Stage::PreStartup));
    assert(a.plan(Stage::Startup) == b.plan(Stage::Startup));
    assert(a.plan(Stage::PostStartup) == b.plan(Stage::PostStartup));
    assert(a.plan(Stage::First) == b.plan(Stage::First));
    assert(a.plan(Stage::PreUpdate) == b.plan(Stage::PreUpdate));
    assert(a.plan(Stage::Update) == b.plan(Stage::Update));
    assert(a.plan(Stage::PostUpdate) == b.plan(Stage::PostUpdate));
    assert(a.plan(Stage::Last) == b.plan(Stage::Last));
}

/// A pipeline that differs from another one by one more system at the end of
/// one stage is that pipeline with the system.
pub proof fn lemma_with_system(before: Pipeline, after: Pipeline, stage: Stage, entry: Entry)
    requires
        after.plan(stage) == before.plan(stage).push(entry),
        forall|other: Stage| other != stage ==> after.plan(other) == before.plan(other),
        after.ran_startup == before.ran_startup,
    ensures
        after == before.with_system(stage, entry),
{
    let expected = before.with_system(stage, entry);
    lemma_same_plans(after, expected);
}

/// Determinism: the execution order of a stage depends on the registered
/// constraints alone. Two pipelines that agree on a stage's systems, such as
/// one pipeline before and after a run of the stage, resolve the same order
/// for it.
pub proof fn law_same_systems_same_order(first: Pipeline, second: Pipeline, stage: Stage)
    requires
        first.plan(stage) == second.plan(stage),
    ensures
        first.order(stage) == second.order(stage),
{
}

/// The names in a list of string slices.
pub open spec fn slice_names(list: Seq<&str>) -> Seq<Seq<char>> {
    list.map_values(|s: &str| s@)
}

/// Owned copies of the strings in `list`.
pub fn owned_names(list: &[&str]) -> (names: Vec<String>)
    ensures
        names_of(names@) == slice_names(list@),
{
    let mut names: Vec<String> = Vec::new();
    let mut i: usize = 0;
    while i < list.len()
        invariant
            i <= list@.len(),
            names@.len() == i,
            forall|k: int| 0 <= k < i ==> (#[trigger] names@[k])@ == list@[k]@,
        decreases list@.len() - i,
    {
        names.push(list[i].to_owned());
        i += 1;
    }
    names
}

impl<S> Scheduled<S> {
    /// `sys` with an optional label, the labels of the systems it must run
    /// before and after, and its order.
    pub fn new(order: i32, label: Option<&str>, before: &[&str], after: &[&str], sys: S) -> (r: Self)
        ensures
            r.sys == sys,
            r.entry() == (Entry {
                order: order as int,
                label: match label {
                    Some(l) => Some(l@),
                    None => None,
                },
                before: slice_names(before@),
                after: slice_names(after@),
            }),
    {
        Scheduled {
            order,
            label: match label {
                Some(l) => Some(l.to_owned()),
                None => None,
            },
            before: owned_names(before),
            after: owned_names(after),
            sys,
        }
    }
}

/// The systems of every stage, and the latch that lets the startup stages run
/// only once.
#[verifier::reject_recursive_types(V)]
pub struct Schedules<V> {
    pre_startup: Vec<ScheduledSystem<V>>,
    startup: Vec<ScheduledSystem<V>>,
    post_startup: Vec<ScheduledSystem<V>>,
    first: Vec<ScheduledSystem<V>>,
    pre_update: Vec<ScheduledSystem<V>>,
    update: Vec<ScheduledSystem<V>>,
    post_update: Vec<ScheduledSystem<V>>,
    last: Vec<ScheduledSystem<V>>,
    ran_startup: bool,
}

impl<V> View for Schedules<V> {
    type V = Pipeline;

    open spec fn view(&self) -> Pipeline {
        Pipeline {
            pre_startup: plan_of(self.systems(Stage::PreStartup)),
            startup: plan_of(self.systems(Stage::Startup)),
            post_startup: plan_of(self.systems(Stage::PostStartup)),
            first: plan_of(self.systems(Stage::First)),
            pre_update: plan_of(self.systems(Stage::PreUpdate)),
            update: plan_of(self.systems(Stage::Update)),
            post_update: plan_of(self.systems(Stage::PostUpdate)),
            last: plan_of(self.systems(Stage::Last)),
            ran_startup: self.started(),
        }
    }
}

/// Whether the systems of `after` are those of `before` after some runs: as
/// many, with the same constraints, each with the effect it had.
pub open spec fn same_effects<V>(
    before: Seq<ScheduledSystem<V>>,
    after: Seq<ScheduledSystem<V>>,
) -> bool {
    &&& after.len() == before.len()
    &&& forall|k: int| 0 <= k < before.len() ==> (#[trigger] after[k]).entry() == before[k].entry()
    &&& forall|k: int, a: World<V>, b: World<V>|
        0 <= k < before.len() ==> #[trigger] after[k].sys.effect(a, b) == before[k].sys.effect(a, b)
}

/// Systems with the same constraints have the same plan.
pub proof fn lemma_same_effects_same_plan<V>(
    before: Seq<ScheduledSystem<V>>,
    after: Seq<ScheduledSystem<V>>,
)
    requires
        same_effects(before, after),
    ensures
        plan_of(after) == plan_of(before),
{
    assert(plan_of(after) =~= plan_of(before));
}

/// Systems that kept their constraints and effects run as before: a run of
/// the stage is possible with the one list exactly if it is with the other.
pub proof fn lemma_same_effects_same_runs<V>(
    before: Seq<ScheduledSystem<V>>,
    after: Seq<ScheduledSystem<V>>,
    from: World<V>,
    to: World<V>,
)
    requires
        same_effects(before, after),
        before.len() <= usize::MAX,
    ensures
        stage_ran(after, from, to) == stage_ran(before, from, to),
{
    lemma_same_effects_same_plan(before, after);
    let order = resolved(plan_of(before));
    crate::order_laws::law_order_is_rearrangement(plan_of(before));
    assert forall|k: int| 0 <= k < order.len() implies (#[trigger] order[k]) < before.len() by {
        assert(order.contains(order[k]));
    }
    if stage_ran(before, from, to) {
        let worlds = choose|worlds: Seq<World<V>>|
            #![trigger ran_in_order(before, resolved(plan_of(before)), worlds)]
            ran_in_order(before, resolved(plan_of(before)), worlds) && worlds[0] == opened(from)
                && to == settled(worlds.last());
        lemma_same_effects_in_order(before, after, order, worlds);
        assert(ran_in_order(after, resolved(plan_of(after)), worlds));
    }
    if stage_ran(after, from, to) {
        let worlds = choose|worlds: Seq<World<V>>|
            #![trigger ran_in_order(after, resolved(plan_of(after)), worlds)]
            ran_in_order(after, resolved(plan_of(after)), worlds) && worlds[0] == opened(from)
                && to == settled(worlds.last());
        lemma_same_effects_in_order(after, before, order, worlds);
        assert(ran_in_order(before, resolved(plan_of(before)), worlds));
    }
}

/// Worlds that fit a run of the one list in some order fit a run of the
/// other list in that order.
proof fn lemma_same_effects_in_order<V>(
    one: Seq<ScheduledSystem<V>>,
    other: Seq<ScheduledSystem<V>>,
    order: Seq<usize>,
    worlds: Seq<World<V>>,
)
    requires
        same_effects(one, other) || same_effects(other, one),
        forall|k: int| 0 <= k < order.len() ==> (#[trigger] order[k]) < one.len(),
        ran_in_order(one, order, worlds),
    ensures
        ran_in_order(other, order, worlds),
{
    assert forall|k: int| 0 <= k < order.len() implies other[(#[trigger] order[k]) as int].sys.effect(
        worlds[k],
        worlds[k + 1],
    ) by {
        let i = order[k] as int;
        assert(one[i].sys.effect(worlds[k], worlds[k + 1]));
        assert(other[i].sys.effect(worlds[k], worlds[k + 1]) == one[i].sys.effect(
            worlds[k],
            worlds[k + 1],
        ));
    }
}

/// The pipeline without systems, before startup.
pub open spec fn empty_pipeline() -> Pipeline {
    Pipeline {
        pre_startup: Seq::empty(),
        startup: Seq::empty(),
        post_startup: Seq::empty(),
        first: Seq::empty(),
        pre_update: Seq::empty(),
        update: Seq::empty(),
        post_update: Seq::empty(),
        last: Seq::empty(),
        ran_startup: false,
    }
}

/// The world at the start of a stage: a fresh, empty command buffer is in the
/// slot.
pub open spec fn opened<V>(world: World<V>) -> World<V> {
    World { commands: Some(Seq::empty()), ..world }
}

/// The world at the end of a stage: the command buffer is taken out of the
/// slot and applied.
pub open spec fn settled<V>(world: World<V>) -> World<V> {
    match world.commands {
        Some(queue) => (World { commands: None, ..world }).apply_all(queue),
        None => world,
    }
}

/// Whether `worlds` can be the worlds before, between and after the systems
/// of a stage when they run in `order`, each exactly as its effect allows.
pub open spec fn ran_in_order<V>(
    systems: Seq<ScheduledSystem<V>>,
    order: Seq<usize>,
    worlds: Seq<World<V>>,
) -> bool {
    &&& worlds.len() == order.len() + 1
    &&& forall|k: int|
        0 <= k < order.len() ==> systems[(#[trigger] order[k]) as int].sys.effect(
            worlds[k],
            worlds[k + 1],
        )
}

/// Whether one run of a stage with the given systems can lead from `before`
/// to `after`: the buffer is opened, the systems run in the resolved
/// execution order, and the buffer is applied.
pub open spec fn stage_ran<V>(
    systems: Seq<ScheduledSystem<V>>,
    before: World<V>,
    after: World<V>,
) -> bool {
    exists|worlds: Seq<World<V>>|
        #![trigger ran_in_order(systems, resolved(plan_of(systems)), worlds)]
        ran_in_order(systems, resolved(plan_of(systems)), worlds) && worlds[0] == opened(before)
            && after == settled(worlds.last())
}

/// Whether running the stages with the given systems one after the other can
/// lead from `before` to `after`.
pub open spec fn stages_ran<V>(
    lists: Seq<Seq<ScheduledSystem<V>>>,
    before: World<V>,
    after: World<V>,
) -> bool {
    exists|worlds: Seq<World<V>>|
        #![trigger worlds.len()]
        {
            &&& worlds.len() == lists.len() + 1
            &&& worlds[0] == before
            &&& worlds.last() == after
            &&& forall|k: int|
                0 <= k < lists.len() ==> stage_ran(#[trigger] lists[k], worlds[k], worlds[k + 1])
        }
}

/// Running no stage leaves the world as it is.
pub proof fn lemma_stages_ran_none<V>(world: World<V>)
    ensures
        stages_ran(Seq::<Seq<ScheduledSystem<V>>>::empty(), world, world),
{
    let lists = Seq::<Seq<ScheduledSystem<V>>>::empty();
    let worlds = seq![world];
    assert(worlds.len() == lists.len() + 1 && worlds[0] == world && worlds.last() == world);
}

/// A run of stages followed by the run of one more stage is a run of the
/// longer list of stages.
pub proof fn lemma_stages_ran_then<V>(
    lists: Seq<Seq<ScheduledSystem<V>>>,
    next: Seq<ScheduledSystem<V>>,
    before: World<V>,
    mid: World<V>,
    after: World<V>,
)
    requires
        stages_ran(lists, before, mid),
        stage_ran(next, mid, after),
    ensures
        stages_ran(lists.push(next), before, after),
{
    let worlds = choose|worlds: Seq<World<V>>|
        #![trigger worlds.len()]
        {
            &&& worlds.len() == lists.len() + 1
            &&& worlds[0] == before
            &&& worlds.last() == mid
            &&& forall|k: int|
                0 <= k < lists.len() ==> stage_ran(#[trigger] lists[k], worlds[k], worlds[k + 1])
        };
    let longer = worlds.push(after);
    let all = lists.push(next);
    assert(longer.len() == all.len() + 1 && longer[0] == before && longer.last() == after);
}

/// A stage without systems changes nothing but the buffer slot, which it
/// leaves empty: the fresh buffer is put in and taken out again.
pub proof fn law_empty_stage_changes_nothing<V>(
    systems: Seq<ScheduledSystem<V>>,
    before: World<V>,
    after: World<V>,
)
    requires
        systems.len() == 0,
        stage_ran(systems, before, after),
    ensures
        after == (World { commands: None, ..before }),
{
    crate::order_laws::law_order_is_rearrangement(plan_of(systems));
    let worlds = choose|worlds: Seq<World<V>>|
        #![trigger ran_in_order(systems, resolved(plan_of(systems)), worlds)]
        ran_in_order(systems, resolved(plan_of(systems)), worlds) && worlds[0] == opened(before)
            && after == settled(worlds.last());
    assert(worlds.len() == 1);
}

/// A stage with one system does what that system does between the opening
/// of the buffer and its application.
pub proof fn law_single_system_stage<V>(
    systems: Seq<ScheduledSystem<V>>,
    before: World<V>,
    after: World<V>,
)
    requires
        systems.len() == 1,
        stage_ran(systems, before, after),
    ensures
        exists|mid: World<V>| #[trigger]
            systems[0].sys.effect(opened(before), mid) && after == settled(mid),
{
    crate::order_laws::law_order_is_rearrangement(plan_of(systems));
    let order = resolved(plan_of(systems));
    assert(order.contains(order[0]));
    let worlds = choose|worlds: Seq<World<V>>|
        #![trigger ran_in_order(systems, resolved(plan_of(systems)), worlds)]
        ran_in_order(systems, resolved(plan_of(systems)), worlds) && worlds[0] == opened(before)
            && after == settled(worlds.last());
    assert(systems[order[0] as int].sys.effect(worlds[0], worlds[1]));
}

/// Whether the stages of `after` are those of `before` after some runs:
/// stage by stage the systems kept their constraints and effects.
pub open spec fn same_stage_effects<V>(
    before: Seq<Seq<ScheduledSystem<V>>>,
    after: Seq<Seq<ScheduledSystem<V>>>,
) -> bool {
    &&& after.len() == before.len()
    &&& forall|k: int|
        0 <= k < before.len() ==> same_effects(#[trigger] before[k], after[k]) && before[k].len()
            <= usize::MAX
}

/// One more stage that kept its systems' constraints and effects.
proof fn lemma_same_stage_effects_push<V>(
    before: Seq<Seq<ScheduledSystem<V>>>,
    after: Seq<Seq<ScheduledSystem<V>>>,
    one: Seq<ScheduledSystem<V>>,
    other: Seq<ScheduledSystem<V>>,
)
    requires
        same_stage_effects(before, after),
        same_effects(one, other),
        one.len() <= usize::MAX,
    ensures
        same_stage_effects(before.push(one), after.push(other)),
{
    let longer = before.push(one);
    assert forall|k: int| 0 <= k < longer.len() implies same_effects(
        #[trigger] longer[k],
        after.push(other)[k],
    ) && longer[k].len() <= usize::MAX by {
        if k < before.len() {
            assert(same_effects(before[k], after[k]));
        }
    }
}

/// Stages whose systems kept their constraints and effects run as before.
pub proof fn lemma_same_effects_same_stage_runs<V>(
    before: Seq<Seq<ScheduledSystem<V>>>,
    after: Seq<Seq<ScheduledSystem<V>>>,
    from: World<V>,
    to: World<V>,
)
    requires
        same_stage_effects(before, after),
    ensures
        stages_ran(after, from, to) == stages_ran(before, from, to),
{
    if stages_ran(before, from, to) {
        let worlds = choose|worlds: Seq<World<V>>|
            #![trigger worlds.len()]
            {
                &&& worlds.len() == before.len() + 1
                &&& worlds[0] == from
                &&& worlds.last() == to
                &&& forall|k: int|
                    0 <= k < before.len() ==> stage_ran(
                        #[trigger] before[k],
                        worlds[k],
                        worlds[k + 1],
                    )
            };
        assert forall|k: int| 0 <= k < after.len() implies stage_ran(
            #[trigger] after[k],
            worlds[k],
            worlds[k + 1],
        ) by {
            assert(same_effects(before[k], after[k]));
            assert(stage_ran(before[k], worlds[k], worlds[k + 1]));
            lemma_same_effects_same_runs(before[k], after[k], worlds[k], worlds[k + 1]);
        }
        assert(worlds.len() == after.len() + 1);
    }
    if stages_ran(after, from, to) {
        let worlds = choose|worlds: Seq<World<V>>|
            #![trigger worlds.len()]
            {
                &&& worlds.len() == after.len() + 1
                &&& worlds[0] == from
                &&& worlds.last() == to
                &&& forall|k: int|
                    0 <= k < after.len() ==> stage_ran(
                        #[trigger] after[k],
                        worlds[k],
                        worlds[k + 1],
                    )
            };
        assert forall|k: int| 0 <= k < before.len() implies stage_ran(
            #[trigger] before[k],
            worlds[k],
            worlds[k + 1],
        ) by {
            assert(same_effects(before[k], after[k]));
            assert(stage_ran(after[k], worlds[k], worlds[k + 1]));
            lemma_same_effects_same_runs(before[k], after[k], worlds[k], worlds[k + 1]);
        }
        assert(worlds.len() == before.len() + 1);
    }
}

/// Appends one system to the list of a stage.
fn push_system<V>(list: &mut Vec<ScheduledSystem<V>>, scheduled: ScheduledSystem<V>)
    ensures
        final(list)@ == old(list)@.push(scheduled),
        plan_of(final(list)@) == plan_of(old(list)@).push(scheduled.entry()),
{
    list.push(scheduled);
}

/// Runs the systems of one stage in their execution order.
fn run_systems<V>(list: &mut Vec<ScheduledSystem<V>>, ecs: &mut Ecs<V>)
    requires
        old(ecs)@.commands matches Some(queue) ==> old(ecs)@.can_apply(queue),
    ensures
        same_effects(old(list)@, final(list)@),
        final(ecs)@.commands matches Some(queue) ==> final(ecs)@.can_apply(queue),
        exists|worlds: Seq<World<V>>|
            #![trigger ran_in_order(old(list)@, resolved(plan_of(old(list)@)), worlds)]
            ran_in_order(old(list)@, resolved(plan_of(old(list)@)), worlds) && worlds[0] == old(
                ecs,
            )@ && worlds.last() == final(ecs)@,
{
    let order = resolve_order(list);
    let count = list.len();
    let ghost plan = plan_of(list@);
    let ghost worlds: Seq<World<V>> = seq![ecs@];
    proof {
        crate::order_laws::law_order_is_rearrangement(plan);
        assert forall|i: int| 0 <= i < order@.len() implies (#[trigger] order@[i]) < plan.len() by {
            assert(order@.contains(order@[i]));
        }
    }
    let mut k: usize = 0;
    while k < order.len()
        invariant
            k <= order@.len(),
            same_effects(old(list)@, list@),
            list@.len() == count,
            list@.len() == plan.len(),
            forall|i: int| 0 <= i < order@.len() ==> (#[trigger] order@[i]) < plan.len(),
            ecs@.commands matches Some(queue) ==> ecs@.can_apply(queue),
            worlds.len() == k + 1,
            worlds[0] == old(ecs)@,
            worlds.last() == ecs@,
            forall|j: int|
                0 <= j < k ==> old(list)@[(#[trigger] order@[j]) as int].sys.effect(
                    worlds[j],
                    worlds[j + 1],
                ),
        decreases order@.len() - k,
    {
        let i = order[k];
        let s = &mut list[i];
        s.sys.run(ecs);
        proof {
            worlds = worlds.push(ecs@);
        }
        k += 1;
    }
    proof {
        assert(ran_in_order(old(list)@, resolved(plan_of(old(list)@)), worlds));
    }
}

impl<V> Schedules<V> {
    /// The systems registered in `stage`, in registration order.
    pub closed spec fn systems(&self, stage: Stage) -> Seq<ScheduledSystem<V>> {
        match stage {
            Stage::PreStartup => self.pre_startup@,
            Stage::Startup => self.startup@,
            Stage::PostStartup => self.post_startup@,
            Stage::First => self.first@,
            Stage::PreUpdate => self.pre_update@,
            Stage::Update => self.update@,
            Stage::PostUpdate => self.post_update@,
            Stage::Last => self.last@,
        }
    }

    /// Whether the startup stages have run.
    pub closed spec fn started(&self) -> bool {
        self.ran_startup
    }

    /// The systems of the three startup stages, stage by stage.
    pub open spec fn startup_lists(&self) -> Seq<Seq<ScheduledSystem<V>>> {
        seq![
            self.systems(Stage::PreStartup),
            self.systems(Stage::Startup),
            self.systems(Stage::PostStartup),
        ]
    }

    /// The systems of the stages that the next frame runs, stage by stage:
    /// the startup stages first if they have not run yet, then the five
    /// per-frame stages.
    pub open spec fn due(&self) -> Seq<Seq<ScheduledSystem<V>>> {
        let start = if self@.ran_startup {
            Seq::empty()
        } else {
            self.startup_lists()
        };
        start.push(self.systems(Stage::First)).push(self.systems(Stage::PreUpdate)).push(
            self.systems(Stage::Update),
        ).push(self.systems(Stage::PostUpdate)).push(self.systems(Stage::Last))
    }

    /// The systems of a stage can be counted.
    pub proof fn lemma_systems_fit(&self, stage: Stage)
        ensures
            self.systems(stage).len() <= usize::MAX,
    {
        assert(self.pre_startup.len() == self.pre_startup@.len());
        assert(self.startup.len() == self.startup@.len());
        assert(self.post_startup.len() == self.post_startup@.len());
        assert(self.first.len() == self.first@.len());
        assert(self.pre_update.len() == self.pre_update@.len());
        assert(self.update.len() == self.update@.len());
        assert(self.post_update.len() == self.post_update@.len());
        assert(self.last.len() == self.last@.len());
    }

    /// A frame does to a world what the registered systems say, however many
    /// frames have run before: a pipeline whose systems kept their
    /// constraints and effects, and whose latch stands alike, runs its next
    /// frame as the other one does.
    pub proof fn law_frames_run_alike(&self, later: &Self, from: World<V>, to: World<V>)
        requires
            forall|stage: Stage| same_effects(#[trigger] self.systems(stage), later.systems(stage)),
            later@.ran_startup == self@.ran_startup,
        ensures
            stages_ran(later.due(), from, to) == stages_ran(self.due(), from, to),
    {
        let none = Seq::<Seq<ScheduledSystem<V>>>::empty();
        assert(same_stage_effects(none, none));
        self.lemma_systems_fit(Stage::PreStartup);
        self.lemma_systems_fit(Stage::Startup);
        self.lemma_systems_fit(Stage::PostStartup);
        self.lemma_systems_fit(Stage::First);
        self.lemma_systems_fit(Stage::PreUpdate);
        self.lemma_systems_fit(Stage::Update);
        self.lemma_systems_fit(Stage::PostUpdate);
        self.lemma_systems_fit(Stage::Last);
        let a = self.startup_lists();
        let b = later.startup_lists();
        if !self@.ran_startup {
            lemma_same_stage_effects_push(
                none,
                none,
                self.systems(Stage::PreStartup),
                later.systems(Stage::PreStartup),
            );
            lemma_same_stage_effects_push(
                none.push(self.systems(Stage::PreStartup)),
                none.push(later.systems(Stage::PreStartup)),
                self.systems(Stage::Startup),
                later.systems(Stage::Startup),
            );
            lemma_same_stage_effects_push(
                none.push(self.systems(Stage::PreStartup)).push(self.systems(Stage::Startup)),
                none.push(later.systems(Stage::PreStartup)).push(later.systems(Stage::Startup)),
                self.systems(Stage::PostStartup),
                later.systems(Stage::PostStartup),
            );
            assert(a =~= none.push(self.systems(Stage::PreStartup)).push(
                self.systems(Stage::Startup),
            ).push(self.systems(Stage::PostStartup)));
            assert(b =~= none.push(later.systems(Stage::PreStartup)).push(
                later.systems(Stage::Startup),
            ).push(later.systems(Stage::PostStartup)));
        }
        let a0 = if self@.ran_startup {
            none
        } else {
            a
        };
        let b0 = if self@.ran_startup {
            none
        } else {
            b
        };
        let a1 = a0.push(self.systems(Stage::First));
        let b1 = b0.push(later.systems(Stage::First));
        lemma_same_stage_effects_push(a0, b0, self.systems(Stage::First), later.systems(Stage::First));
        let a2 = a1.push(self.systems(Stage::PreUpdate));
        let b2 = b1.push(later.systems(Stage::PreUpdate));
        lemma_same_stage_effects_push(
            a1,
            b1,
            self.systems(Stage::PreUpdate),
            later.systems(Stage::PreUpdate),
        );
        let a3 = a2.push(self.systems(Stage::Update));
        let b3 = b2.push(later.systems(Stage::Update));
        lemma_same_stage_effects_push(a2, b2, self.systems(Stage::Update), later.systems(Stage::Update));
        let a4 = a3.push(self.systems(Stage::PostUpdate));
        let b4 = b3.push(later.systems(Stage::PostUpdate));
        lemma_same_stage_effects_push(
            a3,
            b3,
            self.systems(Stage::PostUpdate),
            later.systems(Stage::PostUpdate),
        );
        lemma_same_stage_effects_push(a4, b4, self.systems(Stage::Last), later.systems(Stage::Last));
        lemma_same_effects_same_stage_runs(self.due(), later.due(), from, to);
    }

    /// A pipeline without systems, whose startup stages have not run.
    pub fn new() -> (s: Self)
        ensures
            s@ == empty_pipeline(),
            forall|stage: Stage| s.systems(stage) == Seq::<ScheduledSystem<V>>::empty(),
    {
        let s = Schedules {
            pre_startup: Vec::new(),
            startup: Vec::new(),
            post_startup: Vec::new(),
            first: Vec::new(),
            pre_update: Vec::new(),
            update: Vec::new(),
            post_update: Vec::new(),
            last: Vec::new(),
            ran_startup: false,
        };
        proof {
            assert(plan_of(s.pre_startup@) =~= Seq::<Entry>::empty());
        }
        s
    }

    /// Registers `sys` at the end of `stage` with order 0, no label and no
    /// constraints. The systems registered before stay as they are.
    pub fn add_system(&mut self, stage: Stage, sys: Box<dyn System<V>>)
        ensures
            final(self)@ == old(self)@.with_system(
                stage,
                Entry { order: 0, label: None, before: Seq::empty(), after: Seq::empty() },
            ),
            final(self).systems(stage).len() == old(self).systems(stage).len() + 1,
            final(self).systems(stage).last().sys == sys,
            final(self).systems(stage).last().entry() == (Entry { order: 0, label: None, before: Seq::empty(), after: Seq::empty() }),
            forall|i: int|
                0 <= i < old(self).systems(stage).len() ==> final(self).systems(stage)[i] == old(
                    self,
                ).systems(stage)[i],
            forall|other: Stage|
                other != stage ==> final(self).systems(other) == old(self).systems(other),
    {
        let none: [&str; 0] = [];
        let scheduled = Scheduled::new(0, None, &none, &none, sys);
        assert(slice_names(none@) =~= Seq::<Seq<char>>::empty());
        self.add_scheduled(stage, scheduled);
    }

    /// Registers `sys` at the end of `stage` with the given order. The
    /// systems registered before stay as they are.
    pub fn add_system_with_order(&mut self, stage: Stage, order: i32, sys: Box<dyn System<V>>)
        ensures
            final(self)@ == old(self)@.with_system(
                stage,
                Entry { order: order as int, label: None, before: Seq::empty(), after: Seq::empty() },
            ),
            final(self).systems(stage).len() == old(self).systems(stage).len() + 1,
            final(self).systems(stage).last().sys == sys,
            final(self).systems(stage).last().entry() == (Entry { order: order as int, label: None, before: Seq::empty(), after: Seq::empty() }),
            forall|i: int|
                0 <= i < old(self).systems(stage).len() ==> final(self).systems(stage)[i] == old(
                    self,
                ).systems(stage)[i],
            forall|other: Stage|
                other != stage ==> final(self).systems(other) == old(self).systems(other),
    {
        let none: [&str; 0] = [];
        let scheduled = Scheduled::new(order, None, &none, &none, sys);
        assert(slice_names(none@) =~= Seq::<Seq<char>>::empty());
        self.add_scheduled(stage, scheduled);
    }

    /// Registers `sys` at the end of `stage` under `label` with the given
    /// order. The systems registered before stay as they are.
    pub fn add_system_with_label(
        &mut self,
        stage: Stage,
        label: &str,
        order: i32,
        sys: Box<dyn System<V>>,
    )
        ensures
            final(self)@ == old(self)@.with_system(
                stage,
                Entry {
                    order: order as int,
                    label: Some(label@),
                    before: Seq::empty(),
                    after: Seq::empty(),
                },
            ),
            final(self).systems(stage).len() == old(self).systems(stage).len() + 1,
            final(self).systems(stage).last().sys == sys,
            final(self).systems(stage).last().entry() == (Entry {
                    order: order as int,
                    label: Some(label@),
                    before: Seq::empty(),
                    after: Seq::empty(),
                }),
            forall|i: int|
                0 <= i < old(self).systems(stage).len() ==> final(self).systems(stage)[i] == old(
                    self,
                ).systems(stage)[i],
            forall|other: Stage|
                other != stage ==> final(self).systems(other) == old(self).systems(other),
    {
        let none: [&str; 0] = [];
        let scheduled = Scheduled::new(order, Some(label), &none, &none, sys);
        assert(slice_names(none@) =~= Seq::<Seq<char>>::empty());
        self.add_scheduled(stage, scheduled);
    }

    /// Registers `sys` at the end of `stage`, with an optional label, the
    /// labels of the systems it must run before and after, and its order.
    /// The systems registered before stay as they are.
    pub fn add_system_with_deps(
        &mut self,
        stage: Stage,
        label: Option<&str>,
        before: &[&str],
        after: &[&str],
        order: i32,
        sys: Box<dyn System<V>>,
    )
        ensures
            final(self)@ == old(self)@.with_system(
                stage,
                Entry {
                    order: order as int,
                    label: match label {
                        Some(l) => Some(l@),
                        None => None,
                    },
                    before: slice_names(before@),
                    after: slice_names(after@),
                },
            ),
            final(self).systems(stage).len() == old(self).systems(stage).len() + 1,
            final(self).systems(stage).last().sys == sys,
            final(self).systems(stage).last().entry() == (Entry {
                    order: order as int,
                    label: match label {
                        Some(l) => Some(l@),
                        None => None,
                    },
                    before: slice_names(before@),
                    after: slice_names(after@),
                }),
            forall|i: int|
                0 <= i < old(self).systems(stage).len() ==> final(self).systems(stage)[i] == old(
                    self,
                ).systems(stage)[i],
            forall|other: Stage|
                other != stage ==> final(self).systems(other) == old(self).systems(other),
    {
        let scheduled = Scheduled::new(order, label, before, after, sys);
        self.add_scheduled(stage, scheduled);
    }

    /// Registers the system of `scheduled` at the end of `stage`, with the
    /// constraints that come with it. The systems that were registered before
    /// stay as they are.
    pub fn add_scheduled(&mut self, stage: Stage, scheduled: ScheduledSystem<V>)
        ensures
            final(self)@ == old(self)@.with_system(stage, scheduled.entry()),
            final(self).systems(stage) == old(self).systems(stage).push(scheduled),
            forall|other: Stage|
                other != stage ==> final(self).systems(other) == old(self).systems(other),
    {
        let ghost before = self@;
        let list = self.list_mut(stage);
        push_system(list, scheduled);
        proof {
            lemma_with_system(before, final(self)@, stage, scheduled.entry());
        }
    }

    /// The systems of `stage`.
    fn list(&self, stage: Stage) -> (list: &Vec<ScheduledSystem<V>>)
        ensures
            list@ == self.systems(stage),
            plan_of(list@) == self@.plan(stage),
    {
        match stage {
            Stage::PreStartup => &self.pre_startup,
            Stage::Startup => &self.startup,
            Stage::PostStartup => &self.post_startup,
            Stage::First => &self.first,
            Stage::PreUpdate => &self.pre_update,
            Stage::Update => &self.update,
            Stage::PostUpdate => &self.post_update,
            Stage::Last => &self.last,
        }
    }

    /// Mutable access to the systems of `stage`.
    fn list_mut(&mut self, stage: Stage) -> (list: &mut Vec<ScheduledSystem<V>>)
        ensures
            list@ == old(self).systems(stage),
            plan_of(list@) == old(self)@.plan(stage),
            final(self)@.ran_startup == old(self)@.ran_startup,
            final(self).systems(stage) == final(list)@,
            final(self)@.plan(stage) == plan_of(final(list)@),
            forall|other: Stage|
                other != stage ==> final(self).systems(other) == old(self).systems(other),
            forall|other: Stage| other != stage ==> final(self)@.plan(other) == old(self)@.plan(other),
    {
        match stage {
            Stage::PreStartup => &mut self.pre_startup,
            Stage::Startup => &mut self.startup,
            Stage::PostStartup => &mut self.post_startup,
            Stage::First => &mut self.first,
            Stage::PreUpdate => &mut self.pre_update,
            Stage::Update => &mut self.update,
            Stage::PostUpdate => &mut self.post_update,
            Stage::Last => &mut self.last,
        }
    }

    /// The number of systems registered in `stage`.
    pub fn system_count(&self, stage: Stage) -> (n: usize)
        ensures
            n == self@.plan(stage).len(),
    {
        self.list(stage).len()
    }

    /// The execution order of `stage` as it stands: the positions of its
    /// systems in registration order, in the order in which a run of the stage
    /// calls them.
    pub fn stage_order(&self, stage: Stage) -> (order: Vec<usize>)
        ensures
            order@ == self@.order(stage),
    {
        resolve_order(self.list(stage))
    }

    /// Whether the constraints of `stage` cannot be met as they stand, so that
    /// a run of the stage ignores them.
    pub fn stage_falls_back(&self, stage: Stage) -> (r: bool)
        ensures
            r == crate::order::falls_back(self@.plan(stage)),
    {
        let list = self.list(stage);
        let topo = crate::order::linearize(list, true);
        topo.len() != list.len()
    }

    /// Whether the startup stages have run.
    pub fn ran_startup(&self) -> (r: bool)
        ensures
            r == self@.ran_startup,
    {
        self.ran_startup
    }

    /// Runs one stage: puts a fresh command buffer into the world, runs the
    /// stage's systems in their execution order, each with the whole world,
    /// then takes the buffer out and applies it. The systems of the stage
    /// keep their places, their constraints and their effects; the systems of
    /// other stages are not touched.
    pub fn run_stage(&mut self, ecs: &mut Ecs<V>, stage: Stage)
        ensures
            final(self)@ == old(self)@,
            plan_of(final(self).systems(stage)) == plan_of(old(self).systems(stage)),
            same_effects(old(self).systems(stage), final(self).systems(stage)),
            forall|other: Stage|
                other != stage ==> final(self).systems(other) == old(self).systems(other),
            stage_ran(old(self).systems(stage), old(ecs)@, final(ecs)@),
            final(ecs)@.commands is None,
    {
        ecs.put_commands(Commands::new());
        let list = self.list_mut(stage);
        run_systems(list, ecs);
        proof {
            lemma_same_effects_same_plan(old(self).systems(stage), final(self).systems(stage));
            lemma_same_plans(final(self)@, old(self)@);
        }
        match ecs.take_commands() {
            Some(mut cmds) => {
                proof {
                    lemma_apply_all_frame(ecs@, cmds@);
                }
                cmds.apply(ecs);
            },
            None => {},
        }
    }

    /// Runs the three startup stages, in their order, unless they have run
    /// before; afterwards the latch is set. Every system keeps its place, its
    /// constraints and its effect.
    pub fn ensure_startup(&mut self, ecs: &mut Ecs<V>)
        ensures
            final(self)@ == (Pipeline { ran_startup: true, ..old(self)@ }),
            forall|stage: Stage|
                same_effects(
                    #[trigger] old(self).systems(stage),
                    final(self).systems(stage),
                ),
            forall|stage: Stage|
                old(self)@.ran_startup || (stage != Stage::PreStartup && stage != Stage::Startup
                    && stage != Stage::PostStartup) ==> final(self).systems(stage) == old(
                    self,
                ).systems(stage),
            stages_ran(
                if old(self)@.ran_startup {
                    Seq::empty()
                } else {
                    old(self).startup_lists()
                },
                old(ecs)@,
                final(ecs)@,
            ),
    {
        if self.ran_startup {
            proof {
                lemma_stages_ran_none::<V>(ecs@);
            }
            return ;
        }
        let ghost w0 = ecs@;
        let ghost none = Seq::<Seq<ScheduledSystem<V>>>::empty();
        proof {
            lemma_stages_ran_none::<V>(w0);
        }
        self.run_stage(ecs, Stage::PreStartup);
        let ghost w1 = ecs@;
        self.run_stage(ecs, Stage::Startup);
        let ghost w2 = ecs@;
        self.run_stage(ecs, Stage::PostStartup);
        self.ran_startup = true;
        proof {
            let a = old(self).systems(Stage::PreStartup);
            let b = old(self).systems(Stage::Startup);
            let c = old(self).systems(Stage::PostStartup);
            lemma_stages_ran_then(none, a, w0, w0, w1);
            lemma_stages_ran_then(none.push(a), b, w0, w1, w2);
            lemma_stages_ran_then(none.push(a).push(b), c, w0, w2, ecs@);
            assert(none.push(a).push(b).push(c) =~= old(self).startup_lists());
        }
    }

    /// Advances one frame: the startup stages if they have not run yet, then
    /// the five per-frame stages in their fixed order. Each stage runs its
    /// systems in its execution order, and its commands are applied before
    /// the next stage begins. Every system keeps its place, its constraints
    /// and its effect, so the next frame runs by the same rules.
    pub fn run_frame(&mut self, ecs: &mut Ecs<V>)
        ensures
            final(self)@ == (Pipeline { ran_startup: true, ..old(self)@ }),
            forall|stage: Stage|
                same_effects(
                    #[trigger] old(self).systems(stage),
                    final(self).systems(stage),
                ),
            stages_ran(old(self).due(), old(ecs)@, final(ecs)@),
            final(ecs)@.commands is None,
    {
        let ghost w0 = ecs@;
        self.ensure_startup(ecs);
        let ghost start = if old(self)@.ran_startup {
            Seq::<Seq<ScheduledSystem<V>>>::empty()
        } else {
            old(self).startup_lists()
        };
        let ghost w1 = ecs@;
        self.run_stage(ecs, Stage::First);
        let ghost w2 = ecs@;
        self.run_stage(ecs, Stage::PreUpdate);
        let ghost w3 = ecs@;
        self.run_stage(ecs, Stage::Update);
        let ghost w4 = ecs@;
        self.run_stage(ecs, Stage::PostUpdate);
        let ghost w5 = ecs@;
        self.run_stage(ecs, Stage::Last);
        proof {
            let a = old(self).systems(Stage::First);
            let b = old(self).systems(Stage::PreUpdate);
            let c = old(self).systems(Stage::Update);
            let d = old(self).systems(Stage::PostUpdate);
            let e = old(self).systems(Stage::Last);
            lemma_stages_ran_then(start, a, w0, w1, w2);
            lemma_stages_ran_then(start.push(a), b, w0, w2, w3);
            lemma_stages_ran_then(start.push(a).push(b), c, w0, w3, w4);
            lemma_stages_ran_then(start.push(a).push(b).push(c), d, w0, w4, w5);
            lemma_stages_ran_then(start.push(a).push(b).push(c).push(d), e, w0, w5, ecs@);
        }
    }
}

} // verus!
