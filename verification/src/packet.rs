//! The event dispatcher: a quest session with its two entry points, `init`
//! and `on_visit`.

use vstd::prelude::*;
use crate::effect::{
    effect_views, item_effects, start_effects, task_effects, visit_effects, Effect, EffectView,
};
use crate::ledger::{TaskMap, TaskTable};
use crate::plan::{
    lemma_registered_items_overlay, lemma_registered_tasks_overlay, lemma_visit_keeps_tasks,
    registered_items, registered_tasks, visited_tasks, QuestPlan,
};
use crate::registry::{ItemView, Registry};
use crate::status::Status;
use crate::text::contains;

verus! {

/// A quest session: a plan, and the registry and the task table that the
/// plan's quest lives in. The session owns both tables; they change through
/// `init` and `on_visit` only.
pub struct QuestPacket {
    plan: QuestPlan,
    registry: Registry,
    tasks: TaskTable,
}

impl QuestPacket {
    /// The tables hold nothing that the plan does not name.
    #[verifier::type_invariant]
    spec fn within_plan(&self) -> bool {
        &&& self.registry@.dom().subset_of(
            registered_items(Map::empty(), self.plan@.items).dom(),
        )
        &&& self.tasks@.dom().subset_of(registered_tasks(Map::empty(), self.plan@.tasks).dom())
    }

    /// The plan of this session.
    pub closed spec fn spec_plan(&self) -> &QuestPlan {
        &self.plan
    }

    /// The content registry of this session.
    pub closed spec fn spec_registry(&self) -> &Registry {
        &self.registry
    }

    /// The task table of this session.
    pub closed spec fn spec_tasks(&self) -> &TaskTable {
        &self.tasks
    }

    /// A session for `plan`, with nothing registered yet.
    pub fn new(plan: QuestPlan) -> (packet: QuestPacket)
        ensures
            *packet.plan() == plan,
            packet.registry()@ == Map::<Seq<char>, ItemView>::empty(),
            packet.tasks()@ == TaskMap::empty(),
    {
        QuestPacket { plan, registry: Registry::new(), tasks: TaskTable::new() }
    }

    /// The plan of this session.
    #[verifier::when_used_as_spec(spec_plan)]
    pub fn plan(&self) -> (plan: &QuestPlan)
        ensures
            plan == self.spec_plan(),
    {
        &self.plan
    }

    /// The content registry of this session.
    #[verifier::when_used_as_spec(spec_registry)]
    pub fn registry(&self) -> (registry: &Registry)
        ensures
            registry == self.spec_registry(),
    {
        &self.registry
    }

    /// The task table of this session.
    #[verifier::when_used_as_spec(spec_tasks)]
    pub fn tasks(&self) -> (tasks: &TaskTable)
        ensures
            tasks == self.spec_tasks(),
    {
        &self.tasks
    }

    /// Starts the quest: registers the plan's items and its tasks, in order,
    /// and announces the start. Afterwards the registry holds exactly the
    /// plan's items and the table exactly the plan's tasks, each `Pending`,
    /// whatever state the session was in. The effects name each registration
    /// and end with the start notification.
    pub fn init(&mut self) -> (effects: Vec<Effect>)
        ensures
            final(self).plan() == old(self).plan(),
            final(self).registry()@ == registered_items(Map::empty(), old(self).plan()@.items),
            final(self).tasks()@ == registered_tasks(Map::empty(), old(self).plan()@.tasks),
            effect_views(effects@) == start_effects(old(self).plan()@),
    {
        proof {
            use_type_invariant(&*self);
        }
        let ghost plan = self.plan@;
        let ghost registry_before = self.registry@;
        let ghost tasks_before = self.tasks@;
        let mut registry = Registry::new();
        std::mem::swap(&mut registry, &mut self.registry);
        let mut tasks = TaskTable::new();
        std::mem::swap(&mut tasks, &mut self.tasks);
        let mut effects: Vec<Effect> = Vec::new();

        let mut i: usize = 0;
        while i < self.plan.items.len()
            invariant
                self.plan@ == plan,
                i <= self.plan.items.len(),
                registry@ == registered_items(registry_before, plan.items.take(i as int)),
                effect_views(effects@) == item_effects(plan.items.take(i as int)),
            decreases self.plan.items.len() - i,
        {
            let item = &self.plan.items[i];
            registry.register_item(
                item.id.as_str(),
                item.url.as_str(),
                item.label.as_str(),
                item.kind.as_str(),
            );
            let ghost earlier = effect_views(effects@);
            effects.push(Effect::RegisterItem(item.clone()));
            proof {
                let next = plan.items.take(i + 1);
                assert(next.drop_last() =~= plan.items.take(i as int));
                assert(next.last() == item@);
                assert(effect_views(effects@) =~= earlier.push(EffectView::RegisterItem(item@)));
                assert(item_effects(next) =~= earlier.push(EffectView::RegisterItem(item@)));
            }
            i += 1;
        }
        assert(plan.items.take(i as int) =~= plan.items);

        assert(effect_views(effects@) =~= item_effects(plan.items) + task_effects(
            plan.tasks.take(0),
        ));
        let mut j: usize = 0;
        while j < self.plan.tasks.len()
            invariant
                self.plan@ == plan,
                j <= self.plan.tasks.len(),
                tasks@ == registered_tasks(tasks_before, plan.tasks.take(j as int)),
                effect_views(effects@) == item_effects(plan.items) + task_effects(
                    plan.tasks.take(j as int),
                ),
            decreases self.plan.tasks.len() - j,
        {
            let def = &self.plan.tasks[j];
            tasks.register_task(
                def.quest_id.as_str(),
                def.task_id.as_str(),
                def.description.as_str(),
            );
            let ghost earlier = effect_views(effects@);
            effects.push(Effect::RegisterTask(def.clone()));
            proof {
                let next = plan.tasks.take(j + 1);
                assert(next.drop_last() =~= plan.tasks.take(j as int));
                assert(next.last() == def@);
                assert(effect_views(effects@) =~= earlier.push(EffectView::RegisterTask(def@)));
                assert(item_effects(plan.items) + task_effects(next) =~= earlier.push(
                    EffectView::RegisterTask(def@),
                ));
            }
            j += 1;
        }
        assert(plan.tasks.take(j as int) =~= plan.tasks);

        let ghost registration_effects = effect_views(effects@);
        effects.push(Effect::Notify(self.plan.start_message.clone()));
        proof {
            assert(effect_views(effects@) =~= registration_effects + seq![
                EffectView::Notify(plan.start_message),
            ]);
            lemma_registered_items_overlay(registry_before, plan.items);
            lemma_registered_tasks_overlay(tasks_before, plan.tasks);
            assert(registry@ =~= registered_items(Map::empty(), plan.items));
            assert(tasks@ =~= registered_tasks(Map::empty(), plan.tasks));
        }
        self.registry = registry;
        self.tasks = tasks;
        effects
    }

    /// Handles a visit to `url`. Each rule of the plan whose pattern occurs in
    /// `url` sets its task to `Completed` and is answered with that update and
    /// the rule's notification, in the order of the rules. A rule that names a
    /// task that is not in the table changes nothing in the table, and the
    /// rules after it are still tried. A URL on which no rule fires changes
    /// nothing and has no effects. The registry stays as it is.
    pub fn on_visit(&mut self, url: &str) -> (effects: Vec<Effect>)
        ensures
            final(self).plan() == old(self).plan(),
            final(self).registry() == old(self).registry(),
            final(self).tasks()@ == visited_tasks(
                old(self).tasks()@,
                old(self).plan()@.rules,
                url@,
            ),
            effect_views(effects@) == visit_effects(old(self).plan()@.rules, url@),
    {
        proof {
            use_type_invariant(&*self);
        }
        let ghost rules = self.plan@.rules;
        let ghost tasks_before = self.tasks@;
        let mut tasks = TaskTable::new();
        std::mem::swap(&mut tasks, &mut self.tasks);
        let mut effects: Vec<Effect> = Vec::new();

        let mut i: usize = 0;
        while i < self.plan.rules.len()
            invariant
                self.plan@.rules == rules,
                i <= self.plan.rules.len(),
                tasks@ == visited_tasks(tasks_before, rules.take(i as int), url@),
                effect_views(effects@) == visit_effects(rules.take(i as int), url@),
            decreases self.plan.rules.len() - i,
        {
            let rule = &self.plan.rules[i];
            let ghost earlier = effect_views(effects@);
            proof {
                assert(rules.take(i + 1).drop_last() =~= rules.take(i as int));
                assert(rules.take(i + 1).last() == rule@);
            }
            if contains(url, rule.pattern.as_str()) {
                // A task that is not in the table is a fault of the plan: the
                // table says so and stays as it is, and the visit goes on.
                let _ = tasks.update_task(
                    rule.quest_id.as_str(),
                    rule.task_id.as_str(),
                    Status::Completed,
                );
                effects.push(
                    Effect::UpdateTask {
                        quest_id: rule.quest_id.clone(),
                        task_id: rule.task_id.clone(),
                        status: Status::Completed,
                    },
                );
                effects.push(Effect::Notify(rule.message.clone()));
                assert(effect_views(effects@) =~= earlier.push(
                    EffectView::UpdateTask {
                        quest_id: rule@.quest_id,
                        task_id: rule@.task_id,
                        status: Status::Completed,
                    },
                ).push(EffectView::Notify(rule@.message)));
            }
            i += 1;
        }
        proof {
            assert(rules.take(i as int) =~= rules);
            lemma_visit_keeps_tasks(tasks_before, rules, url@);
        }
        self.tasks = tasks;
        effects
    }
}

} // verus!
