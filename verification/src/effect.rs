//! Effects: what the dispatcher has done, for a host to carry out on its own
//! side. The dispatcher changes its own tables and returns the same
//! operations, and the notifications for the player, as a list.

use vstd::prelude::*;
use crate::ledger::TaskMap;
use crate::plan::{
    rule_fires, visited_tasks, QuestPlanView, TaskDef, TaskDefView, VisitRuleView,
};
use crate::registry::{Item, ItemView};
use crate::status::Status;

verus! {

/// One operation for the host.
#[derive(Debug, PartialEq, Eq)]
pub enum Effect {
    /// File an item in the content registry.
    RegisterItem(Item),
    /// Register a task, with status `Pending`.
    RegisterTask(TaskDef),
    /// Set the status of a task.
    UpdateTask { quest_id: String, task_id: String, status: Status },
    /// Show a message to the player.
    Notify(String),
}

/// What an [`Effect`] holds, as character sequences.
pub enum EffectView {
    RegisterItem(ItemView),
    RegisterTask(TaskDefView),
    UpdateTask { quest_id: Seq<char>, task_id: Seq<char>, status: Status },
    Notify(Seq<char>),
}

impl View for Effect {
    type V = EffectView;

    open spec fn view(&self) -> EffectView {
        match self {
            Effect::RegisterItem(item) => EffectView::RegisterItem(item@),
            Effect::RegisterTask(def) => EffectView::RegisterTask(def@),
            Effect::UpdateTask { quest_id, task_id, status } => EffectView::UpdateTask {
                quest_id: quest_id@,
                task_id: task_id@,
                status: *status,
            },
            Effect::Notify(message) => EffectView::Notify(message@),
        }
    }
}

/// The views of a list of effects, in order.
pub open spec fn effect_views(effects: Seq<Effect>) -> Seq<EffectView> {
    effects.map_values(|effect: Effect| effect@)
}

/// One registration per item, in order.
pub open spec fn item_effects(items: Seq<ItemView>) -> Seq<EffectView> {
    Seq::new(items.len(), |i: int| EffectView::RegisterItem(items[i]))
}

/// One registration per task definition, in order.
pub open spec fn task_effects(defs: Seq<TaskDefView>) -> Seq<EffectView> {
    Seq::new(defs.len(), |i: int| EffectView::RegisterTask(defs[i]))
}

/// The effects of starting a quest: one registration per item of the plan,
/// then one per task, then the start notification.
pub open spec fn start_effects(plan: QuestPlanView) -> Seq<EffectView> {
    item_effects(plan.items) + task_effects(plan.tasks) + seq![
        EffectView::Notify(plan.start_message),
    ]
}

/// The effects of a visit to `url`: for each rule that fires, in order, the
/// update of its task to `Completed` and then its notification.
pub open spec fn visit_effects(rules: Seq<VisitRuleView>, url: Seq<char>) -> Seq<EffectView>
    decreases rules.len(),
{
    if rules.len() == 0 {
        Seq::empty()
    } else {
        let earlier = visit_effects(rules.drop_last(), url);
        if rule_fires(rules.last(), url) {
            earlier.push(
                EffectView::UpdateTask {
                    quest_id: rules.last().quest_id,
                    task_id: rules.last().task_id,
                    status: Status::Completed,
                },
            ).push(EffectView::Notify(rules.last().message))
        } else {
            earlier
        }
    }
}

/// A visit to a URL on which no rule fires changes no task and has no
/// effects.
pub proof fn lemma_visit_without_match(tasks: TaskMap, rules: Seq<VisitRuleView>, url: Seq<char>)
    requires
        forall|i: int| 0 <= i < rules.len() ==> !rule_fires(#[trigger] rules[i], url),
    ensures
        visited_tasks(tasks, rules, url) == tasks,
        visit_effects(rules, url) == Seq::<EffectView>::empty(),
    decreases rules.len(),
{
    if rules.len() > 0 {
        assert(!rule_fires(rules[rules.len() - 1], url));
        lemma_visit_without_match(tasks, rules.drop_last(), url);
    }
}

} // verus!
