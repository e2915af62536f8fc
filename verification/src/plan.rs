//! Quest plans: the content of a quest as data. A plan lists the items to
//! register, the tasks of the quest, and the rules that say which visits
//! complete which task.

use vstd::prelude::*;
use crate::ledger::{with_status, with_task, TaskMap, TaskView};
use crate::registry::{Item, ItemView};
use crate::status::Status;
use crate::text::is_substring;

verus! {

/// A task as a plan defines it: every task starts `Pending`, so a definition
/// carries no status.
#[derive(Debug, PartialEq, Eq)]
pub struct TaskDef {
    pub quest_id: String,
    pub task_id: String,
    pub description: String,
}

/// What a [`TaskDef`] holds, as character sequences.
pub struct TaskDefView {
    pub quest_id: Seq<char>,
    pub task_id: Seq<char>,
    pub description: Seq<char>,
}

impl View for TaskDef {
    type V = TaskDefView;

    open spec fn view(&self) -> TaskDefView {
        TaskDefView {
            quest_id: self.quest_id@,
            task_id: self.task_id@,
            description: self.description@,
        }
    }
}

impl TaskDef {
    /// A task definition made of copies of the three given strings.
    pub fn new(quest_id: &str, task_id: &str, description: &str) -> (def: TaskDef)
        ensures
            def@ == (TaskDefView {
                quest_id: quest_id@,
                task_id: task_id@,
                description: description@,
            }),
    {
        TaskDef {
            quest_id: quest_id.to_owned(),
            task_id: task_id.to_owned(),
            description: description.to_owned(),
        }
    }
}

impl Clone for TaskDef {
    fn clone(&self) -> (copy: TaskDef)
        ensures
            copy == *self,
    {
        TaskDef {
            quest_id: self.quest_id.clone(),
            task_id: self.task_id.clone(),
            description: self.description.clone(),
        }
    }
}

/// A rule of the dispatcher: a visit to a URL that contains `pattern`
/// completes the task under (`quest_id`, `task_id`) and sends `message` to the
/// player.
#[derive(Debug, PartialEq, Eq)]
pub struct VisitRule {
    pub pattern: String,
    pub quest_id: String,
    pub task_id: String,
    pub message: String,
}

/// What a [`VisitRule`] holds, as character sequences.
pub struct VisitRuleView {
    pub pattern: Seq<char>,
    pub quest_id: Seq<char>,
    pub task_id: Seq<char>,
    pub message: Seq<char>,
}

impl View for VisitRule {
    type V = VisitRuleView;

    open spec fn view(&self) -> VisitRuleView {
        VisitRuleView {
            pattern: self.pattern@,
            quest_id: self.quest_id@,
            task_id: self.task_id@,
            message: self.message@,
        }
    }
}

impl VisitRule {
    /// A rule made of copies of the four given strings.
    pub fn new(pattern: &str, quest_id: &str, task_id: &str, message: &str) -> (rule: VisitRule)
        ensures
            rule@ == (VisitRuleView {
                pattern: pattern@,
                quest_id: quest_id@,
                task_id: task_id@,
                message: message@,
            }),
    {
        VisitRule {
            pattern: pattern.to_owned(),
            quest_id: quest_id.to_owned(),
            task_id: task_id.to_owned(),
            message: message.to_owned(),
        }
    }
}

/// The content of a quest.
#[derive(Debug, PartialEq, Eq)]
pub struct QuestPlan {
    /// The items to register when the quest starts, in this order.
    pub items: Vec<Item>,
    /// The tasks to register when the quest starts, in this order.
    pub tasks: Vec<TaskDef>,
    /// The rules to try on each visit, in this order.
    pub rules: Vec<VisitRule>,
    /// The notification that announces the start of the quest.
    pub start_message: String,
}

/// What a [`QuestPlan`] holds, as sequences.
pub struct QuestPlanView {
    pub items: Seq<ItemView>,
    pub tasks: Seq<TaskDefView>,
    pub rules: Seq<VisitRuleView>,
    pub start_message: Seq<char>,
}

impl View for QuestPlan {
    type V = QuestPlanView;

    open spec fn view(&self) -> QuestPlanView {
        QuestPlanView {
            items: self.items@.map_values(|item: Item| item@),
            tasks: self.tasks@.map_values(|def: TaskDef| def@),
            rules: self.rules@.map_values(|rule: VisitRule| rule@),
            start_message: self.start_message@,
        }
    }
}

/// The registry after the items are registered one after the other.
pub open spec fn registered_items(
    registry: Map<Seq<char>, ItemView>,
    items: Seq<ItemView>,
) -> Map<Seq<char>, ItemView>
    decreases items.len(),
{
    if items.len() == 0 {
        registry
    } else {
        registered_items(registry, items.drop_last()).insert(items.last().id, items.last())
    }
}

/// The task table after the tasks are registered one after the other.
pub open spec fn registered_tasks(tasks: TaskMap, defs: Seq<TaskDefView>) -> TaskMap
    decreases defs.len(),
{
    if defs.len() == 0 {
        tasks
    } else {
        with_task(
            registered_tasks(tasks, defs.drop_last()),
            defs.last().quest_id,
            defs.last().task_id,
            defs.last().description,
        )
    }
}

/// A rule fires on a URL that contains its pattern.
pub open spec fn rule_fires(rule: VisitRuleView, url: Seq<char>) -> bool {
    is_substring(rule.pattern, url)
}

/// The task table after a visit to `url`: each rule that fires, in order,
/// sets its task to `Completed`; a rule whose task is not in the table changes
/// nothing.
pub open spec fn visited_tasks(tasks: TaskMap, rules: Seq<VisitRuleView>, url: Seq<char>) -> TaskMap
    decreases rules.len(),
{
    if rules.len() == 0 {
        tasks
    } else {
        let earlier = visited_tasks(tasks, rules.drop_last(), url);
        if rule_fires(rules.last(), url) {
            with_status(earlier, rules.last().quest_id, rules.last().task_id, Status::Completed)
        } else {
            earlier
        }
    }
}

/// Registering items on top of a registry gives that registry, overlaid with
/// what the same registrations give on the empty registry.
pub proof fn lemma_registered_items_overlay(registry: Map<Seq<char>, ItemView>, items: Seq<ItemView>)
    ensures
        registered_items(registry, items) == registry.union_prefer_right(
            registered_items(Map::empty(), items),
        ),
    decreases items.len(),
{
    let fresh = registered_items(Map::empty(), items);
    if items.len() == 0 {
        assert(registry =~= registry.union_prefer_right(fresh));
    } else {
        lemma_registered_items_overlay(registry, items.drop_last());
        assert(registered_items(registry, items) =~= registry.union_prefer_right(fresh));
    }
}

/// Registering tasks on top of a table gives that table, overlaid with what
/// the same registrations give on the empty table.
pub proof fn lemma_registered_tasks_overlay(tasks: TaskMap, defs: Seq<TaskDefView>)
    ensures
        registered_tasks(tasks, defs) == tasks.union_prefer_right(
            registered_tasks(Map::empty(), defs),
        ),
    decreases defs.len(),
{
    let fresh = registered_tasks(Map::empty(), defs);
    if defs.len() == 0 {
        assert(tasks =~= tasks.union_prefer_right(fresh));
    } else {
        lemma_registered_tasks_overlay(tasks, defs.drop_last());
        assert(registered_tasks(tasks, defs) =~= tasks.union_prefer_right(fresh));
    }
}

/// Registered on the empty registry, the items are exactly what the registry
/// holds: an id is in the registry just when an item has it, and what stands
/// under it is one of the items with that id.
pub proof fn lemma_registered_items_exact(items: Seq<ItemView>)
    ensures
        forall|id: Seq<char>| #[trigger]
            registered_items(Map::empty(), items).contains_key(id) <==> exists|i: int|
                0 <= i < items.len() && #[trigger] items[i].id == id,
        forall|id: Seq<char>| #[trigger]
            registered_items(Map::empty(), items).contains_key(id) ==> exists|i: int|
                0 <= i < items.len() && #[trigger] items[i] == registered_items(
                    Map::empty(),
                    items,
                )[id] && items[i].id == id,
    decreases items.len(),
{
    let all = registered_items(Map::empty(), items);
    if items.len() > 0 {
        let rest = items.drop_last();
        let earlier = registered_items(Map::empty(), rest);
        lemma_registered_items_exact(rest);
        assert forall|id: Seq<char>| #[trigger] all.contains_key(id) implies exists|i: int|
            0 <= i < items.len() && #[trigger] items[i] == all[id] && items[i].id == id by {
            if id == items.last().id {
                assert(items[items.len() - 1] == all[id]);
            } else {
                assert(earlier.contains_key(id));
                let i = choose|i: int|
                    0 <= i < rest.len() && #[trigger] rest[i] == earlier[id] && rest[i].id == id;
                assert(items[i] == all[id]);
            }
        }
        assert forall|id: Seq<char>|
            (exists|i: int| 0 <= i < items.len() && #[trigger] items[i].id == id)
                implies #[trigger] all.contains_key(id) by {
            let i = choose|i: int| 0 <= i < items.len() && #[trigger] items[i].id == id;
            if i < rest.len() {
                assert(rest[i].id == id);
            }
        }
    }
}

/// Of several items with one id the last is the one the registry holds: an
/// item that no later item shares its id with stands under its id.
pub proof fn lemma_registered_item_last(items: Seq<ItemView>, i: int)
    requires
        0 <= i < items.len(),
        forall|j: int| i < j < items.len() ==> (#[trigger] items[j]).id != items[i].id,
    ensures
        registered_items(Map::empty(), items).contains_key(items[i].id),
        registered_items(Map::empty(), items)[items[i].id] == items[i],
    decreases items.len(),
{
    if i < items.len() - 1 {
        let rest = items.drop_last();
        assert(items[items.len() - 1].id != items[i].id);
        assert forall|j: int| i < j < rest.len() implies (#[trigger] rest[j]).id != rest[i].id by {
            assert(items[j].id != items[i].id);
        }
        lemma_registered_item_last(rest, i);
    }
}

/// Of several definitions with one key the last is the one the table holds,
/// as a `Pending` task: a definition that no later definition shares its key
/// with stands under its key.
pub proof fn lemma_registered_task_last(defs: Seq<TaskDefView>, i: int)
    requires
        0 <= i < defs.len(),
        forall|j: int|
            i < j < defs.len() ==> !((#[trigger] defs[j]).quest_id == defs[i].quest_id
                && defs[j].task_id == defs[i].task_id),
    ensures
        registered_tasks(Map::empty(), defs).contains_key((defs[i].quest_id, defs[i].task_id)),
        registered_tasks(Map::empty(), defs)[(defs[i].quest_id, defs[i].task_id)] == (TaskView {
            quest_id: defs[i].quest_id,
            task_id: defs[i].task_id,
            description: defs[i].description,
            status: Status::Pending,
        }),
    decreases defs.len(),
{
    if i < defs.len() - 1 {
        let rest = defs.drop_last();
        let last = defs[defs.len() - 1];
        assert(!(last.quest_id == defs[i].quest_id && last.task_id == defs[i].task_id));
        assert forall|j: int| i < j < rest.len() implies !((#[trigger] rest[j]).quest_id
            == rest[i].quest_id && rest[j].task_id == rest[i].task_id) by {
            assert(!(defs[j].quest_id == defs[i].quest_id && defs[j].task_id == defs[i].task_id));
        }
        lemma_registered_task_last(rest, i);
    }
}

/// Registered on the empty table, the definitions are exactly what the table
/// holds, and every task is `Pending`: a key is in the table just when a
/// definition has it, and the task under it has the key's ids.
pub proof fn lemma_registered_tasks_pending(defs: Seq<TaskDefView>)
    ensures
        forall|key: (Seq<char>, Seq<char>)| #[trigger]
            registered_tasks(Map::empty(), defs).contains_key(key) <==> exists|i: int|
                0 <= i < defs.len() && (#[trigger] defs[i]).quest_id == key.0 && defs[i].task_id
                    == key.1,
        forall|key: (Seq<char>, Seq<char>)| #[trigger]
            registered_tasks(Map::empty(), defs).contains_key(key) ==> ({
                let task = registered_tasks(Map::empty(), defs)[key];
                &&& task.status == Status::Pending
                &&& task.quest_id == key.0
                &&& task.task_id == key.1
            }),
    decreases defs.len(),
{
    let all = registered_tasks(Map::empty(), defs);
    if defs.len() > 0 {
        let rest = defs.drop_last();
        let earlier = registered_tasks(Map::empty(), rest);
        lemma_registered_tasks_pending(rest);
        assert forall|key: (Seq<char>, Seq<char>)| #[trigger] all.contains_key(key) implies exists|
            i: int,
        |
            0 <= i < defs.len() && (#[trigger] defs[i]).quest_id == key.0 && defs[i].task_id
                == key.1 by {
            if key == (defs.last().quest_id, defs.last().task_id) {
                assert(defs[defs.len() - 1].quest_id == key.0);
            } else {
                assert(earlier.contains_key(key));
                let i = choose|i: int|
                    0 <= i < rest.len() && (#[trigger] rest[i]).quest_id == key.0 && rest[i].task_id
                        == key.1;
                assert(defs[i].quest_id == key.0);
            }
        }
        assert forall|key: (Seq<char>, Seq<char>)|
            (exists|i: int|
                0 <= i < defs.len() && (#[trigger] defs[i]).quest_id == key.0 && defs[i].task_id
                    == key.1) implies #[trigger] all.contains_key(key) by {
            let i = choose|i: int|
                0 <= i < defs.len() && (#[trigger] defs[i]).quest_id == key.0 && defs[i].task_id
                    == key.1;
            if i < rest.len() {
                assert(rest[i].quest_id == key.0);
            }
        }
    }
}

/// A visit neither adds a task nor removes one, and of the tasks it finds it
/// changes nothing but the status.
pub proof fn lemma_visit_keeps_tasks(tasks: TaskMap, rules: Seq<VisitRuleView>, url: Seq<char>)
    ensures
        visited_tasks(tasks, rules, url).dom() == tasks.dom(),
        forall|key: (Seq<char>, Seq<char>)| #[trigger]
            tasks.contains_key(key) ==> ({
                let after = visited_tasks(tasks, rules, url)[key];
                &&& after.quest_id == tasks[key].quest_id
                &&& after.task_id == tasks[key].task_id
                &&& after.description == tasks[key].description
                &&& (after.status == tasks[key].status || after.status == Status::Completed)
            }),
    decreases rules.len(),
{
    if rules.len() > 0 {
        lemma_visit_keeps_tasks(tasks, rules.drop_last(), url);
        assert(visited_tasks(tasks, rules, url).dom() =~= tasks.dom());
    }
}

/// The quest "Visit Google" as a plan holds it: one web page to visit, one
/// task, and one rule that completes the task on a visit to any URL that
/// contains "google.com".
pub open spec fn visit_google_plan() -> QuestPlanView {
    QuestPlanView {
        items: seq![
            ItemView {
                id: "google-item"@,
                url: "https://google.com"@,
                label: "Visit Google"@,
                kind: "webpage"@,
            },
        ],
        tasks: seq![
            TaskDefView {
                quest_id: "quest-1"@,
                task_id: "task-1"@,
                description: "Visit https://google.com"@,
            },
        ],
        rules: seq![
            VisitRuleView {
                pattern: "google.com"@,
                quest_id: "quest-1"@,
                task_id: "task-1"@,
                message: "Rust Task Complete: Google visited!"@,
            },
        ],
        start_message: "Rust Quest Started: Visit Google!"@,
    }
}

impl QuestPlan {
    /// The plan of the quest "Visit Google".
    pub fn visit_google() -> (plan: QuestPlan)
        ensures
            plan@ == visit_google_plan(),
    {
        let mut items: Vec<Item> = Vec::new();
        items.push(Item::new("google-item", "https://google.com", "Visit Google", "webpage"));
        let mut tasks: Vec<TaskDef> = Vec::new();
        tasks.push(TaskDef::new("quest-1", "task-1", "Visit https://google.com"));
        let mut rules: Vec<VisitRule> = Vec::new();
        rules.push(
            VisitRule::new("google.com", "quest-1", "task-1", "Rust Task Complete: Google visited!"),
        );
        let plan = QuestPlan {
            items,
            tasks,
            rules,
            start_message: "Rust Quest Started: Visit Google!".to_owned(),
        };
        assert(plan@.items =~= visit_google_plan().items);
        assert(plan@.tasks =~= visit_google_plan().tasks);
        assert(plan@.rules =~= visit_google_plan().rules);
        plan
    }
}

} // verus!
