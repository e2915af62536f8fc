//! The task table: the tasks of all quests with their status, and the rule
//! that says when a quest is complete.

use vstd::prelude::*;
use crate::assoc::{
    as_map, has_key, keys_distinct, lemma_entry, lemma_len, lemma_push, lemma_update, position,
};
use crate::status::Status;
use crate::text::str_eq;

verus! {

/// Why an operation on the task table failed.
#[derive(Clone, Copy, Debug, PartialEq, Eq, Structural)]
pub enum QuestError {
    /// No task is registered under the given quest id and task id.
    NotFound,
}

/// A unit of quest progress.
#[derive(Debug, PartialEq, Eq)]
pub struct Task {
    pub quest_id: String,
    /// Unique within the quest.
    pub task_id: String,
    pub description: String,
    pub status: Status,
}

/// What a [`Task`] holds, as character sequences.
pub struct TaskView {
    pub quest_id: Seq<char>,
    pub task_id: Seq<char>,
    pub description: Seq<char>,
    pub status: Status,
}

impl View for Task {
    type V = TaskView;

    open spec fn view(&self) -> TaskView {
        TaskView {
            quest_id: self.quest_id@,
            task_id: self.task_id@,
            description: self.description@,
            status: self.status,
        }
    }
}

/// The key of a task: its quest id and its task id.
pub type TaskKey = (Seq<char>, Seq<char>);

/// A task table as a map from key to task.
pub type TaskMap = Map<TaskKey, TaskView>;

/// The table after a task is registered: the task stands under its key with
/// status `Pending`, in place of whatever stood there.
pub open spec fn with_task(
    tasks: TaskMap,
    quest_id: Seq<char>,
    task_id: Seq<char>,
    description: Seq<char>,
) -> TaskMap {
    tasks.insert(
        (quest_id, task_id),
        TaskView { quest_id, task_id, description, status: Status::Pending },
    )
}

/// The table after a status update: the task under the key, if there is one,
/// has the new status; without such a task the table is as before.
pub open spec fn with_status(
    tasks: TaskMap,
    quest_id: Seq<char>,
    task_id: Seq<char>,
    status: Status,
) -> TaskMap {
    let key = (quest_id, task_id);
    if tasks.contains_key(key) {
        tasks.insert(
            key,
            TaskView {
                quest_id: tasks[key].quest_id,
                task_id: tasks[key].task_id,
                description: tasks[key].description,
                status,
            },
        )
    } else {
        tasks
    }
}

/// A quest is complete when it has at least one task and each of its tasks is
/// `Completed`.
pub open spec fn quest_complete(tasks: TaskMap, quest_id: Seq<char>) -> bool {
    &&& exists|task_id: Seq<char>| tasks.contains_key((quest_id, task_id))
    &&& forall|task_id: Seq<char>| #[trigger]
        tasks.contains_key((quest_id, task_id)) ==> tasks[(quest_id, task_id)].status
            == Status::Completed
}

/// Registration leaves one task under its key, with status `Pending`,
/// whatever stood there before; it adds no key where the key was taken, and
/// touches no other task.
pub proof fn lemma_register_task_resets(
    tasks: TaskMap,
    quest_id: Seq<char>,
    task_id: Seq<char>,
    description: Seq<char>,
)
    ensures
        with_task(tasks, quest_id, task_id, description).contains_key((quest_id, task_id)),
        with_task(tasks, quest_id, task_id, description)[(quest_id, task_id)] == (TaskView {
            quest_id,
            task_id,
            description,
            status: Status::Pending,
        }),
        tasks.contains_key((quest_id, task_id)) ==> with_task(
            tasks,
            quest_id,
            task_id,
            description,
        ).dom() == tasks.dom(),
        forall|key: TaskKey|
            key != (quest_id, task_id) ==> (#[trigger] with_task(
                tasks,
                quest_id,
                task_id,
                description,
            ).contains_key(key)) == tasks.contains_key(key),
        forall|key: TaskKey|
            key != (quest_id, task_id) && #[trigger] tasks.contains_key(key) ==> with_task(
                tasks,
                quest_id,
                task_id,
                description,
            )[key] == tasks[key],
{
    let after = with_task(tasks, quest_id, task_id, description);
    if tasks.contains_key((quest_id, task_id)) {
        assert(after.dom() =~= tasks.dom());
    }
}

/// Registering twice under one key is registering once, with the second
/// description: the table has the keys it had after the first registration,
/// and the task is `Pending` whatever its status was in between.
pub proof fn lemma_register_task_twice(
    tasks: TaskMap,
    quest_id: Seq<char>,
    task_id: Seq<char>,
    first: Seq<char>,
    between: Status,
    second: Seq<char>,
)
    ensures
        ({
            let once = with_task(tasks, quest_id, task_id, first);
            let twice = with_task(
                with_status(once, quest_id, task_id, between),
                quest_id,
                task_id,
                second,
            );
            &&& twice == with_task(tasks, quest_id, task_id, second)
            &&& twice.dom() == once.dom()
            &&& twice[(quest_id, task_id)].status == Status::Pending
        }),
{
    let once = with_task(tasks, quest_id, task_id, first);
    let twice = with_task(with_status(once, quest_id, task_id, between), quest_id, task_id, second);
    assert(twice =~= with_task(tasks, quest_id, task_id, second));
    assert(twice.dom() =~= once.dom());
}

/// A status update changes the status of the one task it names and nothing
/// else: the table keeps its keys, every other task stays as it is, and the
/// named task keeps its ids and its description.
pub proof fn lemma_update_task_isolated(
    tasks: TaskMap,
    quest_id: Seq<char>,
    task_id: Seq<char>,
    status: Status,
)
    ensures
        with_status(tasks, quest_id, task_id, status).dom() == tasks.dom(),
        forall|key: TaskKey|
            key != (quest_id, task_id) && #[trigger] tasks.contains_key(key) ==> with_status(
                tasks,
                quest_id,
                task_id,
                status,
            )[key] == tasks[key],
        tasks.contains_key((quest_id, task_id)) ==> ({
            let before = tasks[(quest_id, task_id)];
            let after = with_status(tasks, quest_id, task_id, status)[(quest_id, task_id)];
            &&& after.status == status
            &&& after.quest_id == before.quest_id
            &&& after.task_id == before.task_id
            &&& after.description == before.description
        }),
{
    assert(with_status(tasks, quest_id, task_id, status).dom() =~= tasks.dom());
}

/// A status update for a task that is not in the table leaves the table as it
/// is.
pub proof fn lemma_update_task_missing(
    tasks: TaskMap,
    quest_id: Seq<char>,
    task_id: Seq<char>,
    status: Status,
)
    requires
        !tasks.contains_key((quest_id, task_id)),
    ensures
        with_status(tasks, quest_id, task_id, status) == tasks,
{
}

/// A quest without tasks is not complete.
pub proof fn lemma_quest_without_tasks(tasks: TaskMap, quest_id: Seq<char>)
    requires
        forall|task_id: Seq<char>| !tasks.contains_key((quest_id, task_id)),
    ensures
        !quest_complete(tasks, quest_id),
{
}

/// A quest with a task that is not `Completed` is not complete.
pub proof fn lemma_quest_with_open_task(tasks: TaskMap, quest_id: Seq<char>, task_id: Seq<char>)
    requires
        tasks.contains_key((quest_id, task_id)),
        tasks[(quest_id, task_id)].status != Status::Completed,
    ensures
        !quest_complete(tasks, quest_id),
{
}

/// Completing the last open task of a quest completes the quest.
pub proof fn lemma_quest_last_task(tasks: TaskMap, quest_id: Seq<char>, task_id: Seq<char>)
    requires
        tasks.contains_key((quest_id, task_id)),
        forall|other: Seq<char>|
            other != task_id && #[trigger] tasks.contains_key((quest_id, other)) ==> tasks[(
                quest_id,
                other,
            )].status == Status::Completed,
    ensures
        quest_complete(with_status(tasks, quest_id, task_id, Status::Completed), quest_id),
{
    let after = with_status(tasks, quest_id, task_id, Status::Completed);
    assert(after.contains_key((quest_id, task_id)));
    assert forall|other: Seq<char>| #[trigger] after.contains_key((quest_id, other)) implies after[(
        quest_id,
        other,
    )].status == Status::Completed by {
        if other != task_id {
            assert(tasks.contains_key((quest_id, other)));
        }
    }
}

/// The stored tasks as key-value pairs: each task beside its key.
spec fn task_entries(tasks: Seq<Task>) -> Seq<(TaskKey, TaskView)> {
    Seq::new(tasks.len(), |i: int| ((tasks[i].quest_id@, tasks[i].task_id@), tasks[i]@))
}

/// The table of tasks. It holds at most one task per quest id and task id.
pub struct TaskTable {
    tasks: Vec<Task>,
}

impl View for TaskTable {
    type V = TaskMap;

    /// The table as a map from key to task.
    closed spec fn view(&self) -> TaskMap {
        as_map(task_entries(self.tasks@))
    }
}

impl TaskTable {
    #[verifier::type_invariant]
    spec fn keys_are_distinct(&self) -> bool {
        keys_distinct(task_entries(self.tasks@))
    }

    /// The empty table.
    pub fn new() -> (table: TaskTable)
        ensures
            table@ == TaskMap::empty(),
    {
        let table = TaskTable { tasks: Vec::new() };
        assert(table@ =~= TaskMap::empty());
        table
    }

    /// The position of the task under the given key, if there is one.
    fn find(&self, quest_id: &str, task_id: &str) -> (at: Option<usize>)
        ensures
            (match at {
                Some(i) => i < self.tasks.len() && self.tasks[i as int].quest_id@ == quest_id@
                    && self.tasks[i as int].task_id@ == task_id@,
                None => !has_key(task_entries(self.tasks@), (quest_id@, task_id@)),
            }),
    {
        let mut i: usize = 0;
        while i < self.tasks.len()
            invariant
                i <= self.tasks.len(),
                forall|j: int|
                    0 <= j < i ==> !(self.tasks[j].quest_id@ == quest_id@ && self.tasks[j].task_id@
                        == task_id@),
            decreases self.tasks.len() - i,
        {
            let task = &self.tasks[i];
            if str_eq(task.quest_id.as_str(), quest_id) && str_eq(task.task_id.as_str(), task_id) {
                return Some(i);
            }
            i += 1;
        }
        None
    }

    /// Registers a task with status `Pending`. A task that stood under the
    /// same quest id and task id is replaced, whatever its status was; all
    /// other tasks stay as they are.
    pub fn register_task(&mut self, quest_id: &str, task_id: &str, description: &str)
        ensures
            final(self)@ == with_task(old(self)@, quest_id@, task_id@, description@),
    {
        proof {
            use_type_invariant(&*self);
        }
        let task = Task {
            quest_id: quest_id.to_owned(),
            task_id: task_id.to_owned(),
            description: description.to_owned(),
            status: Status::Pending,
        };
        let at = self.find(quest_id, task_id);
        let ghost key = (quest_id@, task_id@);
        let ghost before = task_entries(self.tasks@);
        let mut tasks: Vec<Task> = Vec::new();
        std::mem::swap(&mut tasks, &mut self.tasks);
        match at {
            Some(i) => {
                proof {
                    lemma_update(before, i as int, task@);
                }
                tasks.set(i, task);
                assert(task_entries(tasks@) =~= before.update(i as int, (key, task@)));
            },
            None => {
                proof {
                    lemma_push(before, key, task@);
                }
                tasks.push(task);
                assert(task_entries(tasks@) =~= before.push((key, task@)));
            },
        }
        self.tasks = tasks;
    }

    /// Sets the status of the task under the given key, whatever its status
    /// was. Without such a task the table stays as it is and the call fails
    /// with `NotFound`: an update never creates a task.
    pub fn update_task(&mut self, quest_id: &str, task_id: &str, status: Status) -> (outcome:
        Result<(), QuestError>)
        ensures
            final(self)@ == with_status(old(self)@, quest_id@, task_id@, status),
            outcome is Ok <==> old(self)@.contains_key((quest_id@, task_id@)),
            outcome is Err ==> outcome == Err::<(), QuestError>(QuestError::NotFound),
            outcome is Err ==> final(self)@ == old(self)@,
    {
        proof {
            use_type_invariant(&*self);
        }
        let at = self.find(quest_id, task_id);
        let ghost before = task_entries(self.tasks@);
        match at {
            Some(i) => {
                let mut tasks: Vec<Task> = Vec::new();
                std::mem::swap(&mut tasks, &mut self.tasks);
                let ghost updated = TaskView {
                    quest_id: tasks[i as int].quest_id@,
                    task_id: tasks[i as int].task_id@,
                    description: tasks[i as int].description@,
                    status,
                };
                proof {
                    lemma_entry(before, i as int);
                    lemma_update(before, i as int, updated);
                }
                tasks[i].status = status;
                assert(task_entries(tasks@) =~= before.update(
                    i as int,
                    ((quest_id@, task_id@), updated),
                ));
                self.tasks = tasks;
                Ok(())
            },
            None => Err(QuestError::NotFound),
        }
    }

    /// The task under the given key, if there is one.
    pub fn get(&self, quest_id: &str, task_id: &str) -> (found: Option<&Task>)
        ensures
            (match found {
                Some(task) => self@.contains_key((quest_id@, task_id@)) && task@ == self@[(
                    quest_id@,
                    task_id@,
                )] && task.quest_id@ == quest_id@ && task.task_id@ == task_id@,
                None => !self@.contains_key((quest_id@, task_id@)),
            }),
    {
        proof {
            use_type_invariant(self);
        }
        match self.find(quest_id, task_id) {
            Some(i) => {
                proof {
                    lemma_entry(task_entries(self.tasks@), i as int);
                }
                Some(&self.tasks[i])
            },
            None => None,
        }
    }

    /// The status of the task under the given key, if there is one.
    pub fn status_of(&self, quest_id: &str, task_id: &str) -> (found: Option<Status>)
        ensures
            found == (if self@.contains_key((quest_id@, task_id@)) {
                Some(self@[(quest_id@, task_id@)].status)
            } else {
                None
            }),
    {
        match self.get(quest_id, task_id) {
            Some(task) => Some(task.status),
            None => None,
        }
    }

    /// The number of tasks in the table, over all quests.
    pub fn len(&self) -> (n: usize)
        ensures
            self@.dom().finite(),
            n == self@.dom().len(),
    {
        proof {
            use_type_invariant(self);
            lemma_len(task_entries(self.tasks@));
        }
        self.tasks.len()
    }

    /// Whether the quest is complete: it has a task, and each of its tasks is
    /// `Completed`. The answer is computed from the tasks at each call.
    pub fn is_quest_complete(&self, quest_id: &str) -> (complete: bool)
        ensures
            complete == quest_complete(self@, quest_id@),
    {
        proof {
            use_type_invariant(self);
        }
        let ghost entries = task_entries(self.tasks@);
        let mut seen = false;
        let mut i: usize = 0;
        while i < self.tasks.len()
            invariant
                i <= self.tasks.len(),
                entries == task_entries(self.tasks@),
                keys_distinct(entries),
                seen <==> exists|j: int| 0 <= j < i && self.tasks[j].quest_id@ == quest_id@,
                forall|j: int|
                    0 <= j < i && self.tasks[j].quest_id@ == quest_id@ ==> self.tasks[j].status
                        == Status::Completed,
            decreases self.tasks.len() - i,
        {
            let task = &self.tasks[i];
            if str_eq(task.quest_id.as_str(), quest_id) {
                if !task.status.is_completed() {
                    proof {
                        lemma_entry(entries, i as int);
                        assert(self@.contains_key((quest_id@, task.task_id@)));
                    }
                    return false;
                }
                seen = true;
            }
            i += 1;
        }
        proof {
            if seen {
                let j = choose|j: int| 0 <= j < i && self.tasks[j].quest_id@ == quest_id@;
                lemma_entry(entries, j);
                assert(self@.contains_key((quest_id@, self.tasks[j].task_id@)));
            }
            assert forall|task_id: Seq<char>| #[trigger]
                self@.contains_key((quest_id@, task_id)) implies self@[(quest_id@, task_id)].status
                == Status::Completed && seen by {
                let j = position(entries, (quest_id@, task_id));
                assert(0 <= j < entries.len() && entries[j].0 == (quest_id@, task_id));
                lemma_entry(entries, j);
                assert(self.tasks[j].quest_id@ == quest_id@);
            }
        }
        seen
    }
}

} // verus!
