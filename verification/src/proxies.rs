//! The proxies that a session of the device keeps, one for each name that the host gave.

use vstd::prelude::*;
use vstd::string::*;
use crate::table::Table;

verus! {

/// The tasks of the proxies, by name.
pub struct ProxyTable {
    pub tasks: Table<u64>,
}

/// The task that gives way to a new proxy, and the tasks then.
pub open spec fn after_start(tasks: Map<Seq<char>, u64>, id: Seq<char>, task: u64) -> (
    Option<u64>,
    Map<Seq<char>, u64>,
) {
    (
        if tasks.contains_key(id) {
            Some(tasks[id])
        } else {
            None
        },
        tasks.insert(id, task),
    )
}

impl ProxyTable {
    pub fn new() -> (r: ProxyTable)
        ensures
            r.tasks.wf(),
            r.tasks@ == Map::<Seq<char>, u64>::empty(),
    {
        ProxyTable { tasks: Table::new() }
    }

    /// Keeps a proxy; the task of an older one of that name is returned, to be ended.
    pub fn started(&mut self, id: String, task: u64) -> (r: Option<u64>)
        requires
            old(self).tasks.wf(),
        ensures
            final(self).tasks.wf(),
            (r, final(self).tasks@) == after_start(old(self).tasks@, id@, task),
    {
        let before = match self.tasks.get(id.as_str()) {
            Some(task) => Some(*task),
            None => None,
        };
        self.tasks.insert(id, task);
        before
    }

    /// Forgets all proxies; their tasks are returned, to be ended.
    pub fn ended(&mut self) -> (r: Vec<u64>)
        ensures
            final(self).tasks.wf(),
            final(self).tasks@ == Map::<Seq<char>, u64>::empty(),
            r@.len() == old(self).tasks.entries@.len(),
            forall|i: int| 0 <= i < r@.len() ==> #[trigger] r@[i] == old(self).tasks.entries@[i].1,
    {
        let mut all: Vec<u64> = Vec::new();
        let mut i: usize = 0;
        while i < self.tasks.entries.len()
            invariant
                i <= self.tasks.entries@.len(),
                self.tasks == old(self).tasks,
                all@.len() == i,
                forall|j: int| 0 <= j < i ==> #[trigger] all@[j] == self.tasks.entries@[j].1,
            decreases self.tasks.entries@.len() - i,
        {
            all.push(self.tasks.entries[i].1);
            i += 1;
        }
        self.tasks = Table::new();
        all
    }
}

/// No task is lost: whatever was kept is kept still or handed back to be ended, and it is handed
/// back exactly if a proxy of its own name takes its place.
pub proof fn lemma_no_task_is_lost(
    tasks: Map<Seq<char>, u64>,
    id: Seq<char>,
    task: u64,
    other: Seq<char>,
    next: u64,
)
    ensures
        ({
            let (ended, after) = after_start(tasks, id, task);
            &&& after.contains_key(id) && after[id] == task
            &&& tasks.contains_key(id) ==> ended == Some(tasks[id])
            &&& ended is Some ==> tasks.contains_key(id)
            &&& other != id && tasks.contains_key(other) ==> after.contains_key(other)
                && after[other] == tasks[other]
            &&& after_start(after, id, next).0 == Some(task)
        }),
{
}

} // verus!
