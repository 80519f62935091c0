//! The bookkeeping of the tasks that carry out outputs: each task gets an id
//! of its own and its handle is kept under that id.
use vstd::prelude::*;

use crate::tables::TaskTable;

verus! {

/// What a task does when it is triggered: `F` is the callback type that the
/// program chooses.
pub enum Output<F> {
    Callback(F),
}

/// The running tasks, and the id the next one gets.
pub struct BindMan {
    tasks: TaskTable,
    next_id: usize,
}

/// The contents of a [`BindMan`].
pub struct BindManView {
    /// The ids under which a task is held.
    pub tasks: Set<usize>,
    /// The id the next task gets.
    pub next_id: usize,
}

impl BindManView {
    /// Every task's id is below the next id.
    pub open spec fn wf(self) -> bool {
        forall|id: usize| #[trigger] self.tasks.contains(id) ==> id < self.next_id
    }
}

impl View for BindMan {
    type V = BindManView;

    closed spec fn view(&self) -> BindManView {
        BindManView { tasks: self.tasks@, next_id: self.next_id }
    }
}

impl Default for BindMan {
    /// No tasks; the first one gets id 0.
    fn default() -> (m: Self)
        ensures
            m@.wf(),
            m@.tasks.is_empty(),
            m@.next_id == 0,
    {
        BindMan { tasks: TaskTable::new(), next_id: 0 }
    }
}

impl BindMan {
    /// The id the next task gets.
    pub fn next_id(&self) -> (n: usize)
        ensures
            n == self@.next_id,
    {
        self.next_id
    }

    /// Keeps the handle of a task that was just spawned, under the next id,
    /// and returns that id.
    pub fn spawn(&mut self, handle: futures::future::RemoteHandle<()>) -> (id: usize)
        requires
            old(self)@.wf(),
            old(self)@.next_id < usize::MAX,
        ensures
            final(self)@.wf(),
            id == old(self)@.next_id,
            !old(self)@.tasks.contains(id),
            final(self)@.tasks == old(self)@.tasks.insert(id),
            final(self)@.next_id == old(self)@.next_id + 1,
    {
        let id = self.next_id;
        self.tasks.insert(id, handle);
        self.next_id = self.next_id + 1;
        proof {
            assert forall|t: usize| #[trigger] self@.tasks.contains(t) implies t < self@.next_id by {
                if t != id {
                    assert(old(self)@.tasks.contains(t));
                }
            }
        }
        id
    }
}

/// Two tasks kept one after the other get different ids.
pub proof fn law_spawn_ids_distinct(m: BindManView)
    requires
        m.wf(),
        m.next_id < usize::MAX,
    ensures
        ({
            let first = m.next_id;
            let after = BindManView { tasks: m.tasks.insert(first), next_id: (m.next_id + 1) as usize };
            &&& after.wf()
            &&& after.next_id != first
            &&& !after.tasks.contains(after.next_id)
        }),
{
    let first = m.next_id;
    let after = BindManView { tasks: m.tasks.insert(first), next_id: (m.next_id + 1) as usize };
    assert forall|t: usize| #[trigger] after.tasks.contains(t) implies t < after.next_id by {
        if t != first {
            assert(m.tasks.contains(t));
        }
    }
}

} // verus!
