use crate::codec;
use crate::task::{line_of, task_valid, views, with_id, Error, Status, Task, TaskView};
use vstd::prelude::*;
use vstd::string::*;

verus! {

/// The store invariant: ids are positional — exactly `1..=len` in order —
/// and every task's fields are valid.
pub open spec fn wf_seq(ts: Seq<TaskView>) -> bool {
    &&& forall|k: int| 0 <= k < ts.len() ==> (#[trigger] ts[k]).id == k + 1
    &&& forall|k: int| 0 <= k < ts.len() ==> task_valid(#[trigger] ts[k])
}

/// What a load yields from persisted text: the parsed tasks when the text is
/// canonical and its ids are positional, and the empty list otherwise — the
/// documented lossy recovery that swallows corruption instead of failing.
pub open spec fn load_result(s: Seq<char>) -> Seq<TaskView> {
    match codec::parse_tasks(s) {
        Some(ts) => if forall|k: int| 0 <= k < ts.len() ==> (#[trigger] ts[k]).id == k + 1 {
            ts
        } else {
            Seq::empty()
        },
        None => Seq::empty(),
    }
}

/// The tasks after renumbering: each keeps its fields while its id becomes
/// its position plus one.
pub open spec fn renumber(ts: Seq<TaskView>) -> Seq<TaskView> {
    ts.map(|k: int, v: TaskView| with_id(v, k + 1))
}

/// The tasks whose id is not `id`, their order kept.
pub open spec fn keep_others(ts: Seq<TaskView>, id: int) -> Seq<TaskView>
    decreases ts.len(),
{
    if ts.len() == 0 {
        Seq::empty()
    } else {
        keep_others(ts.drop_last(), id) + (if ts.last().id == id {
            Seq::<TaskView>::empty()
        } else {
            seq![ts.last()]
        })
    }
}

proof fn lemma_keep_others_valid(ts: Seq<TaskView>, id: int)
    requires
        forall|m: int| 0 <= m < ts.len() ==> task_valid(#[trigger] ts[m]),
    ensures
        keep_others(ts, id).len() <= ts.len(),
        forall|k: int|
            0 <= k < keep_others(ts, id).len() ==> task_valid(#[trigger] keep_others(ts, id)[k]),
    decreases ts.len(),
{
    if ts.len() > 0 {
        assert(forall|m: int|
            0 <= m < ts.drop_last().len() ==> task_valid(#[trigger] ts.drop_last()[m]));
        lemma_keep_others_valid(ts.drop_last(), id);
    }
}

/// Whether a task passes the optional status filter.
pub open spec fn matches_filter(v: TaskView, f: Option<Status>) -> bool {
    match f {
        None => true,
        Some(st) => v.status == st,
    }
}

/// The display rows of the tasks that pass the filter, in order.
pub open spec fn rows(ts: Seq<TaskView>, f: Option<Status>) -> Seq<char>
    decreases ts.len(),
{
    if ts.len() == 0 {
        Seq::empty()
    } else {
        rows(ts.drop_last(), f) + (if matches_filter(ts.last(), f) {
            line_of(ts.last()) + seq!['\n']
        } else {
            Seq::<char>::empty()
        })
    }
}

/// The full display table: two header lines, then one row for each task that
/// passes the filter.
pub open spec fn table_text(ts: Seq<TaskView>, f: Option<Status>) -> Seq<char> {
    "ID | Description | Status | Created At | Updated At\n"@
        + "---------------------------------------------\n"@ + rows(ts, f)
}

/// The ordered collection of tasks: sole owner of every task value, with
/// load/save and the query and mutation operations.
pub struct TaskList {
    pub tasks: Vec<Task>,
}

impl View for TaskList {
    type V = Seq<TaskView>;

    open spec fn view(&self) -> Seq<TaskView> {
        views(self.tasks@)
    }
}

impl TaskList {
    /// The store invariant over this store's tasks.
    pub open spec fn wf(&self) -> bool {
        wf_seq(self@)
    }

    fn ids_positional_exec(tasks: &Vec<Task>) -> (r: bool)
        ensures
            r == (forall|k: int|
                0 <= k < views(tasks@).len() ==> (#[trigger] views(tasks@)[k]).id == k + 1),
    {
        let mut k: usize = 0;
        while k < tasks.len()
            invariant
                k <= tasks@.len(),
                forall|m: int| 0 <= m < k ==> (#[trigger] views(tasks@)[m]).id == m + 1,
            decreases tasks@.len() - k,
        {
            let t = &tasks[k];
            if t.id != (k as u64) + 1 {
                proof {
                    assert(views(tasks@)[k as int].id != k + 1);
                }
                return false;
            }
            k += 1;
        }
        true
    }

    /// Builds the store from the persisted text: no text at all (the file was
    /// absent) or any non-canonical text yields an empty store — parse failure
    /// is swallowed rather than surfaced.
    pub fn load(contents: Option<&str>) -> (r: TaskList)
        ensures
            r.wf(),
            r@ == match contents {
                None => Seq::<TaskView>::empty(),
                Some(s) => load_result(s@),
            },
    {
        match contents {
            None => {
                let r = TaskList { tasks: Vec::new() };
                proof {
                    assert(r@ =~= Seq::<TaskView>::empty());
                }
                r
            },
            Some(s) => {
                match codec::parse_tasks_exec(s) {
                    Some(tasks) => {
                        if Self::ids_positional_exec(&tasks) {
                            let r = TaskList { tasks };
                            r
                        } else {
                            let r = TaskList { tasks: Vec::new() };
                            proof {
                                assert(r@ =~= Seq::<TaskView>::empty());
                            }
                            r
                        }
                    },
                    None => {
                        let r = TaskList { tasks: Vec::new() };
                        proof {
                            assert(r@ =~= Seq::<TaskView>::empty());
                        }
                        r
                    },
                }
            },
        }
    }

    fn render_items_from(tasks: &Vec<Task>, i: usize) -> (r: String)
        requires
            i <= tasks@.len(),
            forall|k: int| 0 <= k < tasks@.len() ==> task_valid(#[trigger] tasks@[k]@),
        ensures
            r@ == codec::render_items(views(tasks@).skip(i as int)),
        decreases tasks@.len() - i,
    {
        let len = tasks.len();
        if i >= len {
            let r = String::new();
            proof {
                assert(views(tasks@).skip(i as int) =~= Seq::<TaskView>::empty());
            }
            r
        } else if i == len - 1 {
            let r = codec::render_task_exec(&tasks[i]);
            proof {
                let vs = views(tasks@).skip(i as int);
                assert(vs.len() == 1);
                assert(vs[0] == tasks@[i as int]@);
            }
            r
        } else {
            let mut r = codec::render_task_exec(&tasks[i]);
            r.append(",");
            let rest = Self::render_items_from(tasks, i + 1);
            r.append(rest.as_str());
            proof {
                reveal_strlit(",");
                assert(","@ =~= seq![',']);
                let vs = views(tasks@).skip(i as int);
                assert(vs[0] == tasks@[i as int]@);
                assert(vs.skip(1) =~= views(tasks@).skip(i as int + 1));
                assert(r@ =~= codec::render_items(vs));
            }
            r
        }
    }

    /// The persisted text of the whole store.
    pub fn save(&self) -> (r: String)
        requires
            self.wf(),
        ensures
            r@ == codec::render_tasks(self@),
    {
        let mut out = "[".to_owned();
        proof {
            assert forall|k: int| 0 <= k < self.tasks@.len() implies task_valid(
                #[trigger] self.tasks@[k]@,
            ) by {
                assert(self@[k] == self.tasks@[k]@);
            }
        }
        let items = Self::render_items_from(&self.tasks, 0);
        out.append(items.as_str());
        out.append("]");
        proof {
            reveal_strlit("[");
            reveal_strlit("]");
            assert("["@ =~= seq!['[']);
            assert("]"@ =~= seq![']']);
            assert(self@.skip(0) =~= self@);
            assert(out@ =~= codec::render_tasks(self@));
        }
        out
    }

    fn update_task_id(&mut self)
        requires
            old(self)@.len() <= u64::MAX,
        ensures
            final(self)@ == renumber(old(self)@),
    {
        let ghost orig = self.tasks@;
        let mut k: usize = 0;
        while k < self.tasks.len()
            invariant
                self.tasks@.len() == orig.len() <= u64::MAX,
                k <= orig.len(),
                forall|m: int| 0 <= m < k ==> (#[trigger] self.tasks@[m])@ == with_id(orig[m]@, m + 1),
                forall|m: int| k <= m < orig.len() ==> self.tasks@[m] == orig[m],
            decreases orig.len() - k,
        {
            let ghost before = self.tasks@;
            let mut t = self.tasks.remove(k);
            t.id = (k as u64) + 1;
            self.tasks.insert(k, t);
            proof {
                assert(self.tasks@ =~= before.update(k as int, t));
                assert(t@ == with_id(orig[k as int]@, k as int + 1));
            }
            k += 1;
        }
        proof {
            assert(self@ =~= renumber(views(orig)));
        }
    }

    /// Appends the task and renumbers, so that ids stay exactly `1..=len`;
    /// the new task comes last, under id `len`.
    pub fn add_task(&mut self, task: Task)
        requires
            old(self).wf(),
            task_valid(task@),
            old(self)@.len() < u64::MAX,
        ensures
            final(self).wf(),
            final(self)@ == old(self)@.push(with_id(task@, old(self)@.len() as int + 1)),
    {
        let ghost orig = self@;
        self.tasks.push(task);
        proof {
            assert(self@ =~= orig.push(task@));
        }
        self.update_task_id();
        proof {
            assert(self@ =~= orig.push(with_id(task@, orig.len() as int + 1))) by {
                assert forall|m: int| 0 <= m < orig.len() implies renumber(orig.push(task@))[m]
                    == orig[m] by {
                    assert(with_id(orig[m], m + 1) =~= orig[m]);
                }
            }
        }
    }

    /// The first task whose id matches, if any; under the store invariant
    /// that is the task at position `id - 1`.
    pub fn get_task_by_id(&self, id: u64) -> (r: Option<&Task>)
        requires
            self.wf(),
        ensures
            match r {
                Some(t) => 1 <= id <= self@.len() && t@ == self@[id - 1],
                None => !(1 <= id <= self@.len()),
            },
    {
        let mut k: usize = 0;
        while k < self.tasks.len()
            invariant
                self.wf(),
                k <= self.tasks@.len(),
                forall|m: int| 0 <= m < k ==> (#[trigger] self@[m]).id != id as int,
            decreases self.tasks@.len() - k,
        {
            let t = &self.tasks[k];
            if t.id == id {
                return Some(t);
            }
            proof {
                assert(self@[k as int].id != id as int);
            }
            k += 1;
        }
        proof {
            if 1 <= id && id <= self@.len() {
                assert(self@[id - 1].id == id as int);
            }
        }
        None
    }

    /// Removes every task whose id matches — under the store invariant at
    /// most one — and renumbers the rest to `1..=len`.
    pub fn remove_task(&mut self, id: u64)
        requires
            old(self).wf(),
        ensures
            final(self).wf(),
            final(self)@ == renumber(keep_others(old(self)@, id as int)),
    {
        let ghost orig = self@;
        let mut kept: Vec<Task> = Vec::new();
        let mut k: usize = 0;
        while k < self.tasks.len()
            invariant
                self.tasks@.len() == orig.len(),
                self@ == orig,
                k <= orig.len(),
                views(kept@) == keep_others(orig.subrange(0, k as int), id as int),
            decreases orig.len() - k,
        {
            let ghost kept_before = kept@;
            let t = &self.tasks[k];
            if t.id != id {
                kept.push(t.clone());
            }
            proof {
                assert(orig.subrange(0, k as int + 1).drop_last() =~= orig.subrange(0, k as int));
                assert(orig.subrange(0, k as int + 1).last() == orig[k as int]);
                if t.id != id {
                    assert(views(kept@) =~= views(kept_before).push(orig[k as int]));
                    assert(views(kept@) =~= keep_others(
                        orig.subrange(0, k as int + 1),
                        id as int,
                    ));
                } else {
                    assert(views(kept@) =~= keep_others(
                        orig.subrange(0, k as int + 1),
                        id as int,
                    ));
                }
            }
            k += 1;
        }
        proof {
            assert(orig.subrange(0, orig.len() as int) =~= orig);
            lemma_keep_others_valid(orig, id as int);
            if orig.len() > 0 {
                assert(orig[orig.len() - 1].id == orig.len());
                assert(task_valid(orig[orig.len() - 1]));
            }
        }
        self.tasks = kept;
        self.update_task_id();
    }

    /// Replaces the description of the task with the given id and refreshes
    /// its `updated_at`; a missing id is `TaskNotFound` and leaves the store
    /// untouched.
    pub fn update_task(&mut self, id: u64, description: String) -> (r: Result<(), Error>)
        requires
            old(self).wf(),
        ensures
            final(self).wf(),
            (r is Ok) <==> (1 <= id <= old(self)@.len()),
            r is Ok ==> r == Ok::<(), Error>(()),
            r is Err ==> r == Err::<(), Error>(Error::TaskNotFound) && final(self)@ == old(
                self,
            )@,
            r is Ok ==> {
                &&& final(self)@.len() == old(self)@.len()
                &&& forall|m: int|
                    0 <= m < old(self)@.len() && m != id - 1 ==> final(self)@[m] == old(self)@[m]
                &&& final(self)@[id - 1].description == description@
                &&& final(self)@[id - 1].status == old(self)@[id - 1].status
                &&& final(self)@[id - 1].id == old(self)@[id - 1].id
                &&& final(self)@[id - 1].created_at == old(self)@[id - 1].created_at
                &&& final(self)@[id - 1].updated_at >= old(self)@[id - 1].updated_at
            },
    {
        let ghost orig = self@;
        if 1 <= id && id <= self.tasks.len() as u64 {
            let idx = (id - 1) as usize;
            let ghost before = self.tasks@;
            let mut t = self.tasks.remove(idx);
            t.update_description(description);
            self.tasks.insert(idx, t);
            proof {
                assert(self.tasks@ =~= before.update(idx as int, t));
                assert(self@ =~= orig.update(idx as int, t@));
            }
            Ok(())
        } else {
            Err(Error::TaskNotFound)
        }
    }

    /// Sets the status of the task with the given id and refreshes its
    /// `updated_at`; a missing id is `TaskNotFound` and leaves the store
    /// untouched.
    pub fn mark_task(&mut self, id: u64, status: Status) -> (r: Result<(), Error>)
        requires
            old(self).wf(),
        ensures
            final(self).wf(),
            (r is Ok) <==> (1 <= id <= old(self)@.len()),
            r is Ok ==> r == Ok::<(), Error>(()),
            r is Err ==> r == Err::<(), Error>(Error::TaskNotFound) && final(self)@ == old(
                self,
            )@,
            r is Ok ==> {
                &&& final(self)@.len() == old(self)@.len()
                &&& forall|m: int|
                    0 <= m < old(self)@.len() && m != id - 1 ==> final(self)@[m] == old(self)@[m]
                &&& final(self)@[id - 1].status == status
                &&& final(self)@[id - 1].description == old(self)@[id - 1].description
                &&& final(self)@[id - 1].id == old(self)@[id - 1].id
                &&& final(self)@[id - 1].created_at == old(self)@[id - 1].created_at
                &&& final(self)@[id - 1].updated_at >= old(self)@[id - 1].updated_at
            },
    {
        let ghost orig = self@;
        if 1 <= id && id <= self.tasks.len() as u64 {
            let idx = (id - 1) as usize;
            let ghost before = self.tasks@;
            let mut t = self.tasks.remove(idx);
            t.update_status(status);
            self.tasks.insert(idx, t);
            proof {
                assert(self.tasks@ =~= before.update(idx as int, t));
                assert(self@ =~= orig.update(idx as int, t@));
            }
            Ok(())
        } else {
            Err(Error::TaskNotFound)
        }
    }

    /// The display table of the store, optionally filtered by status. Listing
    /// is read-only: it takes the store by shared reference, so it can never
    /// change the stored tasks.
    pub fn list_tasks(&self, status: Option<Status>) -> (r: String)
        requires
            self.wf(),
        ensures
            r@ == table_text(self@, status),
    {
        let mut out = "ID | Description | Status | Created At | Updated At\n".to_owned();
        out.append("---------------------------------------------\n");
        let mut k: usize = 0;
        while k < self.tasks.len()
            invariant
                self.wf(),
                k <= self.tasks@.len(),
                out@ == table_text(self@.subrange(0, k as int), status),
            decreases self.tasks@.len() - k,
        {
            let t = &self.tasks[k];
            let keep = match status {
                None => true,
                Some(st) => t.status == st,
            };
            if keep {
                proof {
                    assert(t@ == self@[k as int]);
                }
                let line = t.render_line();
                out.append(line.as_str());
                out.append("\n");
            }
            proof {
                reveal_strlit("\n");
                assert("\n"@ =~= seq!['\n']);
                assert(self@.subrange(0, k as int + 1).drop_last() =~= self@.subrange(0, k as int));
                assert(self@.subrange(0, k as int + 1).last() == self@[k as int]);
                assert(out@ =~= table_text(self@.subrange(0, k as int + 1), status));
            }
            k += 1;
        }
        proof {
            assert(self@.subrange(0, self.tasks@.len() as int) =~= self@);
        }
        out
    }
}

/// The ids present in a well-formed store are exactly `1..=len`: every id
/// stays within the range, no id repeats, and each value in the range occurs.
pub proof fn lemma_wf_ids_exact(ts: Seq<TaskView>)
    requires
        wf_seq(ts),
    ensures
        forall|k: int| 0 <= k < ts.len() ==> 1 <= (#[trigger] ts[k]).id <= ts.len(),
        forall|i: int, j: int| 0 <= i < j < ts.len() ==> ts[i].id != ts[j].id,
        forall|n: int| #![trigger ts[n - 1]] 1 <= n <= ts.len() ==> ts[n - 1].id == n,
{
}

/// Round trip: loading the text that `save` writes for a well-formed store
/// yields exactly the same task sequence, field for field.
pub proof fn lemma_save_load_round_trip(ts: Seq<TaskView>)
    requires
        wf_seq(ts),
    ensures
        load_result(codec::render_tasks(ts)) == ts,
{
    codec::lemma_parse_render_tasks(ts);
}

} // verus!
