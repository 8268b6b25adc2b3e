use crate::clock;
use crate::num;
use vstd::prelude::*;
use vstd::string::*;

verus! {

/// The state of a task: a free three-state value with no transition rules.
#[derive(Clone, Copy, Debug, PartialEq, Eq, PartialOrd, Ord, Structural)]
pub enum Status {
    Todo,
    InProgress,
    Done,
}

/// The failures the tool reports.
#[derive(Clone, Copy, Debug, PartialEq, Eq, Structural)]
pub enum Error {
    InvalidStatus,
    TaskNotFound,
    IoError,
    MissingArgument,
    ParseError,
}

/// The canonical lowercase, hyphenated text of a status.
pub open spec fn status_text(s: Status) -> Seq<char> {
    match s {
        Status::Todo => "todo"@,
        Status::InProgress => "in-progress"@,
        Status::Done => "done"@,
    }
}

/// Character-for-character equality of two text slices.
fn str_eq(a: &str, b: &str) -> (r: bool)
    ensures
        r == (a@ == b@),
{
    let alen = a.unicode_len();
    let blen = b.unicode_len();
    if alen != blen {
        return false;
    }
    let mut k: usize = 0;
    while k < alen
        invariant
            alen as int == a@.len(),
            alen as int == b@.len(),
            k <= alen,
            forall|m: int| 0 <= m < k ==> a@[m] == b@[m],
        decreases alen - k,
    {
        if a.get_char(k) != b.get_char(k) {
            return false;
        }
        k += 1;
    }
    proof {
        assert(a@ =~= b@);
    }
    true
}

impl Status {
    /// The canonical text of this status.
    pub fn as_text(&self) -> (r: &'static str)
        ensures
            r@ == status_text(*self),
    {
        match self {
            Status::Todo => "todo",
            Status::InProgress => "in-progress",
            Status::Done => "done",
        }
    }

    /// Parses the canonical text of a status; any other text is refused as
    /// `InvalidStatus`.
    pub fn from_str(s: &str) -> (r: Result<Status, Error>)
        ensures
            (r == Ok::<Status, Error>(Status::Todo)) <==> (s@ == status_text(Status::Todo)),
            (r == Ok::<Status, Error>(Status::InProgress)) <==> (s@ == status_text(
                Status::InProgress,
            )),
            (r == Ok::<Status, Error>(Status::Done)) <==> (s@ == status_text(Status::Done)),
            (r is Err) <==> !(s@ == status_text(Status::Todo) || s@ == status_text(
                Status::InProgress,
            ) || s@ == status_text(Status::Done)),
            (r is Err) ==> (r == Err::<Status, Error>(Error::InvalidStatus)),
    {
        proof {
            reveal_strlit("todo");
            reveal_strlit("in-progress");
            reveal_strlit("done");
            assert("todo"@.len() == 4 && "in-progress"@.len() == 11 && "done"@.len() == 4);
            assert("todo"@[0] == 't' && "done"@[0] == 'd');
        }
        if str_eq(s, "todo") {
            Ok(Status::Todo)
        } else if str_eq(s, "in-progress") {
            Ok(Status::InProgress)
        } else if str_eq(s, "done") {
            Ok(Status::Done)
        } else {
            Err(Error::InvalidStatus)
        }
    }
}

impl Error {
    /// The message the tool prints for this failure.
    pub fn message(&self) -> (r: &'static str)
        ensures
            *self == Error::InvalidStatus ==> r@ == "invalid status"@,
            *self == Error::TaskNotFound ==> r@ == "task not found"@,
            *self == Error::IoError ==> r@ == "io error"@,
            *self == Error::MissingArgument ==> r@ == "missing argument"@,
            *self == Error::ParseError ==> r@ == "invalid id"@,
    {
        match self {
            Error::InvalidStatus => "invalid status",
            Error::TaskNotFound => "task not found",
            Error::IoError => "io error",
            Error::MissingArgument => "missing argument",
            Error::ParseError => "invalid id",
        }
    }
}

/// The mathematical value of a task.
#[verifier::ext_equal]
pub ghost struct TaskView {
    pub id: int,
    pub description: Seq<char>,
    pub status: Status,
    pub created_at: int,
    pub updated_at: int,
}

/// What every task's fields satisfy: the id fits its type, and the timestamps
/// are ordered and within the range the library renders.
pub open spec fn task_valid(v: TaskView) -> bool {
    &&& 0 <= v.id <= u64::MAX
    &&& 0 <= v.created_at <= v.updated_at <= clock::MAX_TIMESTAMP as int
}

/// The same task under another id.
pub open spec fn with_id(v: TaskView, id: int) -> TaskView {
    TaskView { id, ..v }
}

/// One to-do item: identity, text, status, and two timestamps.
#[derive(Debug)]
pub struct Task {
    pub id: u64,
    pub description: String,
    pub status: Status,
    pub created_at: i64,
    pub updated_at: i64,
}

impl View for Task {
    type V = TaskView;

    open spec fn view(&self) -> TaskView {
        TaskView {
            id: self.id as int,
            description: self.description@,
            status: self.status,
            created_at: self.created_at as int,
            updated_at: self.updated_at as int,
        }
    }
}

impl Clone for Task {
    /// A clone carries the same task value.
    fn clone(&self) -> (r: Self)
        ensures
            r@ == self@,
    {
        let r = Task {
            id: self.id,
            description: self.description.clone(),
            status: self.status,
            created_at: self.created_at,
            updated_at: self.updated_at,
        };
        proof {
            assert(r@ =~= self@);
        }
        r
    }
}

/// The mathematical values of a sequence of tasks.
pub open spec fn views(ts: Seq<Task>) -> Seq<TaskView> {
    ts.map_values(|t: Task| t@)
}

/// One display line: pipe-separated id, description, status, and timestamps.
pub open spec fn line_of(v: TaskView) -> Seq<char> {
    num::dec_rep(v.id as nat) + " | "@ + v.description + " | "@ + status_text(v.status) + " | "@
        + clock::iso_of(v.created_at) + " | "@ + clock::iso_of(v.updated_at)
}

impl Task {
    /// A fresh task: placeholder id 0, the given description, status `Todo`,
    /// and both timestamps set to the same present instant.
    pub fn new(description: String) -> (t: Task)
        ensures
            t@.id == 0,
            t@.description == description@,
            t@.status == Status::Todo,
            t@.created_at == t@.updated_at,
            task_valid(t@),
    {
        let now = clock::current_time();
        Task { id: 0, description, status: Status::Todo, created_at: now, updated_at: now }
    }

    /// Refreshes `updated_at`; the clock is clamped so that the timestamp
    /// never moves backwards.
    fn touch(&mut self)
        ensures
            final(self)@.id == old(self)@.id,
            final(self)@.description == old(self)@.description,
            final(self)@.status == old(self)@.status,
            final(self)@.created_at == old(self)@.created_at,
            final(self)@.updated_at >= old(self)@.updated_at,
            task_valid(old(self)@) ==> task_valid(final(self)@),
    {
        let now = clock::current_time();
        if now > self.updated_at {
            self.updated_at = now;
        }
    }

    /// Sets the status — any value may follow any other — and refreshes
    /// `updated_at`, which never moves backwards; `created_at` is untouched.
    pub fn update_status(&mut self, status: Status)
        ensures
            final(self)@.id == old(self)@.id,
            final(self)@.description == old(self)@.description,
            final(self)@.status == status,
            final(self)@.created_at == old(self)@.created_at,
            final(self)@.updated_at >= old(self)@.updated_at,
            task_valid(old(self)@) ==> task_valid(final(self)@),
    {
        self.status = status;
        self.touch();
    }

    /// Replaces the description and refreshes `updated_at`, which never moves
    /// backwards; `created_at` is untouched.
    pub fn update_description(&mut self, description: String)
        ensures
            final(self)@.id == old(self)@.id,
            final(self)@.description == description@,
            final(self)@.status == old(self)@.status,
            final(self)@.created_at == old(self)@.created_at,
            final(self)@.updated_at >= old(self)@.updated_at,
            task_valid(old(self)@) ==> task_valid(final(self)@),
    {
        self.description = description;
        self.touch();
    }

    /// One row of the listing table.
    pub fn render_line(&self) -> (r: String)
        requires
            task_valid(self@),
        ensures
            r@ == line_of(self@),
    {
        let mut out = num::u64_to_string(self.id);
        out.append(" | ");
        out.append(self.description.as_str());
        out.append(" | ");
        out.append(self.status.as_text());
        out.append(" | ");
        let created = clock::format_timestamp(self.created_at);
        out.append(created.as_str());
        out.append(" | ");
        let updated = clock::format_timestamp(self.updated_at);
        out.append(updated.as_str());
        proof {
            assert(out@ =~= line_of(self@));
        }
        out
    }
}

} // verus!
