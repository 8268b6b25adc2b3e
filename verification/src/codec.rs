//! The canonical persisted form of a task list: one array of records in a
//! strict, self-inverse text format. Rendering writes it; parsing accepts
//! exactly what rendering writes and refuses everything else, which the store
//! treats as an empty list.
//!
//! Each record carries exactly the fields `id`, `description`, `status`,
//! `created_at` and `updated_at`; the status is its canonical text, and the
//! timestamps are microsecond counts since the UNIX epoch, one fixed form for
//! both save and load, so a round trip preserves every field exactly.

use crate::clock;
use crate::num;
use crate::task::{status_text, task_valid, views, Status, Task, TaskView};
use vstd::prelude::*;
use vstd::string::*;

verus! {

/// How one character is written inside a quoted description: quotes and
/// backslashes carry a backslash in front, every other character stands as
/// itself.
pub open spec fn esc(c: char) -> Seq<char> {
    if c == '"' || c == '\\' {
        seq!['\\', c]
    } else {
        seq![c]
    }
}

/// The escaped text of a description.
pub open spec fn escape(s: Seq<char>) -> Seq<char>
    decreases s.len(),
{
    if s.len() == 0 {
        Seq::empty()
    } else {
        esc(s[0]) + escape(s.skip(1))
    }
}

/// Reads an escaped description up to and over its closing quote.
pub open spec fn parse_string(s: Seq<char>, i: int) -> Option<(Seq<char>, int)>
    decreases s.len() - i
        when 0 <= i <= s.len()
{
    if i >= s.len() {
        None
    } else if s[i] == '"' {
        Some((Seq::empty(), i + 1))
    } else if s[i] == '\\' {
        if i + 1 < s.len() && (s[i + 1] == '"' || s[i + 1] == '\\') {
            match parse_string(s, i + 2) {
                Some((t, j)) => Some((seq![s[i + 1]] + t, j)),
                None => None,
            }
        } else {
            None
        }
    } else {
        match parse_string(s, i + 1) {
            Some((t, j)) => Some((seq![s[i]] + t, j)),
            None => None,
        }
    }
}

/// `p` stands letter for letter at position `i` of `s`.
pub open spec fn starts_with(s: Seq<char>, i: int, p: Seq<char>) -> bool {
    0 <= i && i + p.len() <= s.len() && s.subrange(i, i + p.len()) == p
}

/// The position after `p`, when `p` stands at position `i`.
pub open spec fn expect(s: Seq<char>, i: int, p: Seq<char>) -> Option<int> {
    if starts_with(s, i, p) {
        Some(i + p.len())
    } else {
        None
    }
}

/// Reads a status text up to and over its closing quote.
pub open spec fn parse_status(s: Seq<char>, i: int) -> Option<(Status, int)> {
    if starts_with(s, i, "todo\""@) {
        Some((Status::Todo, i + "todo\""@.len()))
    } else if starts_with(s, i, "in-progress\""@) {
        Some((Status::InProgress, i + "in-progress\""@.len()))
    } else if starts_with(s, i, "done\""@) {
        Some((Status::Done, i + "done\""@.len()))
    } else {
        None
    }
}

/// The text of one task record.
pub open spec fn render_task(v: TaskView) -> Seq<char> {
    "{\"id\":"@ + num::dec_rep(v.id as nat) + ",\"description\":\""@ + escape(v.description)
        + seq!['"'] + ",\"status\":\""@ + status_text(v.status) + seq!['"'] + ",\"created_at\":"@
        + num::dec_rep(v.created_at as nat) + ",\"updated_at\":"@ + num::dec_rep(
        v.updated_at as nat,
    ) + "}"@
}

/// Reads one task record; its fields must satisfy `task_valid`.
pub open spec fn parse_task(s: Seq<char>, i: int) -> Option<(TaskView, int)> {
    match expect(s, i, "{\"id\":"@) {
        None => None,
        Some(i1) => match num::parse_number(s, i1) {
            None => None,
            Some((id, i2)) => if id > u64::MAX {
                None
            } else {
                match expect(s, i2, ",\"description\":\""@) {
                    None => None,
                    Some(i3) => match parse_string(s, i3) {
                        None => None,
                        Some((d, i4)) => match expect(s, i4, ",\"status\":\""@) {
                            None => None,
                            Some(i5) => match parse_status(s, i5) {
                                None => None,
                                Some((st, i6)) => match expect(s, i6, ",\"created_at\":"@) {
                                    None => None,
                                    Some(i7) => match num::parse_number(s, i7) {
                                        None => None,
                                        Some((ca, i8)) => if ca > clock::MAX_TIMESTAMP as nat {
                                            None
                                        } else {
                                            match expect(s, i8, ",\"updated_at\":"@) {
                                                None => None,
                                                Some(i9) => match num::parse_number(s, i9) {
                                                    None => None,
                                                    Some((ua, i10)) => if ua
                                                        > clock::MAX_TIMESTAMP as nat || ca > ua {
                                                        None
                                                    } else {
                                                        match expect(s, i10, "}"@) {
                                                            None => None,
                                                            Some(i11) => Some(
                                                                (
                                                                    TaskView {
                                                                        id: id as int,
                                                                        description: d,
                                                                        status: st,
                                                                        created_at: ca as int,
                                                                        updated_at: ua as int,
                                                                    },
                                                                    i11,
                                                                ),
                                                            ),
                                                        }
                                                    },
                                                },
                                            }
                                        },
                                    },
                                },
                            },
                        },
                    },
                }
            },
        },
    }
}

/// The records of a task list, separated by commas.
pub open spec fn render_items(ts: Seq<TaskView>) -> Seq<char>
    decreases ts.len(),
{
    if ts.len() == 0 {
        Seq::empty()
    } else if ts.len() == 1 {
        render_task(ts[0])
    } else {
        render_task(ts[0]) + seq![','] + render_items(ts.skip(1))
    }
}

/// The persisted text of a whole task list.
pub open spec fn render_tasks(ts: Seq<TaskView>) -> Seq<char> {
    seq!['['] + render_items(ts) + seq![']']
}

/// Reads records separated by commas, up to and over the closing bracket.
pub open spec fn parse_items(s: Seq<char>, i: int) -> Option<(Seq<TaskView>, int)>
    decreases s.len() - i
        when 0 <= i <= s.len()
{
    match parse_task(s, i) {
        None => None,
        Some((v, j)) => if i < j <= s.len() {
            if j < s.len() && s[j] == ',' {
                match parse_items(s, j + 1) {
                    Some((ts, k)) => Some((seq![v] + ts, k)),
                    None => None,
                }
            } else if j < s.len() && s[j] == ']' {
                Some((seq![v], j + 1))
            } else {
                None
            }
        } else {
            None
        },
    }
}

/// Reads a whole persisted task list; the text must carry nothing else.
pub open spec fn parse_tasks(s: Seq<char>) -> Option<Seq<TaskView>> {
    if s.len() >= 1 && s[0] == '[' {
        if s.len() == 2 && s[1] == ']' {
            Some(Seq::empty())
        } else {
            match parse_items(s, 1) {
                Some((ts, j)) => if j == s.len() {
                    Some(ts)
                } else {
                    None
                },
                None => None,
            }
        }
    } else {
        None
    }
}

/// Escapes the text of `s` from position `i` on.
fn escape_from(s: &str, i: usize) -> (r: String)
    requires
        i as int <= s@.len(),
    ensures
        r@ == escape(s@.skip(i as int)),
    decreases s@.len() - i,
{
    proof {
        reveal_strlit("\\\"");
        reveal_strlit("\\\\");
    }
    let len = s.unicode_len();
    if i >= len {
        let r = String::new();
        proof {
            assert(s@.skip(i as int) =~= Seq::<char>::empty());
        }
        r
    } else {
        let c = s.get_char(i);
        let tail = escape_from(s, i + 1);
        let head: String = if c == '"' {
            "\\\"".to_owned()
        } else if c == '\\' {
            "\\\\".to_owned()
        } else {
            s.substring_char(i, i + 1).to_owned()
        };
        let r = head.concat(tail.as_str());
        proof {
            assert(s@.skip(i as int)[0] == s@[i as int]);
            assert(s@.skip(i as int).skip(1) =~= s@.skip(i as int + 1));
            assert(head@ =~= esc(s@[i as int]));
            assert(r@ =~= escape(s@.skip(i as int)));
        }
        r
    }
}

/// The escaped text of a whole description.
fn escape_exec(s: &str) -> (r: String)
    ensures
        r@ == escape(s@),
{
    let r = escape_from(s, 0);
    proof {
        assert(s@.skip(0) =~= s@);
    }
    r
}

/// Reads an escaped description at position `i`, up to and over its closing
/// quote.
fn parse_string_exec(s: &str, i: usize) -> (r: Option<(String, usize)>)
    requires
        i as int <= s@.len(),
    ensures
        match r {
            Some(p) => parse_string(s@, i as int) == Some((p.0@, p.1 as int)) && i < p.1
                <= s@.len(),
            None => parse_string(s@, i as int) is None,
        },
    decreases s@.len() - i,
{
    let len = s.unicode_len();
    if i >= len {
        None
    } else {
        let c = s.get_char(i);
        if c == '"' {
            Some((String::new(), i + 1))
        } else if c == '\\' {
            if i + 1 < len {
                let c2 = s.get_char(i + 1);
                if c2 == '"' || c2 == '\\' {
                    match parse_string_exec(s, i + 2) {
                        Some((t, j)) => {
                            let head = s.substring_char(i + 1, i + 2).to_owned();
                            let r = head.concat(t.as_str());
                            proof {
                                assert(r@ =~= seq![s@[i as int + 1]] + t@);
                            }
                            Some((r, j))
                        },
                        None => None,
                    }
                } else {
                    None
                }
            } else {
                None
            }
        } else {
            match parse_string_exec(s, i + 1) {
                Some((t, j)) => {
                    let head = s.substring_char(i, i + 1).to_owned();
                    let r = head.concat(t.as_str());
                    proof {
                        assert(r@ =~= seq![s@[i as int]] + t@);
                    }
                    Some((r, j))
                },
                None => None,
            }
        }
    }
}

/// Tests whether `lit` stands letter for letter at position `i`.
fn expect_lit(s: &str, i: usize, lit: &str) -> (r: Option<usize>)
    requires
        i as int <= s@.len(),
    ensures
        match r {
            Some(j) => expect(s@, i as int, lit@) == Some(j as int) && i <= j <= s@.len(),
            None => expect(s@, i as int, lit@) is None,
        },
{
    let len = s.unicode_len();
    let ll = lit.unicode_len();
    if ll > len - i {
        return None;
    }
    let mut k: usize = 0;
    while k < ll
        invariant
            i + ll <= len,
            len as int == s@.len(),
            ll as int == lit@.len(),
            k <= ll,
            forall|m: int| 0 <= m < k ==> s@[i + m] == lit@[m],
        decreases ll - k,
    {
        if s.get_char(i + k) != lit.get_char(k) {
            proof {
                assert(!starts_with(s@, i as int, lit@)) by {
                    if starts_with(s@, i as int, lit@) {
                        assert(s@.subrange(i as int, i + lit@.len())[k as int] == lit@[k as int]);
                    }
                }
            }
            return None;
        }
        k += 1;
    }
    proof {
        assert(s@.subrange(i as int, i + lit@.len()) =~= lit@);
    }
    Some(i + ll)
}

/// Reads a status text at position `i`, up to and over its closing quote.
fn parse_status_exec(s: &str, i: usize) -> (r: Option<(Status, usize)>)
    requires
        i as int <= s@.len(),
    ensures
        match r {
            Some(p) => parse_status(s@, i as int) == Some((p.0, p.1 as int)) && i < p.1
                <= s@.len(),
            None => parse_status(s@, i as int) is None,
        },
{
    proof {
        reveal_strlit("todo\"");
        reveal_strlit("in-progress\"");
        reveal_strlit("done\"");
    }
    match expect_lit(s, i, "todo\"") {
        Some(j) => Some((Status::Todo, j)),
        None => match expect_lit(s, i, "in-progress\"") {
            Some(j) => Some((Status::InProgress, j)),
            None => match expect_lit(s, i, "done\"") {
                Some(j) => Some((Status::Done, j)),
                None => None,
            },
        },
    }
}

/// The persisted text of one task record.
pub(crate) fn render_task_exec(t: &Task) -> (r: String)
    requires
        task_valid(t@),
    ensures
        r@ == render_task(t@),
{
    let mut out = "{\"id\":".to_owned();
    let id_text = num::u64_to_string(t.id);
    out.append(id_text.as_str());
    out.append(",\"description\":\"");
    let desc = escape_exec(t.description.as_str());
    out.append(desc.as_str());
    out.append("\"");
    out.append(",\"status\":\"");
    out.append(t.status.as_text());
    out.append("\"");
    out.append(",\"created_at\":");
    let created = num::u64_to_string(t.created_at as u64);
    out.append(created.as_str());
    out.append(",\"updated_at\":");
    let updated = num::u64_to_string(t.updated_at as u64);
    out.append(updated.as_str());
    out.append("}");
    proof {
        reveal_strlit("\"");
        assert("\""@ =~= seq!['"']);
        assert(out@ =~= render_task(t@));
    }
    out
}

/// Reads one task record at position `i`.
fn parse_task_exec(s: &str, i: usize) -> (r: Option<(Task, usize)>)
    requires
        i as int <= s@.len(),
    ensures
        match r {
            Some(p) => parse_task(s@, i as int) == Some((p.0@, p.1 as int)) && i < p.1 <= s@.len()
                && task_valid(p.0@),
            None => parse_task(s@, i as int) is None,
        },
{
    let i1 = match expect_lit(s, i, "{\"id\":") {
        Some(j) => j,
        None => {
            return None;
        },
    };
    let (id, i2) = match num::parse_number_exec(s, i1) {
        Some(p) => p,
        None => {
            return None;
        },
    };
    let i3 = match expect_lit(s, i2, ",\"description\":\"") {
        Some(j) => j,
        None => {
            return None;
        },
    };
    let (desc, i4) = match parse_string_exec(s, i3) {
        Some(p) => p,
        None => {
            return None;
        },
    };
    let i5 = match expect_lit(s, i4, ",\"status\":\"") {
        Some(j) => j,
        None => {
            return None;
        },
    };
    let (st, i6) = match parse_status_exec(s, i5) {
        Some(p) => p,
        None => {
            return None;
        },
    };
    let i7 = match expect_lit(s, i6, ",\"created_at\":") {
        Some(j) => j,
        None => {
            return None;
        },
    };
    let (ca, i8) = match num::parse_number_exec(s, i7) {
        Some(p) => p,
        None => {
            return None;
        },
    };
    if ca > clock::MAX_TIMESTAMP as u64 {
        return None;
    }
    let i9 = match expect_lit(s, i8, ",\"updated_at\":") {
        Some(j) => j,
        None => {
            return None;
        },
    };
    let (ua, i10) = match num::parse_number_exec(s, i9) {
        Some(p) => p,
        None => {
            return None;
        },
    };
    if ua > clock::MAX_TIMESTAMP as u64 || ca > ua {
        return None;
    }
    let i11 = match expect_lit(s, i10, "}") {
        Some(j) => j,
        None => {
            return None;
        },
    };
    let t = Task {
        id,
        description: desc,
        status: st,
        created_at: ca as i64,
        updated_at: ua as i64,
    };
    proof {
        assert(parse_task(s@, i as int) matches Some(p) && p.0 =~= t@ && p.1 == i11 as int);
    }
    Some((t, i11))
}

/// Reads records separated by commas at position `i`, up to and over the
/// closing bracket.
fn parse_items_exec(s: &str, i: usize) -> (r: Option<(Vec<Task>, usize)>)
    requires
        i as int <= s@.len(),
    ensures
        match r {
            Some(p) => parse_items(s@, i as int) == Some((views(p.0@), p.1 as int)) && i < p.1
                <= s@.len() && (forall|k: int|
                0 <= k < p.0@.len() ==> task_valid(#[trigger] p.0@[k]@)),
            None => parse_items(s@, i as int) is None,
        },
    decreases s@.len() - i,
{
    match parse_task_exec(s, i) {
        None => None,
        Some((t, j)) => {
            let len = s.unicode_len();
            if j < len && s.get_char(j) == ',' {
                match parse_items_exec(s, j + 1) {
                    None => None,
                    Some((mut rest, k)) => {
                        let ghost r0 = rest@;
                        rest.insert(0, t);
                        proof {
                            assert(views(rest@) =~= seq![t@] + views(r0));
                        }
                        Some((rest, k))
                    },
                }
            } else if j < len && s.get_char(j) == ']' {
                let mut one: Vec<Task> = Vec::new();
                one.push(t);
                proof {
                    assert(views(one@) =~= seq![t@]);
                }
                Some((one, j + 1))
            } else {
                None
            }
        },
    }
}

/// Reads a whole persisted task list; anything but the canonical text is
/// refused.
pub(crate) fn parse_tasks_exec(s: &str) -> (r: Option<Vec<Task>>)
    ensures
        match r {
            Some(v) => parse_tasks(s@) == Some(views(v@)) && (forall|k: int|
                0 <= k < v@.len() ==> task_valid(#[trigger] v@[k]@)),
            None => parse_tasks(s@) is None,
        },
{
    let len = s.unicode_len();
    if len >= 1 && s.get_char(0) == '[' {
        if len == 2 && s.get_char(1) == ']' {
            let v: Vec<Task> = Vec::new();
            proof {
                assert(views(v@) =~= Seq::<TaskView>::empty());
            }
            Some(v)
        } else {
            match parse_items_exec(s, 1) {
                Some((v, j)) => if j == len {
                    Some(v)
                } else {
                    None
                },
                None => None,
            }
        }
    } else {
        None
    }
}

proof fn lemma_assoc(x: Seq<char>, y: Seq<char>, z: Seq<char>)
    ensures
        (x + y) + z == x + (y + z),
{
    assert((x + y) + z =~= x + (y + z));
}

proof fn lemma_skip_prefix(s: Seq<char>, i: int, p: Seq<char>, tail: Seq<char>)
    requires
        0 <= i <= s.len(),
        s.skip(i) == p + tail,
    ensures
        i + p.len() <= s.len(),
        expect(s, i, p) == Some(i + p.len()),
        s.skip(i + p.len()) == tail,
{
    assert(s.skip(i).len() == s.len() - i);
    assert(s.subrange(i, i + p.len()) =~= p) by {
        assert forall|m: int| 0 <= m < p.len() implies s.subrange(i, i + p.len())[m] == p[m] by {
            assert(s.subrange(i, i + p.len())[m] == s[i + m]);
            assert(s[i + m] == s.skip(i)[m]);
            assert(s.skip(i)[m] == (p + tail)[m]);
        }
    }
    assert(starts_with(s, i, p));
    assert(s.skip(i + p.len()) =~= tail) by {
        assert forall|m: int| 0 <= m < tail.len() implies s.skip(i + p.len())[m] == tail[m] by {
            assert(s.skip(i + p.len())[m] == s[i + p.len() + m]);
            assert(s[i + p.len() + m] == s.skip(i)[p.len() + m]);
            assert(s.skip(i)[p.len() + m] == (p + tail)[p.len() + m]);
        }
    }
}

proof fn lemma_skip_number(s: Seq<char>, i: int, n: nat, tail: Seq<char>)
    requires
        0 <= i <= s.len(),
        s.skip(i) == num::dec_rep(n) + tail,
        tail.len() > 0,
        !num::is_digit(tail[0]),
    ensures
        num::parse_number(s, i) == Some((n, i + num::dec_rep(n).len())),
        i + num::dec_rep(n).len() < s.len(),
        s.skip(i + num::dec_rep(n).len()) == tail,
{
    lemma_skip_prefix(s, i, num::dec_rep(n), tail);
    let j = i + num::dec_rep(n).len();
    assert(s[j] == s.skip(j)[0]);
    num::lemma_parse_dec_rep(s, i, n);
}

/// Parsing reads back exactly the escaped description that rendering wrote.
proof fn lemma_parse_escape(s: Seq<char>, i: int, d: Seq<char>, rest: Seq<char>)
    requires
        0 <= i <= s.len(),
        s.skip(i) == escape(d) + seq!['"'] + rest,
    ensures
        parse_string(s, i) == Some((d, i + escape(d).len() + 1)),
        i + escape(d).len() + 1 <= s.len(),
        s.skip(i + escape(d).len() + 1) == rest,
    decreases d.len(),
{
    assert(s.skip(i).len() == s.len() - i);
    if d.len() == 0 {
        assert(escape(d) =~= Seq::<char>::empty());
        assert(s.skip(i) =~= seq!['"'] + rest);
        assert(s[i] == s.skip(i)[0]);
        lemma_skip_prefix(s, i, seq!['"'], rest);
        assert(d =~= Seq::<char>::empty());
    } else {
        let c = d[0];
        let t = d.skip(1);
        assert(escape(d) == esc(c) + escape(t));
        if c == '"' || c == '\\' {
            assert(esc(c) =~= seq!['\\', c]);
            let tail = (escape(t) + seq!['"']) + rest;
            assert(s.skip(i) =~= seq!['\\', c] + tail);
            lemma_skip_prefix(s, i, seq!['\\', c], tail);
            assert(s[i] == s.skip(i)[0]);
            assert(s[i + 1] == s.skip(i)[1]);
            lemma_parse_escape(s, i + 2, t, rest);
            assert(seq![s[i + 1]] + t =~= d);
        } else {
            assert(esc(c) =~= seq![c]);
            let tail = (escape(t) + seq!['"']) + rest;
            assert(s.skip(i) =~= seq![c] + tail);
            lemma_skip_prefix(s, i, seq![c], tail);
            assert(s[i] == s.skip(i)[0]);
            lemma_parse_escape(s, i + 1, t, rest);
            assert(seq![s[i]] + t =~= d);
        }
    }
}

/// Parsing reads back exactly the status text that rendering wrote.
proof fn lemma_parse_status_text(s: Seq<char>, i: int, st: Status, rest: Seq<char>)
    requires
        0 <= i <= s.len(),
        s.skip(i) == status_text(st) + seq!['"'] + rest,
    ensures
        parse_status(s, i) == Some((st, i + status_text(st).len() + 1)),
        i + status_text(st).len() + 1 <= s.len(),
        s.skip(i + status_text(st).len() + 1) == rest,
{
    reveal_strlit("todo");
    reveal_strlit("in-progress");
    reveal_strlit("done");
    reveal_strlit("todo\"");
    reveal_strlit("in-progress\"");
    reveal_strlit("done\"");
    match st {
        Status::Todo => {
            assert(status_text(st) + seq!['"'] =~= "todo\""@);
            assert(s.skip(i) =~= "todo\""@ + rest);
            lemma_skip_prefix(s, i, "todo\""@, rest);
        },
        Status::InProgress => {
            assert(status_text(st) + seq!['"'] =~= "in-progress\""@);
            assert(s.skip(i) =~= "in-progress\""@ + rest);
            lemma_skip_prefix(s, i, "in-progress\""@, rest);
            assert(!starts_with(s, i, "todo\""@)) by {
                if starts_with(s, i, "todo\""@) {
                    assert(s.subrange(i, i + "todo\""@.len())[0] == 't');
                    assert(s[i] == 'i');
                }
            }
        },
        Status::Done => {
            assert(status_text(st) + seq!['"'] =~= "done\""@);
            assert(s.skip(i) =~= "done\""@ + rest);
            lemma_skip_prefix(s, i, "done\""@, rest);
            assert(!starts_with(s, i, "todo\""@)) by {
                if starts_with(s, i, "todo\""@) {
                    assert(s.subrange(i, i + "todo\""@.len())[0] == 't');
                    assert(s[i] == 'd');
                }
            }
            assert(!starts_with(s, i, "in-progress\""@)) by {
                if starts_with(s, i, "in-progress\""@) {
                    assert(s.subrange(i, i + "in-progress\""@.len())[0] == 'i');
                    assert(s[i] == 'd');
                }
            }
        },
    }
}

/// Parsing reads back exactly the record that rendering wrote for a task.
proof fn lemma_parse_render_task(s: Seq<char>, i: int, v: TaskView, rest: Seq<char>)
    requires
        0 <= i <= s.len(),
        task_valid(v),
        s.skip(i) == render_task(v) + rest,
    ensures
        parse_task(s, i) == Some((v, i + render_task(v).len())),
        i < i + render_task(v).len() <= s.len(),
        s.skip(i + render_task(v).len()) == rest,
{
    reveal_strlit("{\"id\":");
    reveal_strlit(",\"description\":\"");
    reveal_strlit(",\"status\":\"");
    reveal_strlit(",\"created_at\":");
    reveal_strlit(",\"updated_at\":");
    reveal_strlit("}");
    let a1 = "{\"id\":"@;
    let a2 = num::dec_rep(v.id as nat);
    let a3 = ",\"description\":\""@;
    let a4 = escape(v.description);
    let q = seq!['"'];
    let a6 = ",\"status\":\""@;
    let a7 = status_text(v.status);
    let a9 = ",\"created_at\":"@;
    let a10 = num::dec_rep(v.created_at as nat);
    let a11 = ",\"updated_at\":"@;
    let a12 = num::dec_rep(v.updated_at as nat);
    let a13 = "}"@;
    let t12 = a13 + rest;
    let t11 = a12 + t12;
    let t10 = a11 + t11;
    let t9 = a10 + t10;
    let t8 = a9 + t9;
    let t7 = q + t8;
    let t6 = a7 + t7;
    let t5 = a6 + t6;
    let t4 = q + t5;
    let t3 = a4 + t4;
    let t2 = a3 + t3;
    let t1 = a2 + t2;
    let p1 = a1;
    let p2 = p1 + a2;
    let p3 = p2 + a3;
    let p4 = p3 + a4;
    let p5 = p4 + q;
    let p6 = p5 + a6;
    let p7 = p6 + a7;
    let p8 = p7 + q;
    let p9 = p8 + a9;
    let p10 = p9 + a10;
    let p11 = p10 + a11;
    let p12 = p11 + a12;
    assert(render_task(v) == p12 + a13);
    lemma_assoc(p12, a13, rest);
    assert(s.skip(i) == p12 + t12);
    lemma_assoc(p11, a12, t12);
    assert(s.skip(i) == p11 + t11);
    lemma_assoc(p10, a11, t11);
    assert(s.skip(i) == p10 + t10);
    lemma_assoc(p9, a10, t10);
    assert(s.skip(i) == p9 + t9);
    lemma_assoc(p8, a9, t9);
    assert(s.skip(i) == p8 + t8);
    lemma_assoc(p7, q, t8);
    assert(s.skip(i) == p7 + t7);
    lemma_assoc(p6, a7, t7);
    assert(s.skip(i) == p6 + t6);
    lemma_assoc(p5, a6, t6);
    assert(s.skip(i) == p5 + t5);
    lemma_assoc(p4, q, t5);
    assert(s.skip(i) == p4 + t4);
    lemma_assoc(p3, a4, t4);
    assert(s.skip(i) == p3 + t3);
    lemma_assoc(p2, a3, t3);
    assert(s.skip(i) == p2 + t2);
    lemma_assoc(p1, a2, t2);
    assert(s.skip(i) == a1 + t1);
    lemma_skip_prefix(s, i, a1, t1);
    let i1 = i + a1.len();
    assert(t2[0] == a3[0]);
    lemma_skip_number(s, i1, v.id as nat, t2);
    let i2 = i1 + a2.len();
    lemma_skip_prefix(s, i2, a3, t3);
    let i3 = i2 + a3.len();
    lemma_assoc(a4, q, t5);
    assert(s.skip(i3) == (a4 + q) + t5);
    lemma_parse_escape(s, i3, v.description, t5);
    let i4 = i3 + a4.len() + 1;
    lemma_skip_prefix(s, i4, a6, t6);
    let i5 = i4 + a6.len();
    lemma_assoc(a7, q, t8);
    assert(s.skip(i5) == (a7 + q) + t8);
    lemma_parse_status_text(s, i5, v.status, t8);
    let i6 = i5 + a7.len() + 1;
    lemma_skip_prefix(s, i6, a9, t9);
    let i7 = i6 + a9.len();
    assert(t10[0] == a11[0]);
    lemma_skip_number(s, i7, v.created_at as nat, t10);
    let i8 = i7 + a10.len();
    lemma_skip_prefix(s, i8, a11, t11);
    let i9 = i8 + a11.len();
    assert(t12[0] == a13[0]);
    lemma_skip_number(s, i9, v.updated_at as nat, t12);
    let i10 = i9 + a12.len();
    lemma_skip_prefix(s, i10, a13, rest);
    let i11 = i10 + a13.len();
    assert(parse_task(s, i) matches Some(p) && p.1 == i11 && p.0 =~= v);
    assert(i11 == i + render_task(v).len());
}

/// Parsing reads back exactly the records that rendering wrote for a
/// non-empty task list.
proof fn lemma_parse_render_items(s: Seq<char>, i: int, ts: Seq<TaskView>, rest: Seq<char>)
    requires
        0 <= i <= s.len(),
        ts.len() >= 1,
        forall|k: int| 0 <= k < ts.len() ==> task_valid(#[trigger] ts[k]),
        s.skip(i) == render_items(ts) + seq![']'] + rest,
    ensures
        parse_items(s, i) == Some((ts, i + render_items(ts).len() + 1)),
        i + render_items(ts).len() + 1 <= s.len(),
        s.skip(i + render_items(ts).len() + 1) == rest,
    decreases ts.len(),
{
    reveal_strlit("{\"id\":");
    assert(task_valid(ts[0]));
    assert(render_task(ts[0]).len() >= 6);
    if ts.len() == 1 {
        assert(render_items(ts) == render_task(ts[0]));
        lemma_assoc(render_task(ts[0]), seq![']'], rest);
        lemma_parse_render_task(s, i, ts[0], seq![']'] + rest);
        let j = i + render_task(ts[0]).len();
        assert(s[j] == s.skip(j)[0]);
        lemma_skip_prefix(s, j, seq![']'], rest);
        assert(seq![ts[0]] =~= ts);
    } else {
        let rt = render_task(ts[0]);
        let ri = render_items(ts.skip(1));
        let se = seq![']'];
        let co = seq![','];
        assert(render_items(ts) == (rt + co) + ri);
        let inner = ri + (se + rest);
        lemma_assoc((rt + co) + ri, se, rest);
        assert(s.skip(i) == ((rt + co) + ri) + (se + rest));
        lemma_assoc(rt + co, ri, se + rest);
        assert(s.skip(i) == (rt + co) + inner);
        lemma_assoc(rt, co, inner);
        assert(s.skip(i) == rt + (co + inner));
        lemma_parse_render_task(s, i, ts[0], co + inner);
        let j = i + rt.len();
        assert(s[j] == s.skip(j)[0]);
        lemma_skip_prefix(s, j, co, inner);
        lemma_assoc(ri, se, rest);
        assert(s.skip(j + 1) == (ri + se) + rest);
        assert(forall|k: int|
            0 <= k < ts.skip(1).len() ==> task_valid(#[trigger] ts.skip(1)[k]));
        lemma_parse_render_items(s, j + 1, ts.skip(1), rest);
        assert(seq![ts[0]] + ts.skip(1) =~= ts);
        assert(render_items(ts).len() == rt.len() + 1 + ri.len());
    }
}

/// The round trip at the heart of persistence: parsing reads back exactly the
/// task list that rendering wrote.
pub proof fn lemma_parse_render_tasks(ts: Seq<TaskView>)
    requires
        forall|k: int| 0 <= k < ts.len() ==> task_valid(#[trigger] ts[k]),
    ensures
        parse_tasks(render_tasks(ts)) == Some(ts),
{
    let s = render_tasks(ts);
    reveal_strlit("{\"id\":");
    if ts.len() == 0 {
        assert(render_items(ts) =~= Seq::<char>::empty());
        assert(s =~= seq!['[', ']']);
        assert(s[0] == '[' && s[1] == ']' && s.len() == 2);
        assert(ts =~= Seq::<TaskView>::empty());
    } else {
        assert(task_valid(ts[0]));
        assert(render_task(ts[0]).len() >= 6);
        assert(render_items(ts).len() >= 6);
        assert(s.len() == 2 + render_items(ts).len());
        assert(s[0] == '[');
        assert(s.skip(1) =~= (render_items(ts) + seq![']']) + Seq::<char>::empty());
        lemma_parse_render_items(s, 1, ts, Seq::empty());
        assert(1 + render_items(ts).len() + 1 == s.len());
    }
}

} // verus!
