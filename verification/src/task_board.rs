//! The page of a task board: the tasks of the board's jobs, ordered by
//! status, then the tasks currently leased by the attached session, then
//! position and id, cut into pages. The task store is read by the runtime,
//! which hands over plain task records.
use vstd::prelude::*;
use crate::browse::{PAGE_SIZE, page_count};
use crate::menu::{is_unsupported, lemma_name_less_asymmetric, lemma_name_less_transitive, name_less, name_precedes, names_view};
use crate::text::{append, decimal, decimal_string, owned};
use crate::browse::{escape, escaped, short};

verus! {

/// Where a task stands.
#[derive(Debug, Clone, Copy, PartialEq, Eq, Structural)]
pub enum TaskStatus {
    Todo,
    InProgress,
    Blocked,
    WaitingUser,
    Failed,
    Done,
    Cancelled,
}

/// The order of statuses on a board: work in progress first, closed work last.
pub open spec fn status_rank(status: TaskStatus) -> int {
    match status {
        TaskStatus::InProgress => 0,
        TaskStatus::Blocked => 1,
        TaskStatus::WaitingUser => 2,
        TaskStatus::Todo => 3,
        TaskStatus::Failed => 4,
        TaskStatus::Done => 5,
        TaskStatus::Cancelled => 6,
    }
}

fn status_order(status: TaskStatus) -> (r: u8)
    ensures
        r == status_rank(status),
{
    match status {
        TaskStatus::InProgress => 0,
        TaskStatus::Blocked => 1,
        TaskStatus::WaitingUser => 2,
        TaskStatus::Todo => 3,
        TaskStatus::Failed => 4,
        TaskStatus::Done => 5,
        TaskStatus::Cancelled => 6,
    }
}

/// A task as a board shows it.
#[derive(Debug)]
pub struct BoardTask {
    pub id: String,
    pub job_id: String,
    pub status: TaskStatus,
    pub position: i64,
}

pub struct BoardTaskModel {
    pub id: Seq<char>,
    pub job_id: Seq<char>,
    pub status: TaskStatus,
    pub position: i64,
}

impl View for BoardTask {
    type V = BoardTaskModel;

    open spec fn view(&self) -> BoardTaskModel {
        BoardTaskModel { id: self.id@, job_id: self.job_id@, status: self.status, position: self.position }
    }
}

pub open spec fn tasks_view(tasks: Seq<BoardTask>) -> Seq<BoardTaskModel> {
    tasks.map_values(|t: BoardTask| t@)
}

/// Board order: by status, then the tasks in `current` first, then by
/// position, then by id.
pub open spec fn task_less(a: BoardTaskModel, b: BoardTaskModel, current: Seq<Seq<char>>) -> bool {
    if status_rank(a.status) != status_rank(b.status) {
        status_rank(a.status) < status_rank(b.status)
    } else if current.contains(a.id) != current.contains(b.id) {
        current.contains(a.id)
    } else if a.position != b.position {
        a.position < b.position
    } else {
        name_less(a.id, b.id)
    }
}

/// The tasks of `jobs`, in the order given.
pub open spec fn board_tasks(tasks: Seq<BoardTaskModel>, jobs: Seq<Seq<char>>) -> Seq<BoardTaskModel>
    decreases tasks.len(),
{
    if tasks.len() == 0 {
        Seq::empty()
    } else {
        let rest = board_tasks(tasks.drop_last(), jobs);
        if jobs.contains(tasks.last().job_id) { rest.push(tasks.last()) } else { rest }
    }
}

/// `t` placed before the first task it precedes, so that equal tasks keep
/// the order they came in.
pub open spec fn insert_task(s: Seq<BoardTaskModel>, t: BoardTaskModel, current: Seq<Seq<char>>) -> Seq<BoardTaskModel>
    decreases s.len(),
{
    if s.len() == 0 {
        seq![t]
    } else if task_less(t, s[0], current) {
        seq![t] + s
    } else {
        seq![s[0]] + insert_task(s.drop_first(), t, current)
    }
}

/// `s` in board order, equal tasks keeping their order (a stable sort).
pub open spec fn board_order(s: Seq<BoardTaskModel>, current: Seq<Seq<char>>) -> Seq<BoardTaskModel>
    decreases s.len(),
{
    if s.len() == 0 {
        Seq::empty()
    } else {
        insert_task(board_order(s.drop_last(), current), s.last(), current)
    }
}

/// No task of `s` precedes an earlier one in board order.
pub open spec fn in_board_order(s: Seq<BoardTaskModel>, current: Seq<Seq<char>>) -> bool {
    forall|i: int, j: int| 0 <= i < j < s.len() ==> !task_less(s[j], s[i], current)
}

/// The page shown: `page`, or the last page when it is past the end.
pub open spec fn shown_page(count: int, page: int) -> int {
    let pages = if count == 0 { 1 } else { (count + PAGE_SIZE - 1) / PAGE_SIZE as int };
    if page < pages { page } else { pages - 1 }
}

proof fn lemma_task_less(a: BoardTaskModel, b: BoardTaskModel, c: BoardTaskModel, current: Seq<Seq<char>>)
    ensures
        task_less(a, b, current) ==> !task_less(b, a, current),
        task_less(a, b, current) && task_less(b, c, current) ==> task_less(a, c, current),
{
    lemma_name_less_asymmetric(a.id, b.id);
    lemma_name_less_transitive(a.id, b.id, c.id);
}

/// Inserting keeps a board-ordered sequence in board order.
proof fn lemma_insert_ordered(s: Seq<BoardTaskModel>, t: BoardTaskModel, current: Seq<Seq<char>>)
    requires
        in_board_order(s, current),
    ensures
        in_board_order(insert_task(s, t, current), current),
        insert_task(s, t, current).len() == s.len() + 1,
        forall|k: int| 0 <= k < s.len() ==> insert_task(s, t, current).contains(#[trigger] s[k]),
        insert_task(s, t, current).contains(t),
    decreases s.len(),
{
    let r = insert_task(s, t, current);
    if s.len() == 0 {
        assert(r[0] == t);
    } else if task_less(t, s[0], current) {
        assert forall|i: int, j: int| 0 <= i < j < r.len() implies !task_less(r[j], r[i], current) by {
            if i == 0 {
                assert(r[j] == s[j - 1]);
                if j - 1 > 0 {
                    lemma_task_less(s[j - 1], t, s[0], current);
                    lemma_task_less(t, s[0], s[j - 1], current);
                    lemma_task_less(s[0], s[j - 1], t, current);
                } else {
                    lemma_task_less(t, s[0], t, current);
                }
            } else {
                assert(r[i] == s[i - 1] && r[j] == s[j - 1]);
            }
        }
        assert(r[0] == t);
        assert forall|k: int| 0 <= k < s.len() implies r.contains(#[trigger] s[k]) by {
            assert(r[k + 1] == s[k]);
        }
    } else {
        let rest = s.drop_first();
        assert(in_board_order(rest, current)) by {
            assert forall|i: int, j: int| 0 <= i < j < rest.len() implies !task_less(rest[j], rest[i], current) by {
                assert(rest[i] == s[i + 1] && rest[j] == s[j + 1]);
            }
        }
        lemma_insert_ordered(rest, t, current);
        let tail = insert_task(rest, t, current);
        assert(r == seq![s[0]] + tail);
        assert forall|i: int, j: int| 0 <= i < j < r.len() implies !task_less(r[j], r[i], current) by {
            if i == 0 {
                assert(r[j] == tail[j - 1]);
                assert(tail.contains(tail[j - 1]));
                // every element of the tail is t or an element of rest
                lemma_insert_members(rest, t, current, j - 1);
                if tail[j - 1] == t {
                } else {
                    let k = choose|k: int| 0 <= k < rest.len() && rest[k] == tail[j - 1];
                    assert(rest[k] == s[k + 1]);
                }
            } else {
                assert(r[i] == tail[i - 1] && r[j] == tail[j - 1]);
            }
        }
        assert(r[0] == s[0]);
        assert forall|k: int| 0 <= k < s.len() implies r.contains(#[trigger] s[k]) by {
            if k == 0 {
            } else {
                assert(rest[k - 1] == s[k]);
                assert(tail.contains(rest[k - 1]));
                let m = choose|m: int| 0 <= m < tail.len() && tail[m] == rest[k - 1];
                assert(r[m + 1] == s[k]);
            }
        }
        let m = choose|m: int| 0 <= m < tail.len() && tail[m] == t;
        assert(r[m + 1] == t);
    }
}

/// Every element of an insertion is the inserted task or one of `s`.
proof fn lemma_insert_members(s: Seq<BoardTaskModel>, t: BoardTaskModel, current: Seq<Seq<char>>, i: int)
    requires
        0 <= i < insert_task(s, t, current).len(),
    ensures
        insert_task(s, t, current)[i] == t || exists|k: int| 0 <= k < s.len() && s[k] == insert_task(s, t, current)[i],
    decreases s.len(),
{
    let r = insert_task(s, t, current);
    if s.len() == 0 {
    } else if task_less(t, s[0], current) {
        if i > 0 {
            assert(r[i] == s[i - 1]);
        }
    } else {
        if i > 0 {
            let rest = s.drop_first();
            lemma_insert_members(rest, t, current, i - 1);
            let tail = insert_task(rest, t, current);
            assert(r[i] == tail[i - 1]);
            if tail[i - 1] != t {
                let k = choose|k: int| 0 <= k < rest.len() && rest[k] == tail[i - 1];
                assert(s[k + 1] == rest[k]);
            }
        } else {
            assert(r[0] == s[0]);
        }
    }
}

/// Board order is an order: the sorted tasks are in board order.
proof fn lemma_board_order_ordered(s: Seq<BoardTaskModel>, current: Seq<Seq<char>>)
    ensures
        in_board_order(board_order(s, current), current),
        board_order(s, current).len() == s.len(),
    decreases s.len(),
{
    if s.len() > 0 {
        lemma_board_order_ordered(s.drop_last(), current);
        lemma_insert_ordered(board_order(s.drop_last(), current), s.last(), current);
    }
}

/// Inserting at the first position whose task `t` precedes is `insert_task`.
proof fn lemma_insert_at(s: Seq<BoardTaskModel>, t: BoardTaskModel, current: Seq<Seq<char>>, p: int)
    requires
        0 <= p <= s.len(),
        forall|k: int| 0 <= k < p ==> !task_less(t, #[trigger] s[k], current),
        p < s.len() ==> task_less(t, s[p], current),
    ensures
        insert_task(s, t, current) == s.insert(p, t),
    decreases s.len(),
{
    if s.len() == 0 {
        assert(s.insert(p, t) =~= seq![t]);
    } else if p == 0 {
        assert(s.insert(0, t) =~= seq![t] + s);
    } else {
        let rest = s.drop_first();
        assert forall|k: int| 0 <= k < p - 1 implies !task_less(t, #[trigger] rest[k], current) by {
            assert(rest[k] == s[k + 1]);
        }
        if p < s.len() {
            assert(rest[p - 1] == s[p]);
        }
        lemma_insert_at(rest, t, current, p - 1);
        assert(s.insert(p, t) =~= seq![s[0]] + rest.insert(p - 1, t));
    }
}

fn copy_task(t: &BoardTask) -> (r: BoardTask)
    ensures
        r@ == t@,
{
    BoardTask { id: owned(t.id.as_str()), job_id: owned(t.job_id.as_str()), status: t.status, position: t.position }
}

fn precedes(a: &BoardTask, b: &BoardTask, current: &Vec<String>) -> (r: bool)
    ensures
        r == task_less(a@, b@, names_view(current@)),
{
    let ra = status_order(a.status);
    let rb = status_order(b.status);
    if ra != rb {
        return ra < rb;
    }
    let ca = is_unsupported(current, a.id.as_str());
    let cb = is_unsupported(current, b.id.as_str());
    if ca != cb {
        return ca;
    }
    if a.position != b.position {
        return a.position < b.position;
    }
    name_precedes(a.id.as_str(), b.id.as_str())
}

/// A page of a board: the tasks of `jobs` in board order, where `current`
/// holds the ids of the tasks leased by the attached session. Returns the
/// tasks of the page shown (`page`, or the last page when past the end), the
/// number of pages, the page shown and how many tasks the board has.
pub fn board_page(tasks: &Vec<BoardTask>, jobs: &Vec<String>, current: &Vec<String>, page: usize) -> (r: (Vec<BoardTask>, usize, usize, usize))
    ensures
        ({
            let all = board_order(board_tasks(tasks_view(tasks@), names_view(jobs@)), names_view(current@));
            let shown = shown_page(all.len() as int, page as int);
            &&& r.3 == all.len()
            &&& r.1 == (if all.len() == 0 { 1 } else { (all.len() + PAGE_SIZE - 1) / PAGE_SIZE as int })
            &&& r.2 == shown
            &&& tasks_view(r.0@) == all.subrange(
                shown * PAGE_SIZE,
                if shown * PAGE_SIZE + PAGE_SIZE < all.len() { shown * PAGE_SIZE + PAGE_SIZE } else { all.len() as int },
            )
            &&& in_board_order(all, names_view(current@))
        }),
{
    let ghost cur = names_view(current@);
    let ghost selected = board_tasks(tasks_view(tasks@), names_view(jobs@));
    let mut sorted: Vec<BoardTask> = Vec::new();
    let mut i: usize = 0;
    while i < tasks.len()
        invariant
            i <= tasks.len(),
            cur == names_view(current@),
            selected == board_tasks(tasks_view(tasks@), names_view(jobs@)),
            tasks_view(sorted@) == board_order(board_tasks(tasks_view(tasks@).take(i as int), names_view(jobs@)), cur),
        decreases tasks.len() - i,
    {
        let ghost prefix = tasks_view(tasks@).take(i as int);
        proof {
            assert(tasks_view(tasks@).take(i + 1).drop_last() =~= prefix);
            assert(tasks_view(tasks@).take(i + 1).last() == tasks@[i as int]@);
        }
        let task = &tasks[i];
        let ghost prev = board_tasks(prefix, names_view(jobs@));
        let ghost next = board_tasks(tasks_view(tasks@).take(i + 1), names_view(jobs@));
        proof {
            assert(tasks_view(tasks@).take(i + 1).last() == task@);
        }
        if is_unsupported(jobs, task.job_id.as_str()) {
            let ghost s = tasks_view(sorted@);
            let mut p: usize = 0;
            while p < sorted.len() && !precedes(task, &sorted[p], current)
                invariant
                    p <= sorted.len(),
                    s == tasks_view(sorted@),
                    cur == names_view(current@),
                    forall|k: int| 0 <= k < p ==> !task_less(task@, #[trigger] s[k], cur),
                decreases sorted.len() - p,
            {
                p = p + 1;
            }
            proof {
                lemma_insert_at(s, task@, cur, p as int);
            }
            sorted.insert(p, copy_task(task));
            assert(tasks_view(sorted@) =~= s.insert(p as int, task@));
            proof {
                assert(next == prev.push(task@));
                assert(prev.push(task@).drop_last() =~= prev);
                assert(board_order(next, cur) == insert_task(board_order(prev, cur), task@, cur));
            }
        } else {
            assert(next == prev);
        }
        i = i + 1;
    }
    proof {
        assert(tasks_view(tasks@).take(i as int) =~= tasks_view(tasks@));
        lemma_board_order_ordered(selected, cur);
    }
    let count = sorted.len();
    let pages = page_count(count);
    let shown = if page < pages { page } else { pages - 1 };
    let start = shown * PAGE_SIZE;
    let end = if count - start > PAGE_SIZE { start + PAGE_SIZE } else { count };
    let ghost all = tasks_view(sorted@);
    let mut chosen: Vec<BoardTask> = Vec::new();
    let mut k: usize = start;
    while k < end
        invariant
            start <= k <= end,
            end <= sorted.len(),
            all == tasks_view(sorted@),
            tasks_view(chosen@) == all.subrange(start as int, k as int),
        decreases end - k,
    {
        let ghost before = tasks_view(chosen@);
        chosen.push(copy_task(&sorted[k]));
        assert(all[k as int] == sorted@[k as int]@);
        assert(tasks_view(chosen@) =~= before.push(all[k as int]));
        assert(tasks_view(chosen@) =~= all.subrange(start as int, k + 1));
        k = k + 1;
    }
    (chosen, pages, shown, count)
}

/// At most the first 60 characters.
pub open spec fn short_text(s: Seq<char>) -> Seq<char> {
    s.take(if s.len() < 60 { s.len() as int } else { 60 })
}

/// A task as its board entry shows it: its title, the names the task store
/// gives its status and phase, and the reason it gave, if any.
#[derive(Debug)]
pub struct TaskEntry {
    pub title: String,
    pub status_name: String,
    pub phase: Option<String>,
    pub reason: Option<String>,
}

/// A task's entry: its title (bold, escaped, at most 60 characters), its
/// status and phase, and its reason on a line of its own.
pub open spec fn task_summary_text(title: Seq<char>, status_name: Seq<char>, phase: Option<Seq<char>>, reason: Option<Seq<char>>) -> Seq<char> {
    "**"@ + escaped(short_text(title)) + "**\n"@ + status_name + match phase {
        Some(p) => " · "@ + p,
        None => Seq::empty(),
    } + match reason {
        Some(r) => "\n"@ + escaped(short_text(r)),
        None => Seq::empty(),
    }
}

pub fn task_summary(task: &TaskEntry) -> (r: String)
    ensures
        r@ == task_summary_text(task.title@, task.status_name@, opt_text(task.phase), opt_text(task.reason)),
{
    let mut r = owned("**");
    append(&mut r, escape(short(task.title.as_str()).as_str()).as_str());
    append(&mut r, "**\n");
    append(&mut r, task.status_name.as_str());
    match &task.phase {
        Some(p) => {
            append(&mut r, " · ");
            append(&mut r, p.as_str());
        },
        None => {},
    }
    match &task.reason {
        Some(reason) => {
            append(&mut r, "\n");
            append(&mut r, escape(short(reason.as_str()).as_str()).as_str());
        },
        None => {},
    }
    r
}

pub open spec fn opt_text(o: Option<String>) -> Option<Seq<char>> {
    match o {
        Some(s) => Some(s@),
        None => None,
    }
}

/// What a board is of: a project by name, or the attached session.
#[derive(Debug)]
pub enum BoardScope {
    Project(String),
    Session(String),
}

pub open spec fn heading_text(scope: BoardScope) -> Seq<char> {
    match scope {
        BoardScope::Project(name) => "**Project:** "@ + escaped(short_text(name@)),
        BoardScope::Session(id) => "**Session:** `"@ + id@ + "`"@,
    }
}

pub fn board_heading(scope: &BoardScope) -> (r: String)
    ensures
        r@ == heading_text(*scope),
{
    match scope {
        BoardScope::Project(name) => {
            let mut r = owned("**Project:** ");
            append(&mut r, escape(short(name.as_str()).as_str()).as_str());
            r
        },
        BoardScope::Session(id) => {
            let mut r = owned("**Session:** `");
            append(&mut r, id.as_str());
            append(&mut r, "`");
            r
        },
    }
}

/// How many of `tasks` have `status`.
pub open spec fn status_count(tasks: Seq<BoardTaskModel>, status: TaskStatus) -> nat
    decreases tasks.len(),
{
    if tasks.len() == 0 {
        0
    } else {
        status_count(tasks.drop_last(), status) + if tasks.last().status == status { 1nat } else { 0nat }
    }
}

/// A line per status, `name (count)`, in the order given.
pub open spec fn status_lines(statuses: Seq<(Seq<char>, nat)>) -> Seq<char>
    decreases statuses.len(),
{
    if statuses.len() == 0 {
        Seq::empty()
    } else {
        status_lines(statuses.drop_last()) + "\n"@ + statuses.last().0 + " ("@ + decimal(statuses.last().1) + ")"@
    }
}

/// The entries of a page, each marked when its task is leased by the
/// attached session.
pub open spec fn entry_lines(entries: Seq<(bool, Seq<char>)>) -> Seq<char>
    decreases entries.len(),
{
    if entries.len() == 0 {
        Seq::empty()
    } else {
        entry_lines(entries.drop_last()) + "\n\n"@ + (if entries.last().0 { "Current · "@ } else { Seq::empty() })
            + entries.last().1
    }
}

pub open spec fn page_entries(page: Seq<BoardTaskModel>, current: Seq<Seq<char>>, summaries: Seq<Seq<char>>) -> Seq<(bool, Seq<char>)> {
    Seq::new(page.len(), |i: int| (current.contains(page[i].id), summaries[i]))
}

/// The text of a board: its heading, how many jobs and tasks it has, the
/// count of its tasks in each status (named as given, in the order given),
/// then the entries of the page shown, or a notice that there are none.
pub open spec fn board_text(
    heading: Seq<char>,
    jobs: nat,
    tasks: nat,
    statuses: Seq<(Seq<char>, nat)>,
    entries: Seq<(bool, Seq<char>)>,
) -> Seq<char> {
    heading + "\n"@ + decimal(jobs) + " jobs · "@ + decimal(tasks) + " tasks"@ + status_lines(statuses) + entry_lines(entries)
        + if entries.len() == 0 { "\n\nNo associated tasks."@ } else { Seq::empty() }
}

proof fn lemma_board_tasks_step(tasks: Seq<BoardTaskModel>, jobs: Seq<Seq<char>>, i: int)
    requires
        0 <= i < tasks.len(),
    ensures
        board_tasks(tasks.take(i + 1), jobs) == if jobs.contains(tasks[i].job_id) {
            board_tasks(tasks.take(i), jobs).push(tasks[i])
        } else {
            board_tasks(tasks.take(i), jobs)
        },
{
    assert(tasks.take(i + 1).drop_last() =~= tasks.take(i));
    assert(tasks.take(i + 1).last() == tasks[i]);
}

/// Count the tasks of `jobs` with each status of `order`, named by `names`
/// (the task store's names, in the store's order).
pub fn status_counts(tasks: &Vec<BoardTask>, jobs: &Vec<String>, order: &Vec<(TaskStatus, String)>) -> (r: Vec<(String, u64)>)
    requires
        tasks.len() < u64::MAX,
    ensures
        r@.len() == order@.len(),
        forall|i: int| 0 <= i < r@.len() ==> #[trigger] r@[i].0@ == order@[i].1@ && r@[i].1 == status_count(
            board_tasks(tasks_view(tasks@), names_view(jobs@)),
            order@[i].0,
        ),
{
    let mut r: Vec<(String, u64)> = Vec::new();
    let mut k: usize = 0;
    while k < order.len()
        invariant
            k <= order.len(),
            tasks.len() < u64::MAX,
            r@.len() == k,
            forall|i: int| 0 <= i < k ==> #[trigger] r@[i].0@ == order@[i].1@ && r@[i].1 == status_count(
                board_tasks(tasks_view(tasks@), names_view(jobs@)),
                order@[i].0,
            ),
        decreases order.len() - k,
    {
        let status = order[k].0;
        let mut count: u64 = 0;
        let mut i: usize = 0;
        while i < tasks.len()
            invariant
                i <= tasks.len(),
                tasks.len() < u64::MAX,
                count <= i,
                count == status_count(board_tasks(tasks_view(tasks@).take(i as int), names_view(jobs@)), status),
            decreases tasks.len() - i,
        {
            proof {
                let tv = tasks_view(tasks@);
                lemma_board_tasks_step(tv, names_view(jobs@), i as int);
                assert(tv[i as int] == tasks@[i as int]@);
                let b = board_tasks(tv.take(i as int), names_view(jobs@));
                assert(b.push(tv[i as int]).drop_last() =~= b);
            }
            if is_unsupported(jobs, tasks[i].job_id.as_str()) && tasks[i].status == status {
                count = count + 1;
            }
            i = i + 1;
        }
        proof {
            assert(tasks_view(tasks@).take(i as int) =~= tasks_view(tasks@));
        }
        r.push((owned(order[k].1.as_str()), count));
        k = k + 1;
    }
    r
}

/// The text of a board page: `page` in board order with `summaries` its
/// entries, `current` the ids of the tasks leased by the attached session,
/// `statuses` the count per status.
pub fn board_body(
    heading: &str,
    jobs: u64,
    tasks: u64,
    statuses: &Vec<(String, u64)>,
    page: &Vec<BoardTask>,
    current: &Vec<String>,
    summaries: &Vec<String>,
) -> (r: String)
    requires
        summaries.len() == page.len(),
    ensures
        r@ == board_text(
            heading@,
            jobs as nat,
            tasks as nat,
            statuses@.map_values(|e: (String, u64)| (e.0@, e.1 as nat)),
            page_entries(tasks_view(page@), names_view(current@), names_view(summaries@)),
        ),
{
    let ghost sv = statuses@.map_values(|e: (String, u64)| (e.0@, e.1 as nat));
    let ghost ev = page_entries(tasks_view(page@), names_view(current@), names_view(summaries@));
    let mut r = owned(heading);
    append(&mut r, "\n");
    append(&mut r, decimal_string(jobs).as_str());
    append(&mut r, " jobs · ");
    append(&mut r, decimal_string(tasks).as_str());
    append(&mut r, " tasks");
    let ghost base = r@;
    let mut i: usize = 0;
    while i < statuses.len()
        invariant
            i <= statuses.len(),
            sv == statuses@.map_values(|e: (String, u64)| (e.0@, e.1 as nat)),
            r@ == base + status_lines(sv.take(i as int)),
        decreases statuses.len() - i,
    {
        proof {
            assert(sv.take(i + 1).drop_last() =~= sv.take(i as int));
            assert(sv.take(i + 1).last() == sv[i as int]);
        }
        append(&mut r, "\n");
        append(&mut r, statuses[i].0.as_str());
        append(&mut r, " (");
        append(&mut r, decimal_string(statuses[i].1).as_str());
        append(&mut r, ")");
        assert(r@ =~= base + status_lines(sv.take(i + 1)));
        i = i + 1;
    }
    assert(sv.take(i as int) =~= sv);
    let ghost base2 = r@;
    let mut j: usize = 0;
    while j < page.len()
        invariant
            j <= page.len(),
            summaries.len() == page.len(),
            ev == page_entries(tasks_view(page@), names_view(current@), names_view(summaries@)),
            r@ == base2 + entry_lines(ev.take(j as int)),
        decreases page.len() - j,
    {
        proof {
            assert(ev.take(j + 1).drop_last() =~= ev.take(j as int));
            assert(ev.take(j + 1).last() == ev[j as int]);
            assert(names_view(summaries@)[j as int] == summaries@[j as int]@);
            assert(tasks_view(page@)[j as int] == page@[j as int]@);
        }
        append(&mut r, "\n\n");
        if is_unsupported(current, page[j].id.as_str()) {
            append(&mut r, "Current · ");
        }
        append(&mut r, summaries[j].as_str());
        assert(r@ =~= base2 + entry_lines(ev.take(j + 1)));
        j = j + 1;
    }
    assert(ev.take(j as int) =~= ev);
    if page.len() == 0 {
        append(&mut r, "\n\nNo associated tasks.");
    }
    r
}

/// The statuses in the order a board lists them.
pub open spec fn board_status_at(p: int) -> TaskStatus {
    if p == 0 {
        TaskStatus::InProgress
    } else if p == 1 {
        TaskStatus::Blocked
    } else if p == 2 {
        TaskStatus::WaitingUser
    } else if p == 3 {
        TaskStatus::Todo
    } else if p == 4 {
        TaskStatus::Failed
    } else if p == 5 {
        TaskStatus::Done
    } else {
        TaskStatus::Cancelled
    }
}

/// On a board, tasks come by status: in progress, blocked, waiting for the
/// user, to do, failed, done, cancelled. A task never follows one whose
/// status comes later in that list, whatever their leases, positions and
/// ids; so a task waiting for the user precedes every task to do, failed,
/// done or cancelled.
pub proof fn board_lists_tasks_by_status(
    tasks: Seq<BoardTaskModel>,
    jobs: Seq<Seq<char>>,
    current: Seq<Seq<char>>,
    i: int,
    j: int,
    p: int,
    q: int,
)
    requires
        0 <= i < j < board_order(board_tasks(tasks, jobs), current).len(),
        0 <= p < q < 7,
    ensures
        !(board_order(board_tasks(tasks, jobs), current)[i].status == board_status_at(q)
            && board_order(board_tasks(tasks, jobs), current)[j].status == board_status_at(p)),
{
    let all = board_order(board_tasks(tasks, jobs), current);
    lemma_board_order_ordered(board_tasks(tasks, jobs), current);
    assert(status_rank(board_status_at(p)) == p);
    assert(status_rank(board_status_at(q)) == q);
    if all[i].status == board_status_at(q) && all[j].status == board_status_at(p) {
        assert(task_less(all[j], all[i], current));
    }
}

/// A task waiting for the user precedes, on its board, every task to do,
/// failed, done or cancelled.
pub proof fn waiting_tasks_precede_open_and_closed_ones(
    tasks: Seq<BoardTaskModel>,
    jobs: Seq<Seq<char>>,
    current: Seq<Seq<char>>,
    i: int,
    j: int,
)
    requires
        0 <= i < board_order(board_tasks(tasks, jobs), current).len(),
        0 <= j < board_order(board_tasks(tasks, jobs), current).len(),
        board_order(board_tasks(tasks, jobs), current)[i].status == TaskStatus::WaitingUser,
        ({
            let s = board_order(board_tasks(tasks, jobs), current)[j].status;
            s == TaskStatus::Todo || s == TaskStatus::Failed || s == TaskStatus::Done || s == TaskStatus::Cancelled
        }),
    ensures
        i < j,
{
    let all = board_order(board_tasks(tasks, jobs), current);
    if j < i {
        let s = all[j].status;
        let q: int = if s == TaskStatus::Todo { 3 } else if s == TaskStatus::Failed { 4 } else if s == TaskStatus::Done { 5 } else { 6 };
        board_lists_tasks_by_status(tasks, jobs, current, j, i, 2, q);
    }
}

/// Among tasks of one status, those leased by the attached session come
/// first; among those alike in that too, lower positions come first; and
/// among those alike in position, ids come in order.
pub proof fn board_breaks_ties_by_lease_position_and_id(
    tasks: Seq<BoardTaskModel>,
    jobs: Seq<Seq<char>>,
    current: Seq<Seq<char>>,
    i: int,
    j: int,
)
    requires
        0 <= i < j < board_order(board_tasks(tasks, jobs), current).len(),
        board_order(board_tasks(tasks, jobs), current)[i].status == board_order(board_tasks(tasks, jobs), current)[j].status,
    ensures
        ({
            let a = board_order(board_tasks(tasks, jobs), current)[i];
            let b = board_order(board_tasks(tasks, jobs), current)[j];
            &&& !(current.contains(b.id) && !current.contains(a.id))
            &&& current.contains(a.id) == current.contains(b.id) ==> a.position <= b.position
            &&& current.contains(a.id) == current.contains(b.id) && a.position == b.position ==> !name_less(b.id, a.id)
        }),
{
    let all = board_order(board_tasks(tasks, jobs), current);
    lemma_board_order_ordered(board_tasks(tasks, jobs), current);
    assert(!task_less(all[j], all[i], current));
}

proof fn lemma_board_tasks_members(tasks: Seq<BoardTaskModel>, jobs: Seq<Seq<char>>)
    ensures
        forall|k: int| 0 <= k < board_tasks(tasks, jobs).len() ==> tasks.contains(#[trigger] board_tasks(tasks, jobs)[k])
            && jobs.contains(board_tasks(tasks, jobs)[k].job_id),
        forall|k: int| 0 <= k < tasks.len() && jobs.contains(#[trigger] tasks[k].job_id) ==> board_tasks(tasks, jobs).contains(
            tasks[k],
        ),
    decreases tasks.len(),
{
    if tasks.len() > 0 {
        let d = tasks.drop_last();
        lemma_board_tasks_members(d, jobs);
        let rest = board_tasks(d, jobs);
        let all = board_tasks(tasks, jobs);
        assert forall|k: int| 0 <= k < all.len() implies tasks.contains(#[trigger] all[k]) && jobs.contains(all[k].job_id) by {
            if k < rest.len() {
                assert(all[k] == rest[k]);
                let x = choose|x: int| 0 <= x < d.len() && d[x] == rest[k];
                assert(tasks[x] == d[x]);
            } else {
                assert(all[k] == tasks.last());
                assert(tasks[tasks.len() - 1] == tasks.last());
            }
        }
        assert forall|k: int| 0 <= k < tasks.len() && jobs.contains(#[trigger] tasks[k].job_id) implies all.contains(tasks[k]) by {
            if k < d.len() {
                assert(d[k] == tasks[k]);
                let x = choose|x: int| 0 <= x < rest.len() && rest[x] == d[k];
                assert(all[x] == rest[x]);
            } else {
                assert(all[all.len() - 1] == tasks.last());
            }
        }
    }
}

proof fn lemma_insert_contains(s: Seq<BoardTaskModel>, t: BoardTaskModel, current: Seq<Seq<char>>)
    ensures
        insert_task(s, t, current).contains(t),
        forall|k: int| 0 <= k < s.len() ==> insert_task(s, t, current).contains(#[trigger] s[k]),
        forall|x: BoardTaskModel| #[trigger] insert_task(s, t, current).contains(x) ==> x == t || s.contains(x),
    decreases s.len(),
{
    let r = insert_task(s, t, current);
    if s.len() == 0 {
        assert(r[0] == t);
        assert forall|x: BoardTaskModel| #[trigger] r.contains(x) implies x == t || s.contains(x) by {
            let i = choose|i: int| 0 <= i < r.len() && r[i] == x;
        }
    } else if task_less(t, s[0], current) {
        assert(r[0] == t);
        assert forall|k: int| 0 <= k < s.len() implies r.contains(#[trigger] s[k]) by {
            assert(r[k + 1] == s[k]);
        }
        assert forall|x: BoardTaskModel| #[trigger] r.contains(x) implies x == t || s.contains(x) by {
            let i = choose|i: int| 0 <= i < r.len() && r[i] == x;
            if i > 0 {
                assert(r[i] == s[i - 1]);
            }
        }
    } else {
        let rest = s.drop_first();
        lemma_insert_contains(rest, t, current);
        let tail = insert_task(rest, t, current);
        assert(r == seq![s[0]] + tail);
        let ti = choose|i: int| 0 <= i < tail.len() && tail[i] == t;
        assert(r[ti + 1] == t);
        assert forall|k: int| 0 <= k < s.len() implies r.contains(#[trigger] s[k]) by {
            if k == 0 {
                assert(r[0] == s[0]);
            } else {
                assert(rest[k - 1] == s[k]);
                assert(tail.contains(rest[k - 1]));
                let x = choose|x: int| 0 <= x < tail.len() && tail[x] == rest[k - 1];
                assert(r[x + 1] == tail[x]);
            }
        }
        assert forall|x: BoardTaskModel| #[trigger] r.contains(x) implies x == t || s.contains(x) by {
            let i = choose|i: int| 0 <= i < r.len() && r[i] == x;
            if i == 0 {
                assert(s[0] == x);
            } else {
                assert(tail[i - 1] == x);
                assert(tail.contains(x));
                if x != t {
                    let k = choose|k: int| 0 <= k < rest.len() && rest[k] == x;
                    assert(s[k + 1] == x);
                }
            }
        }
    }
}

proof fn lemma_board_order_members(s: Seq<BoardTaskModel>, current: Seq<Seq<char>>)
    ensures
        forall|x: BoardTaskModel| #[trigger] board_order(s, current).contains(x) <==> s.contains(x),
    decreases s.len(),
{
    if s.len() > 0 {
        let d = s.drop_last();
        lemma_board_order_members(d, current);
        let bd = board_order(d, current);
        lemma_insert_contains(bd, s.last(), current);
        assert forall|x: BoardTaskModel| #[trigger] board_order(s, current).contains(x) <==> s.contains(x) by {
            if board_order(s, current).contains(x) {
                if x == s.last() {
                    assert(s[s.len() - 1] == x);
                } else {
                    assert(bd.contains(x));
                    assert(d.contains(x));
                    let k = choose|k: int| 0 <= k < d.len() && d[k] == x;
                    assert(s[k] == d[k]);
                }
            }
            if s.contains(x) {
                let k = choose|k: int| 0 <= k < s.len() && s[k] == x;
                if k == s.len() - 1 {
                } else {
                    assert(d[k] == x);
                    assert(d.contains(x));
                    assert(bd.contains(x));
                    let m = choose|m: int| 0 <= m < bd.len() && bd[m] == x;
                    assert(bd[m] == x);
                }
            }
        }
    }
}

/// A board shows exactly the tasks of its jobs: every task on it is one of
/// the tasks given, of one of the board's jobs, and every task of those jobs
/// is on it.
pub proof fn board_shows_exactly_the_tasks_of_its_jobs(tasks: Seq<BoardTaskModel>, jobs: Seq<Seq<char>>, current: Seq<Seq<char>>)
    ensures
        forall|k: int| 0 <= k < board_order(board_tasks(tasks, jobs), current).len() ==> {
            &&& tasks.contains(#[trigger] board_order(board_tasks(tasks, jobs), current)[k])
            &&& jobs.contains(board_order(board_tasks(tasks, jobs), current)[k].job_id)
        },
        forall|k: int| 0 <= k < tasks.len() && jobs.contains(#[trigger] tasks[k].job_id) ==> board_order(
            board_tasks(tasks, jobs),
            current,
        ).contains(tasks[k]),
{
    let b = board_tasks(tasks, jobs);
    let all = board_order(b, current);
    lemma_board_tasks_members(tasks, jobs);
    lemma_board_order_members(b, current);
    assert forall|k: int| 0 <= k < all.len() implies {
        &&& tasks.contains(#[trigger] all[k])
        &&& jobs.contains(all[k].job_id)
    } by {
        assert(all.contains(all[k]));
        assert(b.contains(all[k]));
        let m = choose|m: int| 0 <= m < b.len() && b[m] == all[k];
        assert(tasks.contains(b[m]));
    }
    assert forall|k: int| 0 <= k < tasks.len() && jobs.contains(#[trigger] tasks[k].job_id) implies all.contains(tasks[k]) by {
        assert(b.contains(tasks[k]));
    }
}

/// The page a board shows: the page asked for when it holds tasks, else the
/// last page holding any (the first when the board is empty). The page shown
/// always holds tasks of a non-empty board.
pub proof fn board_shows_the_page_asked_or_the_last(count: nat, page: nat)
    ensures
        0 <= shown_page(count as int, page as int),
        count == 0 ==> shown_page(count as int, page as int) == 0,
        page * PAGE_SIZE < count ==> shown_page(count as int, page as int) == page,
        count > 0 ==> shown_page(count as int, page as int) * PAGE_SIZE < count,
        count > 0 && count <= page * PAGE_SIZE ==> count <= (shown_page(count as int, page as int) + 1) * PAGE_SIZE,
{
    let pages = if count == 0 { 1 } else { (count + PAGE_SIZE - 1) / PAGE_SIZE as int };
    if count > 0 {
        assert(pages * 6 <= count + 5 && count + 5 < pages * 6 + 6) by (nonlinear_arith)
            requires
                pages == (count + 5) / 6,
        ;
        if page * 6 < count {
            assert(page < pages) by (nonlinear_arith)
                requires
                    page * 6 < count,
                    count + 5 < pages * 6 + 6,
            ;
        }
        let sh = shown_page(count as int, page as int);
        assert(sh * 6 < count) by (nonlinear_arith)
            requires
                sh <= pages - 1,
                pages * 6 <= count + 5,
                sh >= 0,
        ;
        if count <= page * 6 {
            assert(page >= pages) by (nonlinear_arith)
                requires
                    count <= page * 6,
                    pages * 6 <= count + 5,
            ;
            assert(count <= (sh + 1) * 6) by (nonlinear_arith)
                requires
                    sh == pages - 1,
                    count + 5 < pages * 6 + 6,
            ;
        }
    }
}

} // verus!
