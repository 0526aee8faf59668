//! Paging and Markdown escaping for task board views.
use vstd::prelude::*;
use crate::text::{
    append, capped, chars_of, is_prefix, lemma_utf8_bytes_concat, lemma_utf8_bytes_len, opt_view, push, starts_with,
    string_of_range, trim, trimmed, utf8_bytes, utf8_bytes_capped,
};

verus! {

/// Items per task board page.
pub const PAGE_SIZE: usize = 6;

/// A task board screen and the page shown.
#[derive(Debug, Clone)]
pub enum TaskBrowse {
    Dashboard(usize),
    Board { project: Option<String>, page: usize },
    Jobs(usize),
    Inboxes { project: String, page: usize },
    Inbox { id: String, page: usize },
    Job { id: String, page: usize },
    Task { id: String, page: usize },
}

pub open spec fn page_of(b: TaskBrowse) -> usize {
    match b {
        TaskBrowse::Dashboard(page) => page,
        TaskBrowse::Board { page, .. } => page,
        TaskBrowse::Jobs(page) => page,
        TaskBrowse::Inboxes { page, .. } => page,
        TaskBrowse::Inbox { page, .. } => page,
        TaskBrowse::Job { page, .. } => page,
        TaskBrowse::Task { page, .. } => page,
    }
}

/// The same screen at another page.
pub open spec fn with_page(b: TaskBrowse, page: usize) -> TaskBrowse {
    match b {
        TaskBrowse::Dashboard(_) => TaskBrowse::Dashboard(page),
        TaskBrowse::Board { project, .. } => TaskBrowse::Board { project, page },
        TaskBrowse::Jobs(_) => TaskBrowse::Jobs(page),
        TaskBrowse::Inboxes { project, .. } => TaskBrowse::Inboxes { project, page },
        TaskBrowse::Inbox { id, .. } => TaskBrowse::Inbox { id, page },
        TaskBrowse::Job { id, .. } => TaskBrowse::Job { id, page },
        TaskBrowse::Task { id, .. } => TaskBrowse::Task { id, page },
    }
}

impl TaskBrowse {
    pub fn page(&self) -> (r: usize)
        ensures
            r == page_of(*self),
    {
        match self {
            TaskBrowse::Dashboard(page) => *page,
            TaskBrowse::Board { page, .. } => *page,
            TaskBrowse::Jobs(page) => *page,
            TaskBrowse::Inboxes { page, .. } => *page,
            TaskBrowse::Inbox { page, .. } => *page,
            TaskBrowse::Job { page, .. } => *page,
            TaskBrowse::Task { page, .. } => *page,
        }
    }

    pub fn at_page(&self, page: usize) -> (r: Self)
        ensures
            r == with_page(*self, page),
    {
        match self {
            TaskBrowse::Dashboard(_) => TaskBrowse::Dashboard(page),
            TaskBrowse::Board { project, .. } => TaskBrowse::Board { project: crate::text::clone_opt(project), page },
            TaskBrowse::Jobs(_) => TaskBrowse::Jobs(page),
            TaskBrowse::Inboxes { project, .. } => TaskBrowse::Inboxes { project: project.clone(), page },
            TaskBrowse::Inbox { id, .. } => TaskBrowse::Inbox { id: id.clone(), page },
            TaskBrowse::Job { id, .. } => TaskBrowse::Job { id: id.clone(), page },
            TaskBrowse::Task { id, .. } => TaskBrowse::Task { id: id.clone(), page },
        }
    }
}

/// Moving to a page and reading it back gives that page; the screen is kept.
pub proof fn at_page_then_page(b: TaskBrowse, page: usize)
    ensures
        page_of(with_page(b, page)) == page,
        with_page(with_page(b, page), page_of(b)) == b,
{
}

/// Number of pages for `count` items: at least one.
pub fn page_count(count: usize) -> (r: usize)
    ensures
        r == if count == 0 { 1 } else { (count + PAGE_SIZE - 1) / PAGE_SIZE as int },
        r >= 1,
        (r - 1) * PAGE_SIZE < count || (count == 0 && r == 1),
        count <= r * PAGE_SIZE,
{
    let pages = count / PAGE_SIZE + if count % PAGE_SIZE == 0 { 0 } else { 1 };
    if pages == 0 { 1 } else { pages }
}

/// At most the first 60 characters.
pub fn short(text: &str) -> (r: String)
    ensures
        r@ == text@.take(if text@.len() < 60 { text@.len() as int } else { 60 }),
{
    let v = chars_of(text);
    let n = if v.len() < 60 { v.len() } else { 60 };
    string_of_range(&v, 0, n)
}

pub open spec fn markdown_special(c: char) -> bool {
    c == '\\' || c == '`' || c == '*' || c == '_' || c == '{' || c == '}' || c == '[' || c == ']' || c == '<'
        || c == '>' || c == '(' || c == ')' || c == '#' || c == '+' || c == '-' || c == '.' || c == '!'
        || c == '|' || c == '~'
}

/// Each Markdown special character preceded by a backslash.
pub open spec fn escaped(s: Seq<char>) -> Seq<char>
    decreases s.len(),
{
    if s.len() == 0 {
        Seq::empty()
    } else {
        let c = s.last();
        escaped(s.drop_last()) + if markdown_special(c) { seq!['\\', c] } else { seq![c] }
    }
}

fn is_markdown_special(c: char) -> (r: bool)
    ensures
        r == markdown_special(c),
{
    c == '\\' || c == '`' || c == '*' || c == '_' || c == '{' || c == '}' || c == '[' || c == ']' || c == '<'
        || c == '>' || c == '(' || c == ')' || c == '#' || c == '+' || c == '-' || c == '.' || c == '!'
        || c == '|' || c == '~'
}

/// Escape Markdown special characters.
pub fn escape(text: &str) -> (r: String)
    ensures
        r@ == escaped(text@),
{
    let v = chars_of(text);
    let mut result = String::new();
    let mut i: usize = 0;
    while i < v.len()
        invariant
            i <= v.len(),
            v@ == text@,
            result@ == escaped(v@.take(i as int)),
        decreases v.len() - i,
    {
        assert(v@.take(i + 1).drop_last() =~= v@.take(i as int));
        let c = v[i];
        if is_markdown_special(c) {
            push(&mut result, '\\');
        }
        push(&mut result, c);
        assert(result@ =~= escaped(v@.take(i + 1)));
        i = i + 1;
    }
    assert(v@.take(i as int) =~= v@);
    result
}

/// Length of the leading run of `c` in `s`.
pub open spec fn run_len(s: Seq<char>, c: char) -> nat
    decreases s.len(),
{
    if s.len() == 0 || s[0] != c {
        0
    } else {
        1 + run_len(s.drop_first(), c)
    }
}

/// The fence marker of an opening line: its leading run of one character.
pub open spec fn fence_marker_of(opening: Seq<char>) -> Seq<char> {
    if opening.len() == 0 {
        Seq::empty()
    } else {
        opening.take(run_len(opening, opening[0]) as int)
    }
}

/// The marker that closes a fence opened by `opening`.
pub fn fence_marker(opening: &str) -> (r: String)
    ensures
        r@ == fence_marker_of(opening@),
{
    let v = chars_of(opening);
    if v.len() == 0 {
        return string_of_range(&v, 0, 0);
    }
    let first = v[0];
    let mut n: usize = 0;
    proof {
        assert(v@.skip(0) =~= v@);
    }
    while n < v.len() && v[n] == first
        invariant
            n <= v.len(),
            v@ == opening@,
            v.len() > 0,
            first == v@[0],
            run_len(v@, first) == n + run_len(v@.skip(n as int), first),
        decreases v.len() - n,
    {
        assert(v@.skip(n as int).drop_first() =~= v@.skip(n + 1));
        n = n + 1;
    }
    proof {
        if n < v.len() {
            assert(v@.skip(n as int)[0] == v@[n as int]);
        }
        assert(run_len(v@.skip(n as int), first) == 0);
    }
    string_of_range(&v, 0, n)
}

/// Bytes a Markdown page holds before a piece moves on to the next page.
pub const MARKDOWN_PAGE_BYTES: usize = 1200;

/// Where paging stands: finished pages, the page being filled and the open fence.
pub struct PagingState {
    pub pages: Seq<Seq<char>>,
    pub page: Seq<char>,
    pub fence: Option<Seq<char>>,
}

/// The line that closes an open fence at a page end.
pub open spec fn fence_close(fence: Option<Seq<char>>) -> Seq<char> {
    match fence {
        Some(opening) => "\n"@ + fence_marker_of(opening) + "\n"@,
        None => Seq::empty(),
    }
}

/// The line that reopens an open fence at a page start.
pub open spec fn fence_reopen(fence: Option<Seq<char>>) -> Seq<char> {
    match fence {
        Some(opening) => opening.push('\n'),
        None => Seq::empty(),
    }
}

/// Every character of `t` is the marker's character.
pub open spec fn all_marker(text: Seq<char>, marker: Seq<char>) -> bool {
    &&& (text.len() == 0 || marker.len() > 0)
    &&& forall|i: int| 0 <= i < text.len() ==> marker[0] == #[trigger] text[i]
}

/// The fence after a piece whose trimmed text is `trimmed`: a run of the marker
/// closes it; an opening line starts one.
pub open spec fn fence_after(fence: Option<Seq<char>>, trimmed: Seq<char>) -> Option<Seq<char>> {
    match fence {
        Some(opening) => {
            let marker = fence_marker_of(opening);
            if is_prefix(marker, trimmed) && all_marker(trimmed, marker) { None } else { Some(opening) }
        },
        None => if is_prefix("```"@, trimmed) || is_prefix("~~~"@, trimmed) { Some(trimmed) } else { None },
    }
}

/// One piece: a full page is closed first (its fence closed, then reopened).
pub open spec fn page_step(st: PagingState, part: Seq<char>) -> PagingState {
    let st1 = if utf8_bytes(st.page) + utf8_bytes(part) > MARKDOWN_PAGE_BYTES && st.page.len() > 0 {
        PagingState { pages: st.pages.push(st.page + fence_close(st.fence)), page: fence_reopen(st.fence), fence: st.fence }
    } else {
        st
    };
    PagingState { pages: st1.pages, page: st1.page + part, fence: fence_after(st1.fence, trim(part)) }
}

pub open spec fn paging(parts: Seq<Seq<char>>) -> PagingState
    decreases parts.len(),
{
    if parts.len() == 0 {
        PagingState { pages: Seq::empty(), page: Seq::empty(), fence: None }
    } else {
        page_step(paging(parts.drop_last()), parts.last())
    }
}

/// The pages of a Markdown text given as its pieces; there is always at least one.
pub open spec fn markdown_pages_of(parts: Seq<Seq<char>>) -> Seq<Seq<char>> {
    let st = paging(parts);
    let last = st.page + fence_close(st.fence);
    if last.len() > 0 || st.pages.len() == 0 { st.pages.push(last) } else { st.pages }
}

fn all_marker_chars(t: &str, marker: &str) -> (r: bool)
    ensures
        r == all_marker(t@, marker@),
{
    let v = chars_of(t);
    let m = chars_of(marker);
    if v.len() > 0 && m.len() == 0 {
        return false;
    }
    let mut i: usize = 0;
    while i < v.len()
        invariant
            i <= v.len(),
            v@ == t@,
            m@ == marker@,
            v.len() == 0 || m.len() > 0,
            forall|j: int| 0 <= j < i ==> m@[0] == #[trigger] v@[j],
        decreases v.len() - i,
    {
        if m[0] != v[i] {
            assert(marker@[0] != t@[i as int]);
            return false;
        }
        i = i + 1;
    }
    assert forall|j: int| 0 <= j < t@.len() implies marker@[0] == #[trigger] t@[j] by {
        assert(v@[j] == t@[j]);
    }
    true
}

/// Closes `page`'s open fence, when there is one.
fn close_fence(page: &mut String, fence: &Option<String>)
    ensures
        final(page)@ == old(page)@ + fence_close(opt_view(*fence)),
{
    match fence {
        Some(opening) => {
            append(page, "\n");
            append(page, fence_marker(opening.as_str()).as_str());
            append(page, "\n");
        },
        None => {
            assert(old(page)@ + Seq::<char>::empty() =~= old(page)@);
        },
    }
}

/// Markdown cut into pages of about [`MARKDOWN_PAGE_BYTES`] that keep fenced code
/// blocks valid: a fence open at a page end is closed there and reopened on the
/// next page. `pieces` are the text's consecutive pieces, none spanning a line end.
pub fn markdown_pages(pieces: &Vec<String>) -> (r: Vec<String>)
    ensures
        r@.map_values(|s: String| s@) == markdown_pages_of(pieces@.map_values(|s: String| s@)),
{
    let ghost parts = pieces@.map_values(|s: String| s@);
    let cap: usize = MARKDOWN_PAGE_BYTES + 1;
    let mut pages: Vec<String> = Vec::new();
    let mut page = String::new();
    let mut page_bytes: usize = 0;
    let mut fence: Option<String> = None;
    let mut i: usize = 0;
    proof {
        assert(parts.take(0) =~= Seq::<Seq<char>>::empty());
        assert(pages@.map_values(|s: String| s@) =~= Seq::<Seq<char>>::empty());
    }
    while i < pieces.len()
        invariant
            i <= pieces.len(),
            parts == pieces@.map_values(|s: String| s@),
            cap == MARKDOWN_PAGE_BYTES + 1,
            page_bytes == capped(utf8_bytes(page@), cap as nat),
            paging(parts.take(i as int)) == (PagingState {
                pages: pages@.map_values(|s: String| s@),
                page: page@,
                fence: opt_view(fence),
            }),
        decreases pieces.len() - i,
    {
        let part = pieces[i].as_str();
        let ghost st = paging(parts.take(i as int));
        proof {
            assert(parts.take(i + 1).drop_last() =~= parts.take(i as int));
            assert(parts.take(i + 1).last() == part@);
            lemma_utf8_bytes_len(page@);
        }
        let part_bytes = utf8_bytes_capped(part, cap);
        if page_bytes + part_bytes > MARKDOWN_PAGE_BYTES && page_bytes > 0 {
            close_fence(&mut page, &fence);
            let ghost before = pages@.map_values(|s: String| s@);
            pages.push(page);
            assert(pages@.map_values(|s: String| s@) =~= before.push(st.page + fence_close(st.fence)));
            page = String::new();
            match &fence {
                Some(opening) => {
                    append(&mut page, opening.as_str());
                    push(&mut page, '\n');
                },
                None => {},
            }
            assert(page@ =~= fence_reopen(st.fence));
            page_bytes = utf8_bytes_capped(page.as_str(), cap);
        }
        let ghost st1 = PagingState { pages: pages@.map_values(|s: String| s@), page: page@, fence: opt_view(fence) };
        let t = trimmed(part);
        let closes = match &fence {
            Some(opening) => {
                let marker = fence_marker(opening.as_str());
                starts_with(t.as_str(), marker.as_str()) && all_marker_chars(t.as_str(), marker.as_str())
            },
            None => false,
        };
        if closes {
            fence = None;
        } else if fence.is_none() && (starts_with(t.as_str(), "```") || starts_with(t.as_str(), "~~~")) {
            fence = Some(t);
        }
        proof {
            lemma_utf8_bytes_concat(page@, part@);
        }
        append(&mut page, part);
        page_bytes = if cap - page_bytes < part_bytes { cap } else { page_bytes + part_bytes };
        assert(opt_view(fence) == fence_after(st1.fence, trim(part@)));
        i = i + 1;
    }
    proof {
        assert(parts.take(pieces.len() as int) =~= parts);
        lemma_utf8_bytes_len(page@);
    }
    close_fence(&mut page, &fence);
    if !page.as_str().is_empty() || pages.len() == 0 {
        let ghost before = pages@.map_values(|s: String| s@);
        pages.push(page);
        assert(pages@.map_values(|s: String| s@) =~= before.push(page@));
    }
    pages
}

/// The pieces put together, in order.
pub open spec fn concat(parts: Seq<Seq<char>>) -> Seq<char>
    decreases parts.len(),
{
    if parts.len() == 0 {
        Seq::empty()
    } else {
        concat(parts.drop_last()) + parts.last()
    }
}

/// No piece opens a code fence.
pub open spec fn fence_free(parts: Seq<Seq<char>>) -> bool {
    forall|i: int| 0 <= i < parts.len() ==>
        !is_prefix("```"@, #[trigger] trim(parts[i])) && !is_prefix("~~~"@, trim(parts[i]))
}

proof fn lemma_fence_free_paging(parts: Seq<Seq<char>>)
    requires
        fence_free(parts),
    ensures
        paging(parts).fence is None,
        concat(paging(parts).pages) + paging(parts).page == concat(parts),
    decreases parts.len(),
{
    if parts.len() > 0 {
        let rest = parts.drop_last();
        assert forall|i: int| 0 <= i < rest.len() implies
            !is_prefix("```"@, #[trigger] trim(rest[i])) && !is_prefix("~~~"@, trim(rest[i])) by {
            assert(rest[i] == parts[i]);
        }
        lemma_fence_free_paging(rest);
        let st = paging(rest);
        let part = parts.last();
        assert(trim(parts[parts.len() - 1]) == trim(part));
        if utf8_bytes(st.page) + utf8_bytes(part) > MARKDOWN_PAGE_BYTES && st.page.len() > 0 {
            let pages = st.pages.push(st.page + fence_close(st.fence));
            assert(pages.drop_last() == st.pages);
            assert(st.page + fence_close(st.fence) =~= st.page);
            assert(fence_reopen(st.fence) + part =~= part);
            assert(concat(pages) + (fence_reopen(st.fence) + part) =~= concat(st.pages) + st.page + part);
        } else {
            assert(concat(st.pages) + (st.page + part) =~= concat(st.pages) + st.page + part);
        }
    }
}

/// Markdown without code fences is only cut: its pages, put together, give back
/// the text; and there is always at least one page.
pub proof fn fence_free_pages_rejoin(parts: Seq<Seq<char>>)
    requires
        fence_free(parts),
    ensures
        concat(markdown_pages_of(parts)) == concat(parts),
        markdown_pages_of(parts).len() >= 1,
{
    lemma_fence_free_paging(parts);
    let st = paging(parts);
    let last = st.page + fence_close(st.fence);
    assert(last =~= st.page);
    if last.len() > 0 || st.pages.len() == 0 {
        assert(st.pages.push(last).drop_last() == st.pages);
    } else {
        assert(concat(st.pages) + st.page =~= concat(st.pages));
    }
}

} // verus!
