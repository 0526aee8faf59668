//! The screens of the one-shot directory selection that precedes creating
//! a terminal: the preview of the choice, and the browser of directories.
//! The runtime lists and resolves directories and issues the buttons.
use vstd::prelude::*;
use crate::domain::ActionStyle;
use crate::engine::DirectoryAction;
use crate::menu::names_view;
use crate::text::{append, decimal, decimal_string, owned};

verus! {

/// A directory action as a value.
pub enum DirectoryStep {
    Preview,
    Browse { path: Seq<char>, page: usize, hidden: bool },
    Select(Seq<char>),
    Input,
    Confirm,
    Cancel,
}

pub open spec fn step_of(a: DirectoryAction) -> DirectoryStep {
    match a {
        DirectoryAction::Preview => DirectoryStep::Preview,
        DirectoryAction::Browse { path, page, hidden } => DirectoryStep::Browse { path: path@, page, hidden },
        DirectoryAction::Select(p) => DirectoryStep::Select(p@),
        DirectoryAction::Input => DirectoryStep::Input,
        DirectoryAction::Confirm => DirectoryStep::Confirm,
        DirectoryAction::Cancel => DirectoryStep::Cancel,
    }
}

/// The buttons of a screen: label, action and style.
pub open spec fn choices_view(cs: Seq<(String, DirectoryAction, ActionStyle)>) -> Seq<(Seq<char>, DirectoryStep, ActionStyle)> {
    cs.map_values(|c: (String, DirectoryAction, ActionStyle)| (c.0@, step_of(c.1), c.2))
}

/// The Back and Cancel buttons that end every screen but the preview.
pub open spec fn back_choices() -> Seq<(Seq<char>, DirectoryStep, ActionStyle)> {
    seq![("Back"@, DirectoryStep::Preview, ActionStyle::Primary), ("Cancel"@, DirectoryStep::Cancel, ActionStyle::Danger)]
}

fn push_choice(cs: &mut Vec<(String, DirectoryAction, ActionStyle)>, label: String, action: DirectoryAction, style: ActionStyle)
    ensures
        choices_view(final(cs)@) == choices_view(old(cs)@).push((label@, step_of(action), style)),
{
    let ghost before = choices_view(cs@);
    cs.push((label, action, style));
    assert(choices_view(cs@) =~= before.push((label@, step_of(action), style)));
}

fn push_back_choices(cs: &mut Vec<(String, DirectoryAction, ActionStyle)>)
    ensures
        choices_view(final(cs)@) == choices_view(old(cs)@) + back_choices(),
{
    let ghost before = choices_view(cs@);
    push_choice(cs, owned("Back"), DirectoryAction::Preview, ActionStyle::Primary);
    push_choice(cs, owned("Cancel"), DirectoryAction::Cancel, ActionStyle::Danger);
    assert(choices_view(cs@) =~= before + back_choices());
}

/// The preview of the directory a terminal will start in: the operation,
/// the directory and where it came from, an error of the last choice if
/// any; the inferred candidates when there are several, then Create,
/// Choose directory and Cancel.
pub open spec fn preview_body(operation: Seq<char>, directory: Seq<char>, source: Seq<char>, error: Option<Seq<char>>) -> Seq<char> {
    operation + "\nDirectory: `"@ + directory + "`\nSource: "@ + source
        + "\nCreate an interactive shell, then choose an agent."@
        + match error {
            Some(e) => "\n"@ + e,
            None => Seq::empty(),
        }
}

pub open spec fn preview_choices(directory: Seq<char>, candidates: Seq<Seq<char>>) -> Seq<(Seq<char>, DirectoryStep, ActionStyle)> {
    (if candidates.len() > 1 {
        candidates.map_values(|p: Seq<char>| (p, DirectoryStep::Select(p), ActionStyle::Default))
    } else {
        Seq::empty()
    }) + seq![
        ("Create"@, DirectoryStep::Confirm, ActionStyle::Primary),
        ("Choose directory"@, DirectoryStep::Browse { path: directory, page: 0, hidden: false }, ActionStyle::Primary),
        ("Cancel"@, DirectoryStep::Cancel, ActionStyle::Danger),
    ]
}

pub fn directory_preview(
    operation: &str,
    directory: &str,
    source: &str,
    error: Option<&str>,
    candidates: &Vec<String>,
) -> (r: (String, Vec<(String, DirectoryAction, ActionStyle)>))
    ensures
        r.0@ == preview_body(operation@, directory@, source@, match error {
            Some(e) => Some(e@),
            None => None,
        }),
        choices_view(r.1@) == preview_choices(directory@, names_view(candidates@)),
{
    let mut body = owned(operation);
    append(&mut body, "\nDirectory: `");
    append(&mut body, directory);
    append(&mut body, "`\nSource: ");
    append(&mut body, source);
    append(&mut body, "\nCreate an interactive shell, then choose an agent.");
    let ghost head = body@;
    match error {
        Some(e) => {
            append(&mut body, "\n");
            append(&mut body, e);
        },
        None => {
            assert(body@ =~= head + Seq::<char>::empty());
        },
    }
    let mut choices: Vec<(String, DirectoryAction, ActionStyle)> = Vec::new();
    let ghost paths = names_view(candidates@);
    let ghost shown = paths.map_values(|p: Seq<char>| (p, DirectoryStep::Select(p), ActionStyle::Default));
    if candidates.len() > 1 {
        let mut i: usize = 0;
        while i < candidates.len()
            invariant
                i <= candidates.len(),
                paths == names_view(candidates@),
                shown == paths.map_values(|p: Seq<char>| (p, DirectoryStep::Select(p), ActionStyle::Default)),
                choices_view(choices@) == shown.take(i as int),
            decreases candidates.len() - i,
        {
            assert(paths[i as int] == candidates@[i as int]@);
            push_choice(&mut choices, owned(candidates[i].as_str()), DirectoryAction::Select(owned(candidates[i].as_str())), ActionStyle::Default);
            assert(shown.take(i + 1) =~= shown.take(i as int).push(shown[i as int]));
            i = i + 1;
        }
        assert(shown.take(i as int) =~= shown);
    } else {
        assert(choices_view(choices@) =~= Seq::<(Seq<char>, DirectoryStep, ActionStyle)>::empty());
    }
    let ghost before = choices_view(choices@);
    push_choice(&mut choices, owned("Create"), DirectoryAction::Confirm, ActionStyle::Primary);
    push_choice(
        &mut choices,
        owned("Choose directory"),
        DirectoryAction::Browse { path: owned(directory), page: 0, hidden: false },
        ActionStyle::Primary,
    );
    push_choice(&mut choices, owned("Cancel"), DirectoryAction::Cancel, ActionStyle::Danger);
    assert(choices_view(choices@) =~= preview_choices(directory@, paths));
    (body, choices)
}

/// A subdirectory offered while browsing.
#[derive(Debug)]
pub struct DirectoryEntry {
    pub name: String,
    pub path: String,
}

/// One page of a directory's subdirectories.
#[derive(Debug)]
pub struct DirectoryListing {
    pub directory: String,
    pub entries: Vec<DirectoryEntry>,
    pub parent: Option<String>,
    pub page: usize,
    pub pages: usize,
}

/// A page of the directory browser: the directory and page number, then
/// buttons to use the directory, to open each subdirectory, the parent and
/// HOME, to turn pages, to show or hide hidden directories and to enter a
/// path, and Back and Cancel.
pub open spec fn browse_body(listing: DirectoryListing) -> Seq<char> {
    "`"@ + listing.directory@ + "`\nPage "@ + decimal(listing.page as nat + 1) + " / "@ + decimal(listing.pages as nat)
}

/// Each subdirectory, opened on its first page.
pub open spec fn entry_choices(listing: DirectoryListing, hidden: bool) -> Seq<(Seq<char>, DirectoryStep, ActionStyle)> {
    listing.entries@.map_values(|e: DirectoryEntry| (e.name@, DirectoryStep::Browse { path: e.path@, page: 0, hidden }, ActionStyle::Default))
}

/// The parent, HOME, and the pages before and after this one.
pub open spec fn nav_choices(listing: DirectoryListing, hidden: bool, home: Seq<char>) -> Seq<(Seq<char>, DirectoryStep, ActionStyle)> {
    let dir = listing.directory@;
    (match listing.parent {
        Some(p) => seq![("Parent"@, DirectoryStep::Browse { path: p@, page: 0, hidden }, ActionStyle::Primary)],
        None => Seq::empty(),
    })
        + seq![("HOME"@, DirectoryStep::Browse { path: home, page: 0, hidden }, ActionStyle::Primary)]
        + (if listing.page > 0 {
            seq![("Previous"@, DirectoryStep::Browse { path: dir, page: (listing.page - 1) as usize, hidden }, ActionStyle::Primary)]
        } else {
            Seq::empty()
        })
        + (if listing.page + 1 < listing.pages {
            seq![("Next"@, DirectoryStep::Browse { path: dir, page: (listing.page + 1) as usize, hidden }, ActionStyle::Primary)]
        } else {
            Seq::empty()
        })
}

/// Showing or hiding hidden directories, entering a path, Back and Cancel.
pub open spec fn tail_choices(listing: DirectoryListing, hidden: bool) -> Seq<(Seq<char>, DirectoryStep, ActionStyle)> {
    seq![
        (if hidden { "Hide hidden"@ } else { "Show hidden"@ }, DirectoryStep::Browse { path: listing.directory@, page: 0, hidden: !hidden }, ActionStyle::Primary),
        ("Enter path"@, DirectoryStep::Input, ActionStyle::Primary),
    ] + back_choices()
}

pub open spec fn browse_choices(listing: DirectoryListing, hidden: bool, home: Seq<char>) -> Seq<(Seq<char>, DirectoryStep, ActionStyle)> {
    seq![("Use this directory"@, DirectoryStep::Select(listing.directory@), ActionStyle::Primary)]
        + entry_choices(listing, hidden)
        + nav_choices(listing, hidden, home)
        + tail_choices(listing, hidden)
}

fn push_entry_choices(cs: &mut Vec<(String, DirectoryAction, ActionStyle)>, listing: &DirectoryListing, hidden: bool)
    ensures
        choices_view(final(cs)@) == choices_view(old(cs)@) + entry_choices(*listing, hidden),
{
    let ghost start = choices_view(cs@);
    let ghost shown = entry_choices(*listing, hidden);
    let mut i: usize = 0;
    while i < listing.entries.len()
        invariant
            i <= listing.entries.len(),
            shown == entry_choices(*listing, hidden),
            choices_view(cs@) == start + shown.take(i as int),
        decreases listing.entries.len() - i,
    {
        let entry = &listing.entries[i];
        push_choice(
            cs,
            owned(entry.name.as_str()),
            DirectoryAction::Browse { path: owned(entry.path.as_str()), page: 0, hidden },
            ActionStyle::Default,
        );
        assert(start + shown.take(i + 1) =~= (start + shown.take(i as int)).push(shown[i as int]));
        i = i + 1;
    }
    assert(shown.take(i as int) =~= shown);
}

fn push_nav_choices(cs: &mut Vec<(String, DirectoryAction, ActionStyle)>, listing: &DirectoryListing, hidden: bool, home: &str)
    requires
        listing.page < usize::MAX,
    ensures
        choices_view(final(cs)@) == choices_view(old(cs)@) + nav_choices(*listing, hidden, home@),
{
    let ghost start = choices_view(cs@);
    let dir = listing.directory.as_str();
    match &listing.parent {
        Some(p) => {
            push_choice(cs, owned("Parent"), DirectoryAction::Browse { path: owned(p.as_str()), page: 0, hidden }, ActionStyle::Primary);
        },
        None => {},
    }
    let ghost a = choices_view(cs@);
    push_choice(cs, owned("HOME"), DirectoryAction::Browse { path: owned(home), page: 0, hidden }, ActionStyle::Primary);
    let ghost b = choices_view(cs@);
    if listing.page > 0 {
        push_choice(
            cs,
            owned("Previous"),
            DirectoryAction::Browse { path: owned(dir), page: listing.page - 1, hidden },
            ActionStyle::Primary,
        );
    }
    let ghost c = choices_view(cs@);
    if listing.page + 1 < listing.pages {
        push_choice(
            cs,
            owned("Next"),
            DirectoryAction::Browse { path: owned(dir), page: listing.page + 1, hidden },
            ActionStyle::Primary,
        );
    }
    proof {
        let l = *listing;
        let parent_part = match l.parent {
            Some(p) => seq![("Parent"@, DirectoryStep::Browse { path: p@, page: 0, hidden }, ActionStyle::Primary)],
            None => Seq::<(Seq<char>, DirectoryStep, ActionStyle)>::empty(),
        };
        let prev_part = if l.page > 0 {
            seq![("Previous"@, DirectoryStep::Browse { path: l.directory@, page: (l.page - 1) as usize, hidden }, ActionStyle::Primary)]
        } else {
            Seq::<(Seq<char>, DirectoryStep, ActionStyle)>::empty()
        };
        let next_part = if l.page + 1 < l.pages {
            seq![("Next"@, DirectoryStep::Browse { path: l.directory@, page: (l.page + 1) as usize, hidden }, ActionStyle::Primary)]
        } else {
            Seq::<(Seq<char>, DirectoryStep, ActionStyle)>::empty()
        };
        assert(a =~= start + parent_part);
        assert(c =~= b + prev_part);
        assert(choices_view(cs@) =~= c + next_part);
        assert(choices_view(cs@) =~= start + nav_choices(l, hidden, home@));
    }
}

fn push_tail_choices(cs: &mut Vec<(String, DirectoryAction, ActionStyle)>, listing: &DirectoryListing, hidden: bool)
    ensures
        choices_view(final(cs)@) == choices_view(old(cs)@) + tail_choices(*listing, hidden),
{
    let ghost start = choices_view(cs@);
    push_choice(
        cs,
        owned(if hidden { "Hide hidden" } else { "Show hidden" }),
        DirectoryAction::Browse { path: owned(listing.directory.as_str()), page: 0, hidden: !hidden },
        ActionStyle::Primary,
    );
    push_choice(cs, owned("Enter path"), DirectoryAction::Input, ActionStyle::Primary);
    push_back_choices(cs);
    assert(choices_view(cs@) =~= start + tail_choices(*listing, hidden));
}

pub fn directory_browser(listing: &DirectoryListing, hidden: bool, home: &str) -> (r: (String, Vec<(String, DirectoryAction, ActionStyle)>))
    requires
        listing.page < usize::MAX,
    ensures
        r.0@ == browse_body(*listing),
        choices_view(r.1@) == browse_choices(*listing, hidden, home@),
{
    let mut body = owned("`");
    append(&mut body, listing.directory.as_str());
    append(&mut body, "`\nPage ");
    append(&mut body, decimal_string((listing.page as u64) + 1).as_str());
    append(&mut body, " / ");
    append(&mut body, decimal_string(listing.pages as u64).as_str());
    let mut choices: Vec<(String, DirectoryAction, ActionStyle)> = Vec::new();
    push_choice(&mut choices, owned("Use this directory"), DirectoryAction::Select(owned(listing.directory.as_str())), ActionStyle::Primary);
    assert(choices_view(choices@) =~= seq![("Use this directory"@, DirectoryStep::Select(listing.directory@), ActionStyle::Primary)]);
    push_entry_choices(&mut choices, listing, hidden);
    push_nav_choices(&mut choices, listing, hidden, home);
    push_tail_choices(&mut choices, listing, hidden);
    (body, choices)
}

/// The prompt for a typed path, relative to the directory being browsed.
pub fn directory_input_prompt(browse_directory: &str) -> (r: (String, Vec<(String, DirectoryAction, ActionStyle)>))
    ensures
        r.0@ == "Enter a directory path (absolute, ~, or relative to `"@ + browse_directory@ + "`). Use /cancel to cancel."@,
        choices_view(r.1@) == back_choices(),
{
    let mut body = owned("Enter a directory path (absolute, ~, or relative to `");
    append(&mut body, browse_directory);
    append(&mut body, "`). Use /cancel to cancel.");
    let mut choices: Vec<(String, DirectoryAction, ActionStyle)> = Vec::new();
    assert(choices_view(choices@) =~= Seq::<(Seq<char>, DirectoryStep, ActionStyle)>::empty());
    push_back_choices(&mut choices);
    assert(choices_view(choices@) =~= back_choices());
    (body, choices)
}

/// The answer to a typed path that did not resolve.
pub fn directory_input_error(error: &str) -> (r: (String, Vec<(String, DirectoryAction, ActionStyle)>))
    ensures
        r.0@ == error@ + "\nEnter another path or /cancel."@,
        choices_view(r.1@) == back_choices(),
{
    let mut body = owned(error);
    append(&mut body, "\nEnter another path or /cancel.");
    let mut choices: Vec<(String, DirectoryAction, ActionStyle)> = Vec::new();
    assert(choices_view(choices@) =~= Seq::<(Seq<char>, DirectoryStep, ActionStyle)>::empty());
    push_back_choices(&mut choices);
    assert(choices_view(choices@) =~= back_choices());
    (body, choices)
}

} // verus!
