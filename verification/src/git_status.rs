//! Git working-tree status as the file tree and the status bar show it,
//! and the gutter diff of an edited file against its committed version.
use vstd::prelude::*;

use crate::line_diff::{
    lemma_marks_within_new_text, lemma_same_lines_no_marks, marks_of, marks_within, myers_line_diff, LineDiff,
    LineDiffView,
};
use crate::text::{lines_of, split_lines};

verus! {

/// The status bits of one entry that the editor reads.
#[derive(Clone, Copy, Debug, PartialEq, Eq, Structural)]
pub struct StatusFlags {
    pub index_new: bool,
    pub index_modified: bool,
    pub index_deleted: bool,
    pub index_renamed: bool,
    pub index_typechange: bool,
    pub wt_new: bool,
    pub wt_modified: bool,
    pub wt_deleted: bool,
    pub wt_renamed: bool,
    pub wt_typechange: bool,
}

/// One status entry: its path (absent when git reports none) and its bits.
#[derive(Clone, Debug)]
pub struct StatusEntry {
    pub path: Option<String>,
    pub flags: StatusFlags,
}

/// A changed file for the file-tree badges; status is "M", "A" or "D".
#[derive(Clone, Debug)]
pub struct FileChange {
    pub path: String,
    pub status: String,
}

/// The badge letter of a status: new files are "A", deleted ones "D",
/// modified, retyped or renamed ones "M"; other entries get none.
pub open spec fn status_letter(f: StatusFlags) -> Option<char> {
    if f.wt_new || f.index_new {
        Some('A')
    } else if f.wt_deleted || f.index_deleted {
        Some('D')
    } else if f.wt_modified || f.index_modified || f.wt_typechange || f.index_typechange
        || f.wt_renamed || f.index_renamed {
        Some('M')
    } else {
        None
    }
}

/// The badge letter of a status.
pub fn change_letter(f: StatusFlags) -> (r: Option<char>)
    ensures
        r == status_letter(f),
{
    if f.wt_new || f.index_new {
        Some('A')
    } else if f.wt_deleted || f.index_deleted {
        Some('D')
    } else if f.wt_modified || f.index_modified || f.wt_typechange || f.index_typechange
        || f.wt_renamed || f.index_renamed {
        Some('M')
    } else {
        None
    }
}

/// The flags with the working-tree and the index bit of every kind of
/// change exchanged.
pub open spec fn swapped(f: StatusFlags) -> StatusFlags {
    StatusFlags {
        index_new: f.wt_new,
        index_modified: f.wt_modified,
        index_deleted: f.wt_deleted,
        index_renamed: f.wt_renamed,
        index_typechange: f.wt_typechange,
        wt_new: f.index_new,
        wt_modified: f.index_modified,
        wt_deleted: f.index_deleted,
        wt_renamed: f.index_renamed,
        wt_typechange: f.index_typechange,
    }
}

/// A badge does not depend on whether a change is staged: a change in the
/// working tree and the same change in the index get the same letter.
pub proof fn lemma_badge_ignores_staging(f: StatusFlags)
    ensures
        status_letter(swapped(f)) == status_letter(f),
{
}

/// What each badge means: "A" exactly for a new file (in the working tree
/// or the index); "D" exactly for a deleted file that is not new; "M" for a
/// file that is neither, but modified, renamed or retyped; and no badge
/// exactly for a file with no change.
pub proof fn lemma_badge_meaning(f: StatusFlags)
    ensures
        (status_letter(f) == Some('A')) == (f.wt_new || f.index_new),
        (status_letter(f) == Some('D')) == (!(f.wt_new || f.index_new) && (f.wt_deleted
            || f.index_deleted)),
        (status_letter(f) == Some('M')) == (!(f.wt_new || f.index_new) && !(f.wt_deleted
            || f.index_deleted) && (f.wt_modified || f.index_modified || f.wt_renamed
            || f.index_renamed || f.wt_typechange || f.index_typechange)),
        (status_letter(f) is None) == !(f.wt_new || f.index_new || f.wt_deleted || f.index_deleted
            || f.wt_modified || f.index_modified || f.wt_renamed || f.index_renamed
            || f.wt_typechange || f.index_typechange),
{
}

/// Every entry with a path and a badge is among the changes, with its path
/// and its letter.
pub proof fn lemma_badged_entry_listed(entries: Seq<StatusEntry>, i: int)
    requires
        0 <= i < entries.len(),
        entries[i].path is Some,
        status_letter(entries[i].flags) is Some,
    ensures
        entries.filter_map(|e: StatusEntry| change_of(e)).contains(
            (entries[i].path->0@, seq![status_letter(entries[i].flags)->0]),
        ),
    decreases entries.len(),
{
    let f = |e: StatusEntry| change_of(e);
    let rest = entries.drop_last();
    let out = entries.filter_map(f);
    let x = (entries[i].path->0@, seq![status_letter(entries[i].flags)->0]);
    if i == entries.len() - 1 {
        assert(f(entries.last()) == Some(x));
        assert(out == rest.filter_map(f) + seq![x]);
        assert(out[out.len() - 1] == x);
    } else {
        assert(rest[i] == entries[i]);
        lemma_badged_entry_listed(rest, i);
        let inner = rest.filter_map(f);
        let k = choose|k: int| 0 <= k < inner.len() && inner[k] == x;
        match f(entries.last()) {
            Some(y) => {
                assert(out == inner + seq![y]);
                assert(out[k] == x);
            },
            None => {
                assert(out == inner);
            },
        }
    }
}

/// A file deleted from the working tree or the index, and not new, is
/// listed among the changes with the badge "D".
pub proof fn lemma_deleted_file_badged(entries: Seq<StatusEntry>, i: int)
    requires
        0 <= i < entries.len(),
        entries[i].path is Some,
        entries[i].flags.wt_deleted || entries[i].flags.index_deleted,
        !entries[i].flags.wt_new && !entries[i].flags.index_new,
    ensures
        entries.filter_map(|e: StatusEntry| change_of(e)).contains((entries[i].path->0@, seq!['D'])),
{
    lemma_badge_meaning(entries[i].flags);
    lemma_badged_entry_listed(entries, i);
}

/// The badge (path, letter) of an entry, if it has a path and a letter.
pub open spec fn change_of(e: StatusEntry) -> Option<(Seq<char>, Seq<char>)> {
    match e.path {
        Some(p) => match status_letter(e.flags) {
            Some(c) => Some((p@, seq![c])),
            None => None,
        },
        None => None,
    }
}

pub open spec fn change_view(c: FileChange) -> (Seq<char>, Seq<char>) {
    (c.path@, c.status@)
}

/// The changed files among the status entries, in order (the entries carry
/// absolute paths).
pub fn changes(entries: &Vec<StatusEntry>) -> (r: Vec<FileChange>)
    ensures
        r@.map_values(|c: FileChange| change_view(c)) == entries@.filter_map(
            |e: StatusEntry| change_of(e),
        ),
{
    let mut r: Vec<FileChange> = Vec::new();
    let mut i = 0usize;
    while i < entries.len()
        invariant
            i <= entries@.len(),
            r@.map_values(|c: FileChange| change_view(c)) == entries@.take(i as int).filter_map(
                |e: StatusEntry| change_of(e),
            ),
        decreases entries@.len() - i,
    {
        proof {
            entries@.lemma_filter_map_take_succ(|e: StatusEntry| change_of(e), i as int);
        }
        let ghost before = r@;
        let e = &entries[i];
        match &e.path {
            Some(p) => {
                match change_letter(e.flags) {
                    Some(c) => {
                        let mut status = String::new();
                        status.push(c);
                        r.push(FileChange { path: p.clone(), status });
                        assert(r@.map_values(|c: FileChange| change_view(c)) =~= before.map_values(
                            |c: FileChange| change_view(c),
                        ) + seq![change_of(*e)->0]);
                    },
                    None => {},
                }
            },
            None => {},
        }
        i += 1;
    }
    assert(entries@.take(entries@.len() as int) =~= entries@);
    r
}

/// The path of an entry that is new in the working tree (`new_files`) or
/// modified there (otherwise).
pub open spec fn picked_path(e: StatusEntry, new_files: bool) -> Option<Seq<char>> {
    match e.path {
        Some(p) => if (if new_files {
            e.flags.wt_new
        } else {
            e.flags.wt_modified
        }) {
            Some(p@)
        } else {
            None
        },
        None => None,
    }
}

/// The paths of the entries modified in the working tree, in order.
pub fn modified_files(entries: &Vec<StatusEntry>) -> (r: Vec<String>)
    ensures
        r@.map_values(|s: String| s@) == entries@.filter_map(|e: StatusEntry| picked_path(e, false)),
{
    paths_where(entries, false)
}

/// The paths of the entries new in the working tree, in order.
pub fn added_files(entries: &Vec<StatusEntry>) -> (r: Vec<String>)
    ensures
        r@.map_values(|s: String| s@) == entries@.filter_map(|e: StatusEntry| picked_path(e, true)),
{
    paths_where(entries, true)
}

fn paths_where(entries: &Vec<StatusEntry>, new_files: bool) -> (r: Vec<String>)
    ensures
        r@.map_values(|s: String| s@) == entries@.filter_map(
            |e: StatusEntry| picked_path(e, new_files),
        ),
{
    let mut r: Vec<String> = Vec::new();
    let mut i = 0usize;
    while i < entries.len()
        invariant
            i <= entries@.len(),
            r@.map_values(|s: String| s@) == entries@.take(i as int).filter_map(
                |e: StatusEntry| picked_path(e, new_files),
            ),
        decreases entries@.len() - i,
    {
        proof {
            entries@.lemma_filter_map_take_succ(|e: StatusEntry| picked_path(e, new_files), i as int);
        }
        let ghost before = r@;
        let e = &entries[i];
        let hit = if new_files {
            e.flags.wt_new
        } else {
            e.flags.wt_modified
        };
        if hit {
            match &e.path {
                Some(p) => {
                    r.push(p.clone());
                    assert(r@.map_values(|s: String| s@) =~= before.map_values(|s: String| s@)
                        + seq![p@]);
                },
                None => {},
            }
        }
        i += 1;
    }
    assert(entries@.take(entries@.len() as int) =~= entries@);
    r
}

/// The branch name for the status bar: the short name of HEAD, or
/// "unknown" when there is none.
pub fn branch(head_shorthand: Option<String>) -> (r: String)
    ensures
        r@ == (match head_shorthand {
            Some(s) => s@,
            None => "unknown"@,
        }),
{
    match head_shorthand {
        Some(s) => s,
        None => "unknown".to_owned(),
    }
}

/// The empty diff.
pub open spec fn no_marks() -> LineDiffView {
    LineDiffView { added: Seq::empty(), modified: Seq::empty(), deleted: Seq::empty() }
}

/// The gutter diff of `content` against the committed text of the file:
/// with no committed version every line is added (at least line 1);
/// otherwise the marks of Myers' shortest script, and none when the two
/// texts have more than 100 000 lines together.
pub open spec fn head_diff(head: Option<Seq<char>>, content: Seq<char>) -> LineDiffView {
    let new_lines = lines_of(content);
    match head {
        None => LineDiffView {
            added: seq![(1usize, if new_lines.len() >= 1 { new_lines.len() as usize } else { 1usize })],
            ..no_marks()
        },
        Some(h) => {
            let old_lines = lines_of(h);
            if old_lines.len() + new_lines.len() > 100_000 {
                no_marks()
            } else {
                marks_of(old_lines, new_lines, no_marks())
            }
        },
    }
}

/// The gutter diff of the edited `content` against `head`, the text of the
/// file in HEAD (`None` when HEAD has no such file).
pub fn diff_lines(head: Option<&str>, content: &str) -> (r: LineDiff)
    ensures
        r@ == head_diff(
            match head {
                Some(h) => Some(h@),
                None => None,
            },
            content@,
        ),
{
    let mut result = LineDiff::new();
    let new_lines = split_lines(content);
    let total_lines = if new_lines.len() >= 1 {
        new_lines.len()
    } else {
        1
    };
    match head {
        None => {
            result.added.push((1, total_lines));
            assert(result@.added =~= seq![(1usize, total_lines)]);
            assert(result@.modified =~= Seq::<(usize, usize)>::empty());
            assert(result@.deleted =~= Seq::<usize>::empty());
        },
        Some(h) => {
            let old_lines = split_lines(h);
            assert(result@.added =~= Seq::<(usize, usize)>::empty());
            assert(result@.modified =~= Seq::<(usize, usize)>::empty());
            assert(result@.deleted =~= Seq::<usize>::empty());
            myers_line_diff(old_lines.as_slice(), new_lines.as_slice(), &mut result);
        },
    }
    result
}

/// An edited file whose text equals its committed text gets no gutter
/// marks.
pub proof fn lemma_unchanged_file_no_marks(text: Seq<char>)
    ensures
        head_diff(Some(text), text) == no_marks(),
{
    lemma_same_lines_no_marks(lines_of(text), no_marks());
}

/// Every gutter mark of an edited file lies within its lines: ranges are
/// closed, 1-based and end by its last line (line 1 for an empty file), and
/// a deletion mark is on one of its lines.
pub proof fn lemma_gutter_within_file(head: Option<Seq<char>>, content: Seq<char>)
    requires
        lines_of(content).len() < usize::MAX,
    ensures
        marks_within(
            head_diff(head, content),
            if lines_of(content).len() >= 1 { lines_of(content).len() as int } else { 1 },
        ),
{
    let new_lines = lines_of(content);
    match head {
        None => {},
        Some(h) => {
            let old_lines = lines_of(h);
            if old_lines.len() + new_lines.len() <= 100_000 {
                lemma_marks_within_new_text(old_lines, new_lines);
            }
        },
    }
}

} // verus!
