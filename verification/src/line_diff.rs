//! Line-level differences between the committed text of a file and the text
//! in the editor: Myers' O(ND) diff and its summary as gutter ranges.
use vstd::prelude::*;

use crate::edit_script::{
    EditOp, myers_script, furthest, start_of, snake_end, diag_ok, reaches_end, matches_at,
    edit_distance, lemma_furthest_bound, lemma_furthest_nonneg, lemma_snake, lemma_first_found,
    lemma_edit_distance, backtrack, goes_down, keeps, lemma_backtrack_step, lemma_walk_len, lemma_myers_script_is_shortest, lemma_walk_keeps, lemma_cost_keeps,
    is_edit_script, step, walk, lemma_walk_concat,
};

verus! {

/// Line changes for the editor gutter. Line numbers are 1-based and ranges
/// are closed.
#[derive(Debug, Clone)]
pub struct LineDiff {
    pub added: Vec<(usize, usize)>,
    pub modified: Vec<(usize, usize)>,
    pub deleted: Vec<usize>,
}

/// The contents of a `LineDiff`.
pub struct LineDiffView {
    pub added: Seq<(usize, usize)>,
    pub modified: Seq<(usize, usize)>,
    pub deleted: Seq<usize>,
}

impl View for LineDiff {
    type V = LineDiffView;

    open spec fn view(&self) -> LineDiffView {
        LineDiffView { added: self.added@, modified: self.modified@, deleted: self.deleted@ }
    }
}

impl LineDiff {
    /// A diff with no changes.
    pub fn new() -> (r: LineDiff)
        ensures
            r@.added.len() == 0,
            r@.modified.len() == 0,
            r@.deleted.len() == 0,
    {
        LineDiff { added: Vec::new(), modified: Vec::new(), deleted: Vec::new() }
    }
}

/// The texts of the lines.
pub open spec fn lines_view(lines: Seq<String>) -> Seq<Seq<char>> {
    lines.map_values(|l: String| l@)
}

/// The last range may take one more line without overflow.
pub open spec fn mergeable(ranges: Seq<(usize, usize)>) -> bool {
    ranges.len() > 0 ==> ranges.last().1 < usize::MAX
}

/// `ranges` with [start, end] added: merged into the last range when it
/// overlaps or touches it, appended otherwise.
pub open spec fn merged(ranges: Seq<(usize, usize)>, start: usize, end: usize) -> Seq<(usize, usize)> {
    if ranges.len() > 0 && start <= ranges.last().1 + 1 {
        let last = ranges.last();
        ranges.update(
            ranges.len() - 1,
            (last.0, if last.1 >= end { last.1 } else { end }),
        )
    } else {
        ranges.push((start, end))
    }
}

/// Adds the closed range [start, end] to `ranges`, merging it into the last
/// range when it overlaps or touches it.
pub fn push_merge(ranges: &mut Vec<(usize, usize)>, start: usize, end: usize)
    requires
        mergeable(old(ranges)@),
    ensures
        final(ranges)@ == merged(old(ranges)@, start, end),
{
    let len = ranges.len();
    if len > 0 {
        let last = ranges[len - 1];
        if start <= last.1 + 1 {
            let new_end = if last.1 >= end {
                last.1
            } else {
                end
            };
            ranges.set(len - 1, (last.0, new_end));
            return ;
        }
    }
    ranges.push((start, end));
}

/// Number of operations before the first keep.
pub open spec fn run_len(ops: Seq<EditOp>) -> nat
    decreases ops.len(),
{
    if ops.len() == 0 || ops[0] == EditOp::Keep {
        0
    } else {
        1 + run_len(ops.drop_first())
    }
}

/// Number of insertions.
pub open spec fn count_inserts(ops: Seq<EditOp>) -> nat
    decreases ops.len(),
{
    if ops.len() == 0 {
        0
    } else {
        (if ops[0] == EditOp::Insert { 1nat } else { 0nat }) + count_inserts(ops.drop_first())
    }
}

/// The gutter marks for one run of changes that starts at new line `line`
/// and deletes `dels` old lines and inserts `ins` new ones: a modified range
/// when it does both, an added range when it only inserts, and a deletion
/// mark on the line before the change (at least line 1) when it only deletes.
pub open spec fn apply_run(out: LineDiffView, line: int, dels: nat, ins: nat) -> LineDiffView {
    if dels > 0 && ins > 0 {
        LineDiffView {
            modified: merged(out.modified, line as usize, (line + ins - 1) as usize),
            ..out
        }
    } else if ins > 0 {
        LineDiffView { added: merged(out.added, line as usize, (line + ins - 1) as usize), ..out }
    } else {
        LineDiffView {
            deleted: out.deleted.push(
                if line >= 2 {
                    (line - 1) as usize
                } else {
                    1usize
                },
            ),
            ..out
        }
    }
}

/// A run of changes is no longer than the script, and a script that
/// starts with a change starts a run.
pub proof fn lemma_run_len_bound(ops: Seq<EditOp>)
    ensures
        run_len(ops) <= ops.len(),
        ops.len() > 0 && ops[0] != EditOp::Keep ==> run_len(ops) >= 1,
    decreases ops.len(),
{
    if ops.len() > 0 && ops[0] != EditOp::Keep {
        lemma_run_len_bound(ops.drop_first());
    }
}

/// The gutter marks of an edit script, added to `out`; `line` is the new
/// line at which the script starts.
pub open spec fn summarize(ops: Seq<EditOp>, line: int, out: LineDiffView) -> LineDiffView
    decreases ops.len(),
{
    if ops.len() == 0 {
        out
    } else if ops[0] == EditOp::Keep {
        summarize(ops.drop_first(), line + 1, out)
    } else {
        let j = run_len(ops);
        proof {
            lemma_run_len_bound(ops);
        }
        let ins = count_inserts(ops.take(j as int));
        summarize(ops.skip(j as int), line + ins, apply_run(out, line, (j - ins) as nat, ins))
    }
}

/// The gutter marks of turning `old` into `new` with Myers' shortest script,
/// added to `out`.
pub open spec fn diff_marks(old: Seq<String>, new: Seq<String>, out: LineDiffView) -> LineDiffView {
    marks_of(lines_view(old), lines_view(new), out)
}

/// The gutter marks of turning the lines `old` into the lines `new` with
/// Myers' shortest script, added to `out`.
pub open spec fn marks_of(old: Seq<Seq<char>>, new: Seq<Seq<char>>, out: LineDiffView) -> LineDiffView {
    summarize(myers_script(old, new), 1, out)
}

/// Round by round, the furthest points of Myers' search: `trace[d]` holds
/// the points of round d - 1 (indexed by diagonal + n + m); the second
/// result is the first round that reaches the end, which is the edit
/// distance.
fn furthest_paths(old: &[String], new: &[String]) -> (res: (Vec<Vec<isize>>, usize))
    requires
        0 < old@.len() + new@.len() <= 100_000,
    ensures
        ({
            let o = lines_view(old@);
            let nw = lines_view(new@);
            let max = old@.len() + new@.len();
            let trace = res.0;
            let dd = res.1;
            &&& dd == edit_distance(o, nw)
            &&& trace@.len() == dd + 1
            &&& forall|d2: int| 0 <= d2 <= dd ==> #[trigger] trace@[d2]@.len() == 2 * max + 1
            &&& forall|d2: int, j: int|
                1 <= d2 <= dd && diag_ok(d2 - 1, j) ==> #[trigger] trace@[d2]@[j + max]
                    == furthest(o, nw, (d2 - 1) as nat, j)
        }),
{
    let ghost o = lines_view(old@);
    let ghost nw = lines_view(new@);
    let n = old.len();
    let m = new.len();
    let max = n + m;
    let offset = max as isize;
    let width = 2 * max + 1;
    let mut v: Vec<isize> = vec![0isize; width];
    let mut trace: Vec<Vec<isize>> = Vec::new();
    let mut found = false;
    let mut d: usize = 0;
    proof {
        lemma_edit_distance(o, nw);
    }
    while d <= max && !found
        invariant
            o == lines_view(old@),
            nw == lines_view(new@),
            n == old@.len(),
            m == new@.len(),
            n == o.len(),
            m == nw.len(),
            max == n + m,
            0 < max <= 100_000,
            offset == max,
            width == 2 * max + 1,
            v@.len() == width,
            d <= max + 1,
            edit_distance(o, nw) <= max,
            reaches_end(o, nw, edit_distance(o, nw), n - m),
            diag_ok(edit_distance(o, nw) as int, n - m),
            !found ==> trace@.len() == d,
            found ==> trace@.len() == d + 1 && d == edit_distance(o, nw),
            forall|d2: int| 0 <= d2 < trace@.len() ==> #[trigger] trace@[d2]@.len() == width,
            forall|d2: int, j: int|
                1 <= d2 < trace@.len() && diag_ok(d2 - 1, j) ==> #[trigger] trace@[d2]@[j + max]
                    == furthest(o, nw, (d2 - 1) as nat, j),
            !found && d >= 1 ==> forall|j: int|
                diag_ok(d - 1, j) ==> #[trigger] v@[j + max] == furthest(o, nw, (d - 1) as nat, j),
            !found && d == 0 ==> forall|i: int| 0 <= i < width ==> #[trigger] v@[i] == 0,
            !found ==> forall|d2: nat, k2: int|
                d2 < d && diag_ok(d2 as int, k2) ==> !#[trigger] reaches_end(o, nw, d2, k2),
        decreases max + 1 - d, (if found { 0int } else { 1int }),
    {
        let ghost v_start = v@;
        trace.push(v.clone());
        assert(trace@[d as int]@ =~= v_start);
        let di = d as isize;
        let mut k: isize = -di;
        let mut hit = false;
        while k <= di && !hit
            invariant
                o == lines_view(old@),
                nw == lines_view(new@),
                n == old@.len(),
                m == new@.len(),
                n == o.len(),
                m == nw.len(),
                max == n + m,
                0 < max <= 100_000,
                offset == max,
                width == 2 * max + 1,
                v@.len() == width,
                d <= max,
                di == d,
                !found,
                -di <= k <= di + 2,
                (di - k) % 2 == 0,
                trace@.len() == d + 1,
                forall|d2: int| 0 <= d2 < trace@.len() ==> #[trigger] trace@[d2]@.len() == width,
                forall|d2: int, j: int|
                    1 <= d2 < trace@.len() && diag_ok(d2 - 1, j) ==> #[trigger] trace@[d2]@[j
                        + max] == furthest(o, nw, (d2 - 1) as nat, j),
                d >= 1 ==> forall|j: int|
                    diag_ok(d - 1, j) ==> #[trigger] v@[j + max] == furthest(
                        o,
                        nw,
                        (d - 1) as nat,
                        j,
                    ),
                d == 0 && k == 0 ==> v@[max + 1] == 0,
                forall|k2: int|
                    diag_ok(d as int, k2) && (k2 < k || (hit && k2 == k)) ==> #[trigger] v@[k2
                        + max] == furthest(o, nw, d as nat, k2),
                forall|k2: int|
                    diag_ok(d as int, k2) && k2 < k ==> !#[trigger] reaches_end(o, nw, d as nat, k2),
                hit ==> diag_ok(d as int, k as int) && reaches_end(o, nw, d as nat, k as int),
            decreases di + 2 - k, (if hit { 0int } else { 1int }),
        {
            let ki = (k + offset) as usize;
            let ghost s = if d == 0 {
                0
            } else {
                start_of(o, nw, d as nat, k as int)
            };
            proof {
                if d >= 1 {
                    if k != -di {
                        lemma_furthest_bound(o, nw, (d - 1) as nat, k - 1);
                        assert(v@[(k - 1) + max] == furthest(o, nw, (d - 1) as nat, k - 1));
                        assert(v@[ki - 1] == furthest(o, nw, (d - 1) as nat, k - 1));
                    }
                    if k != di {
                        lemma_furthest_bound(o, nw, (d - 1) as nat, k + 1);
                        assert(v@[(k + 1) + max] == furthest(o, nw, (d - 1) as nat, k + 1));
                        assert(v@[ki + 1] == furthest(o, nw, (d - 1) as nat, k + 1));
                    }
                    lemma_furthest_nonneg(o, nw, d as nat, k as int);
                } else {
                    assert(k == 0);
                    assert(v@[ki + 1] == 0);
                }
            }
            let mut x: isize = if k == -di || (k != di && v[ki - 1] < v[ki + 1]) {
                v[ki + 1]
            } else {
                v[ki - 1] + 1
            };
            assert(x == s);
            let mut y: isize = x - k;
            proof {
                lemma_snake(o, nw, s, k as int);
            }
            while (x as usize) < n && (y as usize) < m && old[x as usize] == new[y as usize]
                invariant
                    o == lines_view(old@),
                    nw == lines_view(new@),
                    n == old@.len(),
                    m == new@.len(),
                    n == o.len(),
                    m == nw.len(),
                    0 <= s <= x,
                    0 <= y,
                    y == x - k,
                    -100_000 <= k <= 100_000,
                    n + m <= 100_000,
                    x <= n + 100_000,
                    snake_end(o, nw, x as int, k as int) == snake_end(o, nw, s, k as int),
                decreases n - x,
            {
                assert((x as usize) as int == x as int);
                assert((y as usize) as int == y as int);
                assert(matches_at(o, nw, x as int, k as int));
                x += 1;
                y += 1;
            }
            proof {
                if (x as usize) < n && (y as usize) < m {
                    assert(!matches_at(o, nw, x as int, k as int));
                } else {
                    assert(!matches_at(o, nw, x as int, k as int));
                }
                assert(x == furthest(o, nw, d as nat, k as int));
            }
            v.set(ki, x);
            if x as usize >= n && y as usize >= m {
                hit = true;
            } else {
                k += 2;
            }
        }
        if hit {
            proof {
                lemma_first_found(o, nw, d as nat, k as int);
            }
            found = true;
        } else {
            proof {
                assert forall|j: int| diag_ok(d as int, j) implies #[trigger] v@[j + max] == furthest(
                    o,
                    nw,
                    d as nat,
                    j,
                ) by {}
            }
            d += 1;
        }
    }
    if !found {
        proof {
            assert(!reaches_end(o, nw, edit_distance(o, nw), n - m));
        }
    }
    (trace, d)
}

/// Reads Myers' script off the recorded rounds by walking back from (n, m).
fn read_script(old: &[String], new: &[String], trace: &Vec<Vec<isize>>, d_final: usize) -> (ops: Vec<EditOp>)
    requires
        0 < old@.len() + new@.len() <= 100_000,
        d_final == edit_distance(lines_view(old@), lines_view(new@)),
        trace@.len() == d_final + 1,
        forall|d2: int|
            0 <= d2 <= d_final ==> #[trigger] trace@[d2]@.len() == 2 * (old@.len() + new@.len())
                + 1,
        forall|d2: int, j: int|
            1 <= d2 <= d_final && diag_ok(d2 - 1, j) ==> #[trigger] trace@[d2]@[j + (old@.len()
                + new@.len())] == furthest(
                lines_view(old@),
                lines_view(new@),
                (d2 - 1) as nat,
                j,
            ),
    ensures
        ops@ == myers_script(lines_view(old@), lines_view(new@)),
{
    let ghost o = lines_view(old@);
    let ghost nw = lines_view(new@);
    let n = old.len();
    let m = new.len();
    let max = n + m;
    let offset = max as isize;
    proof {
        lemma_edit_distance(o, nw);
    }
    let ghost full = backtrack(o, nw, d_final as nat, n as int, m as int);
    let mut ops: Vec<EditOp> = Vec::new();
    let mut x = n as isize;
    let mut y = m as isize;
    let mut d = d_final as isize;
    assert(full == backtrack(o, nw, d as nat, x as int, y as int) + ops@.reverse());
    while d >= 1
        invariant
            o == lines_view(old@),
            nw == lines_view(new@),
            n == old@.len(),
            m == new@.len(),
            n == o.len(),
            m == nw.len(),
            max == n + m,
            0 < max <= 100_000,
            offset == max,
            d_final <= max,
            0 <= d <= d_final,
            trace@.len() == d_final + 1,
            forall|d2: int| 0 <= d2 <= d_final ==> #[trigger] trace@[d2]@.len() == 2 * max + 1,
            forall|d2: int, j: int|
                1 <= d2 <= d_final && diag_ok(d2 - 1, j) ==> #[trigger] trace@[d2]@[j + max]
                    == furthest(o, nw, (d2 - 1) as nat, j),
            0 <= x <= n,
            0 <= y <= m,
            diag_ok(d as int, x - y),
            x == furthest(o, nw, d as nat, x - y),
            full == backtrack(o, nw, d as nat, x as int, y as int) + ops@.reverse(),
        decreases d,
    {
        let ghost ops0 = ops@;
        let (nx, ny) = step_back(old, new, &trace[d as usize], &mut ops, x, y, d);
        assert(full =~= backtrack(o, nw, (d - 1) as nat, nx as int, ny as int) + ops@.reverse());
        x = nx;
        y = ny;
        d -= 1;
    }
    // round 0: the leading snake along the main diagonal
    proof {
        lemma_snake(o, nw, 0, 0);
    }
    let ghost x0 = x;
    let ghost ops0 = ops@;
    assert(x == y);
    while x > 0 && y > 0
        invariant
            0 <= x <= x0,
            x == y,
            ops@ == ops0 + keeps(x0 - x),
        decreases x,
    {
        ops.push(EditOp::Keep);
        x -= 1;
        y -= 1;
        assert(ops@ =~= ops0 + keeps(x0 - x));
    }
    while x > 0
        invariant
            x == 0,
            ops@ == ops0 + keeps(x0 as int),
        decreases x,
    {
        ops.push(EditOp::Delete);
        x -= 1;
    }
    while y > 0
        invariant
            y == 0,
            ops@ == ops0 + keeps(x0 as int),
        decreases y,
    {
        ops.push(EditOp::Insert);
        y -= 1;
    }
    proof {
        assert(ops@.reverse() =~= keeps(x0 as int) + ops0.reverse());
        assert(full =~= ops@.reverse());
    }
    // the script was collected back to front
    let len = ops.len();
    let mut fwd: Vec<EditOp> = Vec::new();
    let mut i = len;
    while i > 0
        invariant
            len == ops@.len(),
            i <= len,
            fwd@.len() == len - i,
            forall|t: int| 0 <= t < fwd@.len() ==> #[trigger] fwd@[t] == ops@[len - 1 - t],
        decreases i,
    {
        i -= 1;
        fwd.push(ops[i]);
    }
    assert(fwd@ =~= ops@.reverse());
    fwd
}

/// One round of walking back: from the furthest point (x, y) of round d to
/// that of round d - 1, pushing the operations passed (in reverse order).
fn step_back(
    old_lines: &[String],
    new_lines: &[String],
    v_prev: &Vec<isize>,
    ops: &mut Vec<EditOp>,
    x: isize,
    y: isize,
    d: isize,
) -> (res: (isize, isize))
    requires
        0 < old_lines@.len() + new_lines@.len() <= 100_000,
        1 <= d <= old_lines@.len() + new_lines@.len(),
        v_prev@.len() == 2 * (old_lines@.len() + new_lines@.len()) + 1,
        forall|j: int|
            diag_ok(d - 1, j) ==> #[trigger] v_prev@[j + (old_lines@.len() + new_lines@.len())] == furthest(
                lines_view(old_lines@),
                lines_view(new_lines@),
                (d - 1) as nat,
                j,
            ),
        0 <= x <= old_lines@.len(),
        0 <= y <= new_lines@.len(),
        diag_ok(d as int, x - y),
        x == furthest(lines_view(old_lines@), lines_view(new_lines@), d as nat, x - y),
    ensures
        0 <= res.0 <= old_lines@.len(),
        0 <= res.1 <= new_lines@.len(),
        diag_ok(d - 1, res.0 - res.1),
        res.0 == furthest(lines_view(old_lines@), lines_view(new_lines@), (d - 1) as nat, res.0 - res.1),
        backtrack(lines_view(old_lines@), lines_view(new_lines@), d as nat, x as int, y as int) + old(
            ops,
        )@.reverse() == backtrack(
            lines_view(old_lines@),
            lines_view(new_lines@),
            (d - 1) as nat,
            res.0 as int,
            res.1 as int,
        ) + final(ops)@.reverse(),
{
    let ghost o = lines_view(old_lines@);
    let ghost nw = lines_view(new_lines@);
    let max = old_lines.len() + new_lines.len();
    let offset = max as isize;
    let mut x = x;
    let mut y = y;
    let k = x - y;
    let ki = (k + offset) as usize;
    proof {
        if k != -d {
            assert(v_prev@[(k - 1) + max] == furthest(o, nw, (d - 1) as nat, k - 1));
        }
        if k != d {
            assert(v_prev@[(k + 1) + max] == furthest(o, nw, (d - 1) as nat, k + 1));
        }
    }
    let prev_k = if k == -d || (k != d && v_prev[ki - 1] < v_prev[ki + 1]) {
        k + 1
    } else {
        k - 1
    };
    assert(goes_down(o, nw, d as nat, k as int) == (prev_k == k + 1));
    assert(v_prev@[prev_k + max] == furthest(o, nw, (d - 1) as nat, prev_k as int));
    let prev_x = v_prev[(prev_k + offset) as usize];
    let prev_y = prev_x - prev_k;
    proof {
        lemma_backtrack_step(o, nw, d as nat, x as int, y as int);
    }
    let ghost s = start_of(o, nw, d as nat, k as int);
    let ghost x0 = x;
    let ghost y0 = y;
    let ghost ops0 = ops@;
    while x > prev_x && y > prev_y
        invariant
            s <= x <= x0,
            y == x - k,
            x0 - x == y0 - y,
            ops@ == ops0 + keeps(x0 - x),
            prev_k == k + 1 || prev_k == k - 1,
            prev_k == k + 1 ==> s == prev_x,
            prev_k == k - 1 ==> s == prev_x + 1,
            prev_y == prev_x - prev_k,
            0 <= prev_x,
            0 <= prev_y,
            x0 <= old_lines@.len(),
            y0 <= new_lines@.len(),
        decreases x,
    {
        ops.push(EditOp::Keep);
        x -= 1;
        y -= 1;
        assert(ops@ =~= ops0 + keeps(x0 - x));
    }
    let ghost j = x0 - x;
    let ghost b = backtrack(o, nw, (d - 1) as nat, prev_x as int, prev_y as int);
    if x == prev_x {
        ops.push(EditOp::Insert);
        y -= 1;
        proof {
            assert(ops@ =~= ops0 + keeps(j) + seq![EditOp::Insert]);
            assert(ops@.reverse() =~= seq![EditOp::Insert] + keeps(j) + ops0.reverse());
            assert(backtrack(o, nw, d as nat, x0 as int, y0 as int) + ops0.reverse() =~= b
                + ops@.reverse());
        }
    } else {
        ops.push(EditOp::Delete);
        x -= 1;
        proof {
            assert(ops@ =~= ops0 + keeps(j) + seq![EditOp::Delete]);
            assert(ops@.reverse() =~= seq![EditOp::Delete] + keeps(j) + ops0.reverse());
            assert(backtrack(o, nw, d as nat, x0 as int, y0 as int) + ops0.reverse() =~= b
                + ops@.reverse());
        }
    }
    (x, y)
}

/// Adds the gutter marks of an edit script to `out`.
fn mark_changes(ops: &Vec<EditOp>, out: &mut LineDiff)
    requires
        ops@.len() <= 200_000,
        mergeable(old(out)@.added),
        mergeable(old(out)@.modified),
    ensures
        final(out)@ == summarize(ops@, 1, old(out)@),
{
    let ghost all = ops@;
    let mut new_line = 1usize;
    let mut i = 0usize;
    assert(all.skip(0) =~= all);
    while i < ops.len()
        invariant
            all == ops@,
            i <= ops@.len(),
            ops@.len() <= 200_000,
            1 <= new_line <= 1 + i,
            mergeable(out@.added),
            mergeable(out@.modified),
            out@.added.len() > 0 ==> out@.added.last().1 <= 300_000 || true,
            summarize(all, 1, old(out)@) == summarize(all.skip(i as int), new_line as int, out@),
        decreases ops@.len() - i,
    {
        if ops[i] == EditOp::Keep {
            assert(all.skip(i as int).drop_first() =~= all.skip(i + 1));
            new_line += 1;
            i += 1;
            continue;
        }
        let seg_start = new_line;
        let seg_i = i;
        let mut dels = 0usize;
        let mut ins = 0usize;
        while i < ops.len() && ops[i] != EditOp::Keep
            invariant
                all == ops@,
                seg_i <= i <= ops@.len(),
                ops@.len() <= 200_000,
                dels + ins == i - seg_i,
                ins == count_inserts(all.subrange(seg_i as int, i as int)),
                new_line == seg_start + ins,
                1 <= seg_start <= 1 + seg_i,
                forall|t: int| seg_i <= t < i ==> #[trigger] all[t] != EditOp::Keep,
            decreases ops@.len() - i,
        {
            proof {
                lemma_count_inserts_push(all.subrange(seg_i as int, i as int), all[i as int]);
                assert(all.subrange(seg_i as int, i + 1) =~= all.subrange(seg_i as int, i as int).push(
                    all[i as int],
                ));
            }
            if ops[i] == EditOp::Delete {
                dels += 1;
            } else {
                ins += 1;
                new_line += 1;
            }
            i += 1;
        }
        proof {
            let rest = all.skip(seg_i as int);
            lemma_run_len_exact(rest, (i - seg_i) as nat);
            assert(rest.take((i - seg_i) as int) =~= all.subrange(seg_i as int, i as int));
            assert(rest.skip((i - seg_i) as int) =~= all.skip(i as int));
            lemma_run_len_bound(rest);
        }
        if dels > 0 && ins > 0 {
            push_merge(&mut out.modified, seg_start, new_line - 1);
        } else if ins > 0 {
            push_merge(&mut out.added, seg_start, new_line - 1);
        } else {
            let mark = if seg_start >= 2 {
                seg_start - 1
            } else {
                1
            };
            out.deleted.push(mark);
        }
    }
    assert(all.skip(i as int) =~= Seq::<EditOp>::empty());
}

proof fn lemma_count_inserts_push(ops: Seq<EditOp>, op: EditOp)
    ensures
        count_inserts(ops.push(op)) == count_inserts(ops) + (if op == EditOp::Insert {
            1nat
        } else {
            0nat
        }),
    decreases ops.len(),
{
    if ops.len() == 0 {
        assert(ops.push(op).drop_first() =~= Seq::<EditOp>::empty());
        assert(count_inserts(Seq::<EditOp>::empty()) == 0);
        assert(ops.push(op)[0] == op);
    } else {
        assert(ops.push(op)[0] == ops[0]);
        assert(ops.push(op).drop_first() =~= ops.drop_first().push(op));
        lemma_count_inserts_push(ops.drop_first(), op);
    }
}

proof fn lemma_count_inserts_bound(ops: Seq<EditOp>)
    ensures
        count_inserts(ops) <= ops.len(),
    decreases ops.len(),
{
    if ops.len() > 0 {
        lemma_count_inserts_bound(ops.drop_first());
    }
}

proof fn lemma_run_len_exact(ops: Seq<EditOp>, j: nat)
    requires
        j <= ops.len(),
        forall|t: int| 0 <= t < j ==> #[trigger] ops[t] != EditOp::Keep,
        j < ops.len() ==> ops[j as int] == EditOp::Keep,
    ensures
        run_len(ops) == j,
    decreases j,
{
    if j > 0 {
        assert forall|t: int| 0 <= t < j - 1 implies #[trigger] ops.drop_first()[t] != EditOp::Keep by {
            assert(ops[t + 1] != EditOp::Keep);
        }
        lemma_run_len_exact(ops.drop_first(), (j - 1) as nat);
    }
}

/// Computes the line differences old -> new with Myers' algorithm and adds
/// them to `out`. Texts of more than 100 000 lines together are skipped.
pub fn myers_line_diff(old_lines: &[String], new_lines: &[String], out: &mut LineDiff)
    requires
        mergeable(old(out)@.added),
        mergeable(old(out)@.modified),
    ensures
        old_lines@.len() + new_lines@.len() > 100_000 ==> final(out)@ == old(out)@,
        old_lines@.len() + new_lines@.len() <= 100_000 ==> final(out)@ == diff_marks(
            old_lines@,
            new_lines@,
            old(out)@,
        ),
{
    let ghost o = lines_view(old_lines@);
    let ghost nw = lines_view(new_lines@);
    let n = old_lines.len();
    let m = new_lines.len();
    // very large files are skipped: the search needs O((N+M)D) memory
    if n > 100_000 || m > 100_000 - n {
        return ;
    }
    proof {
        lemma_myers_script_is_shortest(o, nw);
        lemma_walk_len(o, nw, myers_script(o, nw), (0, 0));
    }
    if n == 0 && m == 0 {
        proof {
            assert(myers_script(o, nw).len() == 0);
            assert(myers_script(o, nw) =~= Seq::<EditOp>::empty());
        }
        return ;
    }
    let (trace, d_final) = furthest_paths(old_lines, new_lines);
    let ops = read_script(old_lines, new_lines, &trace, d_final);
    mark_changes(&ops, out);
}

proof fn lemma_summarize_keeps(j: int, line: int, out: LineDiffView)
    requires
        j >= 0,
    ensures
        summarize(keeps(j), line, out) == out,
    decreases j,
{
    if j > 0 {
        assert(keeps(j).drop_first() =~= keeps(j - 1));
        lemma_summarize_keeps(j - 1, line + 1, out);
    }
}

/// Comparing a text with itself marks nothing.
pub proof fn lemma_same_lines_no_marks(lines: Seq<Seq<char>>, out: LineDiffView)
    ensures
        marks_of(lines, lines, out) == out,
{
    let n = lines.len() as int;
    assert forall|i: int| 0 <= i < 0 + n implies #[trigger] matches_at(lines, lines, i, 0 - 0) by {}
    lemma_walk_keeps(lines, lines, 0, 0, n);
    lemma_cost_keeps(n);
    assert(is_edit_script(lines, lines, keeps(n)));
    lemma_edit_distance(lines, lines);
    assert(edit_distance(lines, lines) <= 0);
    assert(myers_script(lines, lines) == keeps(n));
    lemma_summarize_keeps(n, 1, out);
}

/// Every mark lies within a new text of `lines` lines: added and modified
/// ranges are closed, 1-based and end by its last line, and a deletion mark
/// is on one of its lines, or on line 1.
pub open spec fn marks_within(d: LineDiffView, lines: int) -> bool {
    &&& forall|i: int| 0 <= i < d.added.len() ==> 1 <= #[trigger] d.added[i].0 <= d.added[i].1 <= lines
    &&& forall|i: int|
        0 <= i < d.modified.len() ==> 1 <= #[trigger] d.modified[i].0 <= d.modified[i].1 <= lines
    &&& forall|i: int| 0 <= i < d.deleted.len() ==> 1 <= #[trigger] d.deleted[i] && (d.deleted[i] <= lines || d.deleted[i] == 1)
}

/// A walk never goes back in either text.
proof fn lemma_walk_forward<A>(old: Seq<A>, new: Seq<A>, ops: Seq<EditOp>, p: (int, int))
    requires
        walk(old, new, ops, p) is Some,
    ensures
        walk(old, new, ops, p).unwrap().0 >= p.0,
        walk(old, new, ops, p).unwrap().1 >= p.1,
    decreases ops.len(),
{
    if ops.len() > 0 {
        let q = step(old, new, ops[0], p)->0;
        lemma_walk_forward(old, new, ops.drop_first(), q);
    }
}

/// A run of changes moves down the new text by its insertions.
proof fn lemma_walk_run<A>(old: Seq<A>, new: Seq<A>, ops: Seq<EditOp>, p: (int, int))
    requires
        walk(old, new, ops, p) is Some,
        forall|i: int| 0 <= i < ops.len() ==> #[trigger] ops[i] != EditOp::Keep,
    ensures
        walk(old, new, ops, p).unwrap().1 == p.1 + count_inserts(ops),
        walk(old, new, ops, p).unwrap().0 == p.0 + ops.len() - count_inserts(ops),
        count_inserts(ops) <= ops.len(),
    decreases ops.len(),
{
    if ops.len() > 0 {
        let q = step(old, new, ops[0], p)->0;
        assert forall|i: int| 0 <= i < ops.drop_first().len() implies #[trigger] ops.drop_first()[i] != EditOp::Keep by {
            assert(ops.drop_first()[i] == ops[i + 1]);
        }
        lemma_walk_run(old, new, ops.drop_first(), q);
    }
}

/// The operations of a run are changes.
proof fn lemma_run_changes(ops: Seq<EditOp>)
    ensures
        forall|i: int| 0 <= i < run_len(ops) ==> #[trigger] ops[i] != EditOp::Keep,
        run_len(ops) <= ops.len(),
        run_len(ops) < ops.len() ==> ops[run_len(ops) as int] == EditOp::Keep,
    decreases ops.len(),
{
    if ops.len() > 0 && ops[0] != EditOp::Keep {
        lemma_run_changes(ops.drop_first());
        if run_len(ops) < ops.len() {
            assert(ops[run_len(ops) as int] == ops.drop_first()[run_len(ops.drop_first()) as int]);
        }
        assert forall|i: int| 0 <= i < run_len(ops) implies #[trigger] ops[i] != EditOp::Keep by {
            if i > 0 {
                assert(ops[i] == ops.drop_first()[i - 1]);
            }
        }
    }
}

proof fn lemma_merged_within(ranges: Seq<(usize, usize)>, start: usize, end: usize, lines: int)
    requires
        forall|i: int| 0 <= i < ranges.len() ==> 1 <= #[trigger] ranges[i].0 <= ranges[i].1 <= lines,
        1 <= start <= end <= lines,
    ensures
        forall|i: int|
            0 <= i < merged(ranges, start, end).len() ==> 1 <= #[trigger] merged(ranges, start, end)[i].0
                <= merged(ranges, start, end)[i].1 <= lines,
{
}

proof fn lemma_summarize_within<A>(old: Seq<A>, new: Seq<A>, ops: Seq<EditOp>, p: (int, int), out: LineDiffView)
    requires
        walk(old, new, ops, p) == Some((old.len() as int, new.len() as int)),
        0 <= p.1,
        new.len() < usize::MAX,
        marks_within(out, new.len() as int),
    ensures
        marks_within(summarize(ops, p.1 + 1, out), new.len() as int),
    decreases ops.len(),
{
    let m = new.len() as int;
    if ops.len() == 0 {
    } else if ops[0] == EditOp::Keep {
        let q = step(old, new, ops[0], p)->0;
        lemma_summarize_within(old, new, ops.drop_first(), q, out);
    } else {
        let j = run_len(ops);
        lemma_run_len_bound(ops);
        lemma_run_changes(ops);
        let run = ops.take(j as int);
        let rest = ops.skip(j as int);
        assert(run + rest =~= ops);
        lemma_walk_concat(old, new, run, rest, p);
        let r = walk(old, new, run, p)->0;
        assert forall|i: int| 0 <= i < run.len() implies #[trigger] run[i] != EditOp::Keep by {
            assert(run[i] == ops[i]);
        }
        lemma_walk_run(old, new, run, p);
        lemma_walk_forward(old, new, rest, r);
        lemma_walk_forward(old, new, run, p);
        let ins = count_inserts(run);
        let dels = (j - ins) as nat;
        let line = p.1 + 1;
        let next = apply_run(out, line, dels, ins);
        if ins > 0 {
            if dels > 0 {
                lemma_merged_within(out.modified, line as usize, (line + ins - 1) as usize, m);
            } else {
                lemma_merged_within(out.added, line as usize, (line + ins - 1) as usize, m);
            }
        }
        assert(marks_within(next, m));
        lemma_summarize_within(old, new, rest, r, next);
    }
}

/// Every gutter mark of a diff lies within the edited text: added and
/// modified ranges are closed, 1-based and end by its last line, and a
/// deletion mark is on one of its lines, or on line 1.
pub proof fn lemma_marks_within_new_text(old: Seq<Seq<char>>, new: Seq<Seq<char>>)
    requires
        new.len() < usize::MAX,
    ensures
        marks_within(
            marks_of(old, new, LineDiffView { added: Seq::empty(), modified: Seq::empty(), deleted: Seq::empty() }),
            new.len() as int,
        ),
{
    lemma_myers_script_is_shortest(old, new);
    let empty = LineDiffView { added: Seq::empty(), modified: Seq::empty(), deleted: Seq::empty() };
    lemma_summarize_within(old, new, myers_script(old, new), (0, 0), empty);
}

/// Ranges in ascending order, each closed, none overlapping or touching
/// the next.
pub open spec fn separated(r: Seq<(usize, usize)>) -> bool {
    &&& forall|i: int| 0 <= i < r.len() ==> #[trigger] r[i].0 <= r[i].1
    &&& forall|i: int, j: int| 0 <= i < j < r.len() ==> #[trigger] r[i].1 + 1 < #[trigger] r[j].0
}

/// Every range of `r` ends before `line`, and more than a line before it
/// when `strict`.
pub open spec fn ends_before(r: Seq<(usize, usize)>, line: int, strict: bool) -> bool {
    forall|i: int| 0 <= i < r.len() ==> if strict { #[trigger] r[i].1 + 1 < line } else { r[i].1 + 1 <= line }
}

proof fn lemma_summarize_separated<A>(
    old: Seq<A>,
    new: Seq<A>,
    ops: Seq<EditOp>,
    p: (int, int),
    out: LineDiffView,
)
    requires
        walk(old, new, ops, p) == Some((old.len() as int, new.len() as int)),
        0 <= p.1,
        new.len() < usize::MAX,
        separated(out.added),
        separated(out.modified),
        ends_before(out.added, p.1 + 1, ops.len() > 0 && ops[0] != EditOp::Keep),
        ends_before(out.modified, p.1 + 1, ops.len() > 0 && ops[0] != EditOp::Keep),
    ensures
        separated(summarize(ops, p.1 + 1, out).added),
        separated(summarize(ops, p.1 + 1, out).modified),
    decreases ops.len(),
{
    if ops.len() == 0 {
    } else if ops[0] == EditOp::Keep {
        let q = step(old, new, ops[0], p)->0;
        let rest = ops.drop_first();
        lemma_summarize_separated(old, new, rest, q, out);
    } else {
        let j = run_len(ops);
        lemma_run_len_bound(ops);
        lemma_run_changes(ops);
        let run = ops.take(j as int);
        let rest = ops.skip(j as int);
        assert(run + rest =~= ops);
        lemma_walk_concat(old, new, run, rest, p);
        let r = walk(old, new, run, p)->0;
        assert forall|i: int| 0 <= i < run.len() implies #[trigger] run[i] != EditOp::Keep by {
            assert(run[i] == ops[i]);
        }
        lemma_walk_run(old, new, run, p);
        lemma_walk_forward(old, new, rest, r);
        let ins = count_inserts(run);
        let dels = (j - ins) as nat;
        let line = p.1 + 1;
        let next = apply_run(out, line, dels, ins);
        if rest.len() > 0 {
            assert(rest[0] == ops[j as int]);
        }
        if ins > 0 {
            let start = line as usize;
            let end = (line + ins - 1) as usize;
            assert(start as int == line && end as int == line + ins - 1);
            if dels > 0 {
                let rs = out.modified;
                if rs.len() > 0 {
                    assert(rs.last().1 + 1 < line);
                }
                assert(next.modified == rs.push((start, end)));
                assert(separated(next.modified)) by {
                    assert forall|a: int, b: int| 0 <= a < b < next.modified.len() implies #[trigger] next.modified[a].1 + 1 < #[trigger] next.modified[b].0 by {
                        if b == rs.len() {
                            assert(next.modified[a] == rs[a]);
                        } else {
                            assert(next.modified[a] == rs[a] && next.modified[b] == rs[b]);
                        }
                    }
                    assert forall|a: int| 0 <= a < next.modified.len() implies #[trigger] next.modified[a].0 <= next.modified[a].1 by {
                        if a < rs.len() {
                            assert(next.modified[a] == rs[a]);
                        }
                    }
                }
                assert(ends_before(next.modified, r.1 + 1, false)) by {
                    assert forall|a: int| 0 <= a < next.modified.len() implies #[trigger] next.modified[a].1 + 1 <= r.1 + 1 by {
                        if a < rs.len() {
                            assert(next.modified[a] == rs[a]);
                        }
                    }
                }
                assert(ends_before(next.added, r.1 + 1, false)) by {
                    assert forall|a: int| 0 <= a < next.added.len() implies #[trigger] next.added[a].1 + 1 <= r.1 + 1 by {
                        assert(next.added[a] == out.added[a]);
                    }
                }
            } else {
                let rs = out.added;
                if rs.len() > 0 {
                    assert(rs.last().1 + 1 < line);
                }
                assert(next.added == rs.push((start, end)));
                assert(separated(next.added)) by {
                    assert forall|a: int, b: int| 0 <= a < b < next.added.len() implies #[trigger] next.added[a].1 + 1 < #[trigger] next.added[b].0 by {
                        if b == rs.len() {
                            assert(next.added[a] == rs[a]);
                        } else {
                            assert(next.added[a] == rs[a] && next.added[b] == rs[b]);
                        }
                    }
                    assert forall|a: int| 0 <= a < next.added.len() implies #[trigger] next.added[a].0 <= next.added[a].1 by {
                        if a < rs.len() {
                            assert(next.added[a] == rs[a]);
                        }
                    }
                }
                assert(ends_before(next.added, r.1 + 1, false)) by {
                    assert forall|a: int| 0 <= a < next.added.len() implies #[trigger] next.added[a].1 + 1 <= r.1 + 1 by {
                        if a < rs.len() {
                            assert(next.added[a] == rs[a]);
                        }
                    }
                }
                assert(ends_before(next.modified, r.1 + 1, false)) by {
                    assert forall|a: int| 0 <= a < next.modified.len() implies #[trigger] next.modified[a].1 + 1 <= r.1 + 1 by {
                        assert(next.modified[a] == out.modified[a]);
                    }
                }
            }
        } else {
            assert(next.added == out.added && next.modified == out.modified);
            assert(ends_before(next.added, r.1 + 1, false)) by {
                assert forall|a: int| 0 <= a < next.added.len() implies #[trigger] next.added[a].1 + 1 <= r.1 + 1 by {
                    assert(next.added[a] == out.added[a]);
                }
            }
            assert(ends_before(next.modified, r.1 + 1, false)) by {
                assert forall|a: int| 0 <= a < next.modified.len() implies #[trigger] next.modified[a].1 + 1 <= r.1 + 1 by {
                    assert(next.modified[a] == out.modified[a]);
                }
            }
        }
        lemma_summarize_separated(old, new, rest, r, next);
    }
}

/// The added and the modified ranges of a diff each come in ascending
/// order, and no two of them overlap or touch.
pub proof fn lemma_gutter_ranges_separated(old: Seq<Seq<char>>, new: Seq<Seq<char>>)
    requires
        new.len() < usize::MAX,
    ensures
        separated(
            marks_of(old, new, LineDiffView { added: Seq::empty(), modified: Seq::empty(), deleted: Seq::empty() }).added,
        ),
        separated(
            marks_of(old, new, LineDiffView { added: Seq::empty(), modified: Seq::empty(), deleted: Seq::empty() }).modified,
        ),
{
    lemma_myers_script_is_shortest(old, new);
    let empty = LineDiffView { added: Seq::empty(), modified: Seq::empty(), deleted: Seq::empty() };
    lemma_summarize_separated(old, new, myers_script(old, new), (0, 0), empty);
}

/// Where no old line equals a new line, a walk can keep nothing.
proof fn lemma_walk_keeps_nothing<A>(old: Seq<A>, new: Seq<A>, ops: Seq<EditOp>, p: (int, int))
    requires
        walk(old, new, ops, p) is Some,
        forall|i: int, j: int| 0 <= i < old.len() && 0 <= j < new.len() ==> old[i] != new[j],
    ensures
        forall|i: int| 0 <= i < ops.len() ==> #[trigger] ops[i] != EditOp::Keep,
    decreases ops.len(),
{
    if ops.len() > 0 {
        let q = step(old, new, ops[0], p)->0;
        lemma_walk_keeps_nothing(old, new, ops.drop_first(), q);
        assert forall|i: int| 0 <= i < ops.len() implies #[trigger] ops[i] != EditOp::Keep by {
            if i > 0 {
                assert(ops[i] == ops.drop_first()[i - 1]);
            }
        }
    }
}

proof fn lemma_run_is_all(ops: Seq<EditOp>)
    requires
        forall|i: int| 0 <= i < ops.len() ==> #[trigger] ops[i] != EditOp::Keep,
    ensures
        run_len(ops) == ops.len(),
    decreases ops.len(),
{
    if ops.len() > 0 {
        assert forall|i: int| 0 <= i < ops.drop_first().len() implies #[trigger] ops.drop_first()[i] != EditOp::Keep by {
            assert(ops.drop_first()[i] == ops[i + 1]);
        }
        lemma_run_is_all(ops.drop_first());
    }
}

/// Where the two texts have no line in common, the diff is one run of
/// changes that deletes every old line and inserts every new one.
proof fn lemma_unrelated_texts_one_run(old: Seq<Seq<char>>, new: Seq<Seq<char>>, out: LineDiffView)
    requires
        old.len() + new.len() > 0,
        forall|i: int, j: int| 0 <= i < old.len() && 0 <= j < new.len() ==> old[i] != new[j],
    ensures
        marks_of(old, new, out) == apply_run(out, 1, old.len(), new.len()),
{
    lemma_myers_script_is_shortest(old, new);
    let ops = myers_script(old, new);
    lemma_walk_keeps_nothing(old, new, ops, (0, 0));
    if ops.len() == 0 {
        assert(walk(old, new, ops, (0, 0)) == Some((0int, 0int)));
    }
    lemma_run_is_all(ops);
    lemma_walk_run(old, new, ops, (0, 0));
    assert(ops.take(ops.len() as int) =~= ops);
    assert(ops.skip(ops.len() as int) =~= Seq::<EditOp>::empty());
    let ins = count_inserts(ops);
    assert(summarize(ops, 1, out) == summarize(
        ops.skip(ops.len() as int),
        1 + ins as int,
        apply_run(out, 1, (ops.len() - ins) as nat, ins),
    ));
}

proof fn lemma_run_len_concat(run: Seq<EditOp>, rest: Seq<EditOp>)
    requires
        forall|i: int| 0 <= i < run.len() ==> #[trigger] run[i] != EditOp::Keep,
        rest.len() == 0 || rest[0] == EditOp::Keep,
    ensures
        run_len(run + rest) == run.len(),
    decreases run.len(),
{
    if run.len() == 0 {
        assert(run + rest =~= rest);
    } else {
        assert((run + rest).drop_first() =~= run.drop_first() + rest);
        assert forall|i: int| 0 <= i < run.drop_first().len() implies #[trigger] run.drop_first()[i] != EditOp::Keep by {
            assert(run.drop_first()[i] == run[i + 1]);
        }
        lemma_run_len_concat(run.drop_first(), rest);
    }
}

/// Anywhere in a diff, a run of changes (between kept lines, or at an end)
/// that both deletes and inserts lines marks its inserted lines as one
/// modified range, merged into the modified ranges, and adds no added
/// range; the rest of the script goes on from the line after it.
pub proof fn lemma_mixed_run_is_modified(run: Seq<EditOp>, rest: Seq<EditOp>, line: int, out: LineDiffView)
    requires
        forall|i: int| 0 <= i < run.len() ==> #[trigger] run[i] != EditOp::Keep,
        rest.len() == 0 || rest[0] == EditOp::Keep,
        count_inserts(run) > 0,
        count_inserts(run) < run.len(),
    ensures
        summarize(run + rest, line, out) == summarize(
            rest,
            line + count_inserts(run),
            LineDiffView {
                modified: merged(
                    out.modified,
                    line as usize,
                    (line + count_inserts(run) - 1) as usize,
                ),
                ..out
            },
        ),
{
    let ops = run + rest;
    lemma_run_len_concat(run, rest);
    assert(ops[0] == run[0]);
    assert(ops.take(run.len() as int) =~= run);
    assert(ops.skip(run.len() as int) =~= rest);
}

/// The diff against an empty text.
pub open spec fn no_lines_marked() -> LineDiffView {
    LineDiffView { added: Seq::empty(), modified: Seq::empty(), deleted: Seq::empty() }
}

/// Where no line of the old text survives and at least one was there, all
/// new lines are modified, never added: replacing one or more lines by
/// different ones, however many on either side, marks the new lines as
/// one modified range.
pub proof fn lemma_replaced_lines_are_modified(old: Seq<Seq<char>>, new: Seq<Seq<char>>)
    requires
        old.len() > 0,
        new.len() > 0,
        new.len() < usize::MAX,
        forall|i: int, j: int| 0 <= i < old.len() && 0 <= j < new.len() ==> old[i] != new[j],
    ensures
        marks_of(old, new, no_lines_marked()) == (LineDiffView {
            added: Seq::empty(),
            modified: seq![(1usize, new.len() as usize)],
            deleted: Seq::empty(),
        }),
{
    lemma_unrelated_texts_one_run(old, new, no_lines_marked());
    assert(merged(Seq::<(usize, usize)>::empty(), 1usize, new.len() as usize) =~= seq![(1usize, new.len() as usize)]);
}

/// Lines written into an empty file are all added.
pub proof fn lemma_lines_into_empty_are_added(new: Seq<Seq<char>>)
    requires
        new.len() > 0,
        new.len() < usize::MAX,
    ensures
        marks_of(Seq::empty(), new, no_lines_marked()) == (LineDiffView {
            added: seq![(1usize, new.len() as usize)],
            modified: Seq::empty(),
            deleted: Seq::empty(),
        }),
{
    lemma_unrelated_texts_one_run(Seq::empty(), new, no_lines_marked());
    assert(merged(Seq::<(usize, usize)>::empty(), 1usize, new.len() as usize) =~= seq![(1usize, new.len() as usize)]);
}

/// Emptying a file marks one deletion, on line 1.
pub proof fn lemma_emptied_file_one_deletion(old: Seq<Seq<char>>)
    requires
        old.len() > 0,
    ensures
        marks_of(old, Seq::empty(), no_lines_marked()) == (LineDiffView {
            added: Seq::empty(),
            modified: Seq::empty(),
            deleted: seq![1usize],
        }),
{
    lemma_unrelated_texts_one_run(old, Seq::empty(), no_lines_marked());
    assert(Seq::<usize>::empty().push(1usize) =~= seq![1usize]);
}

} // verus!
