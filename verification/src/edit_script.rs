//! Edit scripts between two sequences of lines, and the theory of Myers'
//! furthest-reaching paths that the line diff relies on.
use vstd::prelude::*;

verus! {

/// One step of an edit script: keep a common line, insert a line of the new
/// text, or delete a line of the old text.
#[derive(Clone, Copy, PartialEq, Eq, Structural, Debug)]
pub enum EditOp {
    Keep,
    Insert,
    Delete,
}

/// The point reached from `p` = (x, y) by one operation, if the operation is
/// allowed there (x indexes `old`, y indexes `new`).
pub open spec fn step<A>(old: Seq<A>, new: Seq<A>, op: EditOp, p: (int, int)) -> Option<(int, int)> {
    let x = p.0;
    let y = p.1;
    match op {
        EditOp::Keep => if 0 <= x < old.len() && 0 <= y < new.len() && old[x] == new[y] {
            Some((x + 1, y + 1))
        } else {
            None
        },
        EditOp::Delete => if 0 <= x < old.len() {
            Some((x + 1, y))
        } else {
            None
        },
        EditOp::Insert => if 0 <= y < new.len() {
            Some((x, y + 1))
        } else {
            None
        },
    }
}

/// The point reached by applying `ops` from `p`, if every step is allowed.
pub open spec fn walk<A>(old: Seq<A>, new: Seq<A>, ops: Seq<EditOp>, p: (int, int)) -> Option<(int, int)>
    decreases ops.len(),
{
    if ops.len() == 0 {
        Some(p)
    } else {
        match step(old, new, ops[0], p) {
            Some(q) => walk(old, new, ops.drop_first(), q),
            None => None,
        }
    }
}

/// Number of insertions and deletions in a script.
pub open spec fn cost(ops: Seq<EditOp>) -> nat
    decreases ops.len(),
{
    if ops.len() == 0 {
        0
    } else {
        (if ops[0] == EditOp::Keep { 0nat } else { 1nat }) + cost(ops.drop_first())
    }
}

/// `ops` turns `old` into `new`.
pub open spec fn is_edit_script<A>(old: Seq<A>, new: Seq<A>, ops: Seq<EditOp>) -> bool {
    walk(old, new, ops, (0, 0)) == Some((old.len() as int, new.len() as int))
}

/// `ops` turns `old` into `new` with no more insertions and deletions than
/// any other script.
pub open spec fn is_shortest_edit_script<A>(old: Seq<A>, new: Seq<A>, ops: Seq<EditOp>) -> bool {
    &&& is_edit_script(old, new, ops)
    &&& forall|other: Seq<EditOp>| is_edit_script(old, new, other) ==> cost(ops) <= cost(other)
}

/// `j` keep operations.
pub open spec fn keeps(j: int) -> Seq<EditOp> {
    Seq::new(j as nat, |i: int| EditOp::Keep)
}

/// Line x of `old` equals line x - k of `new`.
pub open spec fn matches_at<A>(old: Seq<A>, new: Seq<A>, x: int, k: int) -> bool {
    0 <= x < old.len() && 0 <= x - k < new.len() && old[x] == new[x - k]
}

/// The end of the longest run of equal lines ("snake") that starts at
/// x on diagonal k (y = x - k).
pub open spec fn snake_end<A>(old: Seq<A>, new: Seq<A>, x: int, k: int) -> int
    decreases old.len() - x,
{
    if 0 <= x < old.len() && 0 <= x - k < new.len() && old[x] == new[x - k] {
        snake_end(old, new, x + 1, k)
    } else {
        x
    }
}

/// Whether the furthest d-path on diagonal k extends the (d-1)-path on
/// diagonal k + 1 by an insertion (otherwise it extends the one on k - 1 by a
/// deletion).
pub open spec fn goes_down<A>(old: Seq<A>, new: Seq<A>, d: nat, k: int) -> bool
    recommends
        d > 0,
{
    k == -d || (k != d && furthest(old, new, (d - 1) as nat, k - 1) < furthest(
        old,
        new,
        (d - 1) as nat,
        k + 1,
    ))
}

/// x of the furthest point that paths with d insertions and deletions reach
/// on diagonal k, as Myers' algorithm computes it (the point may lie beyond
/// the end of `old` or `new`).
pub open spec fn furthest<A>(old: Seq<A>, new: Seq<A>, d: nat, k: int) -> int
    decreases d, 1int,
{
    if d == 0 {
        snake_end(old, new, 0, 0)
    } else {
        snake_end(old, new, start_of(old, new, d, k), k)
    }
}

/// Where the snake of the furthest d-path on diagonal k starts.
pub open spec fn start_of<A>(old: Seq<A>, new: Seq<A>, d: nat, k: int) -> int
    recommends
        d > 0,
    decreases d, 0int,
{
    if d == 0 {
        0
    } else if k == -d || (k != d && furthest(old, new, (d - 1) as nat, k - 1) < furthest(
        old,
        new,
        (d - 1) as nat,
        k + 1,
    )) {
        furthest(old, new, (d - 1) as nat, k + 1)
    } else {
        furthest(old, new, (d - 1) as nat, k - 1) + 1
    }
}

/// Diagonal k is reachable with d insertions and deletions.
pub open spec fn diag_ok(d: int, k: int) -> bool {
    -d <= k <= d && (d - k) % 2 == 0
}

/// Round d of the search finds the end point on diagonal k.
pub open spec fn reaches_end<A>(old: Seq<A>, new: Seq<A>, d: nat, k: int) -> bool {
    furthest(old, new, d, k) >= old.len() && furthest(old, new, d, k) - k >= new.len()
}

/// The script that Myers' backtracking reads off the furthest paths, from
/// (0, 0) to the point (x, y) reached with d insertions and deletions.
pub open spec fn backtrack<A>(old: Seq<A>, new: Seq<A>, d: nat, x: int, y: int) -> Seq<EditOp>
    decreases d,
{
    if d == 0 {
        keeps(x)
    } else {
        let k = x - y;
        if goes_down(old, new, d, k) {
            let px = furthest(old, new, (d - 1) as nat, k + 1);
            backtrack(old, new, (d - 1) as nat, px, px - (k + 1)).push(EditOp::Insert) + keeps(
                x - px,
            )
        } else {
            let px = furthest(old, new, (d - 1) as nat, k - 1);
            backtrack(old, new, (d - 1) as nat, px, px - (k - 1)).push(EditOp::Delete) + keeps(
                x - px - 1,
            )
        }
    }
}

/// The least number of insertions and deletions that turns `old` into `new`.
pub open spec fn edit_distance<A>(old: Seq<A>, new: Seq<A>) -> nat {
    choose|c: nat| is_least_cost(old, new, c)
}

/// Some script of cost c turns `old` into `new`.
pub open spec fn has_script_of_cost<A>(old: Seq<A>, new: Seq<A>, c: nat) -> bool {
    exists|ops: Seq<EditOp>| #[trigger] is_edit_script(old, new, ops) && cost(ops) == c
}

/// c is the least cost of a script that turns `old` into `new`.
pub open spec fn is_least_cost<A>(old: Seq<A>, new: Seq<A>, c: nat) -> bool {
    &&& has_script_of_cost(old, new, c)
    &&& forall|ops: Seq<EditOp>| #[trigger] is_edit_script(old, new, ops) ==> c <= cost(ops)
}

/// The shortest edit script that Myers' algorithm produces.
pub open spec fn myers_script<A>(old: Seq<A>, new: Seq<A>) -> Seq<EditOp> {
    backtrack(old, new, edit_distance(old, new), old.len() as int, new.len() as int)
}

// ---------------------------------------------------------------------------
// Lemmas
// ---------------------------------------------------------------------------

/// Walking a script made of two parts walks the first, then the second.
pub proof fn lemma_walk_concat<A>(old: Seq<A>, new: Seq<A>, a: Seq<EditOp>, b: Seq<EditOp>, p: (int, int))
    ensures
        walk(old, new, a + b, p) == (match walk(old, new, a, p) {
            Some(q) => walk(old, new, b, q),
            None => None,
        }),
    decreases a.len(),
{
    if a.len() == 0 {
        assert(a + b =~= b);
    } else {
        assert((a + b).drop_first() =~= a.drop_first() + b);
        match step(old, new, a[0], p) {
            Some(q) => {
                lemma_walk_concat(old, new, a.drop_first(), b, q);
            },
            None => {},
        }
    }
}

/// The cost of two parts together is the sum of their costs.
pub proof fn lemma_cost_concat(a: Seq<EditOp>, b: Seq<EditOp>)
    ensures
        cost(a + b) == cost(a) + cost(b),
    decreases a.len(),
{
    if a.len() == 0 {
        assert(a + b =~= b);
    } else {
        assert((a + b).drop_first() =~= a.drop_first() + b);
        lemma_cost_concat(a.drop_first(), b);
    }
}

/// Keeping lines costs nothing.
pub proof fn lemma_cost_keeps(j: int)
    requires
        j >= 0,
    ensures
        cost(keeps(j)) == 0,
    decreases j,
{
    if j > 0 {
        assert(keeps(j).drop_first() =~= keeps(j - 1));
        lemma_cost_keeps(j - 1);
    }
}

/// A single insertion or deletion costs one; a keep costs nothing.
pub proof fn lemma_cost_single(op: EditOp)
    ensures
        cost(seq![op]) == (if op == EditOp::Keep { 0nat } else { 1nat }),
{
    assert(seq![op].drop_first() =~= Seq::<EditOp>::empty());
    assert(cost(seq![op].drop_first()) == 0);
}

/// Walking one operation is taking its step.
pub proof fn lemma_walk_single<A>(old: Seq<A>, new: Seq<A>, op: EditOp, p: (int, int))
    ensures
        walk(old, new, seq![op], p) == step(old, new, op, p),
{
    assert(seq![op].drop_first() =~= Seq::<EditOp>::empty());
    match step(old, new, op, p) {
        Some(q) => {
            assert(walk(old, new, seq![op].drop_first(), q) == Some(q));
        },
        None => {},
    }
}

/// A run of keeps along equal lines walks diagonally.
pub proof fn lemma_walk_keeps<A>(old: Seq<A>, new: Seq<A>, x: int, y: int, j: int)
    requires
        j >= 0,
        forall|i: int| x <= i < x + j ==> #[trigger] matches_at(old, new, i, x - y),
    ensures
        walk(old, new, keeps(j), (x, y)) == Some((x + j, y + j)),
    decreases j,
{
    if j > 0 {
        assert(keeps(j).drop_first() =~= keeps(j - 1));
        assert(matches_at(old, new, x, x - y));
        lemma_walk_keeps(old, new, x + 1, y + 1, j - 1);
    }
}

/// Facts about a snake: it does not go back, every line it passes is equal
/// on both sides, it stops at a mismatch or an end, and it stays within the
/// texts when it starts within them.
pub proof fn lemma_snake<A>(old: Seq<A>, new: Seq<A>, x: int, k: int)
    ensures
        snake_end(old, new, x, k) >= x,
        forall|i: int| x <= i < snake_end(old, new, x, k) ==> #[trigger] matches_at(old, new, i, k),
        !matches_at(old, new, snake_end(old, new, x, k), k),
        (0 <= x <= old.len() && 0 <= x - k <= new.len()) ==> snake_end(old, new, x, k)
            <= old.len() && snake_end(old, new, x, k) - k <= new.len(),
        !(0 <= x < old.len() && 0 <= x - k < new.len()) ==> snake_end(old, new, x, k) == x,
    decreases old.len() - x,
{
    if 0 <= x < old.len() && 0 <= x - k < new.len() && old[x] == new[x - k] {
        lemma_snake(old, new, x + 1, k);
    }
}

/// The furthest point of a reachable diagonal has nonnegative coordinates.
pub proof fn lemma_furthest_nonneg<A>(old: Seq<A>, new: Seq<A>, d: nat, k: int)
    requires
        diag_ok(d as int, k),
    ensures
        furthest(old, new, d, k) >= 0,
        furthest(old, new, d, k) - k >= 0,
        d > 0 ==> start_of(old, new, d, k) >= 0 && start_of(old, new, d, k) - k >= 0,
    decreases d,
{
    if d == 0 {
        lemma_snake(old, new, 0, 0);
    } else {
        let s = start_of(old, new, d, k);
        if goes_down(old, new, d, k) {
            lemma_furthest_nonneg(old, new, (d - 1) as nat, k + 1);
        } else {
            lemma_furthest_nonneg(old, new, (d - 1) as nat, k - 1);
            if k != d {
                lemma_furthest_nonneg(old, new, (d - 1) as nat, k + 1);
            }
        }
        lemma_snake(old, new, s, k);
    }
}

pub open spec fn min_int(a: int, b: int) -> int {
    if a <= b {
        a
    } else {
        b
    }
}

/// Every furthest point is backed by a real path: one that reaches the
/// point clipped to the texts, with the clipped-off excess counted as cost.
pub proof fn lemma_furthest_sound<A>(old: Seq<A>, new: Seq<A>, d: nat, k: int) -> (ops: Seq<EditOp>)
    requires
        diag_ok(d as int, k),
    ensures
        ({
            let x = furthest(old, new, d, k);
            let y = x - k;
            let n = old.len() as int;
            let m = new.len() as int;
            &&& walk(old, new, ops, (0, 0)) == Some((min_int(x, n), min_int(y, m)))
            &&& cost(ops) + (x - min_int(x, n)) + (y - min_int(y, m)) <= d
        }),
    decreases d,
{
    let n = old.len() as int;
    let m = new.len() as int;
    lemma_furthest_nonneg(old, new, d, k);
    if d == 0 {
        let e = snake_end(old, new, 0, 0);
        lemma_snake(old, new, 0, 0);
        lemma_walk_keeps(old, new, 0, 0, e);
        lemma_cost_keeps(e);
        keeps(e)
    } else {
        let s = start_of(old, new, d, k);
        // the path to the start of the snake, clipped, with its excess
        let (p, px, py) = if goes_down(old, new, d, k) {
            let q = lemma_furthest_sound(old, new, (d - 1) as nat, k + 1);
            lemma_furthest_nonneg(old, new, (d - 1) as nat, k + 1);
            let qx = furthest(old, new, (d - 1) as nat, k + 1);
            let qy = qx - (k + 1);
            if qy < m {
                lemma_walk_concat(old, new, q, seq![EditOp::Insert], (0, 0));
                lemma_walk_single(old, new, EditOp::Insert, (min_int(qx, n), qy));
                lemma_cost_concat(q, seq![EditOp::Insert]);
                lemma_cost_single(EditOp::Insert);
                (q + seq![EditOp::Insert], qx, qy + 1)
            } else {
                (q, qx, qy + 1)
            }
        } else {
            let q = lemma_furthest_sound(old, new, (d - 1) as nat, k - 1);
            lemma_furthest_nonneg(old, new, (d - 1) as nat, k - 1);
            let qx = furthest(old, new, (d - 1) as nat, k - 1);
            let qy = qx - (k - 1);
            if qx < n {
                lemma_walk_concat(old, new, q, seq![EditOp::Delete], (0, 0));
                lemma_walk_single(old, new, EditOp::Delete, (qx, min_int(qy, m)));
                lemma_cost_concat(q, seq![EditOp::Delete]);
                lemma_cost_single(EditOp::Delete);
                (q + seq![EditOp::Delete], qx + 1, qy)
            } else {
                (q, qx + 1, qy)
            }
        };
        assert(px == s && py == s - k);
        assert(walk(old, new, p, (0, 0)) == Some((min_int(px, n), min_int(py, m))));
        assert(cost(p) + (px - min_int(px, n)) + (py - min_int(py, m)) <= d);
        lemma_snake(old, new, s, k);
        if s <= n && s - k <= m {
            let e = snake_end(old, new, s, k);
            lemma_walk_keeps(old, new, s, s - k, e - s);
            lemma_walk_concat(old, new, p, keeps(e - s), (0, 0));
            lemma_cost_concat(p, keeps(e - s));
            lemma_cost_keeps(e - s);
            p + keeps(e - s)
        } else {
            p
        }
    }
}

/// Walking a script with one more operation takes one more step.
pub proof fn lemma_walk_push<A>(old: Seq<A>, new: Seq<A>, ops: Seq<EditOp>, p: (int, int))
    requires
        ops.len() > 0,
    ensures
        walk(old, new, ops, p) == (match walk(old, new, ops.drop_last(), p) {
            Some(q) => step(old, new, ops.last(), q),
            None => None,
        }),
{
    assert(ops =~= ops.drop_last() + seq![ops.last()]);
    lemma_walk_concat(old, new, ops.drop_last(), seq![ops.last()], p);
    let q = walk(old, new, ops.drop_last(), p);
    if q is Some {
        lemma_walk_single(old, new, ops.last(), q->0);
    }
}

/// Myers' lemma: the furthest point of a diagonal is at least as far as the
/// end of any path with the same number of insertions and deletions.
pub proof fn lemma_furthest_reaching<A>(old: Seq<A>, new: Seq<A>, ops: Seq<EditOp>)
    requires
        walk(old, new, ops, (0, 0)) is Some,
    ensures
        ({
            let q = walk(old, new, ops, (0, 0))->0;
            &&& diag_ok(cost(ops) as int, q.0 - q.1)
            &&& furthest(old, new, cost(ops), q.0 - q.1) >= q.0
            &&& 0 <= q.0 <= old.len() && 0 <= q.1 <= new.len()
        }),
    decreases ops.len(),
{
    if ops.len() == 0 {
        lemma_snake(old, new, 0, 0);
    } else {
        let pre = ops.drop_last();
        let op = ops.last();
        lemma_walk_push(old, new, ops, (0, 0));
        lemma_furthest_reaching(old, new, pre);
        assert(ops =~= pre + seq![op]);
        lemma_cost_concat(pre, seq![op]);
        lemma_cost_single(op);
        let p = walk(old, new, pre, (0, 0))->0;
        let q = walk(old, new, ops, (0, 0))->0;
        let c = cost(ops);
        let pc = cost(pre);
        let k = q.0 - q.1;
        match op {
            EditOp::Keep => {
                assert(c == pc);
                let f = furthest(old, new, c, k);
                if c == 0 {
                    lemma_snake(old, new, 0, 0);
                } else {
                    lemma_snake(old, new, start_of(old, new, c, k), k);
                }
                assert(f >= q.0 - 1);
                if f == q.0 - 1 {
                    assert(old[p.0] == new[p.1]);
                    assert(false);
                }
            },
            EditOp::Delete => {
                assert(c == pc + 1);
                assert(p.0 - p.1 == k - 1);
                let s = start_of(old, new, c, k);
                lemma_snake(old, new, s, k);
                if k != c {
                    assert(-(c as int) + 2 <= k <= c as int - 2);
                }
                assert(s >= q.0);
            },
            EditOp::Insert => {
                assert(c == pc + 1);
                assert(p.0 - p.1 == k + 1);
                let s = start_of(old, new, c, k);
                lemma_snake(old, new, s, k);
                if k != -c {
                    assert(-(c as int) + 2 <= k <= c as int - 2);
                }
                assert(s >= q.0);
            },
        }
    }
}

/// The script read off by backtracking from a furthest point is a path to
/// that point with exactly d insertions and deletions.
pub proof fn lemma_backtrack_walks<A>(old: Seq<A>, new: Seq<A>, d: nat, x: int, y: int)
    requires
        diag_ok(d as int, x - y),
        x == furthest(old, new, d, x - y),
        0 <= x <= old.len(),
        0 <= y <= new.len(),
    ensures
        walk(old, new, backtrack(old, new, d, x, y), (0, 0)) == Some((x, y)),
        cost(backtrack(old, new, d, x, y)) == d,
    decreases d,
{
    let k = x - y;
    if d == 0 {
        lemma_snake(old, new, 0, 0);
        lemma_walk_keeps(old, new, 0, 0, x);
        lemma_cost_keeps(x);
    } else {
        let s = start_of(old, new, d, k);
        lemma_snake(old, new, s, k);
        lemma_furthest_nonneg(old, new, d, k);
        if goes_down(old, new, d, k) {
            let pk = k + 1;
            let px = furthest(old, new, (d - 1) as nat, pk);
            let py = px - pk;
            lemma_furthest_nonneg(old, new, (d - 1) as nat, pk);
            lemma_backtrack_walks(old, new, (d - 1) as nat, px, py);
            let b = backtrack(old, new, (d - 1) as nat, px, py);
            lemma_walk_concat(old, new, b, seq![EditOp::Insert], (0, 0));
            lemma_walk_single(old, new, EditOp::Insert, (px, py));
            lemma_cost_concat(b, seq![EditOp::Insert]);
            lemma_cost_single(EditOp::Insert);
            lemma_walk_keeps(old, new, px, py + 1, x - px);
            lemma_walk_concat(old, new, b.push(EditOp::Insert), keeps(x - px), (0, 0));
            lemma_cost_concat(b.push(EditOp::Insert), keeps(x - px));
            lemma_cost_keeps(x - px);
            assert(b + seq![EditOp::Insert] =~= b.push(EditOp::Insert));
        } else {
            let pk = k - 1;
            let px = furthest(old, new, (d - 1) as nat, pk);
            let py = px - pk;
            lemma_furthest_nonneg(old, new, (d - 1) as nat, pk);
            lemma_backtrack_walks(old, new, (d - 1) as nat, px, py);
            let b = backtrack(old, new, (d - 1) as nat, px, py);
            lemma_walk_concat(old, new, b, seq![EditOp::Delete], (0, 0));
            lemma_walk_single(old, new, EditOp::Delete, (px, py));
            lemma_cost_concat(b, seq![EditOp::Delete]);
            lemma_cost_single(EditOp::Delete);
            lemma_walk_keeps(old, new, px + 1, py, x - px - 1);
            lemma_walk_concat(old, new, b.push(EditOp::Delete), keeps(x - px - 1), (0, 0));
            lemma_cost_concat(b.push(EditOp::Delete), keeps(x - px - 1));
            lemma_cost_keeps(x - px - 1);
            assert(b + seq![EditOp::Delete] =~= b.push(EditOp::Delete));
        }
    }
}

/// `j` copies of one operation.
pub open spec fn repeat_op(op: EditOp, j: int) -> Seq<EditOp> {
    Seq::new(j as nat, |i: int| op)
}

/// j insertions (or j deletions) in a row walk straight down the new text
/// (or the old one), at a cost of j.
pub proof fn lemma_walk_repeat<A>(old: Seq<A>, new: Seq<A>, op: EditOp, p: (int, int), j: int)
    requires
        j >= 0,
        op != EditOp::Keep,
        0 <= p.0,
        0 <= p.1,
        op == EditOp::Delete ==> p.0 + j <= old.len(),
        op == EditOp::Insert ==> p.1 + j <= new.len(),
    ensures
        walk(old, new, repeat_op(op, j), p) == Some(
            if op == EditOp::Delete {
                (p.0 + j, p.1)
            } else {
                (p.0, p.1 + j)
            },
        ),
        cost(repeat_op(op, j)) == j,
    decreases j,
{
    if j > 0 {
        assert(repeat_op(op, j).drop_first() =~= repeat_op(op, j - 1));
        let q = if op == EditOp::Delete {
            (p.0 + 1, p.1)
        } else {
            (p.0, p.1 + 1)
        };
        lemma_walk_repeat(old, new, op, q, j - 1);
    }
}

/// Deleting every old line and inserting every new one is a script.
pub proof fn lemma_some_script<A>(old: Seq<A>, new: Seq<A>)
    ensures
        has_script_of_cost(old, new, (old.len() + new.len()) as nat),
{
    let n = old.len() as int;
    let m = new.len() as int;
    let ops = repeat_op(EditOp::Delete, n) + repeat_op(EditOp::Insert, m);
    lemma_walk_repeat(old, new, EditOp::Delete, (0, 0), n);
    lemma_walk_repeat(old, new, EditOp::Insert, (n, 0), m);
    lemma_walk_concat(old, new, repeat_op(EditOp::Delete, n), repeat_op(EditOp::Insert, m), (0, 0));
    lemma_cost_concat(repeat_op(EditOp::Delete, n), repeat_op(EditOp::Insert, m));
    assert(is_edit_script(old, new, ops));
}

proof fn lemma_least_cost_exists<A>(old: Seq<A>, new: Seq<A>, c0: nat)
    requires
        has_script_of_cost(old, new, c0),
    ensures
        exists|c: nat| is_least_cost(old, new, c),
    decreases c0,
{
    if exists|ops: Seq<EditOp>| #[trigger] is_edit_script(old, new, ops) && cost(ops) < c0 {
        let ops = choose|ops: Seq<EditOp>| #[trigger] is_edit_script(old, new, ops) && cost(ops) < c0;
        assert(has_script_of_cost(old, new, cost(ops)));
        lemma_least_cost_exists(old, new, cost(ops));
    } else {
        assert(is_least_cost(old, new, c0));
    }
}

/// The edit distance exists, is at most the number of lines, and the
/// search finds the end point on diagonal n - m in the round of that number.
pub proof fn lemma_edit_distance<A>(old: Seq<A>, new: Seq<A>)
    ensures
        is_least_cost(old, new, edit_distance(old, new)),
        edit_distance(old, new) <= old.len() + new.len(),
        diag_ok(edit_distance(old, new) as int, old.len() - new.len()),
        reaches_end(old, new, edit_distance(old, new), old.len() - new.len()),
        furthest(old, new, edit_distance(old, new), old.len() - new.len()) == old.len(),
{
    let n = old.len() as int;
    let m = new.len() as int;
    lemma_some_script(old, new);
    lemma_least_cost_exists(old, new, (n + m) as nat);
    let dd = edit_distance(old, new);
    assert(is_least_cost(old, new, dd));
    let w = choose|ops: Seq<EditOp>| #[trigger] is_edit_script(old, new, ops) && cost(ops) == (n
        + m) as nat;
    assert(dd <= cost(w));
    let best = choose|ops: Seq<EditOp>| #[trigger] is_edit_script(old, new, ops) && cost(ops) == dd;
    lemma_furthest_reaching(old, new, best);
    let x = furthest(old, new, dd, n - m);
    let p = lemma_furthest_sound(old, new, dd, n - m);
    assert(min_int(x, n) == n && min_int(x - (n - m), m) == m);
    assert(is_edit_script(old, new, p));
    assert(dd <= cost(p));
}

/// The first round in which the search reaches the end finds it exactly at
/// (n, m), and that round is the edit distance.
pub proof fn lemma_first_found<A>(old: Seq<A>, new: Seq<A>, d: nat, k: int)
    requires
        diag_ok(d as int, k),
        reaches_end(old, new, d, k),
        forall|d2: nat, k2: int|
            d2 < d && diag_ok(d2 as int, k2) ==> !#[trigger] reaches_end(old, new, d2, k2),
    ensures
        d == edit_distance(old, new),
        k == old.len() - new.len(),
        furthest(old, new, d, k) == old.len(),
{
    let n = old.len() as int;
    let m = new.len() as int;
    lemma_edit_distance(old, new);
    let dd = edit_distance(old, new);
    let x = furthest(old, new, d, k);
    let p = lemma_furthest_sound(old, new, d, k);
    assert(min_int(x, n) == n && min_int(x - k, m) == m);
    assert(is_edit_script(old, new, p));
    assert(dd <= cost(p));
    if dd < d {
        assert(reaches_end(old, new, dd, n - m));
        assert(false);
    }
}

/// Myers' script is a shortest edit script, and its cost is the edit
/// distance.
pub proof fn lemma_myers_script_is_shortest<A>(old: Seq<A>, new: Seq<A>)
    ensures
        is_shortest_edit_script(old, new, myers_script(old, new)),
        cost(myers_script(old, new)) == edit_distance(old, new),
{
    lemma_edit_distance(old, new);
    let n = old.len() as int;
    let m = new.len() as int;
    lemma_backtrack_walks(old, new, edit_distance(old, new), n, m);
}

/// Furthest points lie at most d beyond the end of either text.
pub proof fn lemma_furthest_bound<A>(old: Seq<A>, new: Seq<A>, d: nat, k: int)
    requires
        diag_ok(d as int, k),
    ensures
        0 <= furthest(old, new, d, k) <= old.len() + d,
        0 <= furthest(old, new, d, k) - k <= new.len() + d,
{
    lemma_furthest_nonneg(old, new, d, k);
    let _ = lemma_furthest_sound(old, new, d, k);
}

/// One step back along Myers' script: the previous furthest point, the
/// operation that leaves it, and the snake after that operation.
pub proof fn lemma_backtrack_step<A>(old: Seq<A>, new: Seq<A>, d: nat, x: int, y: int)
    requires
        d > 0,
        diag_ok(d as int, x - y),
        x == furthest(old, new, d, x - y),
        0 <= x <= old.len(),
        0 <= y <= new.len(),
    ensures
        ({
            let k = x - y;
            let down = goes_down(old, new, d, k);
            let pk = if down { k + 1 } else { k - 1 };
            let px = furthest(old, new, (d - 1) as nat, pk);
            let py = px - pk;
            let s = start_of(old, new, d, k);
            &&& diag_ok(d - 1, pk)
            &&& 0 <= px && 0 <= py
            &&& s == (if down { px } else { px + 1 })
            &&& s <= x
            &&& forall|i: int| s <= i < x ==> #[trigger] matches_at(old, new, i, k)
            &&& backtrack(old, new, d, x, y) == backtrack(old, new, (d - 1) as nat, px, py).push(
                if down { EditOp::Insert } else { EditOp::Delete },
            ) + keeps(x - s)
        }),
{
    let k = x - y;
    let s = start_of(old, new, d, k);
    lemma_snake(old, new, s, k);
    if goes_down(old, new, d, k) {
        lemma_furthest_nonneg(old, new, (d - 1) as nat, k + 1);
    } else {
        lemma_furthest_nonneg(old, new, (d - 1) as nat, k - 1);
    }
}

/// Every step of a script moves forward, so a script is no longer than the
/// distance it covers.
pub proof fn lemma_walk_len<A>(old: Seq<A>, new: Seq<A>, ops: Seq<EditOp>, p: (int, int))
    requires
        walk(old, new, ops, p) is Some,
    ensures
        ({
            let q = walk(old, new, ops, p)->0;
            ops.len() <= (q.0 - p.0) + (q.1 - p.1) && q.0 >= p.0 && q.1 >= p.1
        }),
    decreases ops.len(),
{
    if ops.len() > 0 {
        let q = step(old, new, ops[0], p)->0;
        lemma_walk_len(old, new, ops.drop_first(), q);
    }
}

} // verus!
