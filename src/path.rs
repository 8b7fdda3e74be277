//! Styled paths and the reordering of their edges into contiguous runs.
use crate::geom::{Line, Point};
use vstd::prelude::*;
use vstd::set_lib::*;

verus! {

/// A style together with the edges drawn in it.
#[derive(Debug)]
pub struct StyledPath<S> {
    pub style: S,
    pub path: Vec<Line>,
}

/// The smallest index `j >= lo` of an edge that is not used yet and starts at
/// `p`, or the length of the path if there is none.
pub open spec fn first_continuation(path: Seq<Line>, used: Seq<bool>, p: Point, lo: int) -> int
    decreases path.len() - lo,
{
    if lo >= path.len() || lo < 0 {
        path.len() as int
    } else if !used[lo] && path[lo].from == p {
        lo
    } else {
        first_continuation(path, used, p, lo + 1)
    }
}

/// The smallest index `j >= lo` that is not used yet, or the length if none.
pub open spec fn first_unused(used: Seq<bool>, lo: int) -> int
    decreases used.len() - lo,
{
    if lo >= used.len() || lo < 0 {
        used.len() as int
    } else if !used[lo] {
        lo
    } else {
        first_unused(used, lo + 1)
    }
}

/// The edge drawn after edge `cur`: an unused edge starting where `cur` ends,
/// preferring the first such edge after `cur` in the input order; when no
/// unused edge continues, the first unused edge starts a new subpath.
pub open spec fn next_edge(path: Seq<Line>, used: Seq<bool>, cur: int) -> int {
    let p = path[cur].to;
    let above = first_continuation(path, used, p, cur + 1);
    let any = first_continuation(path, used, p, 0);
    if above < path.len() {
        above
    } else if any < path.len() {
        any
    } else {
        first_unused(used, 0)
    }
}

/// Which of `n` indices occur in `order`.
pub open spec fn used_by(order: Seq<int>, n: nat) -> Seq<bool> {
    Seq::new(n, |j: int| order.contains(j))
}

/// The first `k` input indices, in the order in which the untangled path
/// visits them.
pub open spec fn untangle_order(path: Seq<Line>, k: nat) -> Seq<int>
    decreases k,
{
    if k == 0 {
        seq![]
    } else if k == 1 {
        seq![0int]
    } else {
        let prev = untangle_order(path, (k - 1) as nat);
        prev.push(next_edge(path, used_by(prev, path.len()), prev.last()))
    }
}

/// The edges of `path` rearranged so that contiguous runs are kept together.
pub open spec fn untangled(path: Seq<Line>) -> Seq<Line> {
    let order = untangle_order(path, path.len());
    Seq::new(path.len(), |k: int| path[order[k]])
}

proof fn lemma_first_continuation(path: Seq<Line>, used: Seq<bool>, p: Point, lo: int)
    requires
        0 <= lo,
        used.len() == path.len(),
    ensures
        ({
            let r = first_continuation(path, used, p, lo);
            &&& lo <= r || r == path.len()
            &&& r <= path.len()
            &&& r < path.len() ==> !used[r] && path[r].from == p && lo <= r
            &&& forall|j: int| lo <= j < r ==> !(!used[j] && path[j].from == p)
        }),
    decreases path.len() - lo,
{
    if lo < path.len() {
        lemma_first_continuation(path, used, p, lo + 1);
    }
}

proof fn lemma_first_unused(used: Seq<bool>, lo: int)
    requires
        0 <= lo,
    ensures
        ({
            let r = first_unused(used, lo);
            &&& r <= used.len()
            &&& r < used.len() ==> !used[r] && lo <= r
            &&& forall|j: int| lo <= j < r ==> used[j]
        }),
    decreases used.len() - lo,
{
    if lo < used.len() {
        lemma_first_unused(used, lo + 1);
    }
}

/// Fewer than `n` distinct indices below `n` leave one of them out.
proof fn lemma_some_unused(order: Seq<int>, n: nat)
    requires
        order.no_duplicates(),
        order.len() < n,
        forall|k: int| 0 <= k < order.len() ==> 0 <= #[trigger] order[k] < n,
    ensures
        first_unused(used_by(order, n), 0) < n,
{
    let used = used_by(order, n);
    lemma_first_unused(used, 0);
    if first_unused(used, 0) >= n {
        assert(set_int_range(0, n as int).subset_of(order.to_set())) by {
            assert forall|j: int| set_int_range(0, n as int).contains(j) implies order.to_set().contains(j) by {
                assert(used[j]);
            }
        }
        order.unique_seq_to_set();
        lemma_int_range(0, n as int);
        assert(order.to_set().finite());
        lemma_len_subset(set_int_range(0, n as int), order.to_set());
    }
}

/// The next edge is an index that was not visited yet.
proof fn lemma_next_edge(path: Seq<Line>, order: Seq<int>)
    requires
        order.no_duplicates(),
        0 < order.len() < path.len(),
        forall|k: int| 0 <= k < order.len() ==> 0 <= #[trigger] order[k] < path.len(),
    ensures
        ({
            let r = next_edge(path, used_by(order, path.len()), order.last());
            &&& 0 <= r < path.len()
            &&& !order.contains(r)
        }),
{
    let used = used_by(order, path.len());
    let p = path[order.last()].to;
    lemma_first_continuation(path, used, p, order.last() + 1);
    lemma_first_continuation(path, used, p, 0);
    lemma_some_unused(order, path.len());
    lemma_first_unused(used, 0);
}

/// The visiting order is a sequence of distinct indices, and shorter
/// prefixes of the process are prefixes of longer ones.
pub proof fn lemma_untangle_order(path: Seq<Line>, k: nat)
    requires
        k <= path.len(),
    ensures
        untangle_order(path, k).len() == k,
        untangle_order(path, k).no_duplicates(),
        forall|i: int| 0 <= i < k ==> 0 <= #[trigger] untangle_order(path, k)[i] < path.len(),
        k >= 1 ==> untangle_order(path, k)[0] == 0,
        forall|j: nat| j <= k ==> #[trigger] untangle_order(path, j) == untangle_order(path, k).subrange(0, j as int),
    decreases k,
{
    let o = untangle_order(path, k);
    if k == 0 {
        assert(forall|j: nat| j <= k ==> untangle_order(path, j) == o.subrange(0, j as int)) by {
            assert forall|j: nat| j <= k implies #[trigger] untangle_order(path, j) == o.subrange(0, j as int) by {
                assert(o.subrange(0, 0) =~= seq![]);
            }
        }
    } else if k == 1 {
        assert forall|j: nat| j <= k implies #[trigger] untangle_order(path, j) == o.subrange(0, j as int) by {
            if j == 0 {
                assert(o.subrange(0, 0) =~= seq![]);
            } else {
                assert(o.subrange(0, 1) =~= o);
            }
        }
    } else {
        let prev = untangle_order(path, (k - 1) as nat);
        lemma_untangle_order(path, (k - 1) as nat);
        lemma_next_edge(path, prev);
        assert forall|j: nat| j <= k implies #[trigger] untangle_order(path, j) == o.subrange(0, j as int) by {
            if j == k {
                assert(o.subrange(0, j as int) =~= o);
            } else {
                assert(untangle_order(path, j) == prev.subrange(0, j as int));
                assert(o.subrange(0, j as int) =~= prev.subrange(0, j as int));
            }
        }
    }
}


/// An edge of an untangled path that does not start where the previous edge
/// ends starts a new subpath, and that happens exactly when no edge later in
/// the path starts at that end point: every break in contiguity is a jump to
/// a part of the path that the walk could not reach.
pub proof fn lemma_untangled_contiguity(path: Seq<Line>)
    ensures
        forall|k: int|
            0 <= k < path.len() - 1 ==> (#[trigger] untangled(path)[k].to != untangled(path)[k
                + 1].from <==> forall|m: int|
                k < m < path.len() ==> untangled(path)[m].from != untangled(path)[k].to),
{
    let n = path.len();
    let o = untangle_order(path, n);
    let u = untangled(path);
    lemma_untangle_order(path, n);
    assert forall|k: int|
        0 <= k < n - 1 implies (#[trigger] u[k].to != u[k + 1].from <==> forall|m: int|
        k < m < n ==> u[m].from != u[k].to) by {
        let prev = untangle_order(path, (k + 1) as nat);
        let used = used_by(prev, n);
        let p = path[o[k]].to;
        assert(untangle_order(path, (k + 2) as nat) == o.subrange(0, k + 2));
        assert(prev == o.subrange(0, k + 1));
        assert(prev.last() == o[k]);
        assert(o[k + 1] == next_edge(path, used, o[k]));
        lemma_first_continuation(path, used, p, o[k] + 1);
        lemma_first_continuation(path, used, p, 0);
        if u[k].to != u[k + 1].from {
            assert forall|m: int| k < m < n implies u[m].from != u[k].to by {
                assert(!prev.contains(o[m])) by {
                    if prev.contains(o[m]) {
                        let t = choose|t: int| 0 <= t < prev.len() && prev[t] == o[m];
                        assert(o[t] == o[m]);
                    }
                }
                assert(!used[o[m]]);
            }
        } else {
            assert(!(forall|m: int| k < m < n ==> u[m].from != u[k].to)) by {
                assert(u[k + 1].from == u[k].to);
            }
        }
    }
}

fn find_continuation(path: &Vec<Line>, used: &Vec<bool>, p: Point, lo: usize) -> (r: usize)
    requires
        used.len() == path.len(),
        lo <= path.len(),
    ensures
        r == first_continuation(path@, used@, p, lo as int),
{
    let mut j = lo;
    while j < path.len()
        invariant
            lo <= j <= path.len(),
            used.len() == path.len(),
            first_continuation(path@, used@, p, lo as int) == first_continuation(
                path@,
                used@,
                p,
                j as int,
            ),
        decreases path.len() - j,
    {
        if !used[j] && path[j].from == p {
            return j;
        }
        j += 1;
    }
    j
}

fn find_unused(used: &Vec<bool>) -> (r: usize)
    ensures
        r == first_unused(used@, 0),
{
    let mut j: usize = 0;
    while j < used.len()
        invariant
            j <= used.len(),
            first_unused(used@, 0) == first_unused(used@, j as int),
        decreases used.len() - j,
    {
        if !used[j] {
            return j;
        }
        j += 1;
    }
    j
}

/// A command of SVG path data.
#[derive(Copy, Clone, Debug, PartialEq, Eq, Structural)]
pub enum PathCommand {
    MoveTo(Point),
    LineTo(Point),
    /// Control point, then end point.
    QuadraticTo(Point, Point),
    Close,
}

pub open spec fn segment(l: Line) -> PathCommand {
    match l.bezier_control {
        Some(c) => PathCommand::QuadraticTo(c, l.to),
        None => PathCommand::LineTo(l.to),
    }
}

/// The commands that draw `path`: a move to the start of the first edge and
/// to the start of every edge that does not begin where the previous one
/// ended, and a line or curve for each edge.
pub open spec fn commands(path: Seq<Line>) -> Seq<PathCommand>
    decreases path.len(),
{
    if path.len() == 0 {
        seq![]
    } else {
        let prev = path.drop_last();
        let l = path.last();
        let moves = if prev.len() == 0 || prev.last().to != l.from {
            seq![PathCommand::MoveTo(l.from)]
        } else {
            seq![]
        };
        commands(prev) + moves + seq![segment(l)]
    }
}

/// A path that ends where it starts.
pub open spec fn closes(path: Seq<Line>) -> bool {
    path.len() > 0 && path[0].from == path.last().to
}

/// The commands that draw `path`, closed when `close` is asked for and the
/// path ends where it starts. Closing a single chain whose last edge is
/// straight leaves that edge to the close command.
pub open spec fn drawn(path: Seq<Line>, close: bool) -> Seq<PathCommand> {
    if close && closes(path) {
        if is_chain(path) && path.last().bezier_control is None {
            commands(path).drop_last() + seq![PathCommand::Close]
        } else {
            commands(path) + seq![PathCommand::Close]
        }
    } else {
        commands(path)
    }
}

/// The path data of `path` (see `drawn`); `None` for an empty path.
pub fn path_data(path: &Vec<Line>, close: bool) -> (r: Option<Vec<PathCommand>>)
    ensures
        r is None <==> path@.len() == 0,
        r matches Some(cmds) ==> cmds@ == drawn(path@, close),
{
    if path.len() == 0 {
        return None;
    }
    let start = path[0].from;
    let mut data: Vec<PathCommand> = Vec::new();
    let mut pos = start;
    let mut chain = true;
    let mut i: usize = 0;
    proof {
        assert(path@.subrange(0, 0) =~= Seq::<Line>::empty());
    }
    while i < path.len()
        invariant
            i <= path@.len(),
            path@.len() > 0,
            start == path@[0].from,
            data@ == commands(path@.subrange(0, i as int)),
            chain == is_chain(path@.subrange(0, i as int)),
            i > 0 ==> pos == path@[i - 1].to,
            i == 0 ==> pos == start,
        decreases path@.len() - i,
    {
        let line = path[i];
        let ghost before = data@;
        proof {
            assert(path@.subrange(0, i + 1).drop_last() =~= path@.subrange(0, i as int));
            assert(path@.subrange(0, i + 1).last() == line);
            if i > 0 {
                assert(path@.subrange(0, i as int).last() == path@[i - 1]);
            }
        }
        proof {
            let t = path@.subrange(0, i + 1);
            let u = path@.subrange(0, i as int);
            if is_chain(t) {
                assert forall|k: int| 0 <= k < u.len() - 1 implies (#[trigger] u[k]).to == u[k + 1].from by {
                    assert(t[k] == u[k] && t[k + 1] == u[k + 1]);
                }
                if i > 0 {
                    assert(t[i - 1].to == t[i as int].from);
                }
            }
            if is_chain(u) && (i == 0 || pos == line.from) {
                assert forall|k: int| 0 <= k < t.len() - 1 implies (#[trigger] t[k]).to == t[k + 1].from by {
                    if k < i - 1 {
                        assert(t[k] == u[k] && t[k + 1] == u[k + 1]);
                    }
                }
            }
        }
        if i == 0 || line.from != pos {
            data.push(PathCommand::MoveTo(line.from));
            if i > 0 {
                chain = false;
            }
        }
        match line.bezier_control {
            Some(c) => data.push(PathCommand::QuadraticTo(c, line.to)),
            None => data.push(PathCommand::LineTo(line.to)),
        }
        proof {
            let moves = if i == 0 || path@[i - 1].to != line.from {
                seq![PathCommand::MoveTo(line.from)]
            } else {
                seq![]
            };
            assert(data@ =~= before + moves + seq![segment(line)]);
        }
        pos = line.to;
        i += 1;
    }
    proof {
        assert(path@.subrange(0, i as int) =~= path@);
    }
    let last = path[path.len() - 1];
    if close && start == pos {
        if chain && last.bezier_control.is_none() {
            proof {
                assert(data@.len() > 0);
            }
            data.pop();
        }
        data.push(PathCommand::Close);
    }
    proof {
        if close && closes(path@) {
            if is_chain(path@) && path@.last().bezier_control is None {
                assert(data@ =~= commands(path@).drop_last() + seq![PathCommand::Close]);
            } else {
                assert(data@ =~= commands(path@) + seq![PathCommand::Close]);
            }
        }
    }
    Some(data)
}

/// Each edge starts where the previous one ends.
pub open spec fn is_chain(path: Seq<Line>) -> bool {
    forall|i: int| 0 <= i < path.len() - 1 ==> (#[trigger] path[i]).to == path[i + 1].from
}

proof fn lemma_chain_order(path: Seq<Line>, k: nat)
    requires
        is_chain(path),
        k <= path.len(),
    ensures
        untangle_order(path, k) == Seq::new(k, |i: int| i),
    decreases k,
{
    if k == 1 {
        assert(untangle_order(path, 1) =~= Seq::new(1, |i: int| i));
    } else if k > 1 {
        lemma_chain_order(path, (k - 1) as nat);
        let prev = untangle_order(path, (k - 1) as nat);
        let used = used_by(prev, path.len());
        let cur = k - 2;
        assert(prev.last() == cur);
        assert(!used[k - 1]) by {
            if prev.contains(k - 1) {
                let t = choose|t: int| 0 <= t < prev.len() && prev[t] == k - 1;
            }
        }
        assert(path[cur].to == path[k - 1].from);
        assert(first_continuation(path, used, path[cur].to, cur + 1) == k - 1);
        assert(untangle_order(path, k) =~= Seq::new(k, |i: int| i));
    }
}

/// A path whose edges already form one chain is left as it is.
pub proof fn lemma_untangled_chain(path: Seq<Line>)
    requires
        is_chain(path),
    ensures
        untangled(path) == path,
{
    lemma_chain_order(path, path.len());
    assert(untangled(path) =~= path);
}

impl<S> StyledPath<S> {
    pub fn new(style: S) -> (r: Self)
        ensures
            r.style == style,
            r.path@ == Seq::<Line>::empty(),
    {
        StyledPath { style, path: Vec::new() }
    }

    /// Reorders the edges so that each edge is followed, where possible, by
    /// one that starts where it ends (see `untangled`).
    pub fn untangle_path(&mut self)
        ensures
            final(self).path@ == untangled(old(self).path@),
            final(self).style == old(self).style,
    {
        let n = self.path.len();
        if n == 0 {
            proof {
                assert(untangled(self.path@) =~= Seq::<Line>::empty());
            }
            return;
        }
        let ghost path = self.path@;
        let mut used: Vec<bool> = vec![false; n];
        let mut new_path: Vec<Line> = Vec::with_capacity(n);
        let mut i: usize = 0;
        let mut k: usize = 0;
        proof {
            assert(used@ =~= used_by(untangle_order(path, 0), n as nat));
        }
        loop
            invariant_except_break
                k < n,
                i < n,
                untangle_order(path, (k + 1) as nat)[k as int] == i,
            invariant
                n == path.len(),
                self.path@ == path,
                0 < n,
                k == new_path.len(),
                k <= n,
                used.len() == n,
                used@ == used_by(untangle_order(path, k as nat), n as nat),
                forall|m: int|
                    0 <= m < k ==> new_path[m] == path[#[trigger] untangle_order(path, k as nat)[m]],
            ensures
                k == n,
            decreases n - k,
        {
            proof {
                lemma_untangle_order(path, (k + 1) as nat);
            }
            let ghost before = untangle_order(path, k as nat);
            let ghost after = untangle_order(path, (k + 1) as nat);
            proof {
                assert(before == after.subrange(0, k as int));
                assert(after =~= before.push(i as int));
                assert(used@.update(i as int, true) =~= used_by(after, n as nat)) by {
                    assert forall|j: int| 0 <= j < n implies #[trigger] used@.update(
                        i as int,
                        true,
                    )[j] == after.contains(j) by {
                        if j == i {
                            assert(after[k as int] == j);
                        } else if before.contains(j) {
                            let t = choose|t: int| 0 <= t < before.len() && before[t] == j;
                            assert(after[t] == j);
                        } else if after.contains(j) {
                            let t = choose|t: int| 0 <= t < after.len() && after[t] == j;
                            if t < k {
                                assert(before[t] == j);
                            }
                        }
                    }
                }
            }
            used.set(i, true);
            let line = self.path[i];
            new_path.push(line);
            k += 1;
            proof {
                assert forall|m: int|
                    0 <= m < k implies new_path[m] == path[#[trigger] after[m]] by {
                    if m < k - 1 {
                        assert(after[m] == before[m]);
                    }
                }
            }
            if k == n {
                break;
            }
            proof {
                lemma_untangle_order(path, (k + 1) as nat);
                lemma_next_edge(path, after);
                assert(after.last() == i);
            }
            let p = line.to;
            let above = find_continuation(&self.path, &used, p, i + 1);
            let next = if above < n {
                above
            } else {
                let any = find_continuation(&self.path, &used, p, 0);
                if any < n {
                    any
                } else {
                    find_unused(&used)
                }
            };
            proof {
                let longer = untangle_order(path, (k + 1) as nat);
                assert(longer == after.push(next_edge(path, used_by(after, n as nat), after.last())));
            }
            i = next;
        }
        proof {
            assert(new_path@ =~= untangled(path));
        }
        self.path = new_path;
    }
}

} // verus!
