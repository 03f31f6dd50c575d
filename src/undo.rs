use vstd::prelude::*;
use crate::organize::{moves_view, FileMove, OperationLog, UndoResult};
use crate::text::push_str;

verus! {

/// What became of one attempt to put a moved file back.
#[derive(Debug)]
pub enum RestoreOutcome {
    /// The file is no longer at the move's destination.
    Missing,
    /// The directory of the original path could not be made.
    ParentFailed(String),
    /// Moving the file back failed.
    RenameFailed(String),
    /// The file is back at its original path.
    Restored,
}

/// The error text for a move whose file is gone.
pub open spec fn missing_error(to: Seq<char>) -> Seq<char> {
    "Missing file for rollback: "@ + to
}

/// The moves of a log in the order in which undo restores them: the last move first.
pub fn undo_order(log: &OperationLog) -> (r: Vec<FileMove>)
    ensures
        r@ == log.moved@.reverse(),
{
    let mut r: Vec<FileMove> = Vec::new();
    let n = log.moved.len();
    let mut i: usize = n;
    while i > 0
        invariant
            i <= n == log.moved@.len(),
            r@ == log.moved@.subrange(i as int, n as int).reverse(),
        decreases i,
    {
        r.push(log.moved[i - 1].snapshot());
        assert(r@ =~= log.moved@.subrange(i - 1, n as int).reverse());
        i = i - 1;
    }
    assert(log.moved@.subrange(0, n as int) =~= log.moved@);
    r
}

impl UndoResult {
    /// An undo that has restored nothing yet.
    pub fn new() -> (r: UndoResult)
        ensures
            r.restored@.len() == 0,
            r.errors@.len() == 0,
    {
        UndoResult { restored: Vec::new(), errors: Vec::new() }
    }

    /// Records what became of putting back the file of move `m`, at time `now`. A restore
    /// is recorded as the move from `m`'s destination back to its source; each failure
    /// adds one error and leaves the restored list as it was.
    pub fn record_restore(&mut self, m: &FileMove, outcome: RestoreOutcome, now: u64)
        ensures
            match outcome {
                RestoreOutcome::Restored => {
                    &&& moves_view(final(self).restored@) == moves_view(old(self).restored@).push(
                        (m.to@, m.from@, now),
                    )
                    &&& final(self).errors.deep_view() == old(self).errors.deep_view()
                },
                RestoreOutcome::Missing => {
                    &&& final(self).restored@ == old(self).restored@
                    &&& final(self).errors.deep_view() == old(self).errors.deep_view().push(
                        missing_error(m.to@),
                    )
                },
                RestoreOutcome::ParentFailed(e) => {
                    &&& final(self).restored@ == old(self).restored@
                    &&& final(self).errors.deep_view() == old(self).errors.deep_view().push(e@)
                },
                RestoreOutcome::RenameFailed(e) => {
                    &&& final(self).restored@ == old(self).restored@
                    &&& final(self).errors.deep_view() == old(self).errors.deep_view().push(
                        m.to@ + " -> "@ + m.from@ + ": "@ + e@,
                    )
                },
            },
    {
        let ghost before = self.errors.deep_view();
        match outcome {
            RestoreOutcome::Restored => {
                let back = FileMove { from: m.to.clone(), to: m.from.clone(), timestamp: now };
                self.restored.push(back);
                assert(moves_view(self.restored@) =~= moves_view(old(self).restored@).push(
                    (m.to@, m.from@, now),
                ));
            },
            RestoreOutcome::Missing => {
                let mut msg = String::from_str("Missing file for rollback: ");
                push_str(&mut msg, m.to.as_str());
                self.errors.push(msg);
                assert(self.errors.deep_view() =~= before.push(msg@));
            },
            RestoreOutcome::ParentFailed(e) => {
                self.errors.push(e);
                assert(self.errors.deep_view() =~= before.push(e@));
            },
            RestoreOutcome::RenameFailed(e) => {
                let mut msg = m.to.clone();
                push_str(&mut msg, " -> ");
                push_str(&mut msg, m.from.as_str());
                push_str(&mut msg, ": ");
                push_str(&mut msg, e.as_str());
                self.errors.push(msg);
                assert(self.errors.deep_view() =~= before.push(msg@));
            },
        }
    }
}

/// The log left behind by an undo: no moves, stamped `now`.
pub fn cleared_log(now: u64) -> (r: OperationLog)
    ensures
        r.moved@.len() == 0,
        r.created_at == now,
{
    OperationLog { moved: Vec::new(), created_at: now }
}

/// The files of a tree: each path that exists, with the identity of its content.
pub type Tree = Map<Seq<char>, nat>;

/// The tree after moving the file at `from` to `to` (replacing what was there).
pub open spec fn apply_move(t: Tree, from: Seq<char>, to: Seq<char>) -> Tree {
    t.remove(from).insert(to, t[from])
}

/// The tree after putting the file at `to` back at `from`; where `to` holds nothing
/// the tree stays as it is.
pub open spec fn undo_move(t: Tree, from: Seq<char>, to: Seq<char>) -> Tree {
    if t.contains_key(to) {
        t.remove(to).insert(from, t[to])
    } else {
        t
    }
}

/// The tree after the moves `ms`, in order.
pub open spec fn apply_moves(t: Tree, ms: Seq<(Seq<char>, Seq<char>, u64)>) -> Tree
    decreases ms.len(),
{
    if ms.len() == 0 {
        t
    } else {
        apply_move(apply_moves(t, ms.drop_last()), ms.last().0, ms.last().1)
    }
}

/// The tree after undoing the moves of `order`, in that order.
pub open spec fn undo_moves(t: Tree, order: Seq<(Seq<char>, Seq<char>, u64)>) -> Tree
    decreases order.len(),
{
    if order.len() == 0 {
        t
    } else {
        undo_moves(undo_move(t, order[0].0, order[0].1), order.drop_first())
    }
}

/// Whether each of the moves `ms`, done in order from `t`, finds its source present and
/// has a destination other than its source.
pub open spec fn sources_present(t: Tree, ms: Seq<(Seq<char>, Seq<char>, u64)>) -> bool
    decreases ms.len(),
{
    if ms.len() == 0 {
        true
    } else {
        &&& sources_present(t, ms.drop_last())
        &&& apply_moves(t, ms.drop_last()).contains_key(ms.last().0)
        &&& ms.last().0 != ms.last().1
    }
}

/// Whether no two of the moves `ms` share a destination.
pub open spec fn distinct_destinations(ms: Seq<(Seq<char>, Seq<char>, u64)>) -> bool {
    forall|i: int, j: int| 0 <= i < j < ms.len() ==> ms[i].1 != ms[j].1
}

/// The destinations of `ms` that held a file when their move replaced it.
pub open spec fn overwritten(t: Tree, ms: Seq<(Seq<char>, Seq<char>, u64)>) -> Set<Seq<char>>
    decreases ms.len(),
{
    if ms.len() == 0 {
        Set::empty()
    } else {
        let o = overwritten(t, ms.drop_last());
        if apply_moves(t, ms.drop_last()).contains_key(ms.last().1) {
            o.insert(ms.last().1)
        } else {
            o
        }
    }
}

/// Undoing a log restores the tree: where every move of a pass found its source present
/// and no two moves shared a destination, undoing the pass's moves in the order of
/// `undo_order` gives back the tree before the pass, less the files that a move
/// replaced. Each file is back at its source, and every other path is as it was; where no
/// move replaced a file, the tree is exactly the one before the pass.
pub proof fn lemma_undo_restores(t: Tree, log: OperationLog)
    requires
        sources_present(t, moves_view(log.moved@)),
        distinct_destinations(moves_view(log.moved@)),
    ensures
        undo_moves(apply_moves(t, moves_view(log.moved@)), moves_view(log.moved@.reverse()))
            == t.remove_keys(overwritten(t, moves_view(log.moved@))),
        overwritten(t, moves_view(log.moved@)).is_empty() ==> undo_moves(
            apply_moves(t, moves_view(log.moved@)),
            moves_view(log.moved@.reverse()),
        ) == t,
{
    let ms = moves_view(log.moved@);
    assert(moves_view(log.moved@.reverse()) =~= ms.reverse());
    lemma_undo_restores_seq(t, ms);
    if overwritten(t, ms).is_empty() {
        assert(t.remove_keys(overwritten(t, ms)) =~= t);
    }
}

/// A source stays empty once left, unless a later move puts a file there.
proof fn lemma_left_source_empty(t: Tree, ms: Seq<(Seq<char>, Seq<char>, u64)>, j: int)
    requires
        0 <= j < ms.len(),
        ms[j].0 != ms[j].1,
        forall|k: int| j < k < ms.len() ==> ms[k].1 != ms[j].0,
    ensures
        !apply_moves(t, ms).contains_key(ms[j].0),
    decreases ms.len(),
{
    if j < ms.len() - 1 {
        let init = ms.drop_last();
        assert(init[j] == ms[j]);
        assert forall|k: int| j < k < init.len() implies init[k].1 != init[j].0 by {
            assert(init[k] == ms[k]);
        }
        lemma_left_source_empty(t, init, j);
    }
}

/// Undoing moves commutes with dropping a path that none of them touches.
proof fn lemma_undo_frame(x: Tree, p: Seq<char>, order: Seq<(Seq<char>, Seq<char>, u64)>)
    requires
        forall|k: int| 0 <= k < order.len() ==> order[k].0 != p && order[k].1 != p,
    ensures
        undo_moves(x.remove(p), order) == undo_moves(x, order).remove(p),
    decreases order.len(),
{
    if order.len() > 0 {
        let (f, d) = (order[0].0, order[0].1);
        assert(undo_move(x.remove(p), f, d) =~= undo_move(x, f, d).remove(p));
        assert forall|k: int| 0 <= k < order.drop_first().len() implies order.drop_first()[k].0
            != p && order.drop_first()[k].1 != p by {
            assert(order.drop_first()[k] == order[k + 1]);
        }
        lemma_undo_frame(undo_move(x, f, d), p, order.drop_first());
    }
}

proof fn lemma_undo_restores_seq(t: Tree, ms: Seq<(Seq<char>, Seq<char>, u64)>)
    requires
        sources_present(t, ms),
        distinct_destinations(ms),
    ensures
        undo_moves(apply_moves(t, ms), ms.reverse()) == t.remove_keys(overwritten(t, ms)),
    decreases ms.len(),
{
    if ms.len() == 0 {
        assert(ms.reverse().len() == 0);
        assert(t.remove_keys(Set::empty()) =~= t);
    } else {
        let init = ms.drop_last();
        let l = ms.last();
        let before = apply_moves(t, init);
        assert forall|i: int, j: int| 0 <= i < j < init.len() implies init[i].1 != init[j].1 by {
            assert(init[i] == ms[i] && init[j] == ms[j]);
        }
        lemma_undo_restores_seq(t, init);
        assert(ms.reverse()[0] == l);
        assert(ms.reverse().drop_first() =~= init.reverse());
        let after = apply_move(before, l.0, l.1);
        assert(after.contains_key(l.1));
        if before.contains_key(l.1) {
            assert(undo_move(after, l.0, l.1) =~= before.remove(l.1));
            assert forall|k: int| 0 <= k < init.reverse().len() implies init.reverse()[k].0 != l.1
                && init.reverse()[k].1 != l.1 by {
                let j = init.len() - 1 - k;
                assert(init.reverse()[k] == init[j]);
                assert(init[j] == ms[j]);
                if init[j].0 == l.1 {
                    assert forall|m: int| j < m < init.len() implies init[m].1 != init[j].0 by {
                        assert(init[m] == ms[m]);
                    }
                    lemma_source_moved_on(t, init, j);
                    lemma_left_source_empty(t, init, j);
                }
            }
            lemma_undo_frame(before, l.1, init.reverse());
            assert(t.remove_keys(overwritten(t, init)).remove(l.1) =~= t.remove_keys(
                overwritten(t, ms),
            ));
        } else {
            assert(undo_move(after, l.0, l.1) =~= before);
        }
    }
}

/// Each move's source differs from its destination.
proof fn lemma_source_moved_on(t: Tree, ms: Seq<(Seq<char>, Seq<char>, u64)>, j: int)
    requires
        sources_present(t, ms),
        0 <= j < ms.len(),
    ensures
        ms[j].0 != ms[j].1,
    decreases ms.len(),
{
    if j < ms.len() - 1 {
        lemma_source_moved_on(t, ms.drop_last(), j);
        assert(ms.drop_last()[j] == ms[j]);
    }
}

/// Undo passes over a move whose file is gone: the tree stays as it is, so the moves
/// after it in the undo order act as they would without it.
pub proof fn lemma_missing_is_passed_over(
    t: Tree,
    m: (Seq<char>, Seq<char>, u64),
    rest: Seq<(Seq<char>, Seq<char>, u64)>,
)
    requires
        !t.contains_key(m.1),
    ensures
        undo_moves(t, seq![m] + rest) == undo_moves(t, rest),
{
    assert((seq![m] + rest).drop_first() =~= rest);
}

/// Undoing two runs of moves one after the other is undoing them joined.
pub proof fn lemma_undo_concat(
    t: Tree,
    a: Seq<(Seq<char>, Seq<char>, u64)>,
    b: Seq<(Seq<char>, Seq<char>, u64)>,
)
    ensures
        undo_moves(t, a + b) == undo_moves(undo_moves(t, a), b),
    decreases a.len(),
{
    if a.len() > 0 {
        assert((a + b)[0] == a[0]);
        assert((a + b).drop_first() =~= a.drop_first() + b);
        lemma_undo_concat(undo_move(t, a[0].0, a[0].1), a.drop_first(), b);
    } else {
        assert(a + b =~= b);
    }
}

/// Undo passes over a move whose file is gone wherever it stands in the undo order: when
/// the file of `m` is missing once the moves `pre` before it are undone, the whole undo
/// ends in the tree that undoing the other moves alone gives.
pub proof fn lemma_missing_anywhere(
    t: Tree,
    pre: Seq<(Seq<char>, Seq<char>, u64)>,
    m: (Seq<char>, Seq<char>, u64),
    rest: Seq<(Seq<char>, Seq<char>, u64)>,
)
    requires
        !undo_moves(t, pre).contains_key(m.1),
    ensures
        undo_moves(t, pre + seq![m] + rest) == undo_moves(t, pre + rest),
{
    assert(pre + seq![m] + rest =~= pre + (seq![m] + rest));
    lemma_undo_concat(t, pre, seq![m] + rest);
    lemma_missing_is_passed_over(undo_moves(t, pre), m, rest);
    lemma_undo_concat(t, pre, rest);
}

} // verus!
