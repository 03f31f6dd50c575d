use vstd::prelude::*;
use crate::classify::has_prefix;
use crate::paths::{join, join_all, join_path, LOG_DIR};
use crate::resolve::{resolve_duplicate_target, resolve_target, DuplicateHandling};
use crate::rule::{
    near_month, needs_date, segments_for, target_segment, timestamp_of, FileEntry, OrganizeRule,
    MAX_MILLIS,
};
use crate::text::{push_char, push_str, str_eq, str_starts_with};

verus! {

/// One relocation of a file, planned or done.
#[derive(Clone, Debug)]
pub struct FileMove {
    pub from: String,
    pub to: String,
    pub timestamp: u64,
}

/// The source, destination and time of a move.
pub open spec fn move_view(m: FileMove) -> (Seq<char>, Seq<char>, u64) {
    (m.from@, m.to@, m.timestamp)
}

pub open spec fn moves_view(ms: Seq<FileMove>) -> Seq<(Seq<char>, Seq<char>, u64)> {
    ms.map_values(|m: FileMove| move_view(m))
}

impl FileMove {
    /// A field-for-field copy.
    pub fn snapshot(&self) -> (r: FileMove)
        ensures
            r == *self,
    {
        FileMove { from: self.from.clone(), to: self.to.clone(), timestamp: self.timestamp }
    }
}

/// What one organising pass did, or would do in a dry run.
#[derive(Clone, Debug)]
pub struct OrganizeResult {
    pub moved: Vec<FileMove>,
    pub skipped: Vec<FileEntry>,
    pub errors: Vec<String>,
    pub is_dry_run: bool,
}

/// The moves of the last real pass, which undo reverses.
#[derive(Clone, Debug)]
pub struct OperationLog {
    pub moved: Vec<FileMove>,
    pub created_at: u64,
}

/// What an undo restored, and what it could not.
#[derive(Clone, Debug)]
pub struct UndoResult {
    pub restored: Vec<FileMove>,
    pub errors: Vec<String>,
}

/// What the caller is to do after one file has been considered.
#[derive(Debug)]
pub enum Step {
    /// Nothing: the file was ignored, skipped, failed to plan, or (in a dry run) recorded.
    Done,
    /// Move the file at `from` to `to`, then report the outcome with `record_move`.
    Move { from: String, to: String },
}

/// Whether `path` lies inside the log's own directory under `root`.
pub open spec fn is_bookkeeping(root: Seq<char>, path: Seq<char>) -> bool {
    has_prefix(path, join(root, LOG_DIR@) + seq!['/'])
}

/// Whether `path` lies inside the log's own directory under `root_path`.
pub fn in_log_dir(root_path: &str, path: &str) -> (r: bool)
    ensures
        r == is_bookkeeping(root_path@, path@),
{
    let mut prefix = join_path(root_path, LOG_DIR);
    push_char(&mut prefix, '/');
    assert(prefix@ =~= join(root_path@, LOG_DIR@) + seq!['/']);
    str_starts_with(path, prefix.as_str())
}

/// The destination path of a file named `name` placed under `root` in the folders `segs`.
pub open spec fn destination_of(root: Seq<char>, segs: Seq<Seq<char>>, name: Seq<char>) -> Seq<char> {
    join(join_all(root, segs), name)
}

/// The error text for a move that failed.
pub open spec fn move_error(from: Seq<char>, to: Seq<char>, reason: Seq<char>) -> Seq<char> {
    from + " -> "@ + to + ": "@ + reason
}

/// The error text for a file whose date lies outside the calendar's range.
pub open spec fn date_error(path: Seq<char>) -> Seq<char> {
    path + ": timestamp outside the calendar range"@
}

/// The state of one organising pass over a scanned tree. The caller hands it the scanned
/// files one at a time with `next`, performs each move that it asks for, and reports the
/// outcome with `record_move`.
pub struct Organizer {
    pub root: String,
    pub rule: OrganizeRule,
    pub duplicate_handling: DuplicateHandling,
    pub dry_run: bool,
    /// The paths that exist under the root, as far as this pass knows.
    pub occupied: Vec<String>,
    pub result: OrganizeResult,
}

/// What a pass has produced so far, as plain values.
pub open spec fn outcome_view(o: Organizer) -> (
    Seq<(Seq<char>, Seq<char>, u64)>,
    Seq<FileEntry>,
    Seq<Seq<char>>,
) {
    (moves_view(o.result.moved@), o.result.skipped@, o.result.errors.deep_view())
}

/// The settings of a pass, which considering a file never changes.
pub open spec fn same_settings(a: Organizer, b: Organizer) -> bool {
    &&& a.root@ == b.root@
    &&& a.rule == b.rule
    &&& a.duplicate_handling == b.duplicate_handling
    &&& a.dry_run == b.dry_run
    &&& a.result.is_dry_run == b.result.is_dry_run
}

pub open spec fn opt_segments_view(s: Option<Vec<String>>) -> Option<Seq<Seq<char>>> {
    match s {
        Some(v) => Some(v.deep_view()),
        None => None,
    }
}

/// Whether `segs` is a possible plan for `entry` under `rule`: the segments for the local
/// calendar month of the timestamp that the rule selects, where the date matters, and none
/// only where a date was needed and that timestamp lies past `MAX_MILLIS`.
pub open spec fn plan_allowed(entry: FileEntry, rule: OrganizeRule, segs: Option<Seq<Seq<char>>>) -> bool {
    let ts = timestamp_of(entry, rule.options.date_field);
    match segs {
        Some(v) => (exists|y: int, m: int|
            1 <= m <= 12 && near_month(ts as int, y, m) && v == #[trigger] segments_for(entry, rule, y, m))
            && (!needs_date(entry, rule) ==> v == segments_for(entry, rule, 0, 0)),
        None => needs_date(entry, rule) && ts > MAX_MILLIS,
    }
}

/// The effect of considering `entry` with the planned segments `segs` at time `now`,
/// from state `o` to state `f` with step `r`.
pub open spec fn step_post(
    o: Organizer,
    entry: FileEntry,
    segs: Option<Seq<Seq<char>>>,
    now: u64,
    f: Organizer,
    r: Step,
) -> bool {
    let (moved, skipped, errors) = outcome_view(o);
    &&& same_settings(o, f)
    &&& f.occupied.deep_view() == o.occupied.deep_view()
    &&& if is_bookkeeping(o.root@, entry.path@) {
        r is Done && outcome_view(f) == outcome_view(o)
    } else {
        match segs {
            None => r is Done && outcome_view(f) == (moved, skipped, errors.push(date_error(entry.path@))),
            Some(sv) => {
                let target = destination_of(o.root@, sv, entry.name@);
                match resolve_target(target, o.duplicate_handling, o.occupied.deep_view()) {
                    None => r is Done && outcome_view(f) == (moved, skipped.push(entry), errors),
                    Some(to) => if to == entry.path@ {
                        r is Done && outcome_view(f) == (moved, skipped.push(entry), errors)
                    } else if o.dry_run {
                        r is Done && outcome_view(f) == (moved.push((entry.path@, to, now)), skipped, errors)
                    } else {
                        &&& r matches Step::Move { from, to: dest } && from@ == entry.path@ && dest@ == to
                        &&& outcome_view(f) == outcome_view(o)
                    },
                }
            },
        }
    }
}

/// The destination of a file named `name` under `root` in the folders `segments`.
pub fn destination_path(root: &str, segments: &Vec<String>, name: &str) -> (r: String)
    ensures
        r@ == destination_of(root@, segments.deep_view(), name@),
{
    let mut dir = String::from_str(root);
    let mut i: usize = 0;
    while i < segments.len()
        invariant
            i <= segments@.len(),
            dir@ == join_all(root@, segments.deep_view().subrange(0, i as int)),
        decreases segments.len() - i,
    {
        assert(segments.deep_view().subrange(0, i + 1).drop_last() =~= segments.deep_view().subrange(0, i as int));
        dir = join_path(dir.as_str(), segments[i].as_str());
        i = i + 1;
    }
    assert(segments.deep_view().subrange(0, i as int) =~= segments.deep_view());
    join_path(dir.as_str(), name)
}

impl Organizer {
    /// A pass over a tree whose files are `scanned` and whose other entries (directories,
    /// links) are at `other_paths`: all of them count as taken destinations.
    pub fn new(
        root_path: &str,
        rule: OrganizeRule,
        duplicate_handling: DuplicateHandling,
        dry_run: bool,
        scanned: &Vec<FileEntry>,
        other_paths: &Vec<String>,
    ) -> (r: Organizer)
        ensures
            r.root@ == root_path@,
            r.rule == rule,
            r.duplicate_handling == duplicate_handling,
            r.dry_run == dry_run,
            r.result.is_dry_run == dry_run,
            r.occupied.deep_view() == scanned@.map_values(|e: FileEntry| e.path@)
                + other_paths.deep_view(),
            outcome_view(r) == (
                Seq::<(Seq<char>, Seq<char>, u64)>::empty(),
                Seq::<FileEntry>::empty(),
                Seq::<Seq<char>>::empty(),
            ),
    {
        let mut occupied: Vec<String> = Vec::new();
        let mut i: usize = 0;
        while i < scanned.len()
            invariant
                i <= scanned@.len(),
                occupied.deep_view() == scanned@.subrange(0, i as int).map_values(|e: FileEntry| e.path@),
            decreases scanned.len() - i,
        {
            let ghost before = occupied.deep_view();
            occupied.push(scanned[i].path.clone());
            assert(occupied.deep_view() =~= before.push(scanned@[i as int].path@));
            assert(scanned@.subrange(0, i + 1).map_values(|e: FileEntry| e.path@) =~= scanned@.subrange(0, i as int).map_values(|e: FileEntry| e.path@).push(scanned@[i as int].path@));
            i = i + 1;
        }
        assert(scanned@.subrange(0, i as int) =~= scanned@);
        let ghost files = occupied.deep_view();
        let mut k: usize = 0;
        while k < other_paths.len()
            invariant
                k <= other_paths@.len(),
                occupied.deep_view() == files + other_paths.deep_view().subrange(0, k as int),
            decreases other_paths.len() - k,
        {
            let ghost before = occupied.deep_view();
            occupied.push(other_paths[k].clone());
            assert(occupied.deep_view() =~= before.push(other_paths.deep_view()[k as int]));
            assert(files + other_paths.deep_view().subrange(0, k + 1) =~= before.push(
                other_paths.deep_view()[k as int],
            ));
            k = k + 1;
        }
        assert(other_paths.deep_view().subrange(0, k as int) =~= other_paths.deep_view());
        let result = OrganizeResult {
            moved: Vec::new(),
            skipped: Vec::new(),
            errors: Vec::new(),
            is_dry_run: dry_run,
        };
        let r = Organizer {
            root: String::from_str(root_path),
            rule,
            duplicate_handling,
            dry_run,
            occupied,
            result,
        };
        assert(outcome_view(r).0 =~= Seq::<(Seq<char>, Seq<char>, u64)>::empty());
        assert(outcome_view(r).2 =~= Seq::<Seq<char>>::empty());
        r
    }

    /// Considers `entry` with the folder segments planned for it (none where its date
    /// could not be had), at time `now`. Files in the log's directory are ignored. A
    /// file whose destination cannot be had, or is where it already stands, is skipped.
    /// In a dry run the move is recorded and nothing is asked of the caller; in a real run
    /// the caller is asked to perform it.
    pub fn next_with_segments(&mut self, entry: &FileEntry, segments: Option<Vec<String>>, now: u64) -> (r: Step)
        ensures
            step_post(*old(self), *entry, opt_segments_view(segments), now, *final(self), r),
            old(self).dry_run ==> r is Done,
    {
        if in_log_dir(self.root.as_str(), entry.path.as_str()) {
            return Step::Done;
        }
        let segments = match segments {
            Some(s) => s,
            None => {
                let mut msg = entry.path.clone();
                push_str(&mut msg, ": timestamp outside the calendar range");
                self.result.errors.push(msg);
                proof {
                    assert(self.result.errors.deep_view() =~= old(self).result.errors.deep_view().push(date_error(entry.path@)));
                }
                return Step::Done;
            },
        };
        let target = destination_path(self.root.as_str(), &segments, entry.name.as_str());
        match resolve_duplicate_target(target.as_str(), self.duplicate_handling, &self.occupied) {
            None => {
                self.result.skipped.push(entry.snapshot());
                Step::Done
            },
            Some(to) => {
                if str_eq(to.as_str(), entry.path.as_str()) {
                    self.result.skipped.push(entry.snapshot());
                    Step::Done
                } else if self.dry_run {
                    let m = FileMove { from: entry.path.clone(), to, timestamp: now };
                    self.result.moved.push(m);
                    proof {
                        assert(moves_view(self.result.moved@) =~= moves_view(old(self).result.moved@).push((entry.path@, m.to@, now)));
                    }
                    Step::Done
                } else {
                    Step::Move { from: entry.path.clone(), to }
                }
            },
        }
    }

    /// Considers `entry` at time `now`: plans its folders under the pass's rule (with the
    /// local calendar month of its timestamp where the rule needs a date), then proceeds as
    /// `next_with_segments` does with that plan.
    pub fn next(&mut self, entry: &FileEntry, now: u64) -> (r: Step)
        ensures
            exists|segs: Option<Seq<Seq<char>>>|
                plan_allowed(*entry, old(self).rule, segs) && #[trigger] step_post(*old(self), *entry, segs, now, *final(self), r),
            old(self).dry_run ==> r is Done,
    {
        let segments = target_segment(entry, &self.rule);
        let ghost segs = opt_segments_view(segments);
        let r = self.next_with_segments(entry, segments, now);
        assert(plan_allowed(*entry, old(self).rule, segs));
        r
    }

    /// Reports the outcome of a move that `next` asked for, at time `now`. A move done is
    /// recorded, and the pass then knows `from` as free and `to` as taken; a failure is
    /// recorded as an error naming both paths and the reason.
    pub fn record_move(&mut self, from: String, to: String, outcome: Result<(), String>, now: u64)
        ensures
            same_settings(*old(self), *final(self)),
            old(self).result.skipped@ == final(self).result.skipped@,
            match outcome {
                Ok(_) => {
                    &&& moves_view(final(self).result.moved@) == moves_view(old(self).result.moved@).push((from@, to@, now))
                    &&& final(self).result.errors.deep_view() == old(self).result.errors.deep_view()
                    &&& forall|q: Seq<char>| #[trigger] final(self).occupied.deep_view().contains(q) <==> (q == to@ || (q != from@
                        && old(self).occupied.deep_view().contains(q)))
                },
                Err(e) => {
                    &&& moves_view(final(self).result.moved@) == moves_view(old(self).result.moved@)
                    &&& final(self).result.errors.deep_view() == old(self).result.errors.deep_view().push(move_error(from@, to@, e@))
                    &&& final(self).occupied.deep_view() == old(self).occupied.deep_view()
                },
            },
    {
        match outcome {
            Ok(()) => {
                let mut kept: Vec<String> = Vec::new();
                let mut i: usize = 0;
                while i < self.occupied.len()
                    invariant
                        i <= self.occupied@.len(),
                        self.occupied == old(self).occupied,
                        forall|q: Seq<char>| #[trigger] kept.deep_view().contains(q) <==> (q != from@ && exists|j: int| 0 <= j < i && self.occupied.deep_view()[j] == q),
                    decreases self.occupied.len() - i,
                {
                    let ghost before = kept.deep_view();
                    let ghost cur = self.occupied.deep_view()[i as int];
                    if !str_eq(self.occupied[i].as_str(), from.as_str()) {
                        kept.push(self.occupied[i].clone());
                        assert(kept.deep_view() =~= before.push(cur));
                    }
                    assert forall|q: Seq<char>| #[trigger] kept.deep_view().contains(q) <==> (q != from@ && exists|j: int| 0 <= j < i + 1 && self.occupied.deep_view()[j] == q) by {
                        if kept.deep_view().contains(q) {
                            if !before.contains(q) {
                                let k = choose|k: int| 0 <= k < kept.deep_view().len() && kept.deep_view()[k] == q;
                                if k < before.len() {
                                    assert(before[k] == q);
                                }
                                assert(self.occupied.deep_view()[i as int] == q);
                            }
                        }
                        if q != from@ && exists|j: int| 0 <= j < i + 1 && self.occupied.deep_view()[j] == q {
                            let j = choose|j: int| 0 <= j < i + 1 && self.occupied.deep_view()[j] == q;
                            if j == i {
                                assert(kept.deep_view()[before.len() as int] == q);
                            } else {
                                assert(before.contains(q));
                                let k = choose|k: int| 0 <= k < before.len() && before[k] == q;
                                assert(kept.deep_view()[k] == q);
                            }
                        }
                    }
                    i = i + 1;
                }
                let ghost kept_view = kept.deep_view();
                kept.push(to.clone());
                assert(kept.deep_view() =~= kept_view.push(to@));
                assert(self.occupied.deep_view() == old(self).occupied.deep_view());
                assert forall|q: Seq<char>| #[trigger] kept.deep_view().contains(q) <==> (q == to@ || (q != from@
                    && old(self).occupied.deep_view().contains(q))) by {
                    if kept.deep_view().contains(q) && q != to@ {
                        let k = choose|k: int| 0 <= k < kept.deep_view().len() && kept.deep_view()[k] == q;
                        assert(kept_view[k] == q);
                        assert(kept_view.contains(q));
                        let j = choose|j: int| 0 <= j < i && self.occupied.deep_view()[j] == q;
                        assert(old(self).occupied.deep_view()[j] == q);
                    }
                    if q == to@ {
                        assert(kept.deep_view()[kept_view.len() as int] == q);
                    } else if q != from@ && old(self).occupied.deep_view().contains(q) {
                        let j = choose|j: int| 0 <= j < old(self).occupied.deep_view().len() && old(self).occupied.deep_view()[j] == q;
                        assert(exists|j: int| 0 <= j < i && self.occupied.deep_view()[j] == q);
                        assert(kept_view.contains(q));
                        let k = choose|k: int| 0 <= k < kept_view.len() && kept_view[k] == q;
                        assert(kept.deep_view()[k] == q);
                    }
                }
                self.occupied = kept;
                let m = FileMove { from, to, timestamp: now };
                self.result.moved.push(m);
                assert(moves_view(self.result.moved@) =~= moves_view(old(self).result.moved@).push((m.from@, m.to@, now)));
            },
            Err(e) => {
                let mut msg = from;
                push_str(&mut msg, " -> ");
                push_str(&mut msg, to.as_str());
                push_str(&mut msg, ": ");
                push_str(&mut msg, e.as_str());
                self.result.errors.push(msg);
                assert(self.result.errors.deep_view() =~= old(self).result.errors.deep_view().push(msg@));
            },
        }
    }

    /// Ends the pass at time `now`: its result, and for a real run the log of exactly
    /// the moves done, stamped `now`. A dry run has no log.
    pub fn finish(self, now: u64) -> (r: (OrganizeResult, Option<OperationLog>))
        ensures
            moves_view(r.0.moved@) == moves_view(self.result.moved@),
            r.0.skipped@ == self.result.skipped@,
            r.0.errors.deep_view() == self.result.errors.deep_view(),
            r.0.is_dry_run == self.result.is_dry_run,
            r.1 is None <==> self.dry_run,
            r.1 matches Some(log) ==> moves_view(log.moved@) == moves_view(self.result.moved@)
                && log.created_at == now,
    {
        if self.dry_run {
            (self.result, None)
        } else {
            let log = OperationLog { moved: copy_moves(&self.result.moved), created_at: now };
            (self.result, Some(log))
        }
    }
}

/// A copy of a list of moves.
pub fn copy_moves(moves: &Vec<FileMove>) -> (r: Vec<FileMove>)
    ensures
        r@ == moves@,
{
    let mut r: Vec<FileMove> = Vec::new();
    let mut i: usize = 0;
    while i < moves.len()
        invariant
            i <= moves@.len(),
            r@ == moves@.subrange(0, i as int),
        decreases moves.len() - i,
    {
        r.push(moves[i].snapshot());
        assert(r@ =~= moves@.subrange(0, i + 1));
        i = i + 1;
    }
    assert(moves@.subrange(0, i as int) =~= moves@);
    r
}

/// The source and destination of each move.
pub open spec fn paths_of(v: Seq<(Seq<char>, Seq<char>, u64)>) -> Seq<(Seq<char>, Seq<char>)> {
    v.map_values(|t: (Seq<char>, Seq<char>, u64)| (t.0, t.1))
}

/// What a pass has produced so far, leaving out when each move was planned.
pub open spec fn timeless_outcome(o: Organizer) -> (
    Seq<(Seq<char>, Seq<char>)>,
    Seq<FileEntry>,
    Seq<Seq<char>>,
) {
    (paths_of(outcome_view(o).0), o.result.skipped@, o.result.errors.deep_view())
}

/// Whether considering `entry` takes the pass from `o` to `f`.
pub open spec fn steps_to(
    o: Organizer,
    entry: FileEntry,
    plan: Option<Seq<Seq<char>>>,
    now: u64,
    f: Organizer,
) -> bool {
    exists|r: Step| step_post(o, entry, plan, now, f, r)
}

/// Whether `states` are the states of a pass that considers `entries` in order, with the
/// plans `plans`, at the times `times`.
pub open spec fn is_pass(
    states: Seq<Organizer>,
    entries: Seq<FileEntry>,
    plans: Seq<Option<Seq<Seq<char>>>>,
    times: Seq<u64>,
) -> bool {
    &&& states.len() == entries.len() + 1
    &&& plans.len() == entries.len()
    &&& times.len() == entries.len()
    &&& forall|i: int|
        0 <= i < entries.len() ==> #[trigger] steps_to(
            states[i],
            entries[i],
            plans[i],
            times[i],
            states[i + 1],
        )
}

proof fn lemma_dry_step(
    a: Organizer,
    b: Organizer,
    entry: FileEntry,
    plan: Option<Seq<Seq<char>>>,
    ta: u64,
    tb: u64,
    fa: Organizer,
    fb: Organizer,
)
    requires
        a.dry_run,
        same_settings(a, b),
        a.occupied.deep_view() == b.occupied.deep_view(),
        timeless_outcome(a) == timeless_outcome(b),
        steps_to(a, entry, plan, ta, fa),
        steps_to(b, entry, plan, tb, fb),
    ensures
        same_settings(fa, fb),
        same_settings(a, fa),
        fa.occupied.deep_view() == a.occupied.deep_view(),
        fb.occupied.deep_view() == b.occupied.deep_view(),
        timeless_outcome(fa) == timeless_outcome(fb),
{
    let ra = choose|r: Step| step_post(a, entry, plan, ta, fa, r);
    let rb = choose|r: Step| step_post(b, entry, plan, tb, fb, r);
    let ma = outcome_view(a).0;
    let mb = outcome_view(b).0;
    if !is_bookkeeping(a.root@, entry.path@) {
        if let Some(sv) = plan {
            let target = destination_of(a.root@, sv, entry.name@);
            if let Some(to) = resolve_target(target, a.duplicate_handling, a.occupied.deep_view()) {
                if to != entry.path@ {
                    assert(paths_of(ma.push((entry.path@, to, ta))) =~= paths_of(ma).push(
                        (entry.path@, to),
                    ));
                    assert(paths_of(mb.push((entry.path@, to, tb))) =~= paths_of(mb).push(
                        (entry.path@, to),
                    ));
                }
            }
        }
    }
}

/// Dry runs are repeatable and touch nothing: over a whole dry pass, no step asks for a
/// move and what the pass knows of the tree never changes; and two dry passes that start
/// alike and consider the same files with the same plans produce, at every point, the same
/// moves (up to when each was planned), the same skipped files and the same errors.
pub proof fn lemma_dry_passes_agree(
    sa: Seq<Organizer>,
    sb: Seq<Organizer>,
    entries: Seq<FileEntry>,
    plans: Seq<Option<Seq<Seq<char>>>>,
    ta: Seq<u64>,
    tb: Seq<u64>,
)
    requires
        is_pass(sa, entries, plans, ta),
        is_pass(sb, entries, plans, tb),
        sa[0].dry_run,
        same_settings(sa[0], sb[0]),
        sa[0].occupied.deep_view() == sb[0].occupied.deep_view(),
        timeless_outcome(sa[0]) == timeless_outcome(sb[0]),
    ensures
        forall|i: int|
            0 <= i < sa.len() ==> (#[trigger] sa[i]).occupied.deep_view() == sa[0].occupied.deep_view()
                && timeless_outcome(sa[i]) == timeless_outcome(sb[i]),
        forall|i: int, r: Step|
            0 <= i < entries.len() && #[trigger] step_post(sa[i], entries[i], plans[i], ta[i], sa[i + 1], r)
                ==> r is Done,
{
    lemma_dry_prefix(sa, sb, entries, plans, ta, tb, entries.len() as int);
    assert forall|i: int, r: Step|
        0 <= i < entries.len() && #[trigger] step_post(sa[i], entries[i], plans[i], ta[i], sa[i + 1], r)
            implies r is Done by {
        assert(sa[i].dry_run);
    }
}

proof fn lemma_dry_prefix(
    sa: Seq<Organizer>,
    sb: Seq<Organizer>,
    entries: Seq<FileEntry>,
    plans: Seq<Option<Seq<Seq<char>>>>,
    ta: Seq<u64>,
    tb: Seq<u64>,
    k: int,
)
    requires
        is_pass(sa, entries, plans, ta),
        is_pass(sb, entries, plans, tb),
        sa[0].dry_run,
        same_settings(sa[0], sb[0]),
        sa[0].occupied.deep_view() == sb[0].occupied.deep_view(),
        timeless_outcome(sa[0]) == timeless_outcome(sb[0]),
        0 <= k <= entries.len(),
    ensures
        forall|i: int|
            0 <= i <= k ==> (#[trigger] sa[i]).occupied.deep_view() == sa[0].occupied.deep_view()
                && sb[i].occupied.deep_view() == sb[0].occupied.deep_view()
                && timeless_outcome(sa[i]) == timeless_outcome(sb[i])
                && same_settings(sa[i], sb[i]) && same_settings(sa[0], sa[i]),
    decreases k,
{
    if k > 0 {
        lemma_dry_prefix(sa, sb, entries, plans, ta, tb, k - 1);
        let j = k - 1;
        assert(steps_to(sa[j], entries[j], plans[j], ta[j], sa[j + 1]));
        assert(steps_to(sb[j], entries[j], plans[j], tb[j], sb[j + 1]));
        lemma_dry_step(sa[j], sb[j], entries[j], plans[j], ta[j], tb[j], sa[j + 1], sb[j + 1]);
    }
}

} // verus!
