//! The check that every path a patch names stays inside the working
//! directory (`--restrict-to-workdir`): each path line of the patch is
//! checked lexically, then walked on disk, in the order of the patch.

use vstd::prelude::*;
use crate::paths::{lexical_verdict, texts, validate_patch_path, concat};
use crate::text::{
    decimal, decimal_string, has_prefix, lemma_text_lines_append, split_lines, string_from_chars,
    strip_prefix, text_lines, to_chars,
};
use crate::walk::{
    AbsPath, PathWalk, StepView, WalkEvent, WalkPhase, WalkStep, WalkView, within,
    ensure_path_stays_within_root, walk_started, walk_outcome, walk_verdict,
    lemma_walk_stays_within_root, lemma_walk_starts_within_root,
};

verus! {

/// How a patch uses a path.
#[derive(Debug, PartialEq, Eq, Structural, Clone, Copy)]
pub enum PathKind {
    /// The patch creates or writes the file.
    WriteLike,
    /// The patch deletes the file.
    Delete,
}

/// A path that a patch line names.
#[derive(Debug, PartialEq)]
pub struct PathTarget {
    /// The number of the line, counting from 1.
    pub line: usize,
    /// The path text after the line's header.
    pub path: String,
    pub kind: PathKind,
}

/// What a path target stands for.
pub struct TargetView {
    pub line: int,
    pub path: Seq<char>,
    pub kind: PathKind,
}

impl View for PathTarget {
    type V = TargetView;

    open spec fn view(&self) -> TargetView {
        TargetView { line: self.line as int, path: self.path@, kind: self.kind }
    }
}

/// The views of a sequence of targets.
pub open spec fn targets_view(targets: Seq<PathTarget>) -> Seq<TargetView> {
    targets.map_values(|t: PathTarget| t@)
}

/// The path that line number `number` names, if it is a file header of a
/// patch: `*** Add File: `, `*** Update File: ` and `*** Move to: ` write,
/// `*** Delete File: ` deletes.
pub open spec fn line_target(line: Seq<char>, number: int) -> Option<TargetView> {
    if has_prefix(line, "*** Add File: "@) {
        Some(TargetView { line: number, path: line.skip("*** Add File: "@.len() as int), kind: PathKind::WriteLike })
    } else if has_prefix(line, "*** Update File: "@) {
        Some(TargetView { line: number, path: line.skip("*** Update File: "@.len() as int), kind: PathKind::WriteLike })
    } else if has_prefix(line, "*** Delete File: "@) {
        Some(TargetView { line: number, path: line.skip("*** Delete File: "@.len() as int), kind: PathKind::Delete })
    } else if has_prefix(line, "*** Move to: "@) {
        Some(TargetView { line: number, path: line.skip("*** Move to: "@.len() as int), kind: PathKind::WriteLike })
    } else {
        None
    }
}

/// The paths that `lines` name, in order; line `i` has number `i + 1`.
pub open spec fn line_targets(lines: Seq<Seq<char>>) -> Seq<TargetView>
    decreases lines.len(),
{
    if lines.len() == 0 {
        seq![]
    } else {
        let earlier = line_targets(lines.drop_last());
        match line_target(lines.last(), lines.len() as int) {
            Some(t) => earlier.push(t),
            None => earlier,
        }
    }
}

/// The paths that a patch names, in order.
pub open spec fn patch_targets(patch: Seq<char>) -> Seq<TargetView> {
    line_targets(text_lines(patch))
}

fn target_of_line(line: &[char], number: usize) -> (res: Option<PathTarget>)
    ensures
        match res {
            Some(t) => line_target(line@, number as int) == Some(t@),
            None => line_target(line@, number as int) is None,
        },
{
    let add = to_chars("*** Add File: ");
    let update = to_chars("*** Update File: ");
    let delete = to_chars("*** Delete File: ");
    let move_to = to_chars("*** Move to: ");
    if let Some(rest) = strip_prefix(line, add.as_slice()) {
        Some(PathTarget { line: number, path: string_from_chars(rest.as_slice()), kind: PathKind::WriteLike })
    } else if let Some(rest) = strip_prefix(line, update.as_slice()) {
        Some(PathTarget { line: number, path: string_from_chars(rest.as_slice()), kind: PathKind::WriteLike })
    } else if let Some(rest) = strip_prefix(line, delete.as_slice()) {
        Some(PathTarget { line: number, path: string_from_chars(rest.as_slice()), kind: PathKind::Delete })
    } else if let Some(rest) = strip_prefix(line, move_to.as_slice()) {
        Some(PathTarget { line: number, path: string_from_chars(rest.as_slice()), kind: PathKind::WriteLike })
    } else {
        None
    }
}

/// The paths that the lines of `patch` name, in order.
pub fn patch_path_targets(patch: &str) -> (res: Vec<PathTarget>)
    ensures
        targets_view(res@) == patch_targets(patch@),
{
    let chars = to_chars(patch);
    let lines = split_lines(chars.as_slice());
    let ghost all = text_lines(patch@);
    assert(lines@.len() == all.len());
    let mut res: Vec<PathTarget> = Vec::new();
    let mut i: usize = 0;
    assert(all.take(0) =~= Seq::<Seq<char>>::empty());
    assert(targets_view(res@) =~= Seq::<TargetView>::empty());
    while i < lines.len()
        invariant
            i <= lines@.len(),
            lines@.len() == all.len(),
            all == text_lines(patch@),
            forall|k: int| 0 <= k < lines@.len() ==> #[trigger] lines@[k]@ == all[k],
            targets_view(res@) == line_targets(all.take(i as int)),
        decreases lines.len() - i,
    {
        let found = target_of_line(lines[i].as_slice(), i + 1);
        proof {
            assert(all.take(i + 1).drop_last() =~= all.take(i as int));
            assert(all.take(i + 1).last() == lines@[i as int]@);
        }
        let ghost before = res@;
        match found {
            Some(t) => {
                res.push(t);
                assert(targets_view(res@) =~= targets_view(before).push(res@.last()@));
            },
            None => {},
        }
        i = i + 1;
    }
    assert(all.take(lines@.len() as int) =~= all);
    res
}

/// `message`, followed by the line number that it concerns.
pub open spec fn located(message: Seq<char>, line: int) -> Seq<char> {
    message + " (line "@ + decimal(line as nat) + ")"@
}

/// The message for a path that the walk on disk rejected.
pub open spec fn walk_failure(message: Seq<char>, target: TargetView) -> Seq<char> {
    located(message + ": "@ + target.path, target.line)
}

/// Where the check of a patch stands.
pub struct GuardView {
    pub root: Seq<Seq<char>>,
    pub targets: Seq<TargetView>,
    /// The target being walked.
    pub index: int,
    /// Its walk.
    pub walk: WalkView,
    pub finished: bool,
}

/// The check of `targets` from number `k` on, until it needs an answer from
/// disk or is over.
pub open spec fn guard_from(
    root: Seq<Seq<char>>,
    targets: Seq<TargetView>,
    k: int,
    idle: WalkView,
) -> (GuardView, StepView)
    decreases targets.len() - k,
{
    if k < 0 || k >= targets.len() {
        (GuardView { root, targets, index: k, walk: idle, finished: true }, StepView::Done(Ok(())))
    } else {
        let t = targets[k];
        match lexical_verdict(t.path) {
            Err(m) => (
                GuardView { root, targets, index: k, walk: idle, finished: true },
                StepView::Done(Err(located(m, t.line))),
            ),
            Ok(names) => {
                let (w, step) = walk_started(root, names, t.kind == PathKind::Delete);
                match step {
                    StepView::Done(Ok(())) => guard_from(root, targets, k + 1, w),
                    StepView::Done(Err(m)) => (
                        GuardView { root, targets, index: k, walk: w, finished: true },
                        StepView::Done(Err(walk_failure(m, t))),
                    ),
                    _ => (GuardView { root, targets, index: k, walk: w, finished: false }, step),
                }
            },
        }
    }
}

impl GuardView {
    /// The check after `event` arrives, and what it asks next.
    pub open spec fn fed(self, event: WalkEvent) -> (GuardView, StepView) {
        let (w, step) = self.walk.fed(event);
        match step {
            StepView::Done(Ok(())) => guard_from(self.root, self.targets, self.index + 1, w),
            StepView::Done(Err(m)) => (
                GuardView { walk: w, finished: true, ..self },
                StepView::Done(Err(walk_failure(m, self.targets[self.index]))),
            ),
            _ => (GuardView { walk: w, ..self }, step),
        }
    }

    /// The check is coherent: the walk under way belongs to the current
    /// target, every target so far passed the lexical checks, and the walk's
    /// cursor lies inside the root.
    pub open spec fn wf(self) -> bool {
        &&& 0 <= self.index
        &&& !self.finished ==> {
            &&& self.index < self.targets.len()
            &&& self.walk.wf()
            &&& self.walk.phase != WalkPhase::Finished
            &&& self.walk.root == self.root
        }
        &&& forall|j: int|
            0 <= j < self.index && j < self.targets.len() ==> #[trigger] lexical_verdict(
                self.targets[j].path,
            ) is Ok
        &&& !self.finished ==> lexical_verdict(self.targets[self.index].path) is Ok
    }
}

/// The check of a patch's paths against `root` before any answer.
pub open spec fn guard_started(root: Seq<Seq<char>>, patch: Seq<char>) -> (GuardView, StepView) {
    guard_from(root, patch_targets(patch), 0, walk_started(root, seq![], false).0)
}

/// A check that passes had every path of the patch pass its lexical checks
/// from `k` on; while it runs, it stays coherent and asks only about entries
/// inside the root.
pub proof fn lemma_guard_from(
    root: Seq<Seq<char>>,
    targets: Seq<TargetView>,
    k: int,
    idle: WalkView,
)
    requires
        0 <= k,
        forall|j: int| 0 <= j < k && j < targets.len() ==> #[trigger] lexical_verdict(
            targets[j].path,
        ) is Ok,
    ensures
        guard_from(root, targets, k, idle).0.wf(),
        guard_from(root, targets, k, idle).0.targets == targets,
        guard_from(root, targets, k, idle).0.root == root,
        guard_from(root, targets, k, idle).1 matches StepView::Inspect(p) ==> within(root, p),
        guard_from(root, targets, k, idle).1 matches StepView::Resolve(p) ==> within(root, p),
        guard_from(root, targets, k, idle).1 == StepView::Done(Ok(())) ==> forall|j: int|
            0 <= j < targets.len() ==> #[trigger] lexical_verdict(targets[j].path) is Ok,
        k <= targets.len() ==> k <= guard_from(root, targets, k, idle).0.index <= targets.len(),
    decreases targets.len() - k,
{
    if k < targets.len() {
        let t = targets[k];
        match lexical_verdict(t.path) {
            Err(m) => {},
            Ok(names) => {
                lemma_walk_starts_within_root(root, names, t.kind == PathKind::Delete);
                let (w, step) = walk_started(root, names, t.kind == PathKind::Delete);
                assert(w.root == root);
                if step == StepView::Done(Ok(())) {
                    assert forall|j: int|
                        0 <= j < k + 1 && j < targets.len() implies #[trigger] lexical_verdict(
                        targets[j].path,
                    ) is Ok by {
                        if j < k {
                        }
                    }
                    lemma_guard_from(root, targets, k + 1, w);
                }
            },
        }
    }
}

/// A coherent check stays coherent whatever it is told; it asks only about
/// entries inside the root; and it passes only when every path of the
/// patch passed its lexical checks.
pub proof fn lemma_guard_stays_within_root(g: GuardView, event: WalkEvent)
    requires
        g.wf(),
        !g.finished,
    ensures
        g.fed(event).0.wf(),
        g.fed(event).0.targets == g.targets,
        g.fed(event).0.root == g.root,
        g.fed(event).1 matches StepView::Inspect(p) ==> within(g.root, p),
        g.fed(event).1 matches StepView::Resolve(p) ==> within(g.root, p),
        g.fed(event).1 == StepView::Done(Ok(())) ==> forall|j: int|
            0 <= j < g.targets.len() ==> #[trigger] lexical_verdict(g.targets[j].path) is Ok,
{
    lemma_walk_stays_within_root(g.walk, event);
    let (w, step) = g.walk.fed(event);
    match step {
        StepView::Done(Ok(())) => {
            assert forall|j: int|
                0 <= j < g.index + 1 && j < g.targets.len() implies #[trigger] lexical_verdict(
                g.targets[j].path,
            ) is Ok by {
                if j < g.index {
                }
            }
            lemma_guard_from(g.root, g.targets, g.index + 1, w);
        },
        _ => {},
    }
}

/// `targets`, numbered as if they stood `n` lines further down.
pub open spec fn shifted(targets: Seq<TargetView>, n: int) -> Seq<TargetView> {
    targets.map_values(|t: TargetView| TargetView { line: t.line + n, ..t })
}

proof fn lemma_line_targets_append(first: Seq<Seq<char>>, second: Seq<Seq<char>>)
    ensures
        line_targets(first + second) == line_targets(first) + shifted(
            line_targets(second),
            first.len() as int,
        ),
    decreases second.len(),
{
    let n = first.len() as int;
    if second.len() == 0 {
        assert(first + second =~= first);
        assert(line_targets(first) + shifted(line_targets(second), n) =~= line_targets(first));
    } else {
        let both = first + second;
        lemma_line_targets_append(first, second.drop_last());
        assert(both.drop_last() =~= first + second.drop_last());
        assert(both.last() == second.last());
        let earlier = line_targets(second.drop_last());
        match line_target(second.last(), second.len() as int) {
            Some(t) => {
                assert(line_target(both.last(), both.len() as int) == Some(
                    TargetView { line: t.line + n, ..t },
                ));
                assert(shifted(earlier.push(t), n) =~= shifted(earlier, n).push(
                    TargetView { line: t.line + n, ..t },
                ));
                assert(line_targets(both) =~= line_targets(first) + shifted(line_targets(second), n));
            },
            None => {
                assert(line_target(both.last(), both.len() as int) is None);
            },
        }
    }
}

/// The verdict of a walk on the target `t`, made the check's, and then
/// `rest` when the walk passed.
pub open spec fn after_walk(
    walked: Option<Result<(), Seq<char>>>,
    t: TargetView,
    rest: Option<Result<(), Seq<char>>>,
) -> Option<Result<(), Seq<char>>> {
    match walked {
        Some(Ok(())) => rest,
        Some(Err(m)) => Some(Err(walk_failure(m, t))),
        None => None,
    }
}

/// The verdict on one target when each request about the disk is answered
/// by `answer`: its lexical checks, then its walk.
pub open spec fn target_verdict(
    root: Seq<Seq<char>>,
    t: TargetView,
    answer: spec_fn(StepView) -> WalkEvent,
) -> Option<Result<(), Seq<char>>> {
    match lexical_verdict(t.path) {
        Err(m) => Some(Err(located(m, t.line))),
        Ok(names) => after_walk(
            walk_verdict(root, names, t.kind == PathKind::Delete, answer),
            t,
            Some(Ok(())),
        ),
    }
}

/// The verdict on `targets`, checked one after the other: the first that
/// fails decides.
pub open spec fn targets_verdict(
    root: Seq<Seq<char>>,
    targets: Seq<TargetView>,
    answer: spec_fn(StepView) -> WalkEvent,
) -> Option<Result<(), Seq<char>>>
    decreases targets.len(),
{
    if targets.len() == 0 {
        Some(Ok(()))
    } else {
        let verdict = target_verdict(root, targets[0], answer);
        if verdict == Some(Ok::<(), Seq<char>>(())) {
            targets_verdict(root, targets.drop_first(), answer)
        } else {
            verdict
        }
    }
}

/// The verdict of a check in state `g` that waits on `step`, when each
/// request is answered by `answer` (a disk that does not change while the
/// check runs); `None` when an answer does not fit its request.
pub open spec fn guard_outcome(
    g: GuardView,
    step: StepView,
    answer: spec_fn(StepView) -> WalkEvent,
) -> Option<Result<(), Seq<char>>>
    decreases g.targets.len() - g.index, g.walk.remaining(),
{
    match step {
        StepView::Done(r) => Some(r),
        _ => {
            let (next, asked) = g.fed(answer(step));
            if next.targets.len() == g.targets.len() && 0 <= g.index && g.index <= next.index
                <= next.targets.len() && (next.index > g.index || next.walk.remaining()
                < g.walk.remaining()) {
                guard_outcome(next, asked, answer)
            } else {
                None
            }
        },
    }
}

/// The verdict of the check of `patch`'s paths against `root` on the disk
/// `answer`.
pub open spec fn guard_verdict(
    root: Seq<Seq<char>>,
    patch: Seq<char>,
    answer: spec_fn(StepView) -> WalkEvent,
) -> Option<Result<(), Seq<char>>> {
    guard_outcome(guard_started(root, patch).0, guard_started(root, patch).1, answer)
}

proof fn lemma_outcome_walking(g: GuardView, step: StepView, answer: spec_fn(StepView) -> WalkEvent)
    requires
        g.wf(),
        !g.finished,
        !(step is Done),
    ensures
        guard_outcome(g, step, answer) == after_walk(
            walk_outcome(g.walk, step, answer),
            g.targets[g.index],
            targets_verdict(g.root, g.targets.skip(g.index + 1), answer),
        ),
    decreases g.targets.len() - g.index, 0int, g.walk.remaining(),
{
    let event = answer(step);
    lemma_walk_stays_within_root(g.walk, event);
    lemma_guard_stays_within_root(g, event);
    let (w, s) = g.walk.fed(event);
    if !g.walk.expects(event) {
        assert(s == g.walk.pending());
    }
    match s {
        StepView::Done(Ok(())) => {
            lemma_guard_from(g.root, g.targets, g.index + 1, w);
            lemma_outcome_from(g.root, g.targets, g.index + 1, w, answer);
            assert(walk_outcome(w, s, answer) == Some(Ok::<(), Seq<char>>(())));
            assert(walk_outcome(g.walk, step, answer) == Some(Ok::<(), Seq<char>>(())));
            let (next, asked) = g.fed(event);
            assert(next == guard_from(g.root, g.targets, g.index + 1, w).0);
            assert(asked == guard_from(g.root, g.targets, g.index + 1, w).1);
            assert(guard_outcome(g, step, answer) == guard_outcome(next, asked, answer));
        },
        StepView::Done(Err(m)) => {
            let (next, asked) = g.fed(event);
            assert(walk_outcome(w, s, answer) == Some(Err::<(), Seq<char>>(m)));
            assert(guard_outcome(next, asked, answer) == Some(
                Err::<(), Seq<char>>(walk_failure(m, g.targets[g.index])),
            ));
        },
        _ => {
            if g.walk.expects(event) {
                lemma_outcome_walking(GuardView { walk: w, ..g }, s, answer);
            }
        },
    }
}

proof fn lemma_outcome_from(
    root: Seq<Seq<char>>,
    targets: Seq<TargetView>,
    k: int,
    idle: WalkView,
    answer: spec_fn(StepView) -> WalkEvent,
)
    requires
        0 <= k <= targets.len(),
        forall|j: int| 0 <= j < k ==> #[trigger] lexical_verdict(targets[j].path) is Ok,
    ensures
        guard_outcome(guard_from(root, targets, k, idle).0, guard_from(root, targets, k, idle).1, answer)
            == targets_verdict(root, targets.skip(k), answer),
    decreases targets.len() - k, 1int, 0int,
{
    if k == targets.len() {
        assert(targets.skip(k) =~= Seq::<TargetView>::empty());
    } else {
        let t = targets[k];
        assert(targets.skip(k)[0] == t);
        assert(targets.skip(k).drop_first() =~= targets.skip(k + 1));
        match lexical_verdict(t.path) {
            Err(m) => {},
            Ok(names) => {
                let (w, step) = walk_started(root, names, t.kind == PathKind::Delete);
                assert forall|j: int| 0 <= j < k + 1 implies #[trigger] lexical_verdict(
                    targets[j].path,
                ) is Ok by {
                    if j < k {
                    }
                }
                match step {
                    StepView::Done(Ok(())) => {
                        lemma_outcome_from(root, targets, k + 1, w, answer);
                    },
                    StepView::Done(Err(m)) => {},
                    _ => {
                        lemma_guard_from(root, targets, k, idle);
                        lemma_outcome_walking(
                            GuardView { root, targets, index: k, walk: w, finished: false },
                            step,
                            answer,
                        );
                    },
                }
            },
        }
    }
}

proof fn lemma_targets_verdict_append(
    root: Seq<Seq<char>>,
    first: Seq<TargetView>,
    second: Seq<TargetView>,
    answer: spec_fn(StepView) -> WalkEvent,
)
    ensures
        targets_verdict(root, first + second, answer) == if targets_verdict(root, first, answer)
            == Some(Ok::<(), Seq<char>>(())) {
            targets_verdict(root, second, answer)
        } else {
            targets_verdict(root, first, answer)
        },
    decreases first.len(),
{
    if first.len() == 0 {
        assert(first + second =~= second);
    } else {
        assert((first + second)[0] == first[0]);
        assert((first + second).drop_first() =~= first.drop_first() + second);
        lemma_targets_verdict_append(root, first.drop_first(), second, answer);
    }
}

proof fn lemma_targets_verdict_shifted(
    root: Seq<Seq<char>>,
    targets: Seq<TargetView>,
    n: int,
    answer: spec_fn(StepView) -> WalkEvent,
)
    ensures
        (targets_verdict(root, shifted(targets, n), answer) == Some(Ok::<(), Seq<char>>(())))
            == (targets_verdict(root, targets, answer) == Some(Ok::<(), Seq<char>>(()))),
    decreases targets.len(),
{
    if targets.len() > 0 {
        let moved = shifted(targets, n);
        assert(moved[0] == TargetView { line: targets[0].line + n, ..targets[0] });
        assert(moved.drop_first() =~= shifted(targets.drop_first(), n));
        lemma_targets_verdict_shifted(root, targets.drop_first(), n, answer);
    }
}

/// The check's verdict is that of the targets of the patch, one after the
/// other.
proof fn lemma_guard_verdict(
    root: Seq<Seq<char>>,
    patch: Seq<char>,
    answer: spec_fn(StepView) -> WalkEvent,
)
    ensures
        guard_verdict(root, patch, answer) == targets_verdict(root, patch_targets(patch), answer),
{
    lemma_outcome_from(root, patch_targets(patch), 0, walk_started(root, seq![], false).0, answer);
    assert(patch_targets(patch).skip(0) =~= patch_targets(patch));
}

/// A patch may be checked in parts: when `first` is empty or ends in a
/// line feed, on the same disk, the paths of `first + second` pass exactly
/// when those of `first` and those of `second` pass, and a failure in
/// `first` is the failure of the whole, with the same message.
pub proof fn lemma_patch_checked_in_parts(
    root: Seq<Seq<char>>,
    first: Seq<char>,
    second: Seq<char>,
    answer: spec_fn(StepView) -> WalkEvent,
)
    requires
        first.len() == 0 || first.last() == '\n',
    ensures
        (guard_verdict(root, first + second, answer) == Some(Ok::<(), Seq<char>>(()))) == (
        guard_verdict(root, first, answer) == Some(Ok::<(), Seq<char>>(())) && guard_verdict(
            root,
            second,
            answer,
        ) == Some(Ok::<(), Seq<char>>(()))),
        guard_verdict(root, first, answer) matches Some(Err(m)) ==> guard_verdict(
            root,
            first + second,
            answer,
        ) == Some(Err::<(), Seq<char>>(m)),
{
    lemma_text_lines_append(first, second);
    lemma_line_targets_append(text_lines(first), text_lines(second));
    let n = text_lines(first).len() as int;
    assert(patch_targets(first + second) == patch_targets(first) + shifted(patch_targets(second), n));
    lemma_guard_verdict(root, first + second, answer);
    lemma_guard_verdict(root, first, answer);
    lemma_guard_verdict(root, second, answer);
    lemma_targets_verdict_append(
        root,
        patch_targets(first),
        shifted(patch_targets(second), n),
        answer,
    );
    lemma_targets_verdict_shifted(root, patch_targets(second), n, answer);
    let v1 = targets_verdict(root, patch_targets(first), answer);
    let vs = targets_verdict(root, shifted(patch_targets(second), n), answer);
    assert(guard_verdict(root, first + second, answer) == targets_verdict(root, patch_targets(first) + shifted(patch_targets(second), n), answer));
    if v1 == Some(Ok::<(), Seq<char>>(())) {
        assert(guard_verdict(root, first + second, answer) == vs);
    } else {
        assert(guard_verdict(root, first + second, answer) == v1);
    }
}

/// The check of a patch's paths under way.
pub struct PatchGuard {
    root: AbsPath,
    targets: Vec<PathTarget>,
    index: usize,
    walk: PathWalk,
    finished: bool,
}

impl View for PatchGuard {
    type V = GuardView;

    closed spec fn view(&self) -> GuardView {
        GuardView {
            root: self.root@,
            targets: targets_view(self.targets@),
            index: self.index as int,
            walk: self.walk@,
            finished: self.finished,
        }
    }
}

impl PatchGuard {
    /// Whether the check is over.
    pub fn is_finished(&self) -> (res: bool)
        ensures
            res == self@.finished,
    {
        self.finished
    }

    /// Runs the check from target `k` until it needs an answer from disk or
    /// is over.
    fn run_from(&mut self, k: usize) -> (res: WalkStep)
        requires
            k <= old(self).targets@.len(),
        ensures
            (final(self)@, res@) == guard_from(
                old(self)@.root,
                old(self)@.targets,
                k as int,
                old(self)@.walk,
            ),
    {
        let ghost goal = guard_from(self@.root, self@.targets, k as int, self@.walk);
        let mut current = k;
        loop
            invariant
                current <= self.targets@.len(),
                self@.root == old(self)@.root,
                self@.targets == old(self)@.targets,
                goal == guard_from(self@.root, self@.targets, current as int, self@.walk),
                goal == guard_from(old(self)@.root, old(self)@.targets, k as int, old(self)@.walk),
            decreases self.targets@.len() - current,
        {
            if current >= self.targets.len() {
                self.index = current;
                self.finished = true;
                return WalkStep::Done(Ok(()));
            }
            let target = &self.targets[current];
            let line = target.line;
            match validate_patch_path(target.path.as_str()) {
                Err(m) => {
                    let mut message = m;
                    message.append(" (line ");
                    let number = decimal_string(line as u64);
                    message.append(number.as_str());
                    message.append(")");
                    self.index = current;
                    self.finished = true;
                    return WalkStep::Done(Err(message));
                },
                Ok(names) => {
                    let delete = target.kind == PathKind::Delete;
                    let (walk, step) = ensure_path_stays_within_root(&self.root, &names, delete);
                    match step {
                        WalkStep::Done(Ok(())) => {
                            self.walk = walk;
                            current = current + 1;
                        },
                        WalkStep::Done(Err(m)) => {
                            let mut message = concat(m.as_str(), ": ");
                            message.append(self.targets[current].path.as_str());
                            message.append(" (line ");
                            let number = decimal_string(line as u64);
                            message.append(number.as_str());
                            message.append(")");
                            self.walk = walk;
                            self.index = current;
                            self.finished = true;
                            return WalkStep::Done(Err(message));
                        },
                        other => {
                            self.walk = walk;
                            self.index = current;
                            self.finished = false;
                            return other;
                        },
                    }
                },
            }
        }
    }

    /// Takes the answer to the check's pending request and returns what it
    /// asks next, or its verdict (see `GuardView::fed`).
    pub fn feed(&mut self, event: WalkEvent) -> (res: WalkStep)
        requires
            old(self)@.wf(),
            !old(self)@.finished,
        ensures
            (final(self)@, res@) == old(self)@.fed(event),
            final(self)@.wf(),
    {
        proof {
            lemma_guard_stays_within_root(self@, event);
        }
        let count = self.targets.len();
        assert(self.index < count);
        let step = self.walk.feed(event);
        match step {
            WalkStep::Done(Ok(())) => {
                let next = self.index + 1;
                self.run_from(next)
            },
            WalkStep::Done(Err(m)) => {
                let target = &self.targets[self.index];
                let mut message = concat(m.as_str(), ": ");
                message.append(target.path.as_str());
                message.append(" (line ");
                let number = decimal_string(target.line as u64);
                message.append(number.as_str());
                message.append(")");
                self.finished = true;
                WalkStep::Done(Err(message))
            },
            other => other,
        }
    }
}

/// Starts the check that every path named by `patch` stays inside `root`,
/// a canonical absolute path: each path line (`*** Add File: `,
/// `*** Update File: `, `*** Delete File: `, `*** Move to: `) in order must
/// pass the lexical checks, then its walk on disk. The first failure ends
/// the check, with its message and line number.
pub fn validate_patch_paths_within_root(patch: &str, root: &AbsPath) -> (res: (PatchGuard, WalkStep))
    ensures
        (res.0@, res.1@) == guard_started(root@, patch@),
        res.0@.wf(),
{
    let targets = patch_path_targets(patch);
    let (idle, _) = ensure_path_stays_within_root(root, &Vec::new(), false);
    let mut guard = PatchGuard {
        root: AbsPath { segments: crate::walk::clone_names(&root.segments) },
        targets,
        index: 0,
        walk: idle,
        finished: true,
    };
    proof {
        assert(texts(Seq::<String>::empty()) =~= Seq::<Seq<char>>::empty());
        lemma_guard_from(root@, patch_targets(patch@), 0, guard@.walk);
    }
    let step = guard.run_from(0);
    (guard, step)
}

} // verus!
