//! The walk that checks, entry by entry on disk, that a normalized relative
//! path stays inside the working directory once symbolic links are followed.
//!
//! The walk itself touches no file: it asks its driver to inspect an entry
//! (`symlink_metadata`) or to resolve it (`canonicalize`), and decides from
//! the answers.

use vstd::prelude::*;
use crate::paths::{is_plain_name, plain_name, texts};

verus! {

/// An absolute path, as the names below the root directory `/`.
#[derive(Debug, PartialEq)]
pub struct AbsPath {
    pub segments: Vec<String>,
}

impl View for AbsPath {
    type V = Seq<Seq<char>>;

    open spec fn view(&self) -> Seq<Seq<char>> {
        texts(self.segments@)
    }
}

/// Whether the absolute path `path` lies in `root` or below it
/// (`Path::starts_with`, component by component).
pub open spec fn within(root: Seq<Seq<char>>, path: Seq<Seq<char>>) -> bool {
    root.len() <= path.len() && path.take(root.len() as int) == root
}

/// Why a look at an entry on disk failed, with the error's text.
#[derive(Debug, PartialEq)]
pub enum ProbeError {
    /// The entry does not exist.
    NotFound(String),
    /// Any other failure.
    Other(String),
}

impl ProbeError {
    /// The error's text.
    pub open spec fn message(self) -> Seq<char> {
        match self {
            ProbeError::NotFound(m) => m@,
            ProbeError::Other(m) => m@,
        }
    }
}

/// The answer to the last request of a walk.
#[derive(Debug, PartialEq)]
pub enum WalkEvent {
    /// The entry exists (and whether it is a symbolic link), or why not.
    Inspected(Result<bool, ProbeError>),
    /// The canonical form of the entry, or why there is none.
    Resolved(Result<AbsPath, ProbeError>),
}

/// What a walk asks for next, or its verdict.
#[derive(Debug, PartialEq)]
pub enum WalkStep {
    /// Inspect this entry without following a final symbolic link.
    Inspect(AbsPath),
    /// Resolve this entry to its canonical absolute path.
    Resolve(AbsPath),
    /// The walk is over: the path stays inside, or why it does not.
    Done(Result<(), String>),
}

/// What a step stands for.
pub enum StepView {
    Inspect(Seq<Seq<char>>),
    Resolve(Seq<Seq<char>>),
    Done(Result<(), Seq<char>>),
}

impl View for WalkStep {
    type V = StepView;

    open spec fn view(&self) -> StepView {
        match self {
            WalkStep::Inspect(p) => StepView::Inspect(p@),
            WalkStep::Resolve(p) => StepView::Resolve(p@),
            WalkStep::Done(Ok(())) => StepView::Done(Ok(())),
            WalkStep::Done(Err(m)) => StepView::Done(Err(m@)),
        }
    }
}

/// Where a walk stands.
#[derive(Debug, PartialEq, Eq, Structural, Clone, Copy)]
pub enum WalkPhase {
    /// Waiting for the inspection of the cursor.
    Inspecting,
    /// Waiting for the resolution of the cursor, which is a symbolic link
    /// when the flag is set.
    Resolving(bool),
    /// Over.
    Finished,
}

/// A walk down a relative path from a root.
pub struct PathWalk {
    root: Vec<String>,
    segments: Vec<String>,
    next: usize,
    cursor: Vec<String>,
    allow_symlink_delete: bool,
    phase: WalkPhase,
}

/// The state of a walk.
pub struct WalkView {
    pub root: Seq<Seq<char>>,
    pub segments: Seq<Seq<char>>,
    /// The index of the name whose entry is being examined.
    pub next: int,
    /// The path reached so far.
    pub cursor: Seq<Seq<char>>,
    /// Whether a final symbolic link may be deleted wherever it points.
    pub allow: bool,
    pub phase: WalkPhase,
}

impl View for PathWalk {
    type V = WalkView;

    closed spec fn view(&self) -> WalkView {
        WalkView {
            root: texts(self.root@),
            segments: texts(self.segments@),
            next: self.next as int,
            cursor: texts(self.cursor@),
            allow: self.allow_symlink_delete,
            phase: self.phase,
        }
    }
}

impl WalkView {
    /// The walk's state is coherent, and the cursor lies inside the root;
    /// while the walk runs, the cursor lies strictly below the root and ends
    /// in a plain name.
    pub open spec fn wf(self) -> bool {
        &&& 0 <= self.next <= self.segments.len()
        &&& self.phase != WalkPhase::Finished ==> {
            &&& self.next < self.segments.len()
            &&& self.cursor.len() > self.root.len()
            &&& plain_name(self.cursor.last())
        }
        &&& within(self.root, self.cursor)
    }

    /// Whether the name being examined is the last one.
    pub open spec fn at_last(self) -> bool {
        self.next + 1 == self.segments.len()
    }

    /// The verdict once every name is examined.
    pub open spec fn final_verdict(self) -> Result<(), Seq<char>> {
        if within(self.root, self.cursor) {
            Ok(())
        } else {
            Err("Patch path escapes workdir"@)
        }
    }

    /// The walk after the name being examined is done with: the next name
    /// is examined, unless it is not a plain name.
    pub open spec fn advanced(self) -> (WalkView, StepView) {
        if self.next + 1 < self.segments.len() && !plain_name(self.segments[self.next + 1]) {
            (
                WalkView { next: self.next + 1, phase: WalkPhase::Finished, ..self },
                StepView::Done(Err(UNSUPPORTED_COMPONENT@)),
            )
        } else if self.next + 1 < self.segments.len() {
            let cursor = self.cursor.push(self.segments[self.next + 1]);
            (
                WalkView { next: self.next + 1, cursor, phase: WalkPhase::Inspecting, ..self },
                StepView::Inspect(cursor),
            )
        } else {
            (
                WalkView { next: self.segments.len() as int, phase: WalkPhase::Finished, ..self },
                StepView::Done(self.final_verdict()),
            )
        }
    }

    /// The walk stopped with `message`.
    pub open spec fn halted(self, message: Seq<char>) -> (WalkView, StepView) {
        (WalkView { phase: WalkPhase::Finished, ..self }, StepView::Done(Err(message)))
    }

    /// The request the walk is waiting on.
    pub open spec fn pending(self) -> StepView {
        match self.phase {
            WalkPhase::Inspecting => StepView::Inspect(self.cursor),
            _ => StepView::Resolve(self.cursor),
        }
    }

    /// Whether `event` answers the request the walk is waiting on.
    pub open spec fn expects(self, event: WalkEvent) -> bool {
        match (self.phase, event) {
            (WalkPhase::Inspecting, WalkEvent::Inspected(_)) => true,
            (WalkPhase::Resolving(_), WalkEvent::Resolved(_)) => true,
            _ => false,
        }
    }

    /// How many answers the walk can still take, at most.
    pub open spec fn remaining(self) -> nat {
        match self.phase {
            WalkPhase::Finished => 0,
            WalkPhase::Inspecting => (2 * (self.segments.len() - self.next)) as nat,
            WalkPhase::Resolving(_) => (2 * (self.segments.len() - self.next) - 1) as nat,
        }
    }

    /// The walk after `event` arrives, and what it asks next. An event that
    /// does not answer the pending request changes nothing.
    pub open spec fn fed(self, event: WalkEvent) -> (WalkView, StepView) {
        match (self.phase, event) {
            (WalkPhase::Inspecting, WalkEvent::Inspected(Ok(is_symlink))) => (
                WalkView { phase: WalkPhase::Resolving(is_symlink), ..self },
                StepView::Resolve(self.cursor),
            ),
            (WalkPhase::Inspecting, WalkEvent::Inspected(Err(ProbeError::NotFound(_)))) => self.advanced(),
            (WalkPhase::Inspecting, WalkEvent::Inspected(Err(ProbeError::Other(m)))) => self.halted(
                "Failed to inspect patch path: "@ + m@,
            ),
            (WalkPhase::Resolving(is_symlink), WalkEvent::Resolved(Ok(canonical))) => {
                if self.allow && self.at_last() && is_symlink {
                    self.advanced()
                } else if !within(self.root, canonical@) {
                    self.halted("Patch path escapes workdir via symlink"@)
                } else {
                    WalkView { cursor: canonical@, ..self }.advanced()
                }
            },
            (WalkPhase::Resolving(is_symlink), WalkEvent::Resolved(Err(e))) => {
                if self.allow && self.at_last() && is_symlink && e is NotFound {
                    self.advanced()
                } else {
                    self.halted("Failed to resolve patch path: "@ + e.message())
                }
            },
            _ => (self, self.pending()),
        }
    }
}

/// The refusal of a name that is not a plain name.
pub const UNSUPPORTED_COMPONENT: &'static str = "Patch path contains unsupported component";

/// The walk of `segments` from `root`, before any answer. A name that is
/// not a plain name (`plain_name`) is refused when the walk reaches it,
/// before its entry is looked at.
pub open spec fn walk_started(root: Seq<Seq<char>>, segments: Seq<Seq<char>>, allow: bool) -> (
    WalkView,
    StepView,
) {
    if segments.len() == 0 {
        (
            WalkView { root, segments, next: 0, cursor: root, allow, phase: WalkPhase::Finished },
            StepView::Done(Ok(())),
        )
    } else if !plain_name(segments[0]) {
        (
            WalkView { root, segments, next: 0, cursor: root, allow, phase: WalkPhase::Finished },
            StepView::Done(Err(UNSUPPORTED_COMPONENT@)),
        )
    } else {
        let cursor = root.push(segments[0]);
        (
            WalkView { root, segments, next: 0, cursor, allow, phase: WalkPhase::Inspecting },
            StepView::Inspect(cursor),
        )
    }
}

/// `path`, an entry that a walk from `root` asks about, lies strictly below
/// `root` and ends in a plain name.
pub open spec fn probe_inside(root: Seq<Seq<char>>, path: Seq<Seq<char>>) -> bool {
    &&& within(root, path)
    &&& path.len() > root.len()
    &&& plain_name(path.last())
}

proof fn lemma_within_push(root: Seq<Seq<char>>, path: Seq<Seq<char>>, name: Seq<char>)
    requires
        within(root, path),
    ensures
        within(root, path.push(name)),
{
    assert(path.push(name).take(root.len() as int) =~= path.take(root.len() as int));
}

/// A walk that starts coherent stays coherent, whatever it is told: its
/// cursor never leaves the root, so every entry it asks about lies strictly
/// below the root and ends in a plain name, and it never ends on the final
/// containment check.
pub proof fn lemma_walk_stays_within_root(w: WalkView, event: WalkEvent)
    requires
        w.wf(),
        w.phase != WalkPhase::Finished,
    ensures
        w.fed(event).0.wf(),
        w.fed(event).0.root == w.root,
        w.fed(event).1 matches StepView::Inspect(p) ==> probe_inside(w.root, p),
        w.fed(event).1 matches StepView::Resolve(p) ==> probe_inside(w.root, p),
        w.fed(event).1 matches StepView::Done(Err(m)) ==> m != "Patch path escapes workdir"@,
        w.expects(event) ==> w.fed(event).0.remaining() < w.remaining(),
        !w.expects(event) ==> w.fed(event).0 == w,
{
    if w.next + 1 < w.segments.len() {
        lemma_within_push(w.root, w.cursor, w.segments[w.next + 1]);
    }
    reveal_strlit("Patch path escapes workdir");
    reveal_strlit("Patch path contains unsupported component");
    assert(UNSUPPORTED_COMPONENT@ != "Patch path escapes workdir"@) by {
        assert(UNSUPPORTED_COMPONENT@.len() != "Patch path escapes workdir"@.len());
    }
    reveal_strlit("Patch path escapes workdir via symlink");
    reveal_strlit("Failed to inspect patch path: ");
    reveal_strlit("Failed to resolve patch path: ");
    let target = "Patch path escapes workdir"@;
    match event {
        WalkEvent::Resolved(Ok(canonical)) => {
            if w.next + 1 < w.segments.len() && within(w.root, canonical@) {
                lemma_within_push(w.root, canonical@, w.segments[w.next + 1]);
            }
            assert("Patch path escapes workdir via symlink"@ != target) by {
                assert("Patch path escapes workdir via symlink"@.len() != target.len());
            }
        },
        WalkEvent::Resolved(Err(e)) => {
            assert(("Failed to resolve patch path: "@ + e.message())[0] != target[0]);
        },
        WalkEvent::Inspected(Err(e)) => {
            assert(("Failed to inspect patch path: "@ + e.message())[0] != target[0]);
        },
        _ => {},
    }
}

/// The walk from a root stays coherent from its start.
pub proof fn lemma_walk_starts_within_root(
    root: Seq<Seq<char>>,
    segments: Seq<Seq<char>>,
    allow: bool,
)
    ensures
        walk_started(root, segments, allow).0.wf(),
        walk_started(root, segments, allow).1 matches StepView::Inspect(p) ==> probe_inside(root, p),
        walk_started(root, segments, allow).1 == StepView::Done(Ok(()))
            || walk_started(root, segments, allow).1 == StepView::Done(Err(UNSUPPORTED_COMPONENT@))
            || walk_started(root, segments, allow).1 is Inspect,
{
    assert(root.take(root.len() as int) =~= root);
    if segments.len() > 0 {
        lemma_within_push(root, root, segments[0]);
    }
}

/// The verdict of a walk in state `w` that waits on `step`, when each
/// request is answered by `answer` (a disk that does not change while the
/// walk runs); `None` when an answer does not fit its request.
pub open spec fn walk_outcome(
    w: WalkView,
    step: StepView,
    answer: spec_fn(StepView) -> WalkEvent,
) -> Option<Result<(), Seq<char>>>
    decreases w.remaining(),
{
    match step {
        StepView::Done(r) => Some(r),
        _ => {
            let (next, asked) = w.fed(answer(step));
            if next.remaining() < w.remaining() {
                walk_outcome(next, asked, answer)
            } else {
                None
            }
        },
    }
}

/// The verdict of the walk of `segments` from `root` on the disk `answer`.
pub open spec fn walk_verdict(
    root: Seq<Seq<char>>,
    segments: Seq<Seq<char>>,
    allow: bool,
    answer: spec_fn(StepView) -> WalkEvent,
) -> Option<Result<(), Seq<char>>> {
    walk_outcome(walk_started(root, segments, allow).0, walk_started(root, segments, allow).1, answer)
}

proof fn lemma_allowance_step(w: WalkView, event: WalkEvent)
    requires
        w.wf(),
        w.allow,
    ensures
        w.fed(event).1 == StepView::Done(Ok(())) || {
            &&& WalkView { allow: false, ..w }.fed(event).0 == WalkView { allow: false, ..w.fed(event).0 }
            &&& WalkView { allow: false, ..w }.fed(event).1 == w.fed(event).1
        },
{
    let v = WalkView { allow: false, ..w };
    assert(v.advanced().0 == WalkView { allow: false, ..w.advanced().0 });
    assert(v.advanced().1 == w.advanced().1);
    match (w.phase, event) {
        (WalkPhase::Resolving(_), WalkEvent::Resolved(Ok(canonical))) => {
            let c = WalkView { cursor: canonical@, ..w };
            let d = WalkView { cursor: canonical@, ..v };
            assert(d == WalkView { allow: false, ..c });
            assert(d.advanced().0 == WalkView { allow: false, ..c.advanced().0 });
            assert(d.advanced().1 == c.advanced().1);
        },
        _ => {},
    }
}

proof fn lemma_allowance_outcome(w: WalkView, step: StepView, answer: spec_fn(StepView) -> WalkEvent)
    requires
        w.wf(),
        w.allow,
    ensures
        walk_outcome(w, step, answer) matches Some(Err(m)) ==> walk_outcome(
            WalkView { allow: false, ..w },
            step,
            answer,
        ) == Some(Err::<(), Seq<char>>(m)),
    decreases w.remaining(),
{
    if !(step is Done) {
        let v = WalkView { allow: false, ..w };
        let event = answer(step);
        if w.phase != WalkPhase::Finished {
            lemma_walk_stays_within_root(w, event);
            lemma_allowance_step(w, event);
            let (next, asked) = w.fed(event);
            if asked != StepView::Done(Ok(())) && next.remaining() < w.remaining() {
                lemma_allowance_outcome(next, asked, answer);
            }
        }
    }
}

/// Allowing a final symbolic link to be deleted only ever accepts more: on
/// the same disk, a path that the walk refuses with the allowance is
/// refused with the same message without it.
pub proof fn lemma_delete_allowance_accepts_more(
    root: Seq<Seq<char>>,
    segments: Seq<Seq<char>>,
    answer: spec_fn(StepView) -> WalkEvent,
)
    ensures
        walk_verdict(root, segments, true, answer) matches Some(Err(m)) ==> walk_verdict(
            root,
            segments,
            false,
            answer,
        ) == Some(Err::<(), Seq<char>>(m)),
{
    lemma_walk_starts_within_root(root, segments, true);
    let (w, step) = walk_started(root, segments, true);
    assert(walk_started(root, segments, false).0 == WalkView { allow: false, ..w });
    lemma_allowance_outcome(w, step, answer);
}

/// Every canonical path that `answer` gives lies inside `root`.
pub open spec fn resolves_inside(root: Seq<Seq<char>>, answer: spec_fn(StepView) -> WalkEvent) -> bool {
    forall|s: StepView|
        #[trigger] answer(s) matches WalkEvent::Resolved(Ok(c)) ==> within(root, c@)
}

/// A symbolic link that stays inside the root is followed, not refused:
/// when an entry resolves to a canonical path inside the root, the walk
/// does not answer "Patch path escapes workdir via symlink", and, unless
/// the allowance for a final symbolic link ends the walk, it goes on from
/// that canonical path with the next name.
pub proof fn lemma_link_inside_root_is_followed(w: WalkView, canonical: AbsPath)
    requires
        w.wf(),
        w.phase is Resolving,
        within(w.root, canonical@),
    ensures
        w.fed(WalkEvent::Resolved(Ok(canonical))).1 != StepView::Done(
            Err::<(), Seq<char>>("Patch path escapes workdir via symlink"@),
        ),
        w.next + 1 < w.segments.len() && plain_name(w.segments[w.next + 1]) && !(w.allow
            && w.phase == WalkPhase::Resolving(true)) ==> w.fed(WalkEvent::Resolved(Ok(canonical))).1
            == StepView::Inspect(canonical@.push(w.segments[w.next + 1])),
{
    reveal_strlit("Patch path escapes workdir via symlink");
    reveal_strlit("Patch path escapes workdir");
    reveal_strlit("Patch path contains unsupported component");
    let via = "Patch path escapes workdir via symlink"@;
    assert(UNSUPPORTED_COMPONENT@ != via) by {
        assert(UNSUPPORTED_COMPONENT@.len() != via.len());
    }
    assert("Patch path escapes workdir"@ != via) by {
        assert("Patch path escapes workdir"@.len() != via.len());
    }
}

/// On a disk whose every canonical path lies inside the root, the walk
/// never refuses a path with "Patch path escapes workdir via symlink": that
/// refusal comes only from an entry that resolves outside the root.
pub proof fn lemma_symlink_refusal_needs_an_outside_target(
    root: Seq<Seq<char>>,
    segments: Seq<Seq<char>>,
    allow: bool,
    answer: spec_fn(StepView) -> WalkEvent,
)
    requires
        resolves_inside(root, answer),
    ensures
        walk_verdict(root, segments, allow, answer) != Some(
            Err::<(), Seq<char>>("Patch path escapes workdir via symlink"@),
        ),
{
    reveal_strlit("Patch path escapes workdir via symlink");
    reveal_strlit("Patch path contains unsupported component");
    assert(UNSUPPORTED_COMPONENT@ != "Patch path escapes workdir via symlink"@) by {
        assert(UNSUPPORTED_COMPONENT@.len() != "Patch path escapes workdir via symlink"@.len());
    }
    lemma_walk_starts_within_root(root, segments, allow);
    let (w, step) = walk_started(root, segments, allow);
    lemma_no_symlink_refusal(w, step, answer);
}

proof fn lemma_no_symlink_refusal(w: WalkView, step: StepView, answer: spec_fn(StepView) -> WalkEvent)
    requires
        w.wf(),
        resolves_inside(w.root, answer),
        step != StepView::Done(Err::<(), Seq<char>>("Patch path escapes workdir via symlink"@)),
    ensures
        walk_outcome(w, step, answer) != Some(
            Err::<(), Seq<char>>("Patch path escapes workdir via symlink"@),
        ),
    decreases w.remaining(),
{
    if !(step is Done) && w.phase != WalkPhase::Finished {
        let event = answer(step);
        lemma_walk_stays_within_root(w, event);
        let (next, asked) = w.fed(event);
        if let WalkEvent::Resolved(Ok(c)) = event {
            assert(within(w.root, c@));
            if w.phase is Resolving {
                lemma_link_inside_root_is_followed(w, c);
            }
        }
        assert(asked != StepView::Done(Err::<(), Seq<char>>("Patch path escapes workdir via symlink"@)))
            by {
            reveal_strlit("Patch path escapes workdir via symlink");
            reveal_strlit("Patch path escapes workdir");
            reveal_strlit("Patch path contains unsupported component");
            reveal_strlit("Failed to inspect patch path: ");
            reveal_strlit("Failed to resolve patch path: ");
            let via = "Patch path escapes workdir via symlink"@;
            assert(UNSUPPORTED_COMPONENT@.len() != via.len());
            assert("Patch path escapes workdir"@.len() != via.len());
            match event {
                WalkEvent::Inspected(Err(e)) => {
                    assert(("Failed to inspect patch path: "@ + e.message())[0] != via[0]);
                },
                WalkEvent::Resolved(Err(e)) => {
                    assert(("Failed to resolve patch path: "@ + e.message())[0] != via[0]);
                },
                _ => {},
            }
        }
        if next.remaining() < w.remaining() {
            lemma_no_symlink_refusal(next, asked, answer);
        }
    }
}

/// `answer` reports every entry it is asked to inspect as missing.
pub open spec fn all_missing(answer: spec_fn(StepView) -> WalkEvent) -> bool {
    forall|s: StepView|
        s is Inspect ==> (#[trigger] answer(s) matches WalkEvent::Inspected(Err(ProbeError::NotFound(_))))
}

/// A path of plain names none of whose entries exist yet passes: the walk
/// goes on lexically past a missing entry, and the path stays inside the
/// root.
pub proof fn lemma_missing_entries_pass(
    root: Seq<Seq<char>>,
    segments: Seq<Seq<char>>,
    allow: bool,
    answer: spec_fn(StepView) -> WalkEvent,
)
    requires
        all_missing(answer),
        forall|i: int| 0 <= i < segments.len() ==> plain_name(#[trigger] segments[i]),
    ensures
        walk_verdict(root, segments, allow, answer) == Some(Ok::<(), Seq<char>>(())),
{
    lemma_walk_starts_within_root(root, segments, allow);
    let (w, step) = walk_started(root, segments, allow);
    if segments.len() > 0 {
        assert(plain_name(segments[0]));
        lemma_missing_walk_passes(w, answer);
    }
}

proof fn lemma_missing_walk_passes(w: WalkView, answer: spec_fn(StepView) -> WalkEvent)
    requires
        w.wf(),
        w.phase == WalkPhase::Inspecting,
        all_missing(answer),
        forall|i: int| 0 <= i < w.segments.len() ==> plain_name(#[trigger] w.segments[i]),
    ensures
        walk_outcome(w, StepView::Inspect(w.cursor), answer) == Some(Ok::<(), Seq<char>>(())),
    decreases w.remaining(),
{
    let step = StepView::Inspect(w.cursor);
    let event = answer(step);
    lemma_walk_stays_within_root(w, event);
    let (next, asked) = w.fed(event);
    if w.next + 1 < w.segments.len() {
        assert(plain_name(w.segments[w.next + 1]));
        lemma_missing_walk_passes(next, answer);
    }
}

/// `answer` reports every entry as an existing entry that is not a
/// symbolic link and is already its own canonical path.
pub open spec fn all_real(answer: spec_fn(StepView) -> WalkEvent) -> bool {
    &&& forall|p: Seq<Seq<char>>|
        #[trigger] answer(StepView::Inspect(p)) == WalkEvent::Inspected(Ok::<bool, ProbeError>(false))
    &&& forall|p: Seq<Seq<char>>|
        #[trigger] answer(StepView::Resolve(p)) matches WalkEvent::Resolved(Ok(c)) && c@ == p
}

/// A path of plain names through entries that exist, none of them a
/// symbolic link, passes.
pub proof fn lemma_existing_entries_pass(
    root: Seq<Seq<char>>,
    segments: Seq<Seq<char>>,
    allow: bool,
    answer: spec_fn(StepView) -> WalkEvent,
)
    requires
        all_real(answer),
        forall|i: int| 0 <= i < segments.len() ==> plain_name(#[trigger] segments[i]),
    ensures
        walk_verdict(root, segments, allow, answer) == Some(Ok::<(), Seq<char>>(())),
{
    lemma_walk_starts_within_root(root, segments, allow);
    let (w, step) = walk_started(root, segments, allow);
    if segments.len() > 0 {
        assert(plain_name(segments[0]));
        lemma_real_walk_passes(w, answer);
    }
}

proof fn lemma_real_walk_passes(w: WalkView, answer: spec_fn(StepView) -> WalkEvent)
    requires
        w.wf(),
        w.phase == WalkPhase::Inspecting,
        all_real(answer),
        forall|i: int| 0 <= i < w.segments.len() ==> plain_name(#[trigger] w.segments[i]),
    ensures
        walk_outcome(w, StepView::Inspect(w.cursor), answer) == Some(Ok::<(), Seq<char>>(())),
    decreases w.remaining(),
{
    let step = StepView::Inspect(w.cursor);
    let event = answer(step);
    lemma_walk_stays_within_root(w, event);
    let (mid, asked) = w.fed(event);
    assert(mid.phase == WalkPhase::Resolving(false));
    assert(asked == StepView::Resolve(w.cursor));
    let resolved = answer(asked);
    let c = resolved->Resolved_0->Ok_0;
    assert(c@ == w.cursor);
    lemma_walk_stays_within_root(mid, resolved);
    let (next, asked2) = mid.fed(resolved);
    assert(WalkView { cursor: c@, ..mid } == mid);
    if w.next + 1 < w.segments.len() {
        assert(plain_name(w.segments[w.next + 1]));
        lemma_real_walk_passes(next, answer);
        assert(asked2 == StepView::Inspect(next.cursor));
    } else {
        assert(asked2 == StepView::Done(Ok::<(), Seq<char>>(())));
        assert(walk_outcome(next, asked2, answer) == Some(Ok::<(), Seq<char>>(())));
    }
    assert(walk_outcome(mid, asked, answer) == walk_outcome(next, asked2, answer));
    assert(walk_outcome(w, step, answer) == walk_outcome(mid, asked, answer));
}

/// With the allowance, a single name whose entry is a symbolic link passes
/// wherever the link points, even nowhere: deleting a link touches only the
/// link.
pub proof fn lemma_final_link_may_be_deleted(
    root: Seq<Seq<char>>,
    name: Seq<char>,
    answer: spec_fn(StepView) -> WalkEvent,
)
    requires
        plain_name(name),
        answer(StepView::Inspect(root.push(name))) == WalkEvent::Inspected(Ok::<bool, ProbeError>(true)),
        answer(StepView::Resolve(root.push(name))) matches WalkEvent::Resolved(r) && match r {
            Ok(_) => true,
            Err(e) => e is NotFound,
        },
    ensures
        walk_verdict(root, seq![name], true, answer) == Some(Ok::<(), Seq<char>>(())),
{
    let segments = seq![name];
    lemma_walk_starts_within_root(root, segments, true);
    let (w, step) = walk_started(root, segments, true);
    lemma_walk_stays_within_root(w, answer(step));
    let (mid, asked) = w.fed(answer(step));
    assert(asked == StepView::Resolve(root.push(name)));
    lemma_walk_stays_within_root(mid, answer(asked));
    let (last, verdict) = mid.fed(answer(asked));
    assert(verdict == StepView::Done(Ok::<(), Seq<char>>(())));
    assert(walk_outcome(last, verdict, answer) == Some(Ok::<(), Seq<char>>(())));
    assert(walk_outcome(mid, asked, answer) == walk_outcome(last, verdict, answer));
    assert(walk_outcome(w, step, answer) == walk_outcome(mid, asked, answer));
}

/// A copy of the names `v`.
pub fn clone_names(v: &Vec<String>) -> (res: Vec<String>)
    ensures
        texts(res@) == texts(v@),
{
    let mut res: Vec<String> = Vec::new();
    let mut i: usize = 0;
    while i < v.len()
        invariant
            i <= v@.len(),
            res@.len() == i,
            forall|j: int| 0 <= j < i ==> #[trigger] res@[j]@ == v@[j]@,
        decreases v.len() - i,
    {
        res.push(crate::paths::clone_text(&v[i]));
        i = i + 1;
    }
    assert(texts(res@) =~= texts(v@));
    res
}

/// Whether the two absolute paths satisfy `within`: `path` lies in `root`
/// or below it.
pub fn path_within(root: &Vec<String>, path: &Vec<String>) -> (res: bool)
    ensures
        res == within(texts(root@), texts(path@)),
{
    if root.len() > path.len() {
        return false;
    }
    let mut i: usize = 0;
    while i < root.len()
        invariant
            root@.len() <= path@.len(),
            i <= root@.len(),
            forall|j: int| 0 <= j < i ==> root@[j]@ == path@[j]@,
        decreases root.len() - i,
    {
        if root[i] != path[i] {
            assert(texts(path@).take(texts(root@).len() as int)[i as int] != texts(root@)[i as int]);
            return false;
        }
        i = i + 1;
    }
    assert(texts(path@).take(texts(root@).len() as int) =~= texts(root@));
    true
}

/// Starts the walk that checks that `relative`, a normalized relative path,
/// stays inside `root` (a canonical absolute path) once symbolic links are
/// resolved. With `allow_terminal_symlink_delete`, a last entry that is a
/// symbolic link is accepted wherever it points, since deleting it touches
/// only the link. A name that is not a plain name (empty, `.`, `..`, or
/// holding `/`) is refused with "Patch path contains unsupported component"
/// when the walk reaches it, before its entry is looked at.
pub fn ensure_path_stays_within_root(
    root: &AbsPath,
    relative: &Vec<String>,
    allow_terminal_symlink_delete: bool,
) -> (res: (PathWalk, WalkStep))
    ensures
        (res.0@, res.1@) == walk_started(root@, texts(relative@), allow_terminal_symlink_delete),
        res.0@.wf(),
{
    proof {
        lemma_walk_starts_within_root(root@, texts(relative@), allow_terminal_symlink_delete);
    }
    let mut cursor = clone_names(&root.segments);
    if relative.len() == 0 {
        let walk = PathWalk {
            root: clone_names(&root.segments),
            segments: clone_names(relative),
            next: 0,
            cursor,
            allow_symlink_delete: allow_terminal_symlink_delete,
            phase: WalkPhase::Finished,
        };
        return (walk, WalkStep::Done(Ok(())));
    }
    if !is_plain_name(&relative[0]) {
        let walk = PathWalk {
            root: clone_names(&root.segments),
            segments: clone_names(relative),
            next: 0,
            cursor,
            allow_symlink_delete: allow_terminal_symlink_delete,
            phase: WalkPhase::Finished,
        };
        return (walk, WalkStep::Done(Err(String::from_str(UNSUPPORTED_COMPONENT))));
    }
    cursor.push(crate::paths::clone_text(&relative[0]));
    assert(texts(cursor@) =~= root@.push(texts(relative@)[0]));
    let step = WalkStep::Inspect(AbsPath { segments: clone_names(&cursor) });
    let walk = PathWalk {
        root: clone_names(&root.segments),
        segments: clone_names(relative),
        next: 0,
        cursor,
        allow_symlink_delete: allow_terminal_symlink_delete,
        phase: WalkPhase::Inspecting,
    };
    (walk, step)
}

impl PathWalk {
    /// Whether the walk is over.
    pub fn is_finished(&self) -> (res: bool)
        ensures
            res == (self@.phase == WalkPhase::Finished),
    {
        self.phase == WalkPhase::Finished
    }

    fn advance(&mut self) -> (res: WalkStep)
        requires
            0 <= old(self)@.next < old(self)@.segments.len(),
            within(old(self)@.root, old(self)@.cursor),
        ensures
            (final(self)@, res@) == old(self)@.advanced(),
    {
        let count = self.segments.len();
        if self.next + 1 < count && !is_plain_name(&self.segments[self.next + 1]) {
            self.next = self.next + 1;
            self.phase = WalkPhase::Finished;
            WalkStep::Done(Err(String::from_str(UNSUPPORTED_COMPONENT)))
        } else if self.next + 1 < count {
            self.next = self.next + 1;
            let name = crate::paths::clone_text(&self.segments[self.next]);
            let ghost before = texts(self.cursor@);
            self.cursor.push(name);
            assert(texts(self.cursor@) =~= before.push(texts(self.segments@)[self.next as int]));
            self.phase = WalkPhase::Inspecting;
            WalkStep::Inspect(AbsPath { segments: clone_names(&self.cursor) })
        } else {
            self.next = self.segments.len();
            self.phase = WalkPhase::Finished;
            if path_within(&self.root, &self.cursor) {
                WalkStep::Done(Ok(()))
            } else {
                WalkStep::Done(Err(String::from_str("Patch path escapes workdir")))
            }
        }
    }

    fn halt(&mut self, message: String) -> (res: WalkStep)
        ensures
            (final(self)@, res@) == old(self)@.halted(message@),
    {
        self.phase = WalkPhase::Finished;
        WalkStep::Done(Err(message))
    }

    /// Takes the answer to the walk's pending request and returns what the
    /// walk asks next, or its verdict (see `WalkView::fed`).
    pub fn feed(&mut self, event: WalkEvent) -> (res: WalkStep)
        requires
            old(self)@.wf(),
            old(self)@.phase != WalkPhase::Finished,
        ensures
            (final(self)@, res@) == old(self)@.fed(event),
            final(self)@.wf(),
    {
        proof {
            lemma_walk_stays_within_root(self@, event);
        }
        match event {
            WalkEvent::Inspected(Ok(is_symlink)) => {
                if self.phase == WalkPhase::Inspecting {
                    self.phase = WalkPhase::Resolving(is_symlink);
                    return WalkStep::Resolve(AbsPath { segments: clone_names(&self.cursor) });
                }
            },
            WalkEvent::Inspected(Err(ProbeError::NotFound(_))) => {
                if self.phase == WalkPhase::Inspecting {
                    return self.advance();
                }
            },
            WalkEvent::Inspected(Err(ProbeError::Other(m))) => {
                if self.phase == WalkPhase::Inspecting {
                    return self.halt(crate::paths::concat("Failed to inspect patch path: ", &m));
                }
            },
            WalkEvent::Resolved(Ok(canonical)) => {
                if let WalkPhase::Resolving(is_symlink) = self.phase {
                    let count = self.segments.len();
                    let at_last = self.next + 1 == count;
                    if self.allow_symlink_delete && at_last && is_symlink {
                        return self.advance();
                    } else if !path_within(&self.root, &canonical.segments) {
                        return self.halt(String::from_str("Patch path escapes workdir via symlink"));
                    } else {
                        self.cursor = canonical.segments;
                        return self.advance();
                    }
                }
            },
            WalkEvent::Resolved(Err(e)) => {
                if let WalkPhase::Resolving(is_symlink) = self.phase {
                    let count = self.segments.len();
                    let at_last = self.next + 1 == count;
                    let not_found = match &e {
                        ProbeError::NotFound(_) => true,
                        ProbeError::Other(_) => false,
                    };
                    if self.allow_symlink_delete && at_last && is_symlink && not_found {
                        return self.advance();
                    } else {
                        let text = match &e {
                            ProbeError::NotFound(m) => m,
                            ProbeError::Other(m) => m,
                        };
                        return self.halt(crate::paths::concat("Failed to resolve patch path: ", text));
                    }
                }
            },
        }
        match self.phase {
            WalkPhase::Inspecting => WalkStep::Inspect(AbsPath { segments: clone_names(&self.cursor) }),
            _ => WalkStep::Resolve(AbsPath { segments: clone_names(&self.cursor) }),
        }
    }
}

} // verus!
