//! The orchestrator of one audit run, as a state machine.
//!
//! A run moves forward through enumeration, sizing, ranking, recording
//! and a final log entry; no transition ever goes back.  The machine only
//! decides: every outside effect (walking the tree, sizing a directory,
//! opening the store, appending a row) is an [`Action`] handed to the
//! caller, who performs it and feeds the outcome back as an [`Event`].
//! Per-item failures are absorbed — a directory that cannot be sized is
//! excluded, a row that cannot be appended is skipped — while a store
//! that cannot be opened ends the run at once, fatally, before any row
//! is asked for.

use vstd::prelude::*;
use crate::config::Opts;
use crate::frontier::{deduplicate, frontier};
use crate::rank::{is_top_ranked, rank, SizedDirectory};

verus! {

/// Where a run stands.  `Sizing` keeps the frontier directories still to
/// be sized (the next one is the last element) and the outcomes gathered
/// so far; `Inserting` keeps the ranked entries and the index of the row
/// whose insertion is in flight.
pub enum Phase {
    Start,
    Enumerating,
    Sizing { remaining: Vec<String>, sized: Vec<SizedDirectory> },
    Recording { ranked: Vec<SizedDirectory> },
    Inserting { ranked: Vec<SizedDirectory>, next: usize },
    Logging,
    Done { ok: bool },
}

/// The outcome of the outside work the machine last asked for.
pub enum Event {
    Started,
    Enumerated { dirs: Vec<String> },
    Sized { size: Option<u64> },
    StoreOpened { ok: bool },
    RowInserted { ok: bool },
    LogInserted { ok: bool },
}

/// What the caller is to do next.
pub enum Action {
    Enumerate { root: String, depth: usize, same_fs: bool },
    SizeDir { directory: String },
    OpenStore { db_path: String },
    InsertRow { directory: String, size: u64 },
    InsertLog,
    Exit { ok: bool },
}

/// Internal soundness of a phase: an in-flight sizing or insertion always
/// has a subject.
pub open spec fn phase_inv(phase: Phase) -> bool {
    match phase {
        Phase::Sizing { remaining, .. } => remaining@.len() > 0,
        Phase::Inserting { ranked, next } => next < ranked@.len(),
        _ => true,
    }
}

/// Which outcome each phase awaits.  A finished run awaits nothing.
pub open spec fn event_fits(phase: Phase, event: Event) -> bool {
    match phase {
        Phase::Start => event matches Event::Started,
        Phase::Enumerating => event matches Event::Enumerated { .. },
        Phase::Sizing { .. } => event matches Event::Sized { .. },
        Phase::Recording { .. } => event matches Event::StoreOpened { .. },
        Phase::Inserting { .. } => event matches Event::RowInserted { .. },
        Phase::Logging => event matches Event::LogInserted { .. },
        Phase::Done { .. } => false,
    }
}

/// The run enters recording: the gathered outcomes are ranked and the
/// caller is asked to open the store.
pub open spec fn recording_entry(opts: &Opts, szd: Seq<SizedDirectory>, p2: Phase, a: Action) -> bool {
    &&& (p2 matches Phase::Recording { ranked } && is_top_ranked(
        szd,
        opts.watcher_count as int,
        ranked@,
    ))
    &&& (a matches Action::OpenStore { db_path } && db_path@ == opts.db_path@)
}

/// After a sizing outcome: either the next directory is sized, or, with
/// none left, the run enters recording.
pub open spec fn sizing_continue(
    opts: &Opts,
    rem: Seq<String>,
    szd: Seq<SizedDirectory>,
    p2: Phase,
    a: Action,
) -> bool {
    if rem.len() > 0 {
        &&& (p2 matches Phase::Sizing { remaining, sized } && remaining@ == rem && sized@ == szd)
        &&& (a matches Action::SizeDir { directory } && directory@ == rem.last()@)
    } else {
        recording_entry(opts, szd, p2, a)
    }
}

/// The run leaves enumeration: the discovered directories are reduced to
/// their frontier `fr`; sizing starts on it, or, with an empty frontier,
/// recording starts with no entries.
pub open spec fn sizing_entry(opts: &Opts, fr: Seq<Seq<char>>, p2: Phase, a: Action) -> bool {
    if fr.len() > 0 {
        &&& (p2 matches Phase::Sizing { remaining, sized } && remaining.deep_view() == fr
            && sized@.len() == 0)
        &&& (a matches Action::SizeDir { directory } && directory@ == fr.last())
    } else {
        recording_entry(opts, Seq::<SizedDirectory>::empty(), p2, a)
    }
}

/// After a row outcome — kept or not, appending is best-effort — either
/// the next row is asked for, or the run moves on to the timing log.
pub open spec fn inserting_continue(ranked: Seq<SizedDirectory>, n2: int, p2: Phase, a: Action) -> bool {
    if n2 < ranked.len() {
        &&& (p2 matches Phase::Inserting { ranked: r2, next } && r2@ == ranked && next == n2)
        &&& (a matches Action::InsertRow { directory, size } && directory@
            == ranked[n2].directory@ && size == ranked[n2].size)
    } else {
        &&& p2 == Phase::Logging
        &&& a == Action::InsertLog
    }
}

/// The full transition relation of the machine: what the next phase and
/// the next action must be for each phase and the outcome it awaited.
pub open spec fn step_spec(opts: &Opts, phase: Phase, event: Event, p2: Phase, a: Action) -> bool {
    match phase {
        Phase::Start => {
            &&& p2 == Phase::Enumerating
            &&& (a matches Action::Enumerate { root, depth, same_fs } && root@
                == opts.watcher_path@ && depth == opts.watcher_depth && same_fs
                == opts.watcher_same_fs)
        },
        Phase::Enumerating => (event matches Event::Enumerated { dirs } ==> sizing_entry(
            opts,
            frontier(dirs.deep_view()),
            p2,
            a,
        )),
        Phase::Sizing { remaining, sized } => (event matches Event::Sized { size } ==> {
            let szd2 = match size {
                Some(sz) => sized@.push(
                    SizedDirectory { directory: remaining@.last(), size: sz },
                ),
                None => sized@,
            };
            sizing_continue(opts, remaining@.drop_last(), szd2, p2, a)
        }),
        Phase::Recording { ranked } => (event matches Event::StoreOpened { ok } ==> {
            if ok {
                inserting_continue(ranked@, 0, p2, a)
            } else {
                &&& p2 == Phase::Done { ok: false }
                &&& a == Action::Exit { ok: false }
            }
        }),
        Phase::Inserting { ranked, next } => (event matches Event::RowInserted { .. }
            ==> inserting_continue(ranked@, next + 1, p2, a)),
        Phase::Logging => (event matches Event::LogInserted { .. } ==> {
            &&& p2 == Phase::Done { ok: true }
            &&& a == Action::Exit { ok: true }
        }),
        Phase::Done { .. } => true,
    }
}

/// Starts the sizing stage on what is left of the frontier, or enters
/// recording once nothing is left.
fn advance_sizing(opts: &Opts, remaining: Vec<String>, sized: Vec<SizedDirectory>) -> (r: (
    Phase,
    Action,
))
    ensures
        phase_inv(r.0),
        sizing_continue(opts, remaining@, sized@, r.0, r.1),
{
    if remaining.len() > 0 {
        let directory = remaining[remaining.len() - 1].clone();
        (Phase::Sizing { remaining, sized }, Action::SizeDir { directory })
    } else {
        let ranked = rank(sized, opts.watcher_count);
        (Phase::Recording { ranked }, Action::OpenStore { db_path: opts.db_path.clone() })
    }
}

/// Asks for the insertion of row `next` of the ranked result, or, past
/// the last row, for the timing log entry.
fn advance_inserting(ranked: Vec<SizedDirectory>, next: usize) -> (r: (Phase, Action))
    requires
        next <= ranked@.len(),
    ensures
        phase_inv(r.0),
        inserting_continue(ranked@, next as int, r.0, r.1),
{
    if next < ranked.len() {
        let directory = ranked[next].directory.clone();
        let size = ranked[next].size;
        (Phase::Inserting { ranked, next }, Action::InsertRow { directory, size })
    } else {
        (Phase::Logging, Action::InsertLog)
    }
}

/// One decision of the orchestrator: from the current phase and the
/// outcome of the last action, the next phase and the next action.
pub fn step(opts: &Opts, phase: Phase, event: Event) -> (r: (Phase, Action))
    requires
        phase_inv(phase),
        event_fits(phase, event),
    ensures
        phase_inv(r.0),
        step_spec(opts, phase, event, r.0, r.1),
{
    match (phase, event) {
        (Phase::Start, Event::Started) => (
            Phase::Enumerating,
            Action::Enumerate {
                root: opts.watcher_path.clone(),
                depth: opts.watcher_depth,
                same_fs: opts.watcher_same_fs,
            },
        ),
        (Phase::Enumerating, Event::Enumerated { dirs }) => {
            let remaining = deduplicate(&dirs);
            let r = advance_sizing(opts, remaining, Vec::new());
            proof {
                let fr = frontier(dirs.deep_view());
                let p = r.0;
                if fr.len() > 0 {
                    if let Phase::Sizing { remaining: r2, sized: s2 } = &p {
                        assert(r2.deep_view() =~= fr);
                        assert(r2.deep_view().last() == r2@.last()@);
                    }
                }
            }
            r
        },
        (Phase::Sizing { mut remaining, mut sized }, Event::Sized { size }) => {
            let dir = match remaining.pop() {
                Some(d) => d,
                None => vstd::pervasive::unreached(),
            };
            match size {
                Some(sz) => {
                    sized.push(SizedDirectory { directory: dir, size: sz });
                },
                None => {},
            }
            advance_sizing(opts, remaining, sized)
        },
        (Phase::Recording { ranked }, Event::StoreOpened { ok }) => {
            if ok {
                advance_inserting(ranked, 0)
            } else {
                (Phase::Done { ok: false }, Action::Exit { ok: false })
            }
        },
        (Phase::Inserting { ranked, next }, Event::RowInserted { .. }) => {
            let len = ranked.len();
            assert(next < len);
            advance_inserting(ranked, next + 1)
        },
        (Phase::Logging, Event::LogInserted { .. }) => (
            Phase::Done { ok: true },
            Action::Exit { ok: true },
        ),
        _ => vstd::pervasive::unreached(),
    }
}

/// The kind of outcome that answers each request.  An exit request needs
/// no answer.
pub open spec fn action_answered_by(a: Action, e: Event) -> bool {
    match a {
        Action::Enumerate { .. } => e matches Event::Enumerated { .. },
        Action::SizeDir { .. } => e matches Event::Sized { .. },
        Action::OpenStore { .. } => e matches Event::StoreOpened { .. },
        Action::InsertRow { .. } => e matches Event::RowInserted { .. },
        Action::InsertLog => e matches Event::LogInserted { .. },
        Action::Exit { .. } => false,
    }
}

/// Law: the machine's requests and phases agree.  Whatever outcome
/// answers the request it just made is an outcome the next phase awaits,
/// so a caller that performs each action and feeds its outcome back
/// always meets the machine's preconditions; and the machine asks to
/// exit exactly when the run is done.
pub proof fn lemma_action_matches_phase(
    opts: &Opts,
    phase: Phase,
    event: Event,
    p2: Phase,
    a: Action,
)
    requires
        phase_inv(phase),
        event_fits(phase, event),
        step_spec(opts, phase, event, p2, a),
    ensures
        forall|e: Event| action_answered_by(a, e) ==> event_fits(p2, e),
        (a matches Action::Exit { .. }) <==> (p2 matches Phase::Done { .. }),
{
}

/// Law: a store that fails to open ends the run at once and fatally; the
/// machine is done, asks for no insertion, and awaits no further outcome.
pub proof fn lemma_store_failure_is_fatal(opts: &Opts, phase: Phase, p2: Phase, a: Action)
    requires
        phase matches Phase::Recording { .. },
        step_spec(opts, phase, Event::StoreOpened { ok: false }, p2, a),
    ensures
        p2 == (Phase::Done { ok: false }),
        a == (Action::Exit { ok: false }),
        forall|e: Event| !event_fits(p2, e),
{
}

} // verus!
