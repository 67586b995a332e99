//! The creation-policy engine.
//!
//! Resolving a path under a creation policy needs a handful of filesystem
//! effects: probing whether a path exists, making parent folders, and
//! creating a file exclusively.  The engine makes every decision — which
//! effect to ask for next, how to react to its outcome, which error to
//! report — while the caller performs the effects.  A driver repeatedly
//! takes the current [`Step`] from [`Engine::next`], performs it, and
//! hands the outcome back through [`Engine::feed`], until the step is
//! `Done` or `Failed`.
//!
//! In a dry run nothing is created — no file and no parent folder — and
//! the final existence check is skipped: the engine only previews the
//! name that would be chosen.

use vstd::prelude::*;

use crate::create::Create;
use crate::document_error::DocumentError;
use crate::filename::{
    assemble,
    counter_of,
    dot_ext_of,
    parse_filepath,
    spec_assemble,
    stem_of,
};
use crate::path::{filename_of, join_dir, join_under, opt_view, parent_of, parent_str};

verus! {

/// Where the engine stands.
#[derive(Debug, Clone, Copy, PartialEq, Eq, Structural)]
pub enum Phase {
    /// Ask the driver to make the parent folder.
    EnsureParent,
    /// Ask whether the path exists, to decide whether to create it.
    Probe,
    /// Ask whether the current candidate exists, renaming while it does.
    Scan,
    /// Ask the driver to create the file exclusively.
    Create,
    /// Ask whether the path exists, as the final postcondition check.
    FinalCheck,
    /// Resolution succeeded.
    Done,
    /// The parent folder could not be made.
    FailedParent,
    /// The file could not be created.
    FailedCreate,
    /// The path still does not exist after the policy ran.
    FailedMissing,
    /// The counter space was exhausted while renaming.
    FailedFull,
}

/// What the engine asks of its driver, or how it ended.
#[derive(Debug, Clone, PartialEq)]
pub enum Step {
    /// Create this folder and every missing parent of it.
    MakeParentDir(String),
    /// Report whether a file exists at this path.
    CheckExists(String),
    /// Create a file at this path, failing if something already exists.
    CreateNew(String),
    /// The final resolved path.
    Done(String),
    /// The error the resolution ends with.
    Failed(DocumentError),
}

/// The mathematical state of an engine.
pub struct EngineView {
    pub policy: Create,
    pub dry_run: bool,
    pub dir: Option<Seq<char>>,
    pub stem: Seq<char>,
    pub ext: Seq<char>,
    pub counter: int,
    pub path: Seq<char>,
    pub phase: Phase,
    pub start: Seq<char>,
    pub counter0: int,
}

/// The extension of a name, or empty when there is none.
pub open spec fn ext_or_empty(name: Seq<char>) -> Seq<char> {
    match dot_ext_of(name) {
        Option::Some(e) => e,
        Option::None => Seq::empty(),
    }
}

/// The counter recognized in a name, or zero when there is none.
pub open spec fn counter_or_zero(name: Seq<char>) -> int {
    match counter_of(name) {
        Option::Some(c) => c as int,
        Option::None => 0,
    }
}

/// The phase that does the policy's work once the parent folder stands.
pub open spec fn work_phase(policy: Create) -> Phase {
    if policy is OnlyIfNotExists {
        Phase::Probe
    } else {
        Phase::Scan
    }
}

/// The phase after the policy's work: the final existence check, skipped
/// in a dry run.
pub open spec fn final_phase(dry_run: bool) -> Phase {
    if dry_run {
        Phase::Done
    } else {
        Phase::FinalCheck
    }
}

/// Whether the engine is waiting for the driver.
pub open spec fn requesting(ph: Phase) -> bool {
    ph is EnsureParent || ph is Probe || ph is Scan || ph is Create || ph is FinalCheck
}

/// The state a fresh engine starts in.
pub open spec fn spec_init(path: Seq<char>, policy: Create, dry_run: bool) -> EngineView {
    let fname = filename_of(path);
    let dir = parent_of(path);
    let phase = match policy {
        Create::No => final_phase(dry_run),
        _ => if !dry_run && dir is Some {
            Phase::EnsureParent
        } else {
            work_phase(policy)
        },
    };
    EngineView {
        policy,
        dry_run,
        dir,
        stem: stem_of(fname),
        ext: ext_or_empty(fname),
        counter: counter_or_zero(fname),
        path,
        phase,
        start: path,
        counter0: counter_or_zero(fname),
    }
}

/// The transition the engine makes on the outcome of the requested step.
pub open spec fn spec_step(v: EngineView, ok: bool) -> EngineView {
    match v.phase {
        Phase::EnsureParent => if ok {
            EngineView { phase: work_phase(v.policy), ..v }
        } else {
            EngineView { phase: Phase::FailedParent, ..v }
        },
        Phase::Probe => if ok {
            EngineView { phase: final_phase(v.dry_run), ..v }
        } else if v.dry_run {
            EngineView { phase: Phase::Done, ..v }
        } else {
            EngineView { phase: Phase::Create, ..v }
        },
        Phase::Scan => if ok {
            if v.counter == i64::MAX {
                EngineView { phase: Phase::FailedFull, ..v }
            } else {
                EngineView {
                    counter: v.counter + 1,
                    path: join_dir(v.dir, spec_assemble(v.stem, v.counter + 1, v.ext)),
                    ..v
                }
            }
        } else if v.dry_run {
            EngineView { phase: Phase::Done, ..v }
        } else {
            EngineView { phase: Phase::Create, ..v }
        },
        Phase::Create => if ok {
            EngineView { phase: Phase::FinalCheck, ..v }
        } else {
            EngineView { phase: Phase::FailedCreate, ..v }
        },
        Phase::FinalCheck => if ok {
            EngineView { phase: Phase::Done, ..v }
        } else {
            EngineView { phase: Phase::FailedMissing, ..v }
        },
        _ => v,
    }
}

/// The engine invariant: the stem, extension, counter and parent come from
/// decomposing the starting path, and the current path is the starting
/// path until the counter moves, after which it is the assembled candidate
/// for the current counter.
pub open spec fn wf(v: EngineView) -> bool {
    let fname = filename_of(v.start);
    &&& v.dir == parent_of(v.start)
    &&& v.stem == stem_of(fname)
    &&& v.ext == ext_or_empty(fname)
    &&& v.counter0 == counter_or_zero(fname)
    &&& i64::MIN <= v.counter0
    &&& v.counter0 <= v.counter
    &&& v.counter <= i64::MAX
    &&& (v.counter == v.counter0 ==> v.path == v.start)
    &&& (v.counter > v.counter0 ==> v.path == join_dir(
        v.dir,
        spec_assemble(v.stem, v.counter, v.ext),
    ))
    &&& (v.phase is EnsureParent ==> v.dir is Some && !(v.policy is No) && !v.dry_run)
    &&& (v.phase is Create ==> !v.dry_run)
    &&& (v.phase is FailedParent ==> v.dir is Some)
    &&& (v.phase is Probe ==> v.policy is OnlyIfNotExists)
    &&& (v.phase is Scan ==> v.policy is AutoRenameIfExists)
    &&& (v.policy is No ==> v.counter == v.counter0)
}

/// A fresh engine satisfies the invariant, and a step preserves it.
pub proof fn lemma_init_wf(path: Seq<char>, policy: Create, dry_run: bool)
    ensures
        wf(spec_init(path, policy, dry_run)),
{
}

pub proof fn lemma_step_wf(v: EngineView, ok: bool)
    requires
        wf(v),
    ensures
        wf(spec_step(v, ok)),
{
}

/// Under policy `No` the engine only ever checks existence: it starts in
/// a checking-or-finished state and every step stays in one, so no
/// folder or file creation is ever requested of the driver.
pub proof fn lemma_never_policy_only_checks(path: Seq<char>, dry_run: bool)
    ensures
        ({
            let v = spec_init(path, Create::No, dry_run);
            v.phase is FinalCheck || v.phase is Done
        }),
        forall|v: EngineView, ok: bool|
            v.policy is No && (v.phase is FinalCheck || v.phase is Done
                || v.phase is FailedMissing) ==> {
                let w = #[trigger] spec_step(v, ok);
                w.phase is FinalCheck || w.phase is Done || w.phase is FailedMissing
            },
{
}

/// A dry run creates nothing: a well-formed dry-run engine is never in a
/// phase that requests folder or file creation, so the resolution loop
/// runs with existence checks alone and the filesystem is untouched.
pub proof fn lemma_dry_run_never_creates(v: EngineView)
    requires
        wf(v),
        v.dry_run,
    ensures
        !(v.phase is EnsureParent),
        !(v.phase is Create),
{
}

/// How far the engine still has to go; every transition either lowers the
/// rank or raises the counter, which bounds any driver loop.
pub open spec fn phase_rank(ph: Phase) -> int {
    match ph {
        Phase::EnsureParent => 5,
        Phase::Probe => 4,
        Phase::Scan => 3,
        Phase::Create => 2,
        Phase::FinalCheck => 1,
        _ => 0,
    }
}

/// The engine itself: the decomposed name, the current candidate, and the
/// phase.  `start` and `counter0` record the starting point in ghost form
/// for the invariant.
pub struct Engine {
    policy: Create,
    dry_run: bool,
    dir: Option<String>,
    stem: String,
    ext: String,
    counter: i64,
    path: String,
    phase: Phase,
    start: Ghost<Seq<char>>,
    counter0: Ghost<int>,
}

impl View for Engine {
    type V = EngineView;

    closed spec fn view(&self) -> EngineView {
        EngineView {
            policy: self.policy,
            dry_run: self.dry_run,
            dir: opt_view(&self.dir),
            stem: self.stem@,
            ext: self.ext@,
            counter: self.counter as int,
            path: self.path@,
            phase: self.phase,
            start: self.start@,
            counter0: self.counter0@,
        }
    }
}

impl Engine {
    /// Start resolving `path` under `policy`.
    pub fn new(path: &str, policy: Create, dry_run: bool) -> (e: Engine)
        ensures
            e@ == spec_init(path@, policy, dry_run),
            wf(e@),
    {
        let parts = parse_filepath(path);
        let stem = parts.0;
        let counter: i64 = match parts.1 {
            Option::Some(c) => c,
            Option::None => 0,
        };
        let ext: String = match parts.2 {
            Option::Some(e) => e,
            Option::None => String::new(),
        };
        let dir = parent_str(path);
        let phase = match policy {
            Create::No => if dry_run {
                Phase::Done
            } else {
                Phase::FinalCheck
            },
            Create::OnlyIfNotExists => if !dry_run && dir.is_some() {
                Phase::EnsureParent
            } else {
                Phase::Probe
            },
            Create::AutoRenameIfExists => if !dry_run && dir.is_some() {
                Phase::EnsureParent
            } else {
                Phase::Scan
            },
        };
        let e = Engine {
            policy,
            dry_run,
            dir,
            stem,
            ext,
            counter,
            path: path.to_owned(),
            phase,
            start: Ghost(path@),
            counter0: Ghost(counter as int),
        };
        proof {
            assert(e@ == spec_init(path@, policy, dry_run)) by {
                assert(ext@ == ext_or_empty(filename_of(path@)));
                assert(counter as int == counter_or_zero(filename_of(path@)));
            }
        }
        e
    }

    /// The step the driver is asked to perform, or how the run ended.
    pub fn next(&self) -> (s: Step)
        requires
            wf(self@),
        ensures
            ({
                let v = self@;
                match v.phase {
                    Phase::EnsureParent => s matches Step::MakeParentDir(d) && v.dir
                        matches Some(dv) && d@ == dv,
                    Phase::Probe | Phase::Scan | Phase::FinalCheck => s matches Step::CheckExists(
                        p,
                    ) && p@ == v.path,
                    Phase::Create => s matches Step::CreateNew(p) && p@ == v.path,
                    Phase::Done => s matches Step::Done(p) && p@ == v.path,
                    Phase::FailedParent => s matches Step::Failed(e) && e
                        matches DocumentError::CouldNotCreateParentFolder(d) && v.dir
                        matches Some(dv) && d@ == dv,
                    Phase::FailedCreate => s matches Step::Failed(e) && e
                        matches DocumentError::CouldNotOpenFile(p) && p@ == v.path,
                    Phase::FailedMissing => s matches Step::Failed(e) && e
                        matches DocumentError::FileNotFound(p) && p@ == v.path,
                    Phase::FailedFull => s matches Step::Failed(e) && e
                        matches DocumentError::CouldNotCreateFile(p) && p@ == v.path,
                }
            }),
    {
        match self.phase {
            Phase::EnsureParent | Phase::FailedParent => {
                let d: String = match &self.dir {
                    Option::Some(d) => d.clone(),
                    Option::None => {
                        proof {
                            assert(false);
                        }
                        String::new()
                    },
                };
                if let Phase::EnsureParent = self.phase {
                    Step::MakeParentDir(d)
                } else {
                    Step::Failed(DocumentError::CouldNotCreateParentFolder(d))
                }
            },
            Phase::Probe | Phase::Scan | Phase::FinalCheck => Step::CheckExists(
                self.path.clone(),
            ),
            Phase::Create => Step::CreateNew(self.path.clone()),
            Phase::Done => Step::Done(self.path.clone()),
            Phase::FailedCreate => Step::Failed(
                DocumentError::CouldNotOpenFile(self.path.clone()),
            ),
            Phase::FailedMissing => Step::Failed(DocumentError::FileNotFound(self.path.clone())),
            Phase::FailedFull => Step::Failed(DocumentError::CouldNotCreateFile(self.path.clone())),
        }
    }

    /// React to the outcome of the requested step.
    pub fn feed(&mut self, ok: bool)
        requires
            wf(old(self)@),
            requesting(old(self)@.phase),
        ensures
            final(self)@ == spec_step(old(self)@, ok),
            wf(final(self)@),
    {
        match self.phase {
            Phase::EnsureParent => {
                if ok {
                    self.phase = match self.policy {
                        Create::OnlyIfNotExists => Phase::Probe,
                        _ => Phase::Scan,
                    };
                } else {
                    self.phase = Phase::FailedParent;
                }
            },
            Phase::Probe => {
                if ok {
                    self.phase = if self.dry_run {
                        Phase::Done
                    } else {
                        Phase::FinalCheck
                    };
                } else if self.dry_run {
                    self.phase = Phase::Done;
                } else {
                    self.phase = Phase::Create;
                }
            },
            Phase::Scan => {
                if ok {
                    if self.counter == i64::MAX {
                        self.phase = Phase::FailedFull;
                    } else {
                        self.counter = self.counter + 1;
                        let fname = assemble(
                            self.stem.as_str(),
                            self.counter,
                            self.ext.as_str(),
                        );
                        self.path = join_under(&self.dir, fname.as_str());
                    }
                } else if self.dry_run {
                    self.phase = Phase::Done;
                } else {
                    self.phase = Phase::Create;
                }
            },
            Phase::Create => {
                if ok {
                    self.phase = Phase::FinalCheck;
                } else {
                    self.phase = Phase::FailedCreate;
                }
            },
            Phase::FinalCheck => {
                if ok {
                    self.phase = Phase::Done;
                } else {
                    self.phase = Phase::FailedMissing;
                }
            },
            _ => {
            },
        }
    }
}

} // verus!
