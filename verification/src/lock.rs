//! Holding the modules of a graph to a lock file.
use vstd::prelude::*;
use vstd::string::*;
use crate::module_graph::{ModuleGraph, ModuleView};
use crate::specifier::SpecifierView;

verus! {

/// How far the modules of a graph have been held to the lock file.
#[derive(Debug, Clone, Copy, PartialEq, Eq)]
pub enum LockProgress {
    /// None has been.
    Start,
    /// The module at `index` matches the lock file.
    Accepted { index: usize },
    /// The module at `index` does not match the lock file.
    Refused { index: usize },
}

/// What a step stands for.
pub enum LockStepView {
    Check { index: int },
    Exit { code: i32, message: Seq<char> },
    Done,
}

/// What comes next.
#[derive(Debug, PartialEq, Eq)]
pub enum LockStep {
    /// Hold the source of the module at `index` to the lock file.
    Check { index: usize },
    /// Print `message` and exit with `code`.
    Exit { code: i32, message: String },
    /// All modules match.
    Done,
}

impl View for LockStep {
    type V = LockStepView;

    open spec fn view(&self) -> LockStepView {
        match self {
            LockStep::Check { index } => LockStepView::Check { index: *index as int },
            LockStep::Exit { code, message } => LockStepView::Exit { code: *code, message: message@ },
            LockStep::Done => LockStepView::Done,
        }
    }
}

/// What is said of a module that does not match the lock file.
pub open spec fn lock_message(specifier: SpecifierView, lock_file: Seq<char>) -> Seq<char> {
    "The source code is invalid, as it does not match the expected hash in the lock file.\n  Specifier: "@
        + specifier.text + "\n  Lock file: "@ + lock_file
}

impl LockProgress {
    /// The progress is one on `modules`.
    pub open spec fn valid(self, modules: Seq<ModuleView>) -> bool {
        match self {
            LockProgress::Start => true,
            LockProgress::Accepted { index } => index < modules.len(),
            LockProgress::Refused { index } => index < modules.len(),
        }
    }
}

/// The first step from position `from` on: the next module with source is held
/// to the lock file.
pub open spec fn check_from(modules: Seq<ModuleView>, from: int) -> LockStepView
    decreases modules.len() - from,
{
    if from >= modules.len() {
        LockStepView::Done
    } else if modules[from].maybe_source is Some {
        LockStepView::Check { index: from }
    } else {
        check_from(modules, from + 1)
    }
}

/// What comes after `progress`.
pub open spec fn lock_step(
    modules: Seq<ModuleView>,
    progress: LockProgress,
    lock_file: Seq<char>,
) -> LockStepView {
    match progress {
        LockProgress::Start => check_from(modules, 0),
        LockProgress::Accepted { index } => check_from(modules, index + 1),
        LockProgress::Refused { index } => LockStepView::Exit {
            code: 10,
            message: lock_message(modules[index as int].specifier, lock_file),
        },
    }
}

/// Checks the lockfile against the graph and exits on errors: says what comes
/// after `progress`.
pub fn graph_lock_or_exit(
    graph: &ModuleGraph,
    progress: LockProgress,
    lock_file: &str,
) -> (result: LockStep)
    requires
        progress.valid(graph@.modules),
    ensures
        result@ == lock_step(graph@.modules, progress, lock_file@),
{
    let n = graph.modules.len();
    let mut i: usize = 0;
    match progress {
        LockProgress::Start => {},
        LockProgress::Accepted { index } => {
            i = index + 1;
        },
        LockProgress::Refused { index } => {
            let mut message = "The source code is invalid, as it does not match the expected hash in the lock file.\n  Specifier: ".to_owned();
            message.append(graph.modules[index].specifier.text.as_str());
            message.append("\n  Lock file: ");
            message.append(lock_file);
            return LockStep::Exit { code: 10, message };
        },
    }
    while i < n
        invariant
            n == graph.modules@.len(),
            i <= n,
            lock_step(graph@.modules, progress, lock_file@) == check_from(
                graph@.modules,
                i as int,
            ),
        decreases n - i,
    {
        assert(graph@.modules[i as int] == (*graph.modules@[i as int])@);
        if graph.modules[i].maybe_source.is_some() {
            return LockStep::Check { index: i };
        }
        i = i + 1;
    }
    LockStep::Done
}

/// The next check is of the first module with source from `from` on; there is
/// none if no such module is left.
proof fn lemma_check_from(modules: Seq<ModuleView>, from: int)
    requires
        0 <= from,
    ensures
        match check_from(modules, from) {
            LockStepView::Check { index } => {
                &&& from <= index < modules.len()
                &&& modules[index].maybe_source is Some
                &&& forall|k: int|
                    from <= k < index ==> (#[trigger] modules[k]).maybe_source is None
            },
            LockStepView::Exit { .. } => false,
            LockStepView::Done => forall|k: int|
                from <= k < modules.len() ==> (#[trigger] modules[k]).maybe_source is None,
        },
    decreases modules.len() - from,
{
    if from < modules.len() && modules[from].maybe_source is None {
        lemma_check_from(modules, from + 1);
    }
}

impl LockProgress {
    /// How many steps may be left, at the most.
    pub open spec fn left(self, modules: Seq<ModuleView>) -> int {
        match self {
            LockProgress::Start => modules.len() + 1int,
            LockProgress::Accepted { index } => modules.len() - index,
            LockProgress::Refused { .. } => 0,
        }
    }
}

/// Where the steps end that begin after `progress`, if each check finds that the
/// module matches the lock file exactly where `matching` says so.
pub open spec fn lock_run(
    modules: Seq<ModuleView>,
    matching: Seq<bool>,
    progress: LockProgress,
    lock_file: Seq<char>,
) -> LockStepView
    decreases progress.left(modules),
    when modules.len() <= usize::MAX && progress.valid(modules)
    via lock_run_ends
{
    match lock_step(modules, progress, lock_file) {
        LockStepView::Check { index } => lock_run(
            modules,
            matching,
            if matching[index] {
                LockProgress::Accepted { index: index as usize }
            } else {
                LockProgress::Refused { index: index as usize }
            },
            lock_file,
        ),
        step => step,
    }
}

#[via_fn]
proof fn lock_run_ends(
    modules: Seq<ModuleView>,
    matching: Seq<bool>,
    progress: LockProgress,
    lock_file: Seq<char>,
) {
    match progress {
        LockProgress::Start => lemma_check_from(modules, 0),
        LockProgress::Accepted { index } => lemma_check_from(modules, index + 1),
        LockProgress::Refused { .. } => {},
    }
}

/// The steps from position `from` on end as the modules from there on say.
proof fn lemma_lock_run(
    modules: Seq<ModuleView>,
    matching: Seq<bool>,
    progress: LockProgress,
    lock_file: Seq<char>,
    from: int,
    i: int,
)
    requires
        modules.len() <= usize::MAX,
        matching.len() == modules.len(),
        progress.valid(modules),
        match progress {
            LockProgress::Start => from == 0,
            LockProgress::Accepted { index } => from == index + 1,
            LockProgress::Refused { .. } => false,
        },
        from <= i <= modules.len(),
        i < modules.len() ==> modules[i].maybe_source is Some && !matching[i],
        forall|k: int|
            from <= k < i && (#[trigger] modules[k]).maybe_source is Some ==> matching[k],
    ensures
        lock_run(modules, matching, progress, lock_file) == if i < modules.len() {
            LockStepView::Exit { code: 10, message: lock_message(modules[i].specifier, lock_file) }
        } else {
            LockStepView::Done
        },
    decreases modules.len() - from,
{
    lemma_check_from(modules, from);
    if let LockStepView::Check { index } = check_from(modules, from) {
        if matching[index] {
            assert(index < i);
            lemma_lock_run(
                modules,
                matching,
                LockProgress::Accepted { index: index as usize },
                lock_file,
                index + 1,
                i,
            );
        } else {
            assert(index == i);
            reveal_with_fuel(lock_run, 2);
        }
    }
}

/// The modules are held to the lock file until one with source does not match:
/// then the steps end in an exit that names it. If all match, or have no
/// source, they end well.
pub proof fn law_lock_run(
    modules: Seq<ModuleView>,
    matching: Seq<bool>,
    lock_file: Seq<char>,
    i: int,
)
    requires
        modules.len() <= usize::MAX,
        matching.len() == modules.len(),
        0 <= i <= modules.len(),
        i < modules.len() ==> modules[i].maybe_source is Some && !matching[i],
        forall|k: int| 0 <= k < i && (#[trigger] modules[k]).maybe_source is Some ==> matching[k],
    ensures
        lock_run(modules, matching, LockProgress::Start, lock_file) == if i < modules.len() {
            LockStepView::Exit { code: 10, message: lock_message(modules[i].specifier, lock_file) }
        } else {
            LockStepView::Done
        },
{
    lemma_lock_run(modules, matching, LockProgress::Start, lock_file, 0, i);
}

/// Only modules with source are held to the lock file, each once and in order:
/// behind one that matches comes the next that has source.
pub proof fn law_lock_order(modules: Seq<ModuleView>, progress: LockProgress, lock_file: Seq<char>)
    requires
        progress.valid(modules),
    ensures
        lock_step(modules, progress, lock_file) matches LockStepView::Check { index } ==> {
            &&& 0 <= index < modules.len()
            &&& modules[index].maybe_source is Some
            &&& progress matches LockProgress::Accepted { index: before } ==> before < index
            &&& forall|k: int|
                (progress matches LockProgress::Accepted { index: before } ==> before < k) && 0 <= k
                    < index ==> (#[trigger] modules[k]).maybe_source is None
        },
{
    match progress {
        LockProgress::Start => lemma_check_from(modules, 0),
        LockProgress::Accepted { index } => lemma_check_from(modules, index + 1),
        LockProgress::Refused { .. } => {},
    }
}

/// From the start, or from behind a module that matches, the next module with
/// source is held to the lock file, and none is passed over; if none is left,
/// all is done. A module that does not match ends the process with a message
/// that names it and the lock file.
pub proof fn law_lock_steps(
    modules: Seq<ModuleView>,
    progress: LockProgress,
    lock_file: Seq<char>,
    i: int,
)
    requires
        0 <= i <= modules.len(),
        match progress {
            LockProgress::Start => true,
            LockProgress::Accepted { index } => index < i,
            LockProgress::Refused { index } => index < modules.len(),
        },
        i < modules.len() ==> modules[i].maybe_source is Some,
        forall|k: int|
            0 <= k < i && (progress matches LockProgress::Accepted { index } ==> index < k) ==> (
            #[trigger] modules[k]).maybe_source is None,
    ensures
        match progress {
            LockProgress::Refused { index } => lock_step(modules, progress, lock_file)
                == (LockStepView::Exit {
                code: 10,
                message:
                    "The source code is invalid, as it does not match the expected hash in the lock file.\n  Specifier: "@
                    + modules[index as int].specifier.text + "\n  Lock file: "@ + lock_file,
            }),
            _ => lock_step(modules, progress, lock_file) == if i < modules.len() {
                LockStepView::Check { index: i }
            } else {
                LockStepView::Done
            },
        },
{
    match progress {
        LockProgress::Start => lemma_check_from(modules, 0),
        LockProgress::Accepted { index } => lemma_check_from(modules, index + 1),
        LockProgress::Refused { .. } => {},
    }
}

} // verus!
