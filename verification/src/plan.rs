//! The plan that evaluation produces: per modification, the file-system actions to perform.
use vstd::prelude::*;

verus! {

/// A concrete file-system action produced by evaluation.
///
/// `WriteFile::overwrite = false` requires exclusive creation at execution time. `MoveFile`
/// affects both `source` and `destination`, even though `target_path` returns only the
/// destination.
#[derive(Debug, Clone, PartialEq, Eq)]
pub enum PlannedAction {
    CreateDirectory { path: String },
    WriteFile { path: String, bytes: Vec<u8>, overwrite: bool },
    DeleteFile { path: String, missing_ok: bool },
    MoveFile { source: String, destination: String, overwrite: bool },
}

impl PlannedAction {
    /// The primary target path: for a move, the destination.
    pub open spec fn spec_target_path(&self) -> String {
        match self {
            PlannedAction::CreateDirectory { path } => *path,
            PlannedAction::WriteFile { path, .. } => *path,
            PlannedAction::DeleteFile { path, .. } => *path,
            PlannedAction::MoveFile { destination, .. } => *destination,
        }
    }

    /// Every path the action affects, the source before the destination for a move.
    pub open spec fn spec_affected_paths(&self) -> Seq<String> {
        match self {
            PlannedAction::MoveFile { source, destination, .. } => seq![*source, *destination],
            _ => seq![self.spec_target_path()],
        }
    }

    /// Returns the primary target path; for a move this is the destination.
    pub fn target_path(&self) -> (p: &String)
        ensures
            *p == self.spec_target_path(),
    {
        match self {
            PlannedAction::CreateDirectory { path } => path,
            PlannedAction::WriteFile { path, .. } => path,
            PlannedAction::DeleteFile { path, .. } => path,
            PlannedAction::MoveFile { destination, .. } => destination,
        }
    }

    /// Returns the source path of a move action.
    pub fn source_path(&self) -> (p: Option<&String>)
        ensures
            match self {
                PlannedAction::MoveFile { source, .. } => p == Some(source),
                _ => p.is_none(),
            },
    {
        match self {
            PlannedAction::MoveFile { source, .. } => Some(source),
            _ => None,
        }
    }

    /// Returns every path affected by the action, in source-then-destination order for moves.
    pub fn affected_paths(&self) -> (paths: Vec<&String>)
        ensures
            paths@.len() == self.spec_affected_paths().len(),
            forall|i: int| 0 <= i < paths@.len() ==> *paths@[i] == self.spec_affected_paths()[i],
    {
        let mut paths: Vec<&String> = Vec::new();
        match self {
            PlannedAction::MoveFile { source, destination, .. } => {
                paths.push(source);
                paths.push(destination);
            },
            _ => {
                paths.push(self.target_path());
            },
        }
        paths
    }
}

/// The actions planned for one modification.
#[derive(Debug, Clone, PartialEq, Eq)]
pub struct ModificationPlan {
    modification_index: usize,
    actions: Vec<PlannedAction>,
}

impl ModificationPlan {
    pub closed spec fn spec_modification_index(&self) -> usize {
        self.modification_index
    }

    pub closed spec fn spec_actions(&self) -> Seq<PlannedAction> {
        self.actions@
    }

    pub fn new(modification_index: usize, actions: Vec<PlannedAction>) -> (p: Self)
        ensures
            p.spec_modification_index() == modification_index,
            p.spec_actions() == actions@,
    {
        ModificationPlan { modification_index, actions }
    }

    pub fn modification_index(&self) -> (i: usize)
        ensures
            i == self.spec_modification_index(),
    {
        self.modification_index
    }

    pub fn actions(&self) -> (a: &[PlannedAction])
        ensures
            a@ == self.spec_actions(),
    {
        self.actions.as_slice()
    }
}

/// All actions of a list of modification plans, in order.
pub open spec fn flatten_plans(plans: Seq<ModificationPlan>) -> Seq<PlannedAction>
    decreases plans.len(),
{
    if plans.len() == 0 {
        Seq::empty()
    } else {
        flatten_plans(plans.drop_last()) + plans.last().spec_actions()
    }
}

/// The plan of a whole program: one modification plan per modification, in program order.
#[derive(Debug, Clone, PartialEq, Eq)]
pub struct EvaluationPlan {
    modification_plans: Vec<ModificationPlan>,
}

impl EvaluationPlan {
    pub closed spec fn spec_modification_plans(&self) -> Seq<ModificationPlan> {
        self.modification_plans@
    }

    pub fn new(modification_plans: Vec<ModificationPlan>) -> (p: Self)
        ensures
            p.spec_modification_plans() == modification_plans@,
    {
        EvaluationPlan { modification_plans }
    }

    pub fn modification_plans(&self) -> (p: &[ModificationPlan])
        ensures
            p@ == self.spec_modification_plans(),
    {
        self.modification_plans.as_slice()
    }

    /// All planned actions, modification by modification.
    pub fn actions(&self) -> (a: Vec<&PlannedAction>)
        ensures
            a@.len() == flatten_plans(self.spec_modification_plans()).len(),
            forall|i: int|
                0 <= i < a@.len() ==> *a@[i] == flatten_plans(self.spec_modification_plans())[i],
    {
        let plans = self.modification_plans.as_slice();
        let mut out: Vec<&PlannedAction> = Vec::new();
        let mut s: usize = 0;
        while s < plans.len()
            invariant
                plans@ == self.spec_modification_plans(),
                s <= plans@.len(),
                out@.len() == flatten_plans(plans@.subrange(0, s as int)).len(),
                forall|i: int|
                    0 <= i < out@.len() ==> *out@[i] == flatten_plans(
                        plans@.subrange(0, s as int),
                    )[i],
            decreases plans.len() - s,
        {
            let acts = plans[s].actions();
            let ghost before = out@;
            let mut k: usize = 0;
            while k < acts.len()
                invariant
                    k <= acts@.len(),
                    out@.len() == before.len() + k,
                    forall|i: int| 0 <= i < before.len() ==> out@[i] == before[i],
                    forall|i: int| 0 <= i < k ==> *out@[before.len() + i] == acts@[i],
                decreases acts.len() - k,
            {
                out.push(&acts[k]);
                k = k + 1;
            }
            proof {
                let prev = plans@.subrange(0, s as int);
                let next = plans@.subrange(0, s + 1);
                assert(next.drop_last() =~= prev);
                assert(next.last() == plans@[s as int]);
                let f = flatten_plans(next);
                assert(f == flatten_plans(prev) + acts@);
                assert forall|i: int| 0 <= i < out@.len() implies *out@[i] == f[i] by {
                    if i < before.len() {
                        assert(out@[i] == before[i]);
                    } else {
                        assert(*out@[before.len() + (i - before.len())] == acts@[i
                            - before.len()]);
                    }
                }
            }
            s = s + 1;
        }
        assert(plans@.subrange(0, plans@.len() as int) =~= plans@);
        out
    }
}

/// Options for evaluating and applying an edit program.
///
/// Applying a plan is best-effort: if a file-system action fails, earlier actions are not
/// rolled back.
#[derive(Debug, Clone, Copy, PartialEq, Eq)]
pub struct ExecutionOptions {
    pub dry_run: bool,
}

impl ExecutionOptions {
    pub fn new(dry_run: bool) -> (options: Self)
        ensures
            options.dry_run == dry_run,
    {
        ExecutionOptions { dry_run }
    }
}

impl Default for ExecutionOptions {
    fn default() -> (options: Self)
        ensures
            !options.dry_run,
    {
        ExecutionOptions { dry_run: false }
    }
}

} // verus!
