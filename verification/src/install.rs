//! The one-time resource install: resolve the bundled resource directory,
//! make sure the system and user directories exist, and copy the bundle,
//! file by file, into the system directory.
//!
//! The decisions stand here, verified; the filesystem work they order is
//! performed outside. A step that fails ends the operation with no result;
//! a directory that already exists is as good as one just created. The copy
//! walks the whole bundle: `copy_plan` sends every bundle file to the same
//! relative location under the target directory.

use vstd::prelude::*;
use crate::path::FsPath;

verus! {

/// The stages of the install, in order; `Failed` is where any failing step
/// lands, and the original's caller sees it as an absent result.
#[derive(PartialEq, Eq, Structural, Clone, Copy, Debug)]
pub enum InstallStage {
    ResolveResource,
    EnsureSystemDir,
    EnsureUserDir,
    CopyResources,
    Done,
    Failed,
}

/// How one step of the install went. A directory found already in place
/// counts as done, not as a failure.
#[derive(PartialEq, Eq, Structural, Clone, Copy, Debug)]
pub enum StepOutcome {
    Performed,
    AlreadyPresent,
    Failed,
}

/// The install's transition: any failing step ends it, any other outcome
/// moves to the next stage; the two final stages stay put.
pub open spec fn install_step_spec(stage: InstallStage, outcome: StepOutcome) -> InstallStage {
    match stage {
        InstallStage::ResolveResource => if outcome is Failed {
            InstallStage::Failed
        } else {
            InstallStage::EnsureSystemDir
        },
        InstallStage::EnsureSystemDir => if outcome is Failed {
            InstallStage::Failed
        } else {
            InstallStage::EnsureUserDir
        },
        InstallStage::EnsureUserDir => if outcome is Failed {
            InstallStage::Failed
        } else {
            InstallStage::CopyResources
        },
        InstallStage::CopyResources => if outcome is Failed {
            InstallStage::Failed
        } else {
            InstallStage::Done
        },
        InstallStage::Done => InstallStage::Done,
        InstallStage::Failed => InstallStage::Failed,
    }
}

/// Advances the install by one step.
pub fn install_step(stage: InstallStage, outcome: StepOutcome) -> (r: InstallStage)
    ensures
        r == install_step_spec(stage, outcome),
{
    match stage {
        InstallStage::ResolveResource => if matches!(outcome, StepOutcome::Failed) {
            InstallStage::Failed
        } else {
            InstallStage::EnsureSystemDir
        },
        InstallStage::EnsureSystemDir => if matches!(outcome, StepOutcome::Failed) {
            InstallStage::Failed
        } else {
            InstallStage::EnsureUserDir
        },
        InstallStage::EnsureUserDir => if matches!(outcome, StepOutcome::Failed) {
            InstallStage::Failed
        } else {
            InstallStage::CopyResources
        },
        InstallStage::CopyResources => if matches!(outcome, StepOutcome::Failed) {
            InstallStage::Failed
        } else {
            InstallStage::Done
        },
        InstallStage::Done => InstallStage::Done,
        InstallStage::Failed => InstallStage::Failed,
    }
}

/// The caller-visible result of the whole install: a success flag when every
/// step went through, no result as soon as one failed.
pub fn install_outcome(
    resource_resolved: bool,
    system_dir_ready: bool,
    user_dir_ready: bool,
    copied: bool,
) -> (r: Option<bool>)
    ensures
        r == if resource_resolved && system_dir_ready && user_dir_ready && copied {
            Some(true)
        } else {
            None::<bool>
        },
{
    if resource_resolved && system_dir_ready && user_dir_ready && copied {
        Some(true)
    } else {
        None
    }
}

/// The copy orders, one per bundle file: the file under the resource root on
/// the left, the same relative path under the target root on the right.
pub fn copy_plan(source_root: &FsPath, target_root: &FsPath, rel_files: &Vec<FsPath>) -> (r: Vec<
    (FsPath, FsPath),
>)
    ensures
        r@.len() == rel_files@.len(),
        forall|i: int|
            0 <= i < r@.len() ==> (#[trigger] r@[i]).0@ == source_root@ + rel_files@[i]@
                && r@[i].1@ == target_root@ + rel_files@[i]@,
{
    let mut r: Vec<(FsPath, FsPath)> = Vec::new();
    let mut i: usize = 0;
    while i < rel_files.len()
        invariant
            i <= rel_files@.len(),
            r@.len() == i,
            forall|m: int|
                0 <= m < i ==> (#[trigger] r@[m]).0@ == source_root@ + rel_files@[m]@
                    && r@[m].1@ == target_root@ + rel_files@[m]@,
        decreases rel_files@.len() - i,
    {
        let src = source_root.join(&rel_files[i]);
        let dst = target_root.join(&rel_files[i]);
        r.push((src, dst));
        i = i + 1;
    }
    r
}

/// Every planned destination keeps the file's relative location: stripping
/// the target root off the destination gives the bundle-relative path back.
pub proof fn lemma_copy_preserves_relative_location(
    target_root: Seq<Seq<char>>,
    rel: Seq<Seq<char>>,
)
    ensures
        (target_root + rel).skip(target_root.len() as int) == rel,
        (target_root + rel).take(target_root.len() as int) == target_root,
{
    assert((target_root + rel).skip(target_root.len() as int) =~= rel);
    assert((target_root + rel).take(target_root.len() as int) =~= target_root);
}

/// A target directory that already exists does not fail the install: the
/// directory steps advance on it exactly as on a directory just created.
pub proof fn lemma_existing_dir_advances(stage: InstallStage, outcome: StepOutcome)
    requires
        stage is EnsureSystemDir || stage is EnsureUserDir,
        !(outcome is Failed),
    ensures
        !(install_step_spec(stage, outcome) is Failed),
        install_step_spec(stage, outcome) == install_step_spec(stage, StepOutcome::Performed),
{
}

} // verus!
