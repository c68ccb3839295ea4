//! The order of the steps that creating and deleting a worktree take.
//!
//! The program performs each action (a check on disk, a git command, a
//! copy) and hands back one answer: for a check, whether the thing exists
//! or the command succeeded; for plain work, any value (work that fails
//! ends the program with its error).

use vstd::prelude::*;

verus! {

/// Where creating a worktree stands: which answer it waits for.
#[derive(Debug, Clone, Copy, PartialEq, Eq, Structural)]
pub enum CreateStage {
    /// Whether the target directory exists.
    CheckingTarget,
    /// Whether the worktree root exists.
    CheckingRoot,
    /// The worktree root is being made.
    MakingRoot,
    /// `git fetch` runs.
    Fetching,
    /// Whether a local branch of the name exists.
    CheckingLocal,
    /// Whether `origin` has a branch of the name.
    CheckingRemote,
    /// `git worktree add` runs.
    Adding,
    /// The include file's entries are copied.
    Copying,
    /// Nothing more to do.
    Stopped,
}

/// What the program does next while creating a worktree.
#[derive(Debug, Clone, Copy, PartialEq, Eq, Structural)]
pub enum CreateAction {
    /// Check whether the target directory exists.
    CheckTarget,
    /// Check whether the worktree root exists.
    CheckRoot,
    /// Make the worktree root.
    MakeRoot,
    /// Run `git fetch`.
    Fetch,
    /// Check whether a local branch of the name exists.
    CheckLocalBranch,
    /// Check whether `origin` has a branch of the name.
    CheckRemoteBranch,
    /// Add the worktree, with the branch chosen by `plan_branch` from
    /// these facts.
    AddWorktree { local: bool, remote: bool },
    /// Copy the include file's entries into the worktree.
    CopyIncludes,
    /// Done: the worktree is made.
    Finish,
    /// Stop: the target directory already exists.
    FailTargetExists,
}

/// The next stage and action of creating a worktree, given the answer to
/// the last action.
pub open spec fn create_next(stage: CreateStage, answer: bool) -> (CreateStage, CreateAction) {
    match stage {
        CreateStage::CheckingTarget => if answer {
            (CreateStage::Stopped, CreateAction::FailTargetExists)
        } else {
            (CreateStage::CheckingRoot, CreateAction::CheckRoot)
        },
        CreateStage::CheckingRoot => if answer {
            (CreateStage::Fetching, CreateAction::Fetch)
        } else {
            (CreateStage::MakingRoot, CreateAction::MakeRoot)
        },
        CreateStage::MakingRoot => (CreateStage::Fetching, CreateAction::Fetch),
        CreateStage::Fetching => (CreateStage::CheckingLocal, CreateAction::CheckLocalBranch),
        CreateStage::CheckingLocal => if answer {
            (CreateStage::Adding, CreateAction::AddWorktree { local: true, remote: false })
        } else {
            (CreateStage::CheckingRemote, CreateAction::CheckRemoteBranch)
        },
        CreateStage::CheckingRemote => (
            CreateStage::Adding,
            CreateAction::AddWorktree { local: false, remote: answer },
        ),
        CreateStage::Adding => (CreateStage::Copying, CreateAction::CopyIncludes),
        CreateStage::Copying => (CreateStage::Stopped, CreateAction::Finish),
        CreateStage::Stopped => (CreateStage::Stopped, CreateAction::Finish),
    }
}

/// The first stage and action of creating a worktree: check the target.
pub fn create_begin() -> (r: (CreateStage, CreateAction))
    ensures
        r == (CreateStage::CheckingTarget, CreateAction::CheckTarget),
{
    (CreateStage::CheckingTarget, CreateAction::CheckTarget)
}

/// One step of creating a worktree: from the stage and the answer to the
/// last action, the next stage and action.
pub fn create_step(stage: CreateStage, answer: bool) -> (r: (CreateStage, CreateAction))
    requires
        stage != CreateStage::Stopped,
    ensures
        r == create_next(stage, answer),
{
    match stage {
        CreateStage::CheckingTarget => if answer {
            (CreateStage::Stopped, CreateAction::FailTargetExists)
        } else {
            (CreateStage::CheckingRoot, CreateAction::CheckRoot)
        },
        CreateStage::CheckingRoot => if answer {
            (CreateStage::Fetching, CreateAction::Fetch)
        } else {
            (CreateStage::MakingRoot, CreateAction::MakeRoot)
        },
        CreateStage::MakingRoot => (CreateStage::Fetching, CreateAction::Fetch),
        CreateStage::Fetching => (CreateStage::CheckingLocal, CreateAction::CheckLocalBranch),
        CreateStage::CheckingLocal => if answer {
            (CreateStage::Adding, CreateAction::AddWorktree { local: true, remote: false })
        } else {
            (CreateStage::CheckingRemote, CreateAction::CheckRemoteBranch)
        },
        CreateStage::CheckingRemote => (
            CreateStage::Adding,
            CreateAction::AddWorktree { local: false, remote: answer },
        ),
        CreateStage::Adding => (CreateStage::Copying, CreateAction::CopyIncludes),
        CreateStage::Copying => (CreateStage::Stopped, CreateAction::Finish),
        CreateStage::Stopped => (CreateStage::Stopped, CreateAction::Finish),
    }
}

/// The actions taken from `stage` on, given the answers in order, until
/// creating stops or the answers run out.
pub open spec fn create_trace(stage: CreateStage, answers: Seq<bool>) -> Seq<CreateAction>
    decreases answers.len(),
{
    if stage == CreateStage::Stopped || answers.len() == 0 {
        Seq::empty()
    } else {
        let (next, action) = create_next(stage, answers[0]);
        seq![action] + create_trace(next, answers.drop_first())
    }
}

/// When the target directory already exists, creating stops at once:
/// nothing is made, fetched or added.
pub proof fn lemma_create_stops_on_existing_target(rest: Seq<bool>)
    ensures
        create_trace(CreateStage::CheckingTarget, seq![true] + rest) == seq![
            CreateAction::FailTargetExists,
        ],
{
    let answers = seq![true] + rest;
    assert(answers[0]);
    assert(create_trace(CreateStage::Stopped, answers.drop_first()) == Seq::<CreateAction>::empty());
    assert(seq![CreateAction::FailTargetExists] + Seq::<CreateAction>::empty() =~= seq![
        CreateAction::FailTargetExists,
    ]);
}

/// The answers of a creation whose target is free: whether the root
/// exists (then, when it does not, the making of it), the fetch, whether
/// a local branch exists (then, when it does not, whether `origin` has
/// one), the adding and the copying. `w` stands for the answers to plain
/// work, whose values do not matter.
pub open spec fn free_target_answers(root: bool, local: bool, remote: bool, w: bool) -> Seq<bool> {
    seq![false] + (if root {
        seq![true]
    } else {
        seq![false, w]
    }) + seq![w] + (if local {
        seq![true]
    } else {
        seq![false, remote]
    }) + seq![w, w]
}

/// The actions of a creation whose target is free: check the root (and
/// make it when missing), fetch, look for the branch locally and then on
/// `origin`, add the worktree, copy the includes, finish.
pub open spec fn free_target_actions(root: bool, local: bool, remote: bool) -> Seq<CreateAction> {
    seq![CreateAction::CheckRoot] + (if root {
        Seq::empty()
    } else {
        seq![CreateAction::MakeRoot]
    }) + seq![CreateAction::Fetch, CreateAction::CheckLocalBranch] + (if local {
        Seq::empty()
    } else {
        seq![CreateAction::CheckRemoteBranch]
    }) + seq![
        CreateAction::AddWorktree { local: local, remote: !local && remote },
        CreateAction::CopyIncludes,
        CreateAction::Finish,
    ]
}

/// A creation whose target is free takes its steps in this order: the
/// root is made when missing, `git fetch` runs before any branch is
/// looked up, `origin` is asked only when no local branch exists, and
/// the worktree is added before the includes are copied.
pub proof fn lemma_create_order(root: bool, local: bool, remote: bool, w: bool)
    ensures
        create_trace(CreateStage::CheckingTarget, free_target_answers(root, local, remote, w))
            == free_target_actions(root, local, remote),
{
    reveal_with_fuel(create_trace, 9);
    let a = free_target_answers(root, local, remote, w);
    let t = create_trace(CreateStage::CheckingTarget, a);
    let want = free_target_actions(root, local, remote);
    if root {
        if local {
            assert(a =~= seq![false, true, w, true, w, w]);
        } else {
            assert(a =~= seq![false, true, w, false, remote, w, w]);
        }
    } else {
        if local {
            assert(a =~= seq![false, false, w, w, true, w, w]);
        } else {
            assert(a =~= seq![false, false, w, w, false, remote, w, w]);
        }
    }
    assert(t =~= want);
}

/// Where deleting a worktree stands: which answer it waits for.
#[derive(Debug, Clone, Copy, PartialEq, Eq, Structural)]
pub enum DeleteStage {
    /// Whether `git worktree remove` succeeded.
    Removing,
    /// Whether the target directory still exists.
    CheckingDir,
    /// The target directory is being removed.
    RemovingDir,
    /// Whether a local branch of the name still exists.
    CheckingBranch,
    /// Nothing more to do.
    Stopped,
}

/// What the program does next while deleting a worktree.
#[derive(Debug, Clone, Copy, PartialEq, Eq, Structural)]
pub enum DeleteAction {
    /// Run `git worktree remove` on the target.
    RemoveWorktree,
    /// Check whether the target directory exists.
    CheckDir,
    /// Remove the target directory and what it holds.
    RemoveDir,
    /// Check whether a local branch of the name exists.
    CheckLocalBranch,
    /// Done; `branch_left` says whether the local branch is still there
    /// (it is never deleted, only reported).
    Finish { branch_left: bool },
}

/// The next stage and action of deleting a worktree, given the answer to
/// the last action.
pub open spec fn delete_next(stage: DeleteStage, answer: bool) -> (DeleteStage, DeleteAction) {
    match stage {
        DeleteStage::Removing => if answer {
            (DeleteStage::CheckingBranch, DeleteAction::CheckLocalBranch)
        } else {
            (DeleteStage::CheckingDir, DeleteAction::CheckDir)
        },
        DeleteStage::CheckingDir => if answer {
            (DeleteStage::RemovingDir, DeleteAction::RemoveDir)
        } else {
            (DeleteStage::CheckingBranch, DeleteAction::CheckLocalBranch)
        },
        DeleteStage::RemovingDir => (DeleteStage::CheckingBranch, DeleteAction::CheckLocalBranch),
        DeleteStage::CheckingBranch => (
            DeleteStage::Stopped,
            DeleteAction::Finish { branch_left: answer },
        ),
        DeleteStage::Stopped => (DeleteStage::Stopped, DeleteAction::Finish { branch_left: false }),
    }
}

/// The first stage and action of deleting a worktree: ask git to remove
/// it.
pub fn delete_begin() -> (r: (DeleteStage, DeleteAction))
    ensures
        r == (DeleteStage::Removing, DeleteAction::RemoveWorktree),
{
    (DeleteStage::Removing, DeleteAction::RemoveWorktree)
}

/// One step of deleting a worktree: from the stage and the answer to the
/// last action, the next stage and action.
pub fn delete_step(stage: DeleteStage, answer: bool) -> (r: (DeleteStage, DeleteAction))
    requires
        stage != DeleteStage::Stopped,
    ensures
        r == delete_next(stage, answer),
{
    match stage {
        DeleteStage::Removing => if answer {
            (DeleteStage::CheckingBranch, DeleteAction::CheckLocalBranch)
        } else {
            (DeleteStage::CheckingDir, DeleteAction::CheckDir)
        },
        DeleteStage::CheckingDir => if answer {
            (DeleteStage::RemovingDir, DeleteAction::RemoveDir)
        } else {
            (DeleteStage::CheckingBranch, DeleteAction::CheckLocalBranch)
        },
        DeleteStage::RemovingDir => (DeleteStage::CheckingBranch, DeleteAction::CheckLocalBranch),
        DeleteStage::CheckingBranch => (
            DeleteStage::Stopped,
            DeleteAction::Finish { branch_left: answer },
        ),
        DeleteStage::Stopped => (DeleteStage::Stopped, DeleteAction::Finish { branch_left: false }),
    }
}

/// The actions taken from `stage` on, given the answers in order, until
/// deleting stops or the answers run out.
pub open spec fn delete_trace(stage: DeleteStage, answers: Seq<bool>) -> Seq<DeleteAction>
    decreases answers.len(),
{
    if stage == DeleteStage::Stopped || answers.len() == 0 {
        Seq::empty()
    } else {
        let (next, action) = delete_next(stage, answers[0]);
        seq![action] + delete_trace(next, answers.drop_first())
    }
}

/// The answers of a deletion: whether git removed the worktree (when it
/// did not, whether the directory is still there, and then its removal),
/// and whether the local branch is left. `w` stands for the answer to
/// plain work.
pub open spec fn delete_answers(removed: bool, dir_left: bool, branch: bool, w: bool) -> Seq<bool> {
    seq![removed] + (if removed {
        Seq::empty()
    } else if dir_left {
        seq![true, w]
    } else {
        seq![false]
    }) + seq![branch]
}

/// The actions of a deletion: the directory is removed by hand only when
/// git could not remove the worktree and the directory is still there;
/// the branch is looked up last and only reported.
pub open spec fn delete_actions(removed: bool, dir_left: bool, branch: bool) -> Seq<DeleteAction> {
    (if removed {
        Seq::empty()
    } else if dir_left {
        seq![DeleteAction::CheckDir, DeleteAction::RemoveDir]
    } else {
        seq![DeleteAction::CheckDir]
    }) + seq![DeleteAction::CheckLocalBranch, DeleteAction::Finish { branch_left: branch }]
}

/// Deleting takes its steps in this order, whatever git and the disk
/// answer: after `git worktree remove`, the directory is checked (and
/// removed) only when git failed, then the local branch is looked up and
/// reported, never deleted.
pub proof fn lemma_delete_order(removed: bool, dir_left: bool, branch: bool, w: bool)
    ensures
        delete_trace(DeleteStage::Removing, delete_answers(removed, dir_left, branch, w))
            == delete_actions(removed, dir_left, branch),
{
    reveal_with_fuel(delete_trace, 5);
    let a = delete_answers(removed, dir_left, branch, w);
    let t = delete_trace(DeleteStage::Removing, a);
    if removed {
        assert(a =~= seq![true, branch]);
    } else if dir_left {
        assert(a =~= seq![false, true, w, branch]);
    } else {
        assert(a =~= seq![false, false, branch]);
    }
    assert(t =~= delete_actions(removed, dir_left, branch));
}

} // verus!
