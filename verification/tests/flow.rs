use yawn::flow::{
    create_begin, create_step, delete_begin, delete_step, CreateAction, CreateStage,
    DeleteAction, DeleteStage,
};

/// Runs the creation steps with the given answers and collects the actions.
fn run_create(answers: &[bool]) -> Vec<CreateAction> {
    let (mut stage, mut action) = create_begin();
    let mut actions = vec![action];
    for &a in answers {
        if stage == CreateStage::Stopped {
            break;
        }
        (stage, action) = create_step(stage, a);
        actions.push(action);
    }
    actions
}

fn run_delete(answers: &[bool]) -> Vec<DeleteAction> {
    let (mut stage, mut action) = delete_begin();
    let mut actions = vec![action];
    for &a in answers {
        if stage == DeleteStage::Stopped {
            break;
        }
        (stage, action) = delete_step(stage, a);
        actions.push(action);
    }
    actions
}

#[test]
fn create_stops_when_target_exists() {
    assert_eq!(
        run_create(&[true, true, true]),
        vec![CreateAction::CheckTarget, CreateAction::FailTargetExists]
    );
}

#[test]
fn create_with_missing_root_and_remote_branch() {
    assert_eq!(
        run_create(&[false, false, true, true, false, true, true, true]),
        vec![
            CreateAction::CheckTarget,
            CreateAction::CheckRoot,
            CreateAction::MakeRoot,
            CreateAction::Fetch,
            CreateAction::CheckLocalBranch,
            CreateAction::CheckRemoteBranch,
            CreateAction::AddWorktree { local: false, remote: true },
            CreateAction::CopyIncludes,
            CreateAction::Finish,
        ]
    );
}

#[test]
fn create_with_local_branch_skips_remote_lookup() {
    assert_eq!(
        run_create(&[false, true, true, true, true, true]),
        vec![
            CreateAction::CheckTarget,
            CreateAction::CheckRoot,
            CreateAction::Fetch,
            CreateAction::CheckLocalBranch,
            CreateAction::AddWorktree { local: true, remote: false },
            CreateAction::CopyIncludes,
            CreateAction::Finish,
        ]
    );
}

#[test]
fn delete_removed_by_git() {
    assert_eq!(
        run_delete(&[true, false]),
        vec![
            DeleteAction::RemoveWorktree,
            DeleteAction::CheckLocalBranch,
            DeleteAction::Finish { branch_left: false },
        ]
    );
}

#[test]
fn delete_falls_back_to_removing_the_directory() {
    assert_eq!(
        run_delete(&[false, true, true, true]),
        vec![
            DeleteAction::RemoveWorktree,
            DeleteAction::CheckDir,
            DeleteAction::RemoveDir,
            DeleteAction::CheckLocalBranch,
            DeleteAction::Finish { branch_left: true },
        ]
    );
    assert_eq!(
        run_delete(&[false, false, false]),
        vec![
            DeleteAction::RemoveWorktree,
            DeleteAction::CheckDir,
            DeleteAction::CheckLocalBranch,
            DeleteAction::Finish { branch_left: false },
        ]
    );
}
