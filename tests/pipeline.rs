use remote_backup::cipher::CipherError;
use remote_backup::pipeline::{restored_file_name, sealed_file_name, BackupError, BackupRun, Stage};

fn run_with(check: bool, outcomes: &[(Stage, Result<(), BackupError>)]) -> (Vec<Stage>, BackupRun) {
    let mut run = BackupRun::new(check);
    let mut seen = Vec::new();
    while !run.is_done() {
        seen.push(run.stage);
        let outcome = outcomes
            .iter()
            .find(|(s, _)| *s == run.stage)
            .map(|(_, o)| *o)
            .unwrap_or(Ok(()));
        run.advance(outcome);
    }
    (seen, run)
}

#[test]
fn successful_run_visits_every_stage() {
    let (seen, run) = run_with(false, &[]);
    assert_eq!(seen, vec![Stage::Build, Stage::Encrypt, Stage::Retain, Stage::Upload, Stage::Cleanup]);
    assert_eq!(run.result(), Ok(()));
    let (seen, _) = run_with(true, &[]);
    assert_eq!(seen[1], Stage::IntegrityCheck);
}

#[test]
fn failure_skips_to_cleanup_and_propagates() {
    let err = BackupError::Cipher(CipherError::InvalidKey);
    let (seen, run) = run_with(false, &[(Stage::Encrypt, Err(err))]);
    assert_eq!(seen, vec![Stage::Build, Stage::Encrypt, Stage::Cleanup]);
    assert_eq!(run.result(), Err(err));
    let (seen, run) = run_with(true, &[(Stage::Build, Err(BackupError::FileSystem))]);
    assert_eq!(seen, vec![Stage::Build, Stage::Cleanup]);
    assert_eq!(run.result(), Err(BackupError::FileSystem));
}

#[test]
fn failed_retention_does_not_stop_upload() {
    let (seen, run) = run_with(false, &[(Stage::Retain, Err(BackupError::RetentionFailed))]);
    assert_eq!(seen, vec![Stage::Build, Stage::Encrypt, Stage::Retain, Stage::Upload, Stage::Cleanup]);
    assert!(run.retention_failed);
    assert_eq!(run.result(), Ok(()));
}

#[test]
fn cleanup_failure_keeps_the_first_error() {
    let (_, run) = run_with(
        false,
        &[(Stage::Upload, Err(BackupError::Transport)), (Stage::Cleanup, Err(BackupError::FileSystem))],
    );
    assert_eq!(run.result(), Err(BackupError::Transport));
    let (_, run) = run_with(false, &[(Stage::Cleanup, Err(BackupError::FileSystem))]);
    assert_eq!(run.result(), Err(BackupError::FileSystem));
}

#[test]
fn sealed_and_restored_names() {
    assert_eq!(sealed_file_name("backup-202401010000.tar.xz"), "backup-202401010000.tar.xz.enc");
    assert_eq!(restored_file_name("backup-202401010000.tar.xz.enc"), "backup-202401010000.tar.xz");
    assert_eq!(restored_file_name("plain.tar.xz"), "plain.tar.xz");
    assert_eq!(restored_file_name(".enc"), "");
    assert_eq!(restored_file_name("enc"), "enc");
    assert_eq!(restored_file_name("x.enc.enc"), "x");
    assert_eq!(restored_file_name("a.enc.b.enc"), "a.enc.b");
    assert_eq!(restored_file_name(".enc.enc.enc"), "");
}
