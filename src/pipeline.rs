//! The sequence of stages of one backup run, and the naming of sealed and
//! restored files.
//!
//! A run goes `Build`, then `IntegrityCheck` where one was asked for, then
//! `Encrypt`, `Retain`, `Upload` and `Cleanup`, and ends in `Done`.  The
//! caller performs each stage and reports its outcome; the run says which
//! stage comes next.  A failed stage skips every later stage but `Cleanup`,
//! which runs on every path, and its error is the run's result.  A failed
//! `Retain` is only noted: the upload goes on.
use crate::cipher::CipherError;
use vstd::prelude::*;
use vstd::string::{StrSliceExecFns, StringExecFns};

verus! {

/// A stage of a backup run.
#[derive(Debug, Clone, Copy, PartialEq, Eq, Structural)]
pub enum Stage {
    Build,
    IntegrityCheck,
    Encrypt,
    Retain,
    Upload,
    Cleanup,
    Done,
}

/// Why a stage failed.
#[derive(Debug, Clone, Copy, PartialEq, Eq, Structural)]
pub enum BackupError {
    /// A local file could not be created, read, written or removed.
    FileSystem,
    /// The connection to the remote host, or a remote operation, failed.
    Transport,
    /// The archive failed its local check.
    IntegrityViolation,
    /// Encryption failed.
    Cipher(CipherError),
    /// The oldest remote backup could not be removed.
    RetentionFailed,
}

/// The state of one backup run.
#[derive(Debug, Clone, Copy, PartialEq, Eq, Structural)]
pub struct BackupRun {
    /// The stage to perform next.
    pub stage: Stage,
    /// Whether the archive is checked before it is encrypted.
    pub integrity_check: bool,
    /// The first failure of a stage other than `Retain`.
    pub error: Option<BackupError>,
    /// Whether `Retain` failed.
    pub retention_failed: bool,
}

/// The stage after `stage` when it succeeds.
pub open spec fn stage_after(stage: Stage, integrity_check: bool) -> Stage {
    match stage {
        Stage::Build => if integrity_check {
            Stage::IntegrityCheck
        } else {
            Stage::Encrypt
        },
        Stage::IntegrityCheck => Stage::Encrypt,
        Stage::Encrypt => Stage::Retain,
        Stage::Retain => Stage::Upload,
        Stage::Upload => Stage::Cleanup,
        Stage::Cleanup => Stage::Done,
        Stage::Done => Stage::Done,
    }
}

/// The run after its current stage ended with `outcome`.
pub open spec fn next_run(run: BackupRun, outcome: Result<(), BackupError>) -> BackupRun {
    match outcome {
        Ok(()) => BackupRun { stage: stage_after(run.stage, run.integrity_check), ..run },
        Err(e) => match run.stage {
            Stage::Done => run,
            Stage::Retain => BackupRun { stage: Stage::Upload, retention_failed: true, ..run },
            Stage::Cleanup => BackupRun {
                stage: Stage::Done,
                error: if run.error is Some {
                    run.error
                } else {
                    Some(e)
                },
                ..run
            },
            _ => BackupRun { stage: Stage::Cleanup, error: Some(e), ..run },
        },
    }
}

impl BackupRun {
    /// A run that starts at `Build`.
    pub fn new(integrity_check: bool) -> (r: BackupRun)
        ensures
            r == (BackupRun {
                stage: Stage::Build,
                integrity_check,
                error: None,
                retention_failed: false,
            }),
    {
        BackupRun { stage: Stage::Build, integrity_check, error: None, retention_failed: false }
    }

    /// Records the outcome of the current stage and moves to the next one.
    pub fn advance(&mut self, outcome: Result<(), BackupError>)
        ensures
            *final(self) == next_run(*old(self), outcome),
    {
        match outcome {
            Ok(()) => {
                self.stage = match self.stage {
                    Stage::Build => if self.integrity_check {
                        Stage::IntegrityCheck
                    } else {
                        Stage::Encrypt
                    },
                    Stage::IntegrityCheck => Stage::Encrypt,
                    Stage::Encrypt => Stage::Retain,
                    Stage::Retain => Stage::Upload,
                    Stage::Upload => Stage::Cleanup,
                    Stage::Cleanup => Stage::Done,
                    Stage::Done => Stage::Done,
                };
            },
            Err(e) => match self.stage {
                Stage::Done => {},
                Stage::Retain => {
                    self.stage = Stage::Upload;
                    self.retention_failed = true;
                },
                Stage::Cleanup => {
                    self.stage = Stage::Done;
                    if self.error.is_none() {
                        self.error = Some(e);
                    }
                },
                _ => {
                    self.stage = Stage::Cleanup;
                    self.error = Some(e);
                },
            },
        }
    }

    /// Whether the run has ended.
    pub fn is_done(&self) -> (r: bool)
        ensures
            r == (self.stage == Stage::Done),
    {
        self.stage == Stage::Done
    }

    /// The result of the run: the first failure, if any.
    pub fn result(&self) -> (r: Result<(), BackupError>)
        ensures
            r == (match self.error {
                Some(e) => Err::<(), BackupError>(e),
                None => Ok(()),
            }),
    {
        match self.error {
            Some(e) => Err(e),
            None => Ok(()),
        }
    }
}

/// `name` ends in `.enc`.
pub open spec fn has_sealed_suffix(name: Seq<char>) -> bool {
    name.len() >= 4 && name.skip(name.len() - 4) == seq!['.', 'e', 'n', 'c']
}

/// `name` with every trailing `.enc` removed.
pub open spec fn unsealed_name(name: Seq<char>) -> Seq<char>
    decreases name.len(),
{
    if has_sealed_suffix(name) {
        unsealed_name(name.take(name.len() - 4))
    } else {
        name
    }
}

/// The name of a sealed file for archive `name`: `name` and `.enc`.
pub fn sealed_file_name(name: &str) -> (r: String)
    ensures
        r@ == name@ + seq!['.', 'e', 'n', 'c'],
{
    let mut s = String::from_str(name);
    s.append(".enc");
    proof {
        reveal_strlit(".enc");
    }
    s
}

/// The name under which a downloaded sealed file is restored: its name
/// with every trailing `.enc` removed.
pub fn restored_file_name(name: &str) -> (r: String)
    ensures
        r@ == unsealed_name(name@),
{
    let mut n = name.unicode_len();
    proof {
        assert(name@.take(n as int) =~= name@);
    }
    while n >= 4 && name.get_char(n - 4) == '.' && name.get_char(n - 3) == 'e' && name.get_char(n - 2)
        == 'n' && name.get_char(n - 1) == 'c'
        invariant
            n <= name@.len(),
            unsealed_name(name@) == unsealed_name(name@.take(n as int)),
        decreases n,
    {
        proof {
            let t = name@.take(n as int);
            assert(t.skip(t.len() - 4) =~= seq!['.', 'e', 'n', 'c']);
            assert(t.take(t.len() - 4) =~= name@.take(n - 4));
        }
        n = n - 4;
    }
    proof {
        let t = name@.take(n as int);
        if has_sealed_suffix(t) {
            assert(t.skip(t.len() - 4)[0] == name@[n - 4]);
            assert(t.skip(t.len() - 4)[1] == name@[n - 3]);
            assert(t.skip(t.len() - 4)[2] == name@[n - 2]);
            assert(t.skip(t.len() - 4)[3] == name@[n - 1]);
        }
    }
    let head = name.substring_char(0, n);
    String::from_str(head)
}

} // verus!
