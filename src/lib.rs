//! Encrypted, compressed backups of a directory tree kept on a remote host.
//!
//! The library holds the logic of the tool: the chunked authenticated
//! encryption of archives, the retention rule for remote backups, the
//! selection of the entries that go into an archive, the settings, and the
//! sequence of stages of one backup run.
use vstd::prelude::*;

pub mod archive;
pub mod cipher;
pub mod pipeline;
pub mod retention;
pub mod settings;

verus! {

} // verus!
