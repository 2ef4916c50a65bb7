//! The prover-command surface: what the host asks of a zkVM backend.
//!
//! A backend either executes the verifier program on an input record to
//! inspect its output, or proves it. The types here carry that choice and
//! the path of the input file as plain data; reading the file, running the
//! backend and printing results are the host's work.

use vstd::prelude::*;

verus! {

/// What to do with the program on the RISC Zero backend.
#[derive(Clone, Debug, PartialEq, Eq)]
pub enum Risc0Subcommand {
    /// Execute the program and report its output and cycle count.
    Execute,
    /// Prove the program's execution.
    Prove {
        /// Whether to verify the proof after generating it.
        verify: bool,
    },
}

/// A request to run the verifier program on the RISC Zero backend.
#[derive(Clone, Debug, PartialEq, Eq)]
pub struct Risc0Command {
    /// What to do with the program.
    pub subcommand: Risc0Subcommand,
    /// The path of the file holding the input record.
    pub input: String,
}

/// What to do with the program on the SP1 backend.
#[derive(Clone, Debug, PartialEq, Eq)]
pub enum Sp1Subcommand {
    /// Execute the program and report its output and cycle count.
    Execute,
    /// Prove the program's execution.
    Prove {
        /// Whether to verify the proof after generating it.
        verify: bool,
        /// Where to write the proof, if anywhere.
        out: Option<String>,
    },
}

/// A request to run the verifier program on the SP1 backend.
#[derive(Clone, Debug, PartialEq, Eq)]
pub struct Sp1Command {
    /// What to do with the program.
    pub subcommand: Sp1Subcommand,
    /// The path of the file holding the input record.
    pub input: String,
}

} // verus!
