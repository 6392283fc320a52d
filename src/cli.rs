use vstd::prelude::*;

verus! {

/// The command line: one action to perform.
pub struct Cli {
    pub action: CliAction,
}

/// What the command line asks for.
pub enum CliAction {
    /// Apply the migrations of `dir` to the database file `db_file`.
    Migrate { db_file: String, dir: String },
}

} // verus!
