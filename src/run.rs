use vstd::prelude::*;
use crate::discovery::{discover, is_plan, scan_all, strictly_ascending, DiscoveryError, MigrationFile};
use crate::stored::{parse_stored_version, stored_version};

verus! {

/// Why a migration run stopped short.
#[derive(Clone, Copy, Debug, PartialEq, Eq, Structural)]
pub enum RunError {
    /// The database exists but its schema version could not be read.
    ReadVersion,
    /// The directory of migrations could not be listed.
    ListDirectory,
    /// The listing holds no valid plan.
    Discovery(DiscoveryError),
    /// The path of the file at this position of the listing could not be resolved.
    PathResolution { entry: usize },
    /// The SQL of the file at this position of the listing failed.
    Execution { entry: usize },
    /// The schema version could not be set to this value.
    VersionWrite { version: u32 },
}

/// What a run waits for: the outside work to do next, or its end.
#[derive(Clone, Copy, Debug, PartialEq, Eq, Structural)]
pub enum Phase {
    /// Read the schema version of the existing database.
    ReadVersion,
    /// List the regular files of the directory.
    ListDirectory,
    /// Resolve the paths of the planned files.
    ResolvePaths,
    /// Run the SQL of the file of `plan[next]`.
    Execute,
    /// Set the schema version to `plan[next].version`.
    RecordVersion,
    /// Every planned migration was applied.
    Done,
    /// The run stopped at this error.
    Failed(RunError),
}

/// The result of the outside work that a phase asked for.
pub enum Event {
    /// What the version query printed, or `None` where it could not be run or
    /// printed no text.
    VersionRead(Option<String>),
    /// The names of the directory's regular files, in listing order, or `None`
    /// where it could not be listed.
    Listed(Option<Vec<String>>),
    /// The listing position of a planned file whose path could not be resolved,
    /// or `None` where all were resolved.
    PathsResolved(Option<usize>),
    /// Whether the SQL of the current migration ran without error.
    Executed(bool),
    /// Whether the schema version was set.
    VersionWritten(bool),
}

/// One migration run against one database: the version it started from, the
/// plan, and how many migrations of it have been applied.
pub struct MigrationRun {
    pub phase: Phase,
    pub start: u32,
    pub plan: Vec<MigrationFile>,
    pub next: usize,
}

/// The version that the query's output gives, if any.
pub open spec fn read_version(out: Option<String>) -> Option<u32> {
    match out {
        Some(t) => stored_version(t@),
        None => None,
    }
}

impl MigrationRun {
    pub open spec fn wf(&self) -> bool {
        &&& self.next <= self.plan.len()
        &&& strictly_ascending(self.plan@)
        &&& forall|k: int| 0 <= k < self.plan.len() ==> (#[trigger] self.plan@[k]).version > self.start
        &&& (self.phase is Execute || self.phase is RecordVersion) ==> self.next < self.plan.len()
        &&& self.phase is Done ==> self.next == self.plan.len()
        &&& self.phase is ResolvePaths ==> self.next == 0
        &&& (self.phase is ReadVersion || self.phase is ListDirectory) ==> self.plan.len() == 0
    }

    /// The schema version the database holds as far as this run knows: where it
    /// started, or the version of the last migration applied.
    pub open spec fn durable_version(&self) -> u32 {
        if self.next == 0 {
            self.start
        } else {
            self.plan@[self.next - 1].version
        }
    }

    /// Starts a run. A database file that does not exist stands at version 0.
    pub fn new(db_exists: bool) -> (r: MigrationRun)
        ensures
            r.wf(),
            r.phase == (if db_exists { Phase::ReadVersion } else { Phase::ListDirectory }),
            r.start == 0,
            r.plan@.len() == 0,
            r.next == 0,
    {
        MigrationRun {
            phase: if db_exists { Phase::ReadVersion } else { Phase::ListDirectory },
            start: 0,
            plan: Vec::new(),
            next: 0,
        }
    }

    /// The schema version the database holds as far as this run knows.
    pub fn version(&self) -> (r: u32)
        requires
            self.wf(),
        ensures
            r == self.durable_version(),
    {
        if self.next == 0 {
            self.start
        } else {
            self.plan[self.next - 1].version
        }
    }
}

/// Advances a migration run by the result of the outside work its phase asked
/// for. An event that does not answer the phase leaves the run as it was.
pub fn migrate(run: &mut MigrationRun, event: Event)
    requires
        old(run).wf(),
    ensures
        final(run).wf(),
        ({
            let a = *old(run);
            let b = *final(run);
            match event {
                Event::VersionRead(out) if a.phase is ReadVersion => match read_version(out) {
                    Some(v) => b.phase == Phase::ListDirectory && b.start == v && b.plan@.len() == 0
                        && b.next == 0,
                    None => b.phase == Phase::Failed(RunError::ReadVersion) && b.start == a.start
                        && b.plan@ == a.plan@ && b.next == a.next,
                },
                Event::Listed(listing) if a.phase is ListDirectory => b.start == a.start && match listing {
                    None => b.phase == Phase::Failed(RunError::ListDirectory) && b.plan@ == a.plan@
                        && b.next == a.next,
                    Some(names) => match scan_all(names@, a.start) {
                        Err(e) => b.phase == Phase::Failed(RunError::Discovery(e)) && b.plan@ == a.plan@
                            && b.next == a.next,
                        Ok(_) => is_plan(names@, a.start, b.plan@) && b.next == 0
                            && b.phase == (if b.plan@.len() == 0 { Phase::Done } else { Phase::ResolvePaths }),
                    },
                },
                Event::PathsResolved(failed) if a.phase is ResolvePaths => b.start == a.start
                    && b.plan@ == a.plan@ && b.next == a.next && match failed {
                    Some(entry) => b.phase == Phase::Failed(RunError::PathResolution { entry }),
                    None => b.phase == (if a.plan@.len() == 0 { Phase::Done } else { Phase::Execute }),
                },
                Event::Executed(ok) if a.phase is Execute => b.start == a.start && b.plan@ == a.plan@
                    && b.next == a.next && b.phase == (if ok {
                        Phase::RecordVersion
                    } else {
                        Phase::Failed(RunError::Execution { entry: a.plan@[a.next as int].entry })
                    }),
                Event::VersionWritten(ok) if a.phase is RecordVersion => b.start == a.start
                    && b.plan@ == a.plan@ && if ok {
                    b.next == a.next + 1 && b.phase == (if b.next == b.plan@.len() {
                        Phase::Done
                    } else {
                        Phase::Execute
                    })
                } else {
                    b.next == a.next && b.phase == Phase::Failed(
                        RunError::VersionWrite { version: a.plan@[a.next as int].version },
                    )
                },
                _ => b.phase == a.phase && b.start == a.start && b.plan@ == a.plan@ && b.next == a.next,
            }
        }),
{
    match event {
        Event::VersionRead(out) => {
            if run.phase == Phase::ReadVersion {
                let v = match out {
                    Some(t) => parse_stored_version(t.as_str()),
                    None => None,
                };
                match v {
                    Some(v) => {
                        run.start = v;
                        run.phase = Phase::ListDirectory;
                    },
                    None => {
                        run.phase = Phase::Failed(RunError::ReadVersion);
                    },
                }
            }
        },
        Event::Listed(listing) => {
            if run.phase == Phase::ListDirectory {
                match listing {
                    None => {
                        run.phase = Phase::Failed(RunError::ListDirectory);
                    },
                    Some(names) => match discover(&names, run.start) {
                        Err(e) => {
                            run.phase = Phase::Failed(RunError::Discovery(e));
                        },
                        Ok(plan) => {
                            proof {
                                assert forall|k: int| 0 <= k < plan.len() implies (#[trigger] plan@[k]).version
                                    > run.start by {
                                    assert(plan@[k].entry < names.len());
                                }
                            }
                            run.phase = if plan.len() == 0 { Phase::Done } else { Phase::ResolvePaths };
                            run.plan = plan;
                            run.next = 0;
                        },
                    },
                }
            }
        },
        Event::PathsResolved(failed) => {
            if run.phase == Phase::ResolvePaths {
                run.phase = match failed {
                    Some(entry) => Phase::Failed(RunError::PathResolution { entry }),
                    None => if run.plan.len() == 0 { Phase::Done } else { Phase::Execute },
                };
            }
        },
        Event::Executed(ok) => {
            if run.phase == Phase::Execute {
                run.phase = if ok {
                    Phase::RecordVersion
                } else {
                    Phase::Failed(RunError::Execution { entry: run.plan[run.next].entry })
                };
            }
        },
        Event::VersionWritten(ok) => {
            if run.phase == Phase::RecordVersion {
                if ok {
                    run.next = run.next + 1;
                    run.phase = if run.next == run.plan.len() { Phase::Done } else { Phase::Execute };
                } else {
                    run.phase = Phase::Failed(RunError::VersionWrite { version: run.plan[run.next].version });
                }
            }
        },
    }
}

} // verus!
