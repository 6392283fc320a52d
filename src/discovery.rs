use vstd::prelude::*;
use crate::name::{file_version, name_version, NameVersion};

verus! {

/// A migration that is still to be applied: the position of its file in the
/// directory listing, and the version its name gives.
#[derive(Clone, Copy, Debug, PartialEq, Eq, Structural)]
pub struct MigrationFile {
    pub entry: usize,
    pub version: u32,
}

/// Why a directory listing yields no migration plan.
#[derive(Clone, Copy, Debug, PartialEq, Eq, Structural)]
pub enum DiscoveryError {
    /// The file at this position of the listing is named as a migration, but its
    /// version does not fit in a `u32`.
    UnparsableVersion { entry: usize },
    /// Two files above the current version are named with this version.
    DuplicateVersion { version: u32 },
}

/// The version of entry `i` where it is a migration above `current`.
pub open spec fn eligible(names: Seq<String>, current: u32, i: int) -> bool {
    match name_version(names[i]@) {
        NameVersion::Version(v) => v > current,
        _ => false,
    }
}

/// The listing's first `n` entries read in order: the versions above `current`
/// met so far, or the first error.
pub open spec fn scan(names: Seq<String>, current: u32, n: int) -> Result<Set<u32>, DiscoveryError>
    decreases n,
{
    if n <= 0 {
        Ok(Set::empty())
    } else {
        match scan(names, current, n - 1) {
            Err(e) => Err(e),
            Ok(seen) => match name_version(names[n - 1]@) {
                NameVersion::Ignored => Ok(seen),
                NameVersion::TooLarge => Err(DiscoveryError::UnparsableVersion { entry: (n - 1) as usize }),
                NameVersion::Version(v) => if v <= current {
                    Ok(seen)
                } else if seen.contains(v) {
                    Err(DiscoveryError::DuplicateVersion { version: v })
                } else {
                    Ok(seen.insert(v))
                },
            },
        }
    }
}

/// The outcome of reading the whole listing.
pub open spec fn scan_all(names: Seq<String>, current: u32) -> Result<Set<u32>, DiscoveryError> {
    scan(names, current, names.len() as int)
}

pub open spec fn strictly_ascending(plan: Seq<MigrationFile>) -> bool {
    forall|j: int, k: int| 0 <= j < k < plan.len() ==> plan[j].version < plan[k].version
}

/// `plan` holds each migration of the listing above `current` once, in
/// ascending order of version, and nothing else.
pub open spec fn is_plan(names: Seq<String>, current: u32, plan: Seq<MigrationFile>) -> bool {
    &&& strictly_ascending(plan)
    &&& forall|k: int| 0 <= k < plan.len() ==> {
        &&& #[trigger] plan[k].entry < names.len()
        &&& name_version(names[plan[k].entry as int]@) == NameVersion::Version(plan[k].version)
        &&& plan[k].version > current
    }
    &&& forall|i: int| 0 <= i < names.len() && eligible(names, current, i) ==>
        exists|k: int| 0 <= k < plan.len() && (#[trigger] plan[k]).entry == i
}

/// Once the listing has given an error, later entries keep it.
proof fn lemma_scan_err_stays(names: Seq<String>, current: u32, m: int, n: int)
    requires
        0 <= m <= n,
        scan(names, current, m) is Err,
    ensures
        scan(names, current, n) == scan(names, current, m),
    decreases n - m,
{
    if m < n {
        lemma_scan_err_stays(names, current, m, n - 1);
    }
}

/// Plans the migrations of a directory listing (the names of its regular files,
/// in listing order) for a database at version `current`: the files named
/// `m_<digits>.sql` with a version above `current`, in ascending order of version.
/// Fails on the first file, in listing order, whose version does not fit in a
/// `u32`, or whose version above `current` an earlier file already had.
pub fn discover(names: &Vec<String>, current: u32) -> (r: Result<Vec<MigrationFile>, DiscoveryError>)
    ensures
        match r {
            Ok(plan) => scan_all(names@, current) is Ok && is_plan(names@, current, plan@),
            Err(e) => scan_all(names@, current) == Err::<Set<u32>, DiscoveryError>(e),
        },
{
    let mut plan: Vec<MigrationFile> = Vec::new();
    let mut i: usize = 0;
    while i < names.len()
        invariant
            i <= names.len(),
            scan(names@, current, i as int) is Ok,
            forall|v: u32| #[trigger] scan(names@, current, i as int)->Ok_0.contains(v) <==>
                exists|k: int| 0 <= k < plan.len() && (#[trigger] plan@[k]).version == v,
            strictly_ascending(plan@),
            forall|k: int| 0 <= k < plan.len() ==> {
                &&& #[trigger] plan@[k].entry < i
                &&& name_version(names@[plan@[k].entry as int]@) == NameVersion::Version(plan@[k].version)
                &&& plan@[k].version > current
            },
            forall|j: int| 0 <= j < i && eligible(names@, current, j) ==>
                exists|k: int| 0 <= k < plan.len() && (#[trigger] plan@[k]).entry == j,
        decreases names.len() - i,
    {
        let ghost seen = scan(names@, current, i as int)->Ok_0;
        match file_version(names[i].as_str()) {
            NameVersion::Ignored => {},
            NameVersion::TooLarge => {
                proof {
                    lemma_scan_err_stays(names@, current, i + 1, names.len() as int);
                }
                return Err(DiscoveryError::UnparsableVersion { entry: i });
            },
            NameVersion::Version(v) => {
                if v > current {
                    let mut p: usize = 0;
                    while p < plan.len() && plan[p].version < v
                        invariant
                            p <= plan.len(),
                            forall|k: int| 0 <= k < p ==> (#[trigger] plan@[k]).version < v,
                        decreases plan.len() - p,
                    {
                        p = p + 1;
                    }
                    if p < plan.len() && plan[p].version == v {
                        proof {
                            assert(seen.contains(v));
                            lemma_scan_err_stays(names@, current, i + 1, names.len() as int);
                        }
                        return Err(DiscoveryError::DuplicateVersion { version: v });
                    }
                    proof {
                        assert forall|k: int| p <= k < plan.len() implies v < (#[trigger] plan@[k]).version by {
                            assert(plan@[p as int].version <= plan@[k].version);
                        }
                        assert(!seen.contains(v)) by {
                            if seen.contains(v) {
                                let k = choose|k: int| 0 <= k < plan.len() && (#[trigger] plan@[k]).version == v;
                                if k < p {
                                } else {
                                    assert(plan@[k].version > v);
                                }
                            }
                        }
                    }
                    let ghost old_plan = plan@;
                    let item = MigrationFile { entry: i, version: v };
                    plan.insert(p, item);
                    proof {
                        old_plan.insert_ensures(p as int, item);
                        assert(plan@ == old_plan.insert(p as int, item));
                        let np = plan@;
                        let sn = scan(names@, current, i + 1)->Ok_0;
                        assert(sn == seen.insert(v));
                        assert forall|a: int, b: int| 0 <= a < b < np.len() implies np[a].version < np[b].version by {
                            if a < p {
                                assert(np[a] == old_plan[a]);
                            } else if a > p {
                                assert(np[a] == old_plan[a - 1]);
                            }
                            if b < p {
                                assert(np[b] == old_plan[b]);
                            } else if b > p {
                                assert(np[b] == old_plan[b - 1]);
                            }
                        }
                        assert forall|k: int| 0 <= k < np.len() implies {
                            &&& #[trigger] np[k].entry < i + 1
                            &&& name_version(names@[np[k].entry as int]@) == NameVersion::Version(np[k].version)
                            &&& np[k].version > current
                        } by {
                            if k < p {
                                assert(np[k] == old_plan[k]);
                            } else if k > p {
                                assert(np[k] == old_plan[k - 1]);
                            }
                        }
                        assert forall|w: u32| #[trigger] sn.contains(w) <==>
                            exists|k: int| 0 <= k < np.len() && (#[trigger] np[k]).version == w by {
                            if sn.contains(w) {
                                if w == v {
                                    assert(np[p as int].version == w);
                                } else {
                                    assert(seen.contains(w));
                                    let k = choose|k: int| 0 <= k < old_plan.len() && (#[trigger] old_plan[k]).version == w;
                                    if k < p {
                                        assert(np[k] == old_plan[k]);
                                    } else {
                                        assert(np[k + 1] == old_plan[k]);
                                    }
                                }
                            }
                            if exists|k: int| 0 <= k < np.len() && (#[trigger] np[k]).version == w {
                                let k = choose|k: int| 0 <= k < np.len() && (#[trigger] np[k]).version == w;
                                if k < p {
                                    assert(np[k] == old_plan[k]);
                                    assert(seen.contains(w));
                                } else if k > p {
                                    assert(np[k] == old_plan[k - 1]);
                                    assert(seen.contains(w));
                                }
                            }
                        }
                        assert forall|j: int| 0 <= j < i + 1 && eligible(names@, current, j) implies
                            exists|k: int| 0 <= k < np.len() && (#[trigger] np[k]).entry == j by {
                            if j == i {
                                assert(np[p as int].entry == j);
                            } else {
                                let k = choose|k: int| 0 <= k < old_plan.len() && (#[trigger] old_plan[k]).entry == j;
                                if k < p {
                                    assert(np[k] == old_plan[k]);
                                } else {
                                    assert(np[k + 1] == old_plan[k]);
                                }
                            }
                        }
                    }
                }
            },
        }
        i = i + 1;
    }
    Ok(plan)
}

/// The version a database stands at once every migration of `plan` has been
/// applied, starting from `current`.
pub open spec fn version_after(current: u32, plan: Seq<MigrationFile>) -> u32 {
    if plan.len() == 0 {
        current
    } else {
        plan.last().version
    }
}

proof fn lemma_scan_ok_parses(names: Seq<String>, current: u32, n: int)
    requires
        scan(names, current, n) is Ok,
    ensures
        forall|i: int| 0 <= i < n ==> name_version(#[trigger] names[i]@) != NameVersion::TooLarge,
    decreases n,
{
    if n > 0 {
        lemma_scan_ok_parses(names, current, n - 1);
    }
}

proof fn lemma_scan_nothing_above(names: Seq<String>, current: u32, n: int)
    requires
        0 <= n,
        forall|i: int| 0 <= i < n ==> match name_version(#[trigger] names[i]@) {
            NameVersion::Ignored => true,
            NameVersion::Version(w) => w <= current,
            NameVersion::TooLarge => false,
        },
    ensures
        scan(names, current, n) == Ok::<Set<u32>, DiscoveryError>(Set::empty()),
    decreases n,
{
    if n > 0 {
        lemma_scan_nothing_above(names, current, n - 1);
        let x = names[n - 1]@;
        assert(name_version(names[n - 1]@) == name_version(x));
    }
}

/// Running the migrations twice applies nothing the second time: once every
/// migration that discovery planned above `current` has been applied, discovery
/// at the version reached succeeds and plans no migration.
pub proof fn lemma_rerun_plans_nothing(names: Seq<String>, current: u32, plan: Seq<MigrationFile>)
    requires
        scan_all(names, current) is Ok,
        is_plan(names, current, plan),
    ensures
        scan_all(names, version_after(current, plan)) is Ok,
        forall|i: int| 0 <= i < names.len() ==> !eligible(names, version_after(current, plan), i),
        forall|again: Seq<MigrationFile>| #[trigger] is_plan(names, version_after(current, plan), again)
            ==> again.len() == 0,
{
    let top = version_after(current, plan);
    lemma_scan_ok_parses(names, current, names.len() as int);
    assert forall|i: int| 0 <= i < names.len() implies match name_version(#[trigger] names[i]@) {
        NameVersion::Ignored => true,
        NameVersion::Version(w) => w <= top,
        NameVersion::TooLarge => false,
    } by {
        if let NameVersion::Version(w) = name_version(names[i]@) {
            if w > current {
                assert(eligible(names, current, i));
                let k = choose|k: int| 0 <= k < plan.len() && (#[trigger] plan[k]).entry == i;
                assert(plan[k].version == w);
                if k < plan.len() - 1 {
                    assert(plan[k].version < plan[plan.len() - 1].version);
                }
            } else if plan.len() > 0 {
                assert(plan[plan.len() - 1].entry < names.len());
            }
        }
    }
    lemma_scan_nothing_above(names, top, names.len() as int);
    assert forall|again: Seq<MigrationFile>| #[trigger] is_plan(names, top, again) implies again.len() == 0 by {
        if again.len() > 0 {
            let e = again[0].entry as int;
            assert(name_version(names[e]@) == NameVersion::Version(again[0].version));
        }
    }
}

} // verus!
