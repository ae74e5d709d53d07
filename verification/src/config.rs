//! The thread budget: discovered cores, requested overrides, and the rules
//! that reconcile them.

use vstd::prelude::*;
use crate::binary32::Binary32;

verus! {

/// The encoding of the default share of the cores: the binary32 value
/// nearest to seven tenths.
pub const DEFAULT_SHARE_BITS: u32 = 0x3F33_3333;

/// The default share of the cores.
pub open spec fn default_share() -> Binary32 {
    Binary32 { bits: DEFAULT_SHARE_BITS }
}

/// Something wrong with a budget. In strict mode the first issue is the
/// error; otherwise every issue is a warning and the budget is corrected.
#[derive(Clone, Copy, Debug, PartialEq, Eq, Structural)]
pub enum ConfigIssue {
    /// The share of the cores is not a number between zero and one.
    PercentageOutOfRange { use_percentage: Binary32 },
    /// A requested thread count exceeds the number of cores.
    ThreadCountExceedsCpus { threads: i16, num_cpus: usize },
}

/// How many threads to run, for a general pool and for a batch pool.
#[derive(Clone, Copy, Debug, PartialEq, Eq, Structural)]
pub struct CpuConfig {
    /// The number of cores found on the host.
    pub num_cpus: usize,
    /// The requested size of the general pool, if any.
    pub threads: Option<i16>,
    /// The requested size of the batch pool, if any.
    pub threads_batch: Option<i16>,
    /// The share of the cores to use for a pool without a request.
    pub use_percentage: Binary32,
}

/// The number of cores of a host that reports `physical` cores, or `logical`
/// processors when it does not tell its physical cores.
pub open spec fn counted_cores(physical: Option<usize>, logical: usize) -> usize {
    match physical {
        Some(cores) => cores,
        None => logical,
    }
}

/// The issue with a requested thread count on a host of `num_cpus` cores:
/// none when nothing is requested or the request does not exceed the cores.
pub open spec fn thread_issue(num_cpus: usize, threads: Option<i16>) -> Option<ConfigIssue> {
    match threads {
        Some(requested) if requested > num_cpus => Some(
            ConfigIssue::ThreadCountExceedsCpus { threads: requested, num_cpus },
        ),
        _ => None,
    }
}

/// The requested thread count after correction: a request that exceeds the
/// cores becomes the number of cores, anything else stays.
pub open spec fn corrected_threads(num_cpus: usize, threads: Option<i16>) -> Option<i16> {
    match threads {
        Some(requested) if requested > num_cpus => Some(num_cpus as i16),
        _ => threads,
    }
}

/// A sequence of no issue or one.
pub open spec fn issue_seq(issue: Option<ConfigIssue>) -> Seq<ConfigIssue> {
    match issue {
        Some(found) => seq![found],
        None => Seq::empty(),
    }
}

impl CpuConfig {
    /// The budget of a host before any request: no overrides, the default share.
    pub open spec fn fresh(num_cpus: usize) -> CpuConfig {
        CpuConfig { num_cpus, threads: None, threads_batch: None, use_percentage: default_share() }
    }

    /// The invariant of an initialized budget: the share lies between zero
    /// and one, and no override exceeds the cores.
    pub open spec fn is_valid(self) -> bool {
        &&& self.use_percentage@.within_unit_interval()
        &&& self.threads matches Some(requested) ==> requested <= self.num_cpus
        &&& self.threads_batch matches Some(requested) ==> requested <= self.num_cpus
    }

    /// The issue with the share, if it is not between zero and one.
    pub open spec fn percentage_issue(self) -> Option<ConfigIssue> {
        if self.use_percentage@.within_unit_interval() {
            None
        } else {
            Some(ConfigIssue::PercentageOutOfRange { use_percentage: self.use_percentage })
        }
    }

    /// Every issue of the budget, in the order in which it is checked: the
    /// share, the general pool, the batch pool.
    pub open spec fn issues(self) -> Seq<ConfigIssue> {
        issue_seq(self.percentage_issue()) + issue_seq(thread_issue(self.num_cpus, self.threads))
            + issue_seq(thread_issue(self.num_cpus, self.threads_batch))
    }

    /// The budget with every issue corrected: a share out of range becomes
    /// the default, an override beyond the cores becomes the number of cores.
    pub open spec fn corrected(self) -> CpuConfig {
        CpuConfig {
            num_cpus: self.num_cpus,
            threads: corrected_threads(self.num_cpus, self.threads),
            threads_batch: corrected_threads(self.num_cpus, self.threads_batch),
            use_percentage: if self.use_percentage@.within_unit_interval() {
                self.use_percentage
            } else {
                default_share()
            },
        }
    }

    /// The budget that `initialize` leaves: untouched in strict mode,
    /// corrected otherwise.
    pub open spec fn initialized(self, strict: bool) -> CpuConfig {
        if strict {
            self
        } else {
            self.corrected()
        }
    }

    /// What `initialize` reports: in strict mode the first issue as the
    /// error, or no warning when there is no issue; otherwise every issue as
    /// a warning.
    pub open spec fn report(self, strict: bool) -> Result<Seq<ConfigIssue>, ConfigIssue> {
        if strict && self.issues().len() > 0 {
            Err(self.issues()[0])
        } else {
            Ok(self.issues())
        }
    }

    /// The thread count for a pool with the given override: the override
    /// when there is one, otherwise the share of the cores.
    pub open spec fn count_or_share(self, threads: Option<i16>) -> int {
        match threads {
            Some(requested) => requested as int,
            None => self.use_percentage@.truncated_product(self.num_cpus as nat),
        }
    }

    /// The thread count of the general pool.
    pub open spec fn thread_count(self) -> int {
        self.count_or_share(self.threads)
    }

    /// The thread count of the batch pool.
    pub open spec fn thread_count_batch(self) -> int {
        self.count_or_share(self.threads_batch)
    }

    /// The budget of a host that reports `physical` cores, or `logical`
    /// processors when it does not tell its physical cores.
    pub fn from_core_counts(physical: Option<usize>, logical: usize) -> (config: Self)
        ensures
            config == Self::fresh(counted_cores(physical, logical)),
    {
        let num_cpus: usize = match physical {
            Some(cores) => cores,
            None => logical,
        };
        CpuConfig {
            num_cpus,
            threads: None,
            threads_batch: None,
            use_percentage: Binary32::from_bits(DEFAULT_SHARE_BITS),
        }
    }

    /// Checks one requested thread count against the cores. A request that
    /// exceeds them is the error in strict mode; otherwise it is pushed onto
    /// `warnings` and replaced by the number of cores.
    pub fn check_thread_count(
        &self,
        threads: Option<i16>,
        error_on_config_issue: bool,
        warnings: &mut Vec<ConfigIssue>,
    ) -> (checked: Result<Option<i16>, ConfigIssue>)
        ensures
            (match thread_issue(self.num_cpus, threads) {
                None => {
                    &&& checked matches Ok(kept) && kept == threads
                    &&& final(warnings)@ == old(warnings)@
                },
                Some(issue) => if error_on_config_issue {
                    &&& checked matches Err(found) && found == issue
                    &&& final(warnings)@ == old(warnings)@
                } else {
                    &&& checked matches Ok(clamped) && clamped == corrected_threads(
                        self.num_cpus,
                        threads,
                    )
                    &&& final(warnings)@ == old(warnings)@.push(issue)
                },
            }),
    {
        if let Some(requested) = threads {
            if requested > 0 && requested as usize > self.num_cpus {
                let issue = ConfigIssue::ThreadCountExceedsCpus {
                    threads: requested,
                    num_cpus: self.num_cpus,
                };
                if error_on_config_issue {
                    Err(issue)
                } else {
                    warnings.push(issue);
                    Ok(Some(self.num_cpus as i16))
                }
            } else {
                Ok(Some(requested))
            }
        } else {
            Ok(None)
        }
    }

    /// Validates the budget. In strict mode (`error_on_config_issue`) the
    /// first issue is returned as the error and the budget is left as it
    /// was. Otherwise every issue is corrected and returned as a warning,
    /// in the order in which the checks run.
    pub fn initialize(&mut self, error_on_config_issue: bool) -> (outcome: Result<
        Vec<ConfigIssue>,
        ConfigIssue,
    >)
        ensures
            *final(self) == old(self).initialized(error_on_config_issue),
            old(self).report(error_on_config_issue) == (match outcome {
                Ok(warnings) => Ok(warnings@),
                Err(issue) => Err(issue),
            }),
            !error_on_config_issue ==> outcome is Ok,
            outcome is Ok ==> final(self).is_valid(),
            final(self).num_cpus == old(self).num_cpus,
    {
        let mut warnings: Vec<ConfigIssue> = Vec::new();
        if !self.use_percentage.is_within_unit_interval() {
            let issue = ConfigIssue::PercentageOutOfRange { use_percentage: self.use_percentage };
            if error_on_config_issue {
                return Err(issue);
            }
            warnings.push(issue);
            self.use_percentage = Binary32::from_bits(DEFAULT_SHARE_BITS);
        }
        let threads = self.check_thread_count(self.threads, error_on_config_issue, &mut warnings)?;
        let threads_batch = self.check_thread_count(
            self.threads_batch,
            error_on_config_issue,
            &mut warnings,
        )?;
        self.threads = threads;
        self.threads_batch = threads_batch;
        proof {
            default_share().lemma_compared_with_one();
            assert(warnings@ =~= old(self).issues());
        }
        Ok(warnings)
    }

    /// The thread count of the general pool: the override when there is
    /// one, otherwise the share of the cores.
    pub fn thread_count_or_default(&self) -> (count: i16)
        ensures
            count == self.thread_count(),
    {
        self.count_or_default(self.threads)
    }

    /// The thread count of the batch pool: the override when there is one,
    /// otherwise the share of the cores.
    pub fn thread_count_batch_or_default(&self) -> (count: i16)
        ensures
            count == self.thread_count_batch(),
    {
        self.count_or_default(self.threads_batch)
    }

    fn count_or_default(&self, threads: Option<i16>) -> (count: i16)
        ensures
            count == self.count_or_share(threads),
    {
        if let Some(requested) = threads {
            requested
        } else {
            self.use_percentage.multiply_count(self.num_cpus)
        }
    }
}

impl Default for CpuConfig {
    /// Asks the host for its cores and starts from the fresh budget.
    fn default() -> (config: Self)
        ensures
            config.threads is None,
            config.threads_batch is None,
            config.use_percentage == default_share(),
    {
        let mut system = sysinfo::System::new_all();
        system.refresh_all();
        let physical = sysinfo::System::physical_core_count();
        let logical: usize = system.cpus().len();
        CpuConfig::from_core_counts(physical, logical)
    }
}

} // verus!
