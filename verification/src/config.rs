//! The configuration of a batch and the plan that follows from it.

use vstd::prelude::*;

verus! {

/// The number of tasks of a batch, unless told otherwise.
pub const DEFAULT_TOTAL_TASKS: u32 = 10;

/// The number of workers of a pool, unless told otherwise.
pub const DEFAULT_TOTAL_WORKERS: u32 = 5;

/// How many seconds the collector waits for the next result before it
/// takes the batch for finished.
pub const QUIESCENCE_TIMEOUT_SECS: u64 = 10;

/// How many seconds a worker spends on one task.
pub const PROCESSING_DELAY_SECS: u64 = 1;

/// The two options of a run.
#[derive(Debug, Clone, Copy, PartialEq, Eq)]
pub struct BatchConfig {
    /// The number of tasks generated.
    pub total_tasks: u32,
    /// The number of worker loops started.
    pub total_workers: u32,
}

/// Why a configuration is refused.
#[derive(Debug, Clone, Copy, PartialEq, Eq)]
pub enum ConfigError {
    /// There is no worker to give a quota to.
    NoWorkers,
}

/// What a configuration comes to: the quota of each worker, the number of
/// tasks that the quotas cover together, and the number of tasks that no
/// quota covers and that therefore stay in the queue.
#[derive(Debug, Clone, Copy, PartialEq, Eq)]
pub struct Plan {
    pub quota: u32,
    pub assigned: u32,
    pub leftover: u32,
}

/// The quota of each worker: the tasks divided by the workers, rounded down.
pub open spec fn quota_of(config: BatchConfig) -> nat
    recommends
        config.total_workers > 0,
{
    config.total_tasks as nat / config.total_workers as nat
}

/// The plan of a configuration with at least one worker.
pub open spec fn plan_of(config: BatchConfig) -> Plan
    recommends
        config.total_workers > 0,
{
    Plan {
        quota: quota_of(config) as u32,
        assigned: (config.total_workers * quota_of(config)) as u32,
        leftover: (config.total_tasks as nat % config.total_workers as nat) as u32,
    }
}

/// The quota never exceeds the number of tasks, the quotas together never
/// cover more tasks than there are, and what they cover and what they leave
/// add up to the batch.
pub proof fn lemma_plan_adds_up(config: BatchConfig)
    requires
        config.total_workers > 0,
    ensures
        quota_of(config) <= config.total_tasks,
        config.total_workers * quota_of(config) <= config.total_tasks,
        config.total_workers * quota_of(config) + config.total_tasks as nat
            % config.total_workers as nat == config.total_tasks,
        config.total_tasks as nat % config.total_workers as nat == 0
            <==> config.total_workers * quota_of(config) == config.total_tasks,
{
    let n = config.total_tasks as int;
    let w = config.total_workers as int;
    vstd::arithmetic::div_mod::lemma_fundamental_div_mod(n, w);
    vstd::arithmetic::div_mod::lemma_div_pos_is_pos(n, w);
    vstd::arithmetic::div_mod::lemma_mod_pos_bound(n, w);
    assert(w * (n / w) >= n / w) by (nonlinear_arith)
        requires
            w >= 1,
            n / w >= 0,
    ;
}

impl BatchConfig {
    /// The quota of each worker. A pool without workers has none: the
    /// configuration is refused.
    pub fn quota(&self) -> (r: Result<u32, ConfigError>)
        ensures
            self.total_workers == 0 ==> r == Err::<u32, ConfigError>(ConfigError::NoWorkers),
            self.total_workers > 0 ==> r == Ok::<u32, ConfigError>(quota_of(*self) as u32),
            self.total_workers > 0 ==> quota_of(*self) <= u32::MAX,
    {
        if self.total_workers == 0 {
            Err(ConfigError::NoWorkers)
        } else {
            proof {
                lemma_plan_adds_up(*self);
            }
            Ok(self.total_tasks / self.total_workers)
        }
    }

    /// The plan of the run, or the reason why there is none.
    pub fn plan(&self) -> (r: Result<Plan, ConfigError>)
        ensures
            self.total_workers == 0 ==> r == Err::<Plan, ConfigError>(ConfigError::NoWorkers),
            self.total_workers > 0 ==> r == Ok::<Plan, ConfigError>(plan_of(*self)),
            self.total_workers > 0 ==> r.unwrap().quota == quota_of(*self)
                && r.unwrap().assigned == self.total_workers * quota_of(*self)
                && r.unwrap().leftover == self.total_tasks as nat % self.total_workers as nat,
    {
        if self.total_workers == 0 {
            Err(ConfigError::NoWorkers)
        } else {
            proof {
                lemma_plan_adds_up(*self);
            }
            let quota: u32 = self.total_tasks / self.total_workers;
            let leftover: u32 = self.total_tasks % self.total_workers;
            Ok(Plan { quota, assigned: self.total_tasks - leftover, leftover })
        }
    }
}

impl Default for BatchConfig {
    /// Ten tasks for five workers.
    fn default() -> (config: BatchConfig)
        ensures
            config == (BatchConfig {
                total_tasks: DEFAULT_TOTAL_TASKS,
                total_workers: DEFAULT_TOTAL_WORKERS,
            }),
    {
        BatchConfig { total_tasks: DEFAULT_TOTAL_TASKS, total_workers: DEFAULT_TOTAL_WORKERS }
    }
}

} // verus!
