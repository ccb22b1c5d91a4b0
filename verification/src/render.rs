//! The bookkeeping of the render workers: how many there are, and how long
//! each goes on.

use vstd::prelude::*;

verus! {

/// The stack of a render worker, in bytes: paths and hierarchies nest
/// deeply.
pub const WORKER_STACK_SIZE: usize = 32 * 1024 * 1024;

/// The number of workers on a machine with `cpus` processors: all but two of
/// them, and at least one.
pub open spec fn workers_for(cpus: int) -> int {
    if cpus > 3 {
        cpus - 2
    } else {
        1
    }
}

/// `num_cpus::get`: the number of processors that this process may use. Its
/// documentation promises at least one; which number comes back is the
/// machine's to say.
#[verifier::external_body]
fn available_cpus() -> (n: usize)
    ensures
        n >= 1,
{
    num_cpus::get()
}

/// The number of workers on a machine with `cpus` processors.
pub fn worker_count(cpus: usize) -> (n: usize)
    ensures
        n == workers_for(cpus as int),
        n >= 1,
{
    if cpus > 3 {
        cpus - 2
    } else {
        1
    }
}

/// The number of workers on this machine: `worker_count` of however many
/// processors it has.
pub fn default_worker_count() -> (n: usize)
    ensures
        n >= 1,
        exists|cpus: int| cpus >= 1 && n == #[trigger] workers_for(cpus),
{
    let cpus = available_cpus();
    let n = worker_count(cpus);
    n
}

/// How many passes a worker still has to render: a number, or no limit.
#[derive(Debug, Copy, Clone, PartialEq, Eq, Structural)]
pub struct FrameLimit {
    pub remaining: Option<u32>,
}

impl FrameLimit {
    /// Whether another pass is due: always without a limit, and with one
    /// until it is used up.
    pub open spec fn is_due(self) -> bool {
        self.remaining != Some(0u32)
    }

    /// The limit after one more pass.
    pub open spec fn after_pass(self) -> FrameLimit {
        match self.remaining {
            Some(n) => FrameLimit {
                remaining: Some(
                    if n > 0 {
                        (n - 1) as u32
                    } else {
                        0u32
                    },
                ),
            },
            None => self,
        }
    }

    /// A limit of `passes` passes, or none.
    pub fn new(passes: Option<u32>) -> (l: FrameLimit)
        ensures
            l.remaining == passes,
    {
        FrameLimit { remaining: passes }
    }

    /// Whether another pass is due.
    pub fn due(self) -> (r: bool)
        ensures
            r == self.is_due(),
    {
        match self.remaining {
            Some(0) => false,
            _ => true,
        }
    }

    /// Counts a pass that has been rendered and merged. The worker goes on
    /// with the limit that comes back, and stops where nothing comes back:
    /// when the quick pass was asked for meanwhile.
    pub fn pass_done(self, quick_pass: bool) -> (next: Option<FrameLimit>)
        requires
            self.is_due(),
        ensures
            next == if quick_pass {
                None
            } else {
                Some(self.after_pass())
            },
    {
        if quick_pass {
            None
        } else {
            match self.remaining {
                Some(n) => Some(FrameLimit { remaining: Some(n - 1) }),
                None => Some(self),
            }
        }
    }
}

} // verus!
