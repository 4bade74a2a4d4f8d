//! How the workers of a circuit are laid out across one or more hosts.

use std::ops::Range;
use vstd::prelude::*;

verus! {

/// A network address: an IP address (an IPv4 address in the low 32 bits
/// unless `v6` is set) and a TCP port.
#[derive(Clone, Copy, Debug, PartialEq, Eq, Hash, Structural)]
pub struct HostAddress {
    pub ip: u128,
    pub v6: bool,
    pub port: u16,
}

/// A host for some workers of a multi-host layout.
#[derive(Debug)]
pub struct Host {
    /// The address on which the host listens and to which the other hosts
    /// connect.
    pub address: HostAddress,
    /// The worker IDs run on this host; IDs start at 0 on the first host and
    /// go on from there.
    pub workers: Range<usize>,
}

impl Clone for Host {
    fn clone(&self) -> (r: Host)
        ensures
            r == *self,
    {
        Host { address: self.address, workers: self.workers.start..self.workers.end }
    }
}

/// How a circuit is laid out across one or more machines.
#[derive(Clone, Debug)]
pub enum Layout {
    /// All workers run on this host.
    Solo { n_workers: usize },
    /// Workers spread across several hosts.
    Multihost { hosts: Vec<Host>, local_host_idx: usize },
}

/// Why a multi-host layout cannot be built.
#[derive(Clone, Copy, Debug, PartialEq, Eq, Structural)]
pub enum LayoutError {
    /// The local address is not in the list of hosts.
    NoSuchAddress(HostAddress),
    /// The list of hosts holds this address twice.
    DuplicateAddress(HostAddress),
}

/// Total number of workers of the first `n` hosts of `params`.
pub open spec fn workers_before(params: Seq<(HostAddress, usize)>, n: int) -> int
    decreases n,
{
    if n <= 0 {
        0
    } else {
        workers_before(params, n - 1) + params[n - 1].1
    }
}

/// Whether the address at index `j` already occurs before it.
pub open spec fn repeats_earlier(params: Seq<(HostAddress, usize)>, j: int) -> bool {
    exists|i: int| 0 <= i < j && params[i].0 == #[trigger] params[j].0
}

/// Whether some address occurs twice.
pub open spec fn has_duplicate(params: Seq<(HostAddress, usize)>) -> bool {
    exists|j: int| 0 <= j < params.len() && repeats_earlier(params, j)
}

/// Index of the first host whose address occurred before it.
pub open spec fn first_duplicate(params: Seq<(HostAddress, usize)>, j: int) -> bool {
    &&& 0 <= j < params.len()
    &&& repeats_earlier(params, j)
    &&& forall|k: int| 0 <= k < j ==> !repeats_earlier(params, k)
}

/// Whether `a` is the address of some host.
pub open spec fn lists_address(params: Seq<(HostAddress, usize)>, a: HostAddress) -> bool {
    exists|i: int| 0 <= i < params.len() && #[trigger] params[i].0 == a
}

impl Layout {
    /// Well-formedness: at least one worker; in a multi-host layout at least
    /// two hosts with distinct addresses, a valid local index, and worker IDs
    /// handed out in consecutive, non-empty ranges from 0.
    pub open spec fn wf(&self) -> bool {
        match self {
            Layout::Solo { n_workers } => *n_workers > 0,
            Layout::Multihost { hosts, local_host_idx } => {
                &&& hosts@.len() >= 2
                &&& *local_host_idx < hosts@.len()
                &&& hosts@[0].workers.start == 0
                &&& forall|i: int|
                    0 <= i < hosts@.len() ==> #[trigger] hosts@[i].workers.start
                        < hosts@[i].workers.end
                &&& forall|i: int|
                    0 <= i < hosts@.len() - 1 ==> #[trigger] hosts@[i].workers.end == hosts@[i
                        + 1].workers.start
                &&& forall|i: int, j: int|
                    0 <= i < j < hosts@.len() ==> #[trigger] hosts@[i].address
                        != #[trigger] hosts@[j].address
            },
        }
    }

    /// Total number of workers.
    pub open spec fn spec_n_workers(&self) -> int {
        match self {
            Layout::Solo { n_workers } => *n_workers as int,
            Layout::Multihost { hosts, .. } => hosts@.last().workers.end as int,
        }
    }

    /// A solo layout with `n_workers` workers.
    pub fn new_solo(n_workers: usize) -> (r: Layout)
        requires
            n_workers != 0,
        ensures
            r == (Layout::Solo { n_workers }),
            r.wf(),
    {
        Layout::Solo { n_workers }
    }

    /// A layout over the hosts of `params`, each an address and a number of
    /// workers, run here as the host at `local_address`. A single host gives a
    /// solo layout.
    pub fn new_multihost(params: &Vec<(HostAddress, usize)>, local_address: HostAddress) -> (r:
        Result<Layout, LayoutError>)
        requires
            forall|i: int| 0 <= i < params@.len() ==> #[trigger] params@[i].1 > 0,
            workers_before(params@, params@.len() as int) <= usize::MAX,
        ensures
            has_duplicate(params@) ==> exists|j: int|
                first_duplicate(params@, j) && r == Err::<Layout, LayoutError>(
                    LayoutError::DuplicateAddress(params@[j].0),
                ),
            !has_duplicate(params@) && !lists_address(params@, local_address) ==> r == Err::<
                Layout,
                LayoutError,
            >(LayoutError::NoSuchAddress(local_address)),
            !has_duplicate(params@) && lists_address(params@, local_address) ==> r is Ok,
            r matches Ok(l) ==> {
                &&& l.wf()
                &&& l.spec_n_workers() == workers_before(params@, params@.len() as int)
                &&& params@.len() == 1 ==> l == (Layout::Solo { n_workers: params@[0].1 })
                &&& params@.len() > 1 ==> match l {
                    Layout::Solo { .. } => false,
                    Layout::Multihost { hosts, local_host_idx } => {
                        &&& hosts@.len() == params@.len()
                        &&& params@[local_host_idx as int].0 == local_address
                        &&& forall|i: int|
                            0 <= i < params@.len() ==> {
                                &&& #[trigger] hosts@[i].address == params@[i].0
                                &&& hosts@[i].workers.start == workers_before(params@, i)
                                &&& hosts@[i].workers.end == workers_before(params@, i + 1)
                            }
                    },
                }
            },
    {
        // Find the first address that occurs twice.
        let mut j: usize = 0;
        while j < params.len()
            invariant
                j <= params@.len(),
                forall|k: int| 0 <= k < j ==> !repeats_earlier(params@, k),
            decreases params@.len() - j,
        {
            let mut i: usize = 0;
            while i < j
                invariant
                    i <= j < params@.len(),
                    forall|k: int| 0 <= k < j ==> !repeats_earlier(params@, k),
                    forall|k: int| 0 <= k < i ==> params@[k].0 != params@[j as int].0,
                decreases j - i,
            {
                if params[i].0 == params[j].0 {
                    proof {
                        assert(repeats_earlier(params@, j as int));
                        assert(first_duplicate(params@, j as int));
                    }
                    return Err(LayoutError::DuplicateAddress(params[j].0));
                }
                i = i + 1;
            }
            j = j + 1;
        }
        // Find the local host.
        let mut local_host_idx: usize = 0;
        while local_host_idx < params.len() && params[local_host_idx].0 != local_address
            invariant
                local_host_idx <= params@.len(),
                forall|k: int| 0 <= k < local_host_idx ==> params@[k].0 != local_address,
            decreases params@.len() - local_host_idx,
        {
            local_host_idx = local_host_idx + 1;
        }
        if local_host_idx == params.len() {
            return Err(LayoutError::NoSuchAddress(local_address));
        }
        if params.len() == 1 {
            reveal_with_fuel(workers_before, 2);
            assert(workers_before(params@, 1) == params@[0].1);
            return Ok(Self::new_solo(params[0].1));
        }
        let mut hosts: Vec<Host> = Vec::new();
        let mut total_workers: usize = 0;
        let mut k: usize = 0;
        while k < params.len()
            invariant
                k <= params@.len(),
                params@.len() >= 2,
                hosts@.len() == k,
                total_workers == workers_before(params@, k as int),
                forall|i: int| 0 <= i < params@.len() ==> #[trigger] params@[i].1 > 0,
                workers_before(params@, params@.len() as int) <= usize::MAX,
                forall|i: int|
                    0 <= i < k ==> {
                        &&& #[trigger] hosts@[i].address == params@[i].0
                        &&& hosts@[i].workers.start == workers_before(params@, i)
                        &&& hosts@[i].workers.end == workers_before(params@, i + 1)
                    },
            decreases params@.len() - k,
        {
            proof {
                lemma_workers_before_monotone(params@, k + 1, params@.len() as int);
            }
            let n = params[k].1;
            hosts.push(Host { address: params[k].0, workers: total_workers..total_workers + n });
            total_workers = total_workers + n;
            k = k + 1;
        }
        proof {
            assert forall|i: int| 0 <= i < hosts@.len() implies #[trigger] hosts@[i].workers.start
                < hosts@[i].workers.end by {
                assert(hosts@[i].address == params@[i].0);
                assert(params@[i].1 > 0);
            }
            assert forall|i: int| 0 <= i < hosts@.len() - 1 implies #[trigger] hosts@[i].workers.end
                == hosts@[i + 1].workers.start by {
                assert(hosts@[i].address == params@[i].0);
                assert(hosts@[i + 1].address == params@[i + 1].0);
            }
            assert forall|a: int, b: int| 0 <= a < b < hosts@.len() implies #[trigger] hosts@[a].address
                != #[trigger] hosts@[b].address by {
                assert(hosts@[a].address == params@[a].0);
                assert(hosts@[b].address == params@[b].0);
                assert(!repeats_earlier(params@, b));
            }
            assert(hosts@[0].address == params@[0].0);
            let last = hosts@.len() - 1;
            assert(hosts@[last].address == params@[last].0);
        }
        Ok(Layout::Multihost { hosts, local_host_idx })
    }

    /// The IDs of the workers that run on this host.
    pub fn local_workers(&self) -> (r: Range<usize>)
        requires
            self.wf(),
        ensures
            match self {
                Layout::Solo { n_workers } => r.start == 0 && r.end == *n_workers,
                Layout::Multihost { hosts, local_host_idx } => r == hosts@[*local_host_idx as int].workers,
            },
    {
        match self {
            Layout::Solo { n_workers } => 0..*n_workers,
            Layout::Multihost { hosts, local_host_idx } => {
                let w = &hosts[*local_host_idx].workers;
                w.start..w.end
            },
        }
    }

    /// The hosts other than this one, in order; none in a solo layout.
    pub fn other_hosts(&self) -> (r: Vec<HostAddress>)
        requires
            self.wf(),
        ensures
            match self {
                Layout::Solo { .. } => r@.len() == 0,
                Layout::Multihost { hosts, local_host_idx } => {
                    &&& r@.len() == hosts@.len() - 1
                    &&& forall|i: int|
                        0 <= i < r@.len() ==> #[trigger] r@[i] == if i < *local_host_idx {
                            hosts@[i].address
                        } else {
                            hosts@[i + 1].address
                        }
                },
            },
    {
        let mut out: Vec<HostAddress> = Vec::new();
        match self {
            Layout::Solo { .. } => {},
            Layout::Multihost { hosts, local_host_idx } => {
                let mut i: usize = 0;
                while i < hosts.len()
                    invariant
                        i <= hosts@.len(),
                        *local_host_idx < hosts@.len(),
                        out@.len() == if i <= *local_host_idx {
                            i as int
                        } else {
                            i - 1
                        },
                        forall|k: int|
                            0 <= k < out@.len() ==> #[trigger] out@[k] == if k < *local_host_idx {
                                hosts@[k].address
                            } else {
                                hosts@[k + 1].address
                            },
                    decreases hosts@.len() - i,
                {
                    if i != *local_host_idx {
                        out.push(hosts[i].address);
                    }
                    i = i + 1;
                }
            },
        }
        out
    }

    /// The address of this host; `None` in a solo layout.
    pub fn local_address(&self) -> (r: Option<HostAddress>)
        requires
            self.wf(),
        ensures
            r == match self {
                Layout::Solo { .. } => None,
                Layout::Multihost { hosts, local_host_idx } => Some(
                    hosts@[*local_host_idx as int].address,
                ),
            },
    {
        match self {
            Layout::Solo { .. } => None,
            Layout::Multihost { hosts, local_host_idx } => Some(hosts[*local_host_idx].address),
        }
    }

    /// Total number of workers over all hosts.
    pub fn n_workers(&self) -> (r: usize)
        requires
            self.wf(),
        ensures
            r == self.spec_n_workers(),
    {
        match self {
            Layout::Solo { n_workers } => *n_workers,
            Layout::Multihost { hosts, .. } => hosts[hosts.len() - 1].workers.end,
        }
    }
}

proof fn lemma_workers_before_monotone(params: Seq<(HostAddress, usize)>, a: int, b: int)
    requires
        0 <= a <= b <= params.len(),
        forall|i: int| 0 <= i < params.len() ==> #[trigger] params[i].1 > 0,
    ensures
        workers_before(params, a) <= workers_before(params, b),
    decreases b - a,
{
    if a < b {
        lemma_workers_before_monotone(params, a, b - 1);
    }
}

/// The settings of a circuit that the runtime needs: its layout, the storage
/// directory if any, and the checkpoint to start from (0 for none).
#[derive(Clone, Debug)]
pub struct CircuitConfig {
    pub layout: Layout,
    pub storage: Option<String>,
    pub init_checkpoint: u128,
}

impl CircuitConfig {
    /// A solo layout of `n` workers, no storage, no checkpoint.
    pub fn with_workers(n: usize) -> (r: CircuitConfig)
        requires
            n != 0,
        ensures
            r.layout == (Layout::Solo { n_workers: n }),
            r.storage is None,
            r.init_checkpoint == 0,
    {
        CircuitConfig { layout: Layout::new_solo(n), storage: None, init_checkpoint: 0 }
    }
}

} // verus!
