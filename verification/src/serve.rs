use vstd::prelude::*;

use crate::addr::SockAddr;
use crate::config::Config;
use crate::config_types::SocketType;
use crate::error::Error;
use crate::service::spec_socket_addr;

verus! {

/// The poll timeout in milliseconds: child reaping runs at least this
/// often, whether or not connections arrive.
pub const MAX_WAIT_MS: u64 = 100;

/// How many readiness events one poll may hand back at once.
pub const EVENTS_CAPACITY: usize = 1024;

/// The listening plan of a configuration: one socket address per
/// service, in block order, so that a service's position is its poll
/// registration token. Stops at the first service whose listen address
/// does not match its family, with that service's error.
pub fn listen_plan(config: &Config) -> (r: Result<Vec<SockAddr>, Error>)
    requires
        forall|k: int| 0 <= k < config@.len() ==> (#[trigger] config@[k]).socket_type
            == SocketType::Tcp,
    ensures
        match r {
            Ok(plan) => {
                &&& plan@.len() == config@.len()
                &&& forall|k: int|
                    0 <= k < config@.len() ==> spec_socket_addr(#[trigger] config@[k]) == Some(
                        plan@[k],
                    )
            },
            Err(e) => exists|k: int|
                {
                    &&& 0 <= k < config@.len()
                    &&& spec_socket_addr(#[trigger] config@[k]) is None
                    &&& (forall|j: int| 0 <= j < k ==> spec_socket_addr(#[trigger] config@[j]) is Some)
                    &&& e matches Error::InetVersionAddressMismatch {
                        expected_type,
                        addr,
                        service_name,
                    } && expected_type == config@[k].inet_type && Some(addr)
                        == config@[k].listen_address && service_name@ == config@[k].name
                },
        },
{
    let n = config.len();
    let mut plan: Vec<SockAddr> = Vec::new();
    let mut i: usize = 0;
    while i < n
        invariant
            i <= n == config@.len(),
            plan@.len() == i,
            forall|k: int|
                0 <= k < i ==> spec_socket_addr(#[trigger] config@[k]) == Some(plan@[k]),
        decreases n - i,
    {
        match config.get(i).socket_addr() {
            Ok(sa) => {
                plan.push(sa);
            },
            Err(e) => {
                proof {
                    assert(spec_socket_addr(config@[i as int]) is None);
                }
                return Err(e);
            },
        }
        i = i + 1;
    }
    Ok(plan)
}

/// The outcome of one non-blocking accept attempt, as the drain loop
/// sees it.
pub enum AcceptOutcome {
    /// A connection came in.
    Accepted,
    /// The queue is empty for now.
    WouldBlock,
    /// The listener failed in some other way.
    Failed,
}

/// What the drain loop does after one accept attempt.
#[derive(PartialEq, Eq, Structural, Debug)]
pub enum AcceptStep {
    /// Spawn the service's program for the new connection and accept
    /// again.
    Spawn,
    /// The queue is drained; go back to polling.
    StopDraining,
    /// Give the accept failure up as fatal.
    Fail,
}

/// The drain policy: a connection is served, an empty queue ends the
/// drain, and any other accept failure is fatal.
pub fn accept_step(o: &AcceptOutcome) -> (r: AcceptStep)
    ensures
        r == (match o {
            AcceptOutcome::Accepted => AcceptStep::Spawn,
            AcceptOutcome::WouldBlock => AcceptStep::StopDraining,
            AcceptOutcome::Failed => AcceptStep::Fail,
        }),
{
    match o {
        AcceptOutcome::Accepted => AcceptStep::Spawn,
        AcceptOutcome::WouldBlock => AcceptStep::StopDraining,
        AcceptOutcome::Failed => AcceptStep::Fail,
    }
}

/// The outcome of one non-blocking wait on a child process.
pub enum WaitOutcome {
    /// The child exited and was collected.
    Exited,
    /// The child still runs.
    StillRunning,
    /// The wait itself failed.
    WaitFailed,
}

/// The reap policy for one child: only a child that still runs is kept;
/// an exited child is dropped, and so is one whose wait failed, so that
/// dead entries cannot pile up.
pub fn should_retain(o: &WaitOutcome) -> (r: bool)
    ensures
        r == (o is StillRunning),
{
    match o {
        WaitOutcome::StillRunning => true,
        WaitOutcome::Exited => false,
        WaitOutcome::WaitFailed => false,
    }
}

/// The positions, in order, of the children a reap keeps.
pub open spec fn retained_upto(s: Seq<WaitOutcome>, n: int) -> Seq<int>
    decreases n,
{
    if n <= 0 {
        Seq::empty()
    } else {
        retained_upto(s, n - 1) + if s[n - 1] is StillRunning {
            seq![n - 1]
        } else {
            Seq::empty()
        }
    }
}

/// Applies the reap policy to a whole child list: the result holds the
/// positions of exactly the children that still run, in order.
pub fn retained_indices(outcomes: &Vec<WaitOutcome>) -> (r: Vec<usize>)
    ensures
        r@.map_values(|x: usize| x as int) == retained_upto(outcomes@, outcomes@.len() as int),
{
    let mut r: Vec<usize> = Vec::new();
    let mut i: usize = 0;
    while i < outcomes.len()
        invariant
            i <= outcomes.len(),
            r@.map_values(|x: usize| x as int) == retained_upto(outcomes@, i as int),
        decreases outcomes.len() - i,
    {
        let ghost before = r@;
        if should_retain(&outcomes[i]) {
            r.push(i);
            proof {
                assert(r@.map_values(|x: usize| x as int) =~= before.map_values(
                    |x: usize| x as int,
                ) + seq![i as int]);
            }
        } else {
            proof {
                assert(retained_upto(outcomes@, i + 1) =~= retained_upto(outcomes@, i as int));
            }
        }
        i = i + 1;
    }
    r
}

/// Which service a readiness event belongs to: the event's token is the
/// service's position in the plan; an event that is not readable, or
/// a token outside the plan, is skipped.
pub fn event_service_index(token: usize, readable: bool, n_services: usize) -> (r: Option<usize>)
    ensures
        r == (if readable && token < n_services {
            Some(token)
        } else {
            None::<usize>
        }),
{
    if readable && token < n_services {
        Some(token)
    } else {
        None
    }
}

} // verus!
