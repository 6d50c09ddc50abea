//! Task creation requests and the basic kernel services (sleep, ticks, cycles).
//! The calls go through the kernel service table, which the embedding application
//! holds: the functions here say which call to make, or resolve its answer.

use vstd::prelude::*;
use vstd::string::StringSliceAdditionalSpecFns;
use crate::abi::{rtos_task_attr_t, SlotServices, RTOS_RT_NONE};

verus! {

pub use crate::abi::{
    RTOS_PRIO_BH_HIGH, RTOS_PRIO_BH_MED, RTOS_PRIO_BLINK, RTOS_PRIO_IDLE, RTOS_PRIO_MAIN,
    RTOS_RT_HARD, RTOS_RT_SOFT,
};

/// Capacity of the name buffer handed to task creation, terminator included.
pub const TASK_NAME_CAP: usize = 24;

/// A call to a kernel service that answers nothing.
#[derive(Clone, Copy, PartialEq, Eq, Structural, Debug)]
pub enum KernelCall {
    /// Sleep for `ms` milliseconds.
    Msleep { ms: u32 },
    /// Sleep until `last + inc_ticks` and advance `last` by `inc_ticks`.
    DelayUntil { last: u32, inc_ticks: u32 },
}

/// The name buffer of a task: the first (at most 23) bytes of the name, then zeros
/// up to 24 bytes, so the name is always terminated.
pub open spec fn task_name_buffer(name: Seq<u8>) -> Seq<u8> {
    let n = if name.len() < 23 { name.len() as int } else { 23 };
    Seq::new(24, |i: int| if i < n { name[i] } else { 0u8 })
}

/// A task name handed to the kernel is always terminated: 24 bytes, the last one
/// zero, holding the name (cut to 23 bytes) and zeros after it.
pub proof fn law_task_name_terminated(name: Seq<u8>)
    ensures
        task_name_buffer(name).len() == TASK_NAME_CAP,
        task_name_buffer(name)[23] == 0,
        forall|i: int| 0 <= i < name.len() && i < 23 ==> #[trigger] task_name_buffer(name)[i] == name[i],
{
}

/// A task creation request, as handed to the kernel's `task_create_rt`
/// (entry point and stack memory are supplied alongside by the caller).
#[derive(PartialEq, Eq, Debug)]
pub struct TaskSpawn {
    pub name: Vec<u8>,
    pub prio: u8,
    pub stack_size: usize,
    pub priv_: u8,
    pub attr: rtos_task_attr_t,
}

/// Plans a sleep of `ms` milliseconds; nothing is called when the service is not
/// registered.
pub fn msleep(services: &SlotServices, ms: u32) -> (call: Option<KernelCall>)
    ensures
        call == if services.msleep {
            Some(KernelCall::Msleep { ms })
        } else {
            None
        },
{
    if services.msleep {
        Some(KernelCall::Msleep { ms })
    } else {
        None
    }
}

/// The tick count since boot: the kernel's answer, or 0 when the service is not
/// registered.
pub fn tick_count(reply: Option<u32>) -> (t: u32)
    ensures
        t == match reply {
            Some(v) => v,
            None => 0,
        },
{
    match reply {
        Some(v) => v,
        None => 0,
    }
}

/// The cycle counter: the kernel's answer, or 0 when the service is not registered.
pub fn cycle_now(reply: Option<u32>) -> (c: u32)
    ensures
        c == match reply {
            Some(v) => v,
            None => 0,
        },
{
    match reply {
        Some(v) => v,
        None => 0,
    }
}

/// Plans an absolute delay to `last + inc_ticks`; the kernel advances `last`.
/// Nothing is called when the service is not registered.
pub fn delay_until(services: &SlotServices, last: u32, inc_ticks: u32) -> (call: Option<KernelCall>)
    ensures
        call == if services.delay_until {
            Some(KernelCall::DelayUntil { last, inc_ticks })
        } else {
            None
        },
{
    if services.delay_until {
        Some(KernelCall::DelayUntil { last, inc_ticks })
    } else {
        None
    }
}

/// Builds the terminated name buffer of a task.
pub fn task_name(name: &str) -> (buf: Vec<u8>)
    ensures
        buf@ == task_name_buffer(name.spec_bytes()),
{
    let bytes = name.as_bytes();
    let n = if bytes.len() < TASK_NAME_CAP - 1 {
        bytes.len()
    } else {
        TASK_NAME_CAP - 1
    };
    let mut buf: Vec<u8> = Vec::new();
    let mut i: usize = 0;
    while i < TASK_NAME_CAP
        invariant
            bytes@ == name.spec_bytes(),
            n == if bytes@.len() < 23 { bytes@.len() as int } else { 23 },
            i <= TASK_NAME_CAP,
            buf@.len() == i,
            forall|j: int| 0 <= j < i ==> buf@[j] == if j < n { bytes@[j] } else { 0u8 },
        decreases TASK_NAME_CAP - i,
    {
        if i < n {
            buf.push(bytes[i]);
        } else {
            buf.push(0);
        }
        i = i + 1;
    }
    assert(buf@ =~= task_name_buffer(name.spec_bytes()));
    buf
}

/// Plans the creation of a task with the given priority, privilege and real-time
/// attributes; `None` when the kernel's `task_create_rt` is not registered.
pub fn spawn_rt(
    services: &SlotServices,
    name: &str,
    prio: u8,
    stack_size: usize,
    priv_: u8,
    rt_class: u8,
    deadline_ticks: u32,
    wcet_ticks: u32,
) -> (req: Option<TaskSpawn>)
    ensures
        req.is_some() == services.task_create_rt,
        req matches Some(t) ==> {
            &&& t.name@ == task_name_buffer(name.spec_bytes())
            &&& t.prio == prio
            &&& t.stack_size == stack_size
            &&& t.priv_ == priv_
            &&& t.attr == (rtos_task_attr_t { rt_class, deadline_ticks, wcet_ticks })
        },
{
    if services.task_create_rt {
        let attr = rtos_task_attr_t { rt_class, deadline_ticks, wcet_ticks };
        Some(TaskSpawn { name: task_name(name), prio, stack_size, priv_, attr })
    } else {
        None
    }
}

/// Plans an ordinary task: privileged, not real-time, no deadline or budget.
pub fn spawn(services: &SlotServices, name: &str, prio: u8, stack_size: usize) -> (req: Option<TaskSpawn>)
    ensures
        req.is_some() == services.task_create_rt,
        req matches Some(t) ==> {
            &&& t.name@ == task_name_buffer(name.spec_bytes())
            &&& t.prio == prio
            &&& t.stack_size == stack_size
            &&& t.priv_ == 1
            &&& t.attr == (rtos_task_attr_t { rt_class: RTOS_RT_NONE, deadline_ticks: 0, wcet_ticks: 0 })
        },
{
    spawn_rt(services, name, prio, stack_size, 1, RTOS_RT_NONE, 0, 0)
}

} // verus!
