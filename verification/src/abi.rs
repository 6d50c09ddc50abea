//! Constants and plain layouts of the kernel service table contract.

#![allow(non_camel_case_types)]

use vstd::prelude::*;

verus! {

/// Highest priority that may run hard real-time work (`rt_class == RTOS_RT_HARD`).
pub const RTOS_PRIO_BH_HIGH: u8 = 4;
pub const RTOS_PRIO_BH_MED: u8 = 6;
pub const RTOS_PRIO_MAIN: u8 = 12;
pub const RTOS_PRIO_BLINK: u8 = 14;
pub const RTOS_PRIO_BIST: u8 = 24;
pub const RTOS_PRIO_IDLE: u8 = 31;

/// Real-time classes of a task (`rtos_task_attr_t::rt_class`).
pub const RTOS_RT_NONE: u8 = 0;
pub const RTOS_RT_HARD: u8 = 1;
pub const RTOS_RT_SOFT: u8 = 2;

/// Attributes handed to the kernel when a task is created.
#[derive(Clone, Copy, PartialEq, Eq, Structural, Debug)]
pub struct rtos_task_attr_t {
    pub rt_class: u8,
    pub deadline_ticks: u32,
    pub wcet_ticks: u32,
}

/// Marker the system writes into the service table once it is filled ("APPS").
pub const APP_SLOT_MAGIC: u32 = 0x4150_5053;
pub const APP_SLOT_VERSION: u32 = 1;
/// Number of interrupt registration slots in the service table.
pub const APP_IRQ_REG_MAX: usize = 8;

/// Interrupt priority classes.
pub const IRQ_CLASS_NORMAL: u8 = 0;
pub const IRQ_CLASS_KERNEL: u8 = 1;
pub const IRQ_CLASS_ZERO_LATENCY: u8 = 2;

/// Which callbacks of the kernel service table are registered. The table itself,
/// and every call through it, belong to the embedding application; this view of it
/// is what the decisions here read.
#[derive(Clone, Copy, PartialEq, Eq, Structural, Debug)]
pub struct SlotServices {
    pub task_create: bool,
    pub task_create_rt: bool,
    pub msleep: bool,
    pub tick_count: bool,
    pub cycle_now: bool,
    pub delay_until: bool,
    pub sem_init: bool,
    pub sem_wait: bool,
    pub sem_trywait: bool,
    pub sem_give: bool,
    pub dev_get: bool,
    pub dev_open: bool,
    pub dev_read: bool,
    pub dev_write: bool,
    pub dev_ioctl: bool,
    pub dev_close: bool,
    pub irq_attach: bool,
    pub irq_enable: bool,
    pub irq_disable: bool,
    pub app_start: bool,
    pub app_stop: bool,
}

/// The return code of a service that answers with a status: its answer when it is
/// registered, `-1` when it is not.
pub open spec fn spec_service_rc(reply: Option<i32>) -> i32 {
    match reply {
        Some(rc) => rc,
        None => -1i32,
    }
}

/// Resolves the status of a call made through the service table (`None`: the
/// callback was not registered, so nothing was called).
pub fn service_rc(reply: Option<i32>) -> (rc: i32)
    ensures
        rc == spec_service_rc(reply),
{
    match reply {
        Some(rc) => rc,
        None => -1,
    }
}

/// Contract version shared with the kernel's ABI header.
pub const RTOS_ABI_VERSION: u32 = 1;

/// The service table can be used: it carries the marker and the contract version
/// that this SDK was written against.
pub open spec fn spec_slot_compatible(magic: u32, version: u32) -> bool {
    magic == APP_SLOT_MAGIC && version == RTOS_ABI_VERSION
}

/// The mount check of the application entry: the table must carry the marker and
/// this SDK's contract version, else the application refuses to mount.
pub fn slot_compatible(magic: u32, version: u32) -> (ok: bool)
    ensures
        ok == spec_slot_compatible(magic, version),
{
    !(magic != APP_SLOT_MAGIC || version != RTOS_ABI_VERSION)
}

} // verus!
