//! Interrupt callback registration. An application ISR is recorded in a free slot of
//! the service table's registration array (the kernel finds callbacks there by IRQ
//! line) and handed to the kernel's `irq_attach`, which registers it without enabling
//! the line; `irq_enable` / `irq_disable` then open or mask it.

use vstd::prelude::*;
use crate::abi::{service_rc, spec_service_rc, SlotServices, APP_IRQ_REG_MAX};

verus! {

/// The plain fields of a registration slot (the callback and its context pointer are
/// written alongside by the caller).
#[derive(Clone, Copy, PartialEq, Eq, Structural, Debug)]
pub struct IrqRegistration {
    pub used: u8,
    pub irq_id: u8,
    pub prio_class: u8,
    pub rt_class: u8,
}

/// What `attach` decided.
#[derive(Clone, Copy, PartialEq, Eq, Structural, Debug)]
pub enum AttachPlan {
    /// `irq_attach` is not registered: the answer is -1.
    Unavailable,
    /// Every registration slot is taken: the answer is -1.
    Full,
    /// Write `reg` into slot `index`, then the answer is what `irq_attach` returns
    /// for that slot.
    Use { index: usize, reg: IrqRegistration },
}

/// Slot `i` is the first slot whose `used` byte is zero.
pub open spec fn is_first_free(used: Seq<u8>, i: int) -> bool {
    &&& 0 <= i < used.len()
    &&& used[i] == 0
    &&& forall|j: int| 0 <= j < i ==> used[j] != 0
}

/// Chooses the registration slot for an ISR on line `irq_id` (`used` holds the
/// `used` bytes of the registration array).
pub fn attach(
    services: &SlotServices,
    used: &[u8],
    irq_id: u8,
    prio_class: u8,
    rt_class: u8,
) -> (plan: AttachPlan)
    requires
        used@.len() == APP_IRQ_REG_MAX,
    ensures
        !services.irq_attach ==> plan == AttachPlan::Unavailable,
        services.irq_attach ==> match plan {
            AttachPlan::Unavailable => false,
            AttachPlan::Full => forall|j: int| 0 <= j < used@.len() ==> used@[j] != 0,
            AttachPlan::Use { index, reg } => {
                &&& is_first_free(used@, index as int)
                &&& reg == IrqRegistration { used: 1, irq_id, prio_class, rt_class }
            },
        },
{
    if !services.irq_attach {
        return AttachPlan::Unavailable;
    }
    let reg = IrqRegistration { used: 1, irq_id, prio_class, rt_class };
    let mut i: usize = 0;
    while i < APP_IRQ_REG_MAX
        invariant
            services.irq_attach,
            reg == (IrqRegistration { used: 1, irq_id, prio_class, rt_class }),
            used@.len() == APP_IRQ_REG_MAX,
            i <= APP_IRQ_REG_MAX,
            forall|j: int| 0 <= j < i ==> used@[j] != 0,
        decreases APP_IRQ_REG_MAX - i,
    {
        if used[i] == 0 {
            return AttachPlan::Use { index: i, reg };
        }
        i = i + 1;
    }
    AttachPlan::Full
}

/// The answer of `attach`: `irq_attach`'s return code for a used slot, else -1.
pub fn attach_rc(plan: &AttachPlan, attach_reply: i32) -> (rc: i32)
    ensures
        rc == match plan {
            AttachPlan::Use { .. } => attach_reply,
            _ => -1i32,
        },
{
    match plan {
        AttachPlan::Use { .. } => attach_reply,
        _ => -1,
    }
}

/// Opens the NVIC mask of a registered line: `irq_enable`'s answer, or -1 when it is
/// not registered.
pub fn enable(reply: Option<i32>) -> (rc: i32)
    ensures
        rc == spec_service_rc(reply),
{
    service_rc(reply)
}

/// Masks a registered line: `irq_disable`'s answer, or -1 when it is not registered.
pub fn disable(reply: Option<i32>) -> (rc: i32)
    ensures
        rc == spec_service_rc(reply),
{
    service_rc(reply)
}

/// The second step of attach-and-enable.
#[derive(Clone, Copy, PartialEq, Eq, Structural, Debug)]
pub enum AfterAttach {
    /// The attach failed: its code is the answer and nothing is enabled.
    Done(i32),
    /// The attach succeeded: enable the line, whose answer is the answer.
    Enable,
}

/// After an attach with the normal priority class, decides whether to enable.
pub fn attach_and_enable(attach_rc: i32) -> (next: AfterAttach)
    ensures
        next == if attach_rc != 0 {
            AfterAttach::Done(attach_rc)
        } else {
            AfterAttach::Enable
        },
{
    if attach_rc != 0 {
        AfterAttach::Done(attach_rc)
    } else {
        AfterAttach::Enable
    }
}

} // verus!
