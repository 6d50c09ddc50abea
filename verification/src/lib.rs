//! Application-side SDK for the jOS RTOS: the data layouts shared with the kernel's
//! service table, the logging pipeline (line formatting, the log ring and the packer
//! that turns queued entries into console frames), interrupt-slot allocation, task
//! spawn requests and the device/bus transaction decisions.
//!
//! Every kernel service is reached through a table of C callbacks that the system
//! fills in. Those calls, and the raw memory they touch, are made by the embedding
//! application; the functions here take what a call returned, or describe the call
//! that is to be made, and decide the rest.

pub mod abi;
pub mod device;
pub mod ioctl;
pub mod irq;
pub mod text;
pub mod log;
pub mod log_ring;
pub mod log_task;
pub mod rtos;
