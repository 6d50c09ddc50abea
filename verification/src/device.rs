//! Device access decisions: the name buffer handed to the kernel's device lookup,
//! and the I2C "write register, then read" transaction. The device handles, their
//! callback table and the transfers themselves belong to the embedding application.

use vstd::prelude::*;
use vstd::string::StringSliceAdditionalSpecFns;
use crate::abi::SlotServices;
use crate::ioctl::{I2C_IOCTL_MASTER_READ, I2C_IOCTL_MASTER_WRITE};

verus! {

/// Capacity of the name buffer handed to the device lookup, terminator included.
pub const DEVICE_NAME_CAP: usize = 32;

/// The lookup buffer of a device name: the name, then zeros up to 32 bytes.
pub open spec fn device_name_buffer(name: Seq<u8>) -> Seq<u8> {
    Seq::new(DEVICE_NAME_CAP as nat, |i: int| if i < name.len() { name[i] } else { 0u8 })
}

/// A lookup name is always terminated: the name, then a zero right after it.
pub proof fn law_device_name_terminated(name: Seq<u8>)
    requires
        name.len() < DEVICE_NAME_CAP,
    ensures
        device_name_buffer(name).len() == DEVICE_NAME_CAP,
        device_name_buffer(name)[name.len() as int] == 0,
        device_name_buffer(name).take(name.len() as int) == name,
{
    assert(device_name_buffer(name).take(name.len() as int) =~= name);
}

/// The name buffer for looking a device up by name (such as "uart0"); `None`, and
/// no lookup, when the name with its terminator does not fit in 32 bytes or the
/// kernel's `dev_get` is not registered.
pub fn device_lookup(services: &SlotServices, name: &str) -> (buf: Option<Vec<u8>>)
    ensures
        buf.is_some() == (name.spec_bytes().len() < DEVICE_NAME_CAP && services.dev_get),
        buf matches Some(b) ==> b@ == device_name_buffer(name.spec_bytes()),
{
    let bytes = name.as_bytes();
    if bytes.len() >= DEVICE_NAME_CAP {
        return None;
    }
    if !services.dev_get {
        return None;
    }
    let mut buf: Vec<u8> = Vec::new();
    let mut i: usize = 0;
    while i < DEVICE_NAME_CAP
        invariant
            bytes@ == name.spec_bytes(),
            bytes@.len() < DEVICE_NAME_CAP,
            i <= DEVICE_NAME_CAP,
            buf@.len() == i,
            forall|j: int| 0 <= j < i ==> buf@[j] == if j < bytes@.len() { bytes@[j] } else { 0u8 },
        decreases DEVICE_NAME_CAP - i,
    {
        if i < bytes.len() {
            buf.push(bytes[i]);
        } else {
            buf.push(0);
        }
        i = i + 1;
    }
    assert(buf@ =~= device_name_buffer(name.spec_bytes()));
    Some(buf)
}

/// Whether opening a looked-up device succeeded: the driver's open returned 0 (a
/// missing open callback answers -1). Only then is the device handed out as opened.
pub fn open_ok(open_rc: i32) -> (ok: bool)
    ensures
        ok == (open_rc == 0),
{
    open_rc == 0
}

/// An I2C transfer (layout of the driver's `i2c_xfer_t`): 7-bit slave address, data
/// buffer and its length, and the driver's result (0 = ACK, -1 = NACK or timeout).
#[derive(PartialEq, Eq, Debug)]
pub struct I2cXfer {
    pub addr: u16,
    pub buf: Vec<u8>,
    pub len: u16,
    pub result: i32,
}

/// An SPI transfer (layout of the driver's `spi_xfer_t`): without transmit data the
/// bus sends 0xFF, without a receive buffer the received bytes are dropped.
#[derive(PartialEq, Eq, Debug)]
pub struct SpiXfer {
    pub tx_buf: Option<Vec<u8>>,
    pub rx_buf: Option<Vec<u8>>,
    pub len: u16,
}

/// Where an I2C register read stands.
#[derive(Clone, Copy, PartialEq, Eq, Structural, Debug)]
pub enum I2cStage {
    /// The register address is being written.
    WriteReg,
    /// The data is being read.
    ReadData,
    /// The answer was given.
    Finished,
}

/// An I2C register read in progress: write the register address, then read.
#[derive(Clone, Copy, PartialEq, Eq, Structural, Debug)]
pub struct I2cWriteRead {
    pub addr: u16,
    pub read_len: usize,
    pub stage: I2cStage,
}

/// The next thing to do for an I2C register read.
#[derive(PartialEq, Eq, Debug)]
pub enum I2cAction {
    /// Issue this ioctl on the device and report its return code and the transfer's
    /// result to `step`.
    Ioctl { cmd: i32, xfer: I2cXfer },
    /// The transaction is over with this answer (0 = success, -1 = failure).
    Return(i32),
}

/// A zeroed buffer of `n` bytes to receive into.
fn zeroed(n: usize) -> (v: Vec<u8>)
    ensures
        v@ == Seq::new(n as nat, |i: int| 0u8),
{
    let mut v: Vec<u8> = Vec::new();
    let mut i: usize = 0;
    while i < n
        invariant
            i <= n,
            v@ =~= Seq::new(i as nat, |j: int| 0u8),
        decreases n - i,
    {
        v.push(0);
        i = i + 1;
    }
    v
}

/// Starts reading `read_len` bytes from register `reg` of the I2C slave `addr`: the
/// first action writes the one-byte register address.
pub fn i2c_write_read(addr: u16, reg: u8, read_len: usize) -> (r: (I2cWriteRead, I2cAction))
    ensures
        r.0 == (I2cWriteRead { addr, read_len, stage: I2cStage::WriteReg }),
        r.1 matches I2cAction::Ioctl { cmd, xfer } && cmd == I2C_IOCTL_MASTER_WRITE && xfer.addr == addr
            && xfer.buf@ == seq![reg] && xfer.len == 1 && xfer.result == 0,
{
    let mut tx: Vec<u8> = Vec::new();
    tx.push(reg);
    let xfer = I2cXfer { addr, buf: tx, len: 1, result: 0 };
    (I2cWriteRead { addr, read_len, stage: I2cStage::WriteReg }, I2cAction::Ioctl {
        cmd: I2C_IOCTL_MASTER_WRITE,
        xfer,
    })
}

impl I2cWriteRead {
    /// Takes the ioctl return code `rc` and the transfer's `result` of the action
    /// just performed: any failure ends the read with -1; after the register write
    /// the data read follows; after the data read the answer is 0.
    pub fn step(&mut self, rc: i32, result: i32) -> (action: I2cAction)
        requires
            old(self).stage != I2cStage::Finished,
        ensures
            final(self).addr == old(self).addr,
            final(self).read_len == old(self).read_len,
            rc != 0 || result != 0 ==> action == I2cAction::Return(-1i32) && final(self).stage
                == I2cStage::Finished,
            rc == 0 && result == 0 && old(self).stage == I2cStage::ReadData ==> action
                == I2cAction::Return(0i32) && final(self).stage == I2cStage::Finished,
            rc == 0 && result == 0 && old(self).stage == I2cStage::WriteReg ==> {
                &&& final(self).stage == I2cStage::ReadData
                &&& action matches I2cAction::Ioctl { cmd, xfer } && cmd == I2C_IOCTL_MASTER_READ
                    && xfer.addr == old(self).addr && xfer.buf@ == Seq::new(
                    old(self).read_len as nat,
                    |i: int| 0u8,
                ) && xfer.len == old(self).read_len as u16 && xfer.result == 0
            },
    {
        if rc != 0 || result != 0 {
            self.stage = I2cStage::Finished;
            return I2cAction::Return(-1);
        }
        match self.stage {
            I2cStage::WriteReg => {
                self.stage = I2cStage::ReadData;
                let len = self.read_len as u16;
                let xfer = I2cXfer { addr: self.addr, buf: zeroed(self.read_len), len, result: 0 };
                I2cAction::Ioctl { cmd: I2C_IOCTL_MASTER_READ, xfer }
            },
            _ => {
                self.stage = I2cStage::Finished;
                I2cAction::Return(0)
            },
        }
    }
}

} // verus!
