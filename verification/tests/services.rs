use rtos_app_sdk::abi::{rtos_task_attr_t, service_rc, slot_compatible, SlotServices, APP_SLOT_MAGIC, RTOS_ABI_VERSION, RTOS_RT_HARD, RTOS_RT_NONE};
use rtos_app_sdk::device::{device_lookup, i2c_write_read, I2cAction, I2cStage, I2cXfer, SpiXfer};
use rtos_app_sdk::ioctl::{CanFrame, SdBlockIo, I2C_IOCTL_MASTER_READ, I2C_IOCTL_MASTER_WRITE, CAN_BTR_LBKM, FSMC_BCR_MTYP};
use rtos_app_sdk::irq::{attach, attach_and_enable, attach_rc, disable, enable, AfterAttach, AttachPlan, IrqRegistration};
use rtos_app_sdk::rtos::{cycle_now, delay_until, msleep, spawn, spawn_rt, task_name, tick_count, KernelCall, RTOS_PRIO_BH_HIGH, RTOS_PRIO_BH_MED};

fn services(all: bool) -> SlotServices {
    SlotServices {
        task_create: all,
        task_create_rt: all,
        msleep: all,
        tick_count: all,
        cycle_now: all,
        delay_until: all,
        sem_init: all,
        sem_wait: all,
        sem_trywait: all,
        sem_give: all,
        dev_get: all,
        dev_open: all,
        dev_read: all,
        dev_write: all,
        dev_ioctl: all,
        dev_close: all,
        irq_attach: all,
        irq_enable: all,
        irq_disable: all,
        app_start: all,
        app_stop: all,
    }
}

#[test]
fn mount_check() {
    assert!(slot_compatible(APP_SLOT_MAGIC, RTOS_ABI_VERSION));
    assert!(slot_compatible(0x4150_5053, 1));
    assert!(!slot_compatible(0, RTOS_ABI_VERSION));
    assert!(!slot_compatible(APP_SLOT_MAGIC, 2));
}

#[test]
fn service_status_defaults_to_minus_one() {
    assert_eq!(service_rc(Some(0)), 0);
    assert_eq!(service_rc(Some(7)), 7);
    assert_eq!(service_rc(None), -1);
}

#[test]
fn irq_enable_disable() {
    assert_eq!(enable(Some(0)), 0);
    assert_eq!(enable(Some(-3)), -3);
    assert_eq!(enable(None), -1);
    assert_eq!(disable(Some(0)), 0);
    assert_eq!(disable(None), -1);
}

#[test]
fn irq_attach_takes_first_free_slot() {
    let used = [1u8, 1, 0, 1, 0, 0, 0, 0];
    let plan = attach(&services(true), &used, 28, 1, 0);
    assert_eq!(
        plan,
        AttachPlan::Use { index: 2, reg: IrqRegistration { used: 1, irq_id: 28, prio_class: 1, rt_class: 0 } }
    );
    assert_eq!(attach_rc(&plan, 0), 0);
    assert_eq!(attach_rc(&plan, -5), -5);
}

#[test]
fn irq_attach_full_or_unavailable() {
    let full = [1u8; 8];
    let plan = attach(&services(true), &full, 3, 0, 0);
    assert_eq!(plan, AttachPlan::Full);
    assert_eq!(attach_rc(&plan, 0), -1);
    let free = [0u8; 8];
    let plan = attach(&services(false), &free, 3, 0, 0);
    assert_eq!(plan, AttachPlan::Unavailable);
    assert_eq!(attach_rc(&plan, 0), -1);
}

#[test]
fn irq_attach_and_enable_stops_on_failure() {
    assert_eq!(attach_and_enable(-1), AfterAttach::Done(-1));
    assert_eq!(attach_and_enable(0), AfterAttach::Enable);
}

#[test]
fn ticks_and_cycles() {
    assert_eq!(tick_count(Some(1234)), 1234);
    assert_eq!(tick_count(None), 0);
    assert_eq!(cycle_now(Some(99)), 99);
    assert_eq!(cycle_now(None), 0);
}

#[test]
fn sleep_plans() {
    assert_eq!(msleep(&services(true), 50), Some(KernelCall::Msleep { ms: 50 }));
    assert_eq!(msleep(&services(false), 50), None);
    assert_eq!(
        delay_until(&services(true), 100, 10),
        Some(KernelCall::DelayUntil { last: 100, inc_ticks: 10 })
    );
    assert_eq!(delay_until(&services(false), 100, 10), None);
}

#[test]
fn task_name_is_terminated() {
    let mut expect = b"demo_app".to_vec();
    expect.resize(24, 0);
    assert_eq!(task_name("demo_app"), expect);
    let long = task_name("abcdefghijklmnopqrstuvwxyz");
    assert_eq!(long.len(), 24);
    assert_eq!(&long[..23], b"abcdefghijklmnopqrstuvw");
    assert_eq!(long[23], 0);
    assert_eq!(task_name(""), vec![0u8; 24]);
}

#[test]
fn spawn_requests() {
    let req = spawn_rt(&services(true), "ctrl", RTOS_PRIO_BH_HIGH, 2048, 1, RTOS_RT_HARD, 5, 2).expect("request");
    assert_eq!(req.prio, RTOS_PRIO_BH_HIGH);
    assert_eq!(req.stack_size, 2048);
    assert_eq!(req.priv_, 1);
    assert_eq!(req.attr, rtos_task_attr_t { rt_class: RTOS_RT_HARD, deadline_ticks: 5, wcet_ticks: 2 });
    assert_eq!(&req.name[..5], b"ctrl\0");
    let plain = spawn(&services(true), "demo_app", RTOS_PRIO_BH_MED, 4096).expect("request");
    assert_eq!(plain.priv_, 1);
    assert_eq!(plain.attr, rtos_task_attr_t { rt_class: RTOS_RT_NONE, deadline_ticks: 0, wcet_ticks: 0 });
    assert!(spawn(&services(false), "x", 1, 16).is_none());
}

#[test]
fn device_lookup_buffer() {
    let buf = device_lookup(&services(true), "uart0").expect("buffer");
    let mut expect = b"uart0".to_vec();
    expect.resize(32, 0);
    assert_eq!(buf, expect);
    assert!(device_lookup(&services(true), &"n".repeat(31)).is_some());
    assert!(device_lookup(&services(true), &"n".repeat(32)).is_none());
    assert!(device_lookup(&services(false), "uart0").is_none());
}

#[test]
fn i2c_register_read_success() {
    let (mut m, first) = i2c_write_read(0x68, 0x75, 4);
    assert_eq!(
        first,
        I2cAction::Ioctl { cmd: I2C_IOCTL_MASTER_WRITE, xfer: I2cXfer { addr: 0x68, buf: vec![0x75], len: 1, result: 0 } }
    );
    let second = m.step(0, 0);
    assert_eq!(
        second,
        I2cAction::Ioctl { cmd: I2C_IOCTL_MASTER_READ, xfer: I2cXfer { addr: 0x68, buf: vec![0; 4], len: 4, result: 0 } }
    );
    assert_eq!(m.stage, I2cStage::ReadData);
    assert_eq!(m.step(0, 0), I2cAction::Return(0));
    assert_eq!(m.stage, I2cStage::Finished);
}

#[test]
fn i2c_register_read_failures() {
    let (mut m, _) = i2c_write_read(0x10, 1, 2);
    assert_eq!(m.step(0, -1), I2cAction::Return(-1));
    let (mut m, _) = i2c_write_read(0x10, 1, 2);
    assert_eq!(m.step(-1, 0), I2cAction::Return(-1));
    let (mut m, _) = i2c_write_read(0x10, 1, 2);
    let _ = m.step(0, 0);
    assert_eq!(m.step(0, -1), I2cAction::Return(-1));
}

#[test]
fn i2c_read_length_wraps_to_u16() {
    let (mut m, _) = i2c_write_read(0x10, 1, 65536 + 3);
    match m.step(0, 0) {
        I2cAction::Ioctl { xfer, .. } => {
            assert_eq!(xfer.len, 3);
            assert_eq!(xfer.buf.len(), 65539);
        }
        other => panic!("unexpected {:?}", other),
    }
}

#[test]
fn plain_layouts() {
    let f = CanFrame { id: 0x123, ext: 0, rtr: 0, dlc: 2, data: [1, 2, 0, 0, 0, 0, 0, 0] };
    let g = f;
    assert_eq!(f, g);
    let sd = SdBlockIo { lba: 7, count: 1, buf: vec![0; 512] };
    assert_eq!(sd.buf.len(), 512);
    let spi = SpiXfer { tx_buf: None, rx_buf: Some(vec![0; 2]), len: 2 };
    assert!(spi.tx_buf.is_none());
    assert_eq!(CAN_BTR_LBKM, 0x4000_0000);
    assert_eq!(FSMC_BCR_MTYP, 0xC);
}
