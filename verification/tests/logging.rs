use rtos_app_sdk::abi::SlotServices;
use rtos_app_sdk::log::{emit, log, raw, spawn_log_task, EmitOutcome, LogState, LEVEL_DEBUG, LEVEL_ERROR, LEVEL_INFO, LEVEL_WARN, LOG_TASK_PRIO, LOG_TASK_STACK_SIZE};
use rtos_app_sdk::log_ring::{critical, LogRing, LOG_RING_SIZE};
use rtos_app_sdk::log_task::{LogPacker, LogTaskRound, PackStep, RoundAction, ENTRY_BUF, PKT_CAP};
use rtos_app_sdk::text::{write_u32, BufWriter};

fn services(all: bool) -> SlotServices {
    SlotServices {
        task_create: all,
        task_create_rt: all,
        msleep: all,
        tick_count: all,
        cycle_now: all,
        delay_until: all,
        sem_init: all,
        sem_wait: all,
        sem_trywait: all,
        sem_give: all,
        dev_get: all,
        dev_open: all,
        dev_read: all,
        dev_write: all,
        dev_ioctl: all,
        dev_close: all,
        irq_attach: all,
        irq_enable: all,
        irq_disable: all,
        app_start: all,
        app_stop: all,
    }
}

fn entry(level: u8, payload: &[u8]) -> Vec<u8> {
    let mut v = vec![(payload.len() + 1) as u8, level];
    v.extend_from_slice(payload);
    v
}

#[test]
fn write_u32_renders_decimal() {
    assert_eq!(write_u32(16, 0), b"0".to_vec());
    assert_eq!(write_u32(16, 7), b"7".to_vec());
    assert_eq!(write_u32(16, 12345), b"12345".to_vec());
    assert_eq!(write_u32(16, 1000), b"1000".to_vec());
    assert_eq!(write_u32(16, u32::MAX), b"4294967295".to_vec());
}

#[test]
fn write_u32_cuts_to_room() {
    assert_eq!(write_u32(3, 12345), b"123".to_vec());
    assert_eq!(write_u32(0, 0), Vec::<u8>::new());
    assert_eq!(write_u32(0, 99), Vec::<u8>::new());
}

#[test]
fn buf_writer_truncates() {
    let mut w = BufWriter::new(5);
    w.write_str(b"abc");
    w.write_str(b"defg");
    assert_eq!(w.as_slice(), b"abcde");
    w.write_byte(b'z');
    assert_eq!(w.as_slice(), b"abcde");
    assert_eq!(w.len(), 5);
}

#[test]
fn log_line_format() {
    assert_eq!(log(LEVEL_INFO, "demo", b"task started (prio=6)"), b"R/I/demo: task started (prio=6)\r\n".to_vec());
    assert_eq!(log(LEVEL_WARN, "t", b"w"), b"R/W/t: w\r\n".to_vec());
    assert_eq!(log(LEVEL_DEBUG, "t", b"d"), b"R/D/t: d\r\n".to_vec());
    assert_eq!(log(LEVEL_ERROR, "t", b"e"), b"R/E/t: e\r\n".to_vec());
    // An unknown level shows as an error.
    assert_eq!(log(b'X', "t", b"x"), b"R/E/t: x\r\n".to_vec());
}

#[test]
fn log_line_cut_at_256() {
    let msg = "a".repeat(300);
    let line = log(LEVEL_INFO, "tag", msg.as_bytes());
    assert_eq!(line.len(), 256);
    assert!(line.starts_with(b"R/I/tag: aaa"));
    assert!(line.iter().skip(9).all(|&b| b == b'a'));
}

#[test]
fn raw_line_format() {
    assert_eq!(
        raw(LEVEL_ERROR, "ABI mismatch"),
        b"R/E: ABI mismatch\r\n".to_vec()
    );
    assert_eq!(raw(LEVEL_INFO, "x"), b"R/I: x\r\n".to_vec());
    let long = "b".repeat(260);
    let line = raw(LEVEL_WARN, &long);
    assert_eq!(line.len(), 256);
    assert!(line.starts_with(b"R/W: bbb"));
}

#[test]
fn critical_levels() {
    assert!(critical(LEVEL_WARN));
    assert!(critical(LEVEL_ERROR));
    assert!(!critical(LEVEL_INFO));
    assert!(!critical(LEVEL_DEBUG));
}

#[test]
fn emit_goes_direct_without_log_task() {
    let mut st = LogState::new();
    let out = emit(&mut st, LEVEL_INFO, "demo", b"hi");
    assert_eq!(out, EmitOutcome::Direct(b"R/I/demo: hi\r\n".to_vec()));
    assert_eq!(st.ring.ring_pop(ENTRY_BUF), Vec::<u8>::new());
}

#[test]
fn emit_queues_after_log_task_started() {
    let mut st = LogState::new();
    let req = spawn_log_task(&mut st, &services(true)).expect("spawn request");
    assert!(st.task_active);
    let mut name = b"log_task".to_vec();
    name.resize(24, 0);
    assert_eq!(req.name, name);
    assert_eq!(req.prio, LOG_TASK_PRIO);
    assert_eq!(req.stack_size, LOG_TASK_STACK_SIZE);
    assert_eq!(req.priv_, 1);
    let out = emit(&mut st, LEVEL_INFO, "demo", b"hi");
    assert_eq!(out, EmitOutcome::Queued(true));
    let popped = st.ring.ring_pop(ENTRY_BUF);
    assert_eq!(popped, entry(LEVEL_INFO, b"R/I/demo: hi\n"));
    assert_eq!(st.ring.ring_pop(ENTRY_BUF), Vec::<u8>::new());
}

#[test]
fn spawn_log_task_without_service_keeps_direct_writes() {
    let mut st = LogState::new();
    assert!(spawn_log_task(&mut st, &services(false)).is_none());
    assert!(!st.task_active);
    let out = emit(&mut st, LEVEL_INFO, "demo", b"hi");
    assert_eq!(out, EmitOutcome::Direct(b"R/I/demo: hi\r\n".to_vec()));
}

#[test]
fn emit_cuts_long_tag() {
    let mut st = LogState::new();
    st.task_active = true;
    let tag = "t".repeat(200);
    // header "R/I/" is 4 bytes, so the tag gets 180 - 4 - 4 = 172 bytes.
    let out = emit(&mut st, LEVEL_INFO, &tag, b"");
    assert_eq!(out, EmitOutcome::Queued(true));
    let popped = st.ring.ring_pop(ENTRY_BUF);
    let mut expect = b"R/I/".to_vec();
    expect.extend_from_slice(&vec![b't'; 172]);
    expect.extend_from_slice(b": \n");
    assert_eq!(popped, entry(LEVEL_INFO, &expect));
}

#[test]
fn ring_is_fifo() {
    let mut r = LogRing::new();
    assert!(r.ring_push(LEVEL_INFO, b"one"));
    assert!(r.ring_push(LEVEL_WARN, b"two"));
    assert!(r.ring_push(LEVEL_INFO, b"three"));
    assert_eq!(r.ring_pop(256), entry(LEVEL_INFO, b"one"));
    assert_eq!(r.ring_pop(256), entry(LEVEL_WARN, b"two"));
    assert_eq!(r.ring_pop(256), entry(LEVEL_INFO, b"three"));
    assert_eq!(r.ring_pop(256), Vec::<u8>::new());
}

#[test]
fn ring_pop_cuts_to_buffer() {
    let mut r = LogRing::new();
    assert!(r.ring_push(LEVEL_INFO, b"abcdef"));
    assert!(r.ring_push(LEVEL_INFO, b"g"));
    assert_eq!(r.ring_pop(3), vec![7, LEVEL_INFO, b'a']);
    // The whole entry left the ring.
    assert_eq!(r.ring_pop(256), entry(LEVEL_INFO, b"g"));
}

#[test]
fn ring_rejects_empty_and_oversized() {
    let mut r = LogRing::new();
    assert!(!r.ring_push(LEVEL_INFO, b""));
    assert!(!r.ring_push(LEVEL_INFO, &vec![1u8; 256]));
    // A 255-byte payload does not fit its length byte.
    assert!(!r.ring_push(LEVEL_INFO, &vec![1u8; 255]));
    assert!(r.ring_push(LEVEL_INFO, &vec![1u8; 254]));
    assert_eq!(r.ring_pop(256), entry(LEVEL_INFO, &vec![1u8; 254]));
}

#[test]
fn ring_wraps_around() {
    let mut r = LogRing::new();
    let p = vec![b'x'; 200];
    for round in 0..30u8 {
        let mut q = p.clone();
        q[0] = round;
        assert!(r.ring_push(LEVEL_INFO, &q));
        assert_eq!(r.ring_pop(256), entry(LEVEL_INFO, &q));
    }
}

/// Fills the ring with `count` entries of 200-byte payloads (202 bytes each).
fn fill(r: &mut LogRing, levels: &[u8]) {
    for (i, &lv) in levels.iter().enumerate() {
        let mut q = vec![b'p'; 200];
        q[0] = i as u8;
        assert!(r.ring_push(lv, &q));
    }
}

#[test]
fn info_evicts_oldest_info_when_full() {
    let mut r = LogRing::new();
    // 10 entries of 202 bytes: 2020 of 2048 bytes used, 28 free.
    fill(&mut r, &[LEVEL_INFO; 10]);
    let newest = vec![b'n'; 100];
    assert!(r.ring_push(LEVEL_INFO, &newest));
    // The oldest entry made room; the second oldest is now first.
    let mut second = vec![b'p'; 200];
    second[0] = 1;
    assert_eq!(r.ring_pop(256), entry(LEVEL_INFO, &second));
    for i in 2..10u8 {
        let mut q = vec![b'p'; 200];
        q[0] = i;
        assert_eq!(r.ring_pop(256), entry(LEVEL_INFO, &q));
    }
    assert_eq!(r.ring_pop(256), entry(LEVEL_INFO, &newest));
    assert_eq!(r.ring_pop(256), Vec::<u8>::new());
}

#[test]
fn critical_entries_are_not_overwritten() {
    let mut r = LogRing::new();
    let mut levels = [LEVEL_INFO; 10];
    levels[0] = LEVEL_ERROR;
    fill(&mut r, &levels);
    // The oldest entry is an error: an Info push that needs room is refused.
    assert!(!r.ring_push(LEVEL_INFO, &vec![b'n'; 100]));
    let mut first = vec![b'p'; 200];
    first[0] = 0;
    assert_eq!(r.ring_pop(256), entry(LEVEL_ERROR, &first));
}

#[test]
fn critical_push_never_evicts() {
    let mut r = LogRing::new();
    fill(&mut r, &[LEVEL_INFO; 10]);
    assert!(!r.ring_push(LEVEL_WARN, &vec![b'w'; 100]));
    let mut first = vec![b'p'; 200];
    first[0] = 0;
    assert_eq!(r.ring_pop(256), entry(LEVEL_INFO, &first));
}

#[test]
fn push_never_fills_the_ring_to_the_last_byte() {
    let mut r = LogRing::new();
    fill(&mut r, &[LEVEL_INFO; 10]);
    // 28 bytes free: a 26-byte payload would fill the ring to the last byte.
    // A warning is refused and the ring keeps its entries.
    assert!(!r.ring_push(LEVEL_WARN, &vec![b'w'; 26]));
    // An Info entry evicts the oldest entry instead and is stored.
    assert!(r.ring_push(LEVEL_INFO, &vec![b'i'; 26]));
    for i in 1..10u8 {
        let mut q = vec![b'p'; 200];
        q[0] = i;
        assert_eq!(r.ring_pop(256), entry(LEVEL_INFO, &q));
    }
    assert_eq!(r.ring_pop(256), entry(LEVEL_INFO, &vec![b'i'; 26]));
    assert_eq!(r.ring_pop(256), Vec::<u8>::new());
    assert_eq!(LOG_RING_SIZE, 2048);
}

#[test]
fn full_ring_led_by_warning_keeps_it() {
    let mut r = LogRing::new();
    // Seven 254-byte entries (256 bytes each) led by a warning: 1792 used, 256 free.
    let mut levels = [LEVEL_INFO; 7];
    levels[0] = LEVEL_WARN;
    for &lv in levels.iter() {
        assert!(r.ring_push(lv, &vec![b'q'; 254]));
    }
    // A 254-byte Info entry would fill the ring exactly; evicting would need the
    // warning, so it is refused.
    assert!(!r.ring_push(LEVEL_INFO, &vec![b'n'; 254]));
    assert_eq!(r.ring_pop(256), entry(LEVEL_WARN, &vec![b'q'; 254]));
}

#[test]
fn oversized_payload_refused_on_eviction_path() {
    let mut r = LogRing::new();
    fill(&mut r, &[LEVEL_INFO; 10]);
    assert!(!r.ring_push(LEVEL_INFO, &vec![b'x'; 255]));
    let mut first = vec![b'p'; 200];
    first[0] = 0;
    assert_eq!(r.ring_pop(256), entry(LEVEL_INFO, &first));
}

#[test]
fn round_writes_entries_then_sleeps_when_idle() {
    let mut round = LogTaskRound::new();
    let e1 = entry(LEVEL_INFO, b"R/I/a: one\n");
    let e2 = entry(LEVEL_WARN, b"R/W/b: two\n");
    assert_eq!(round.step(Some(&e1)), RoundAction::PopNext);
    assert_eq!(round.step(Some(&e2)), RoundAction::PopNext);
    assert_eq!(
        round.step(None),
        RoundAction::EndRound { frame: Some(b"IR/I/a: one\r\nWR/W/b: two\r\n".to_vec()), sleep: false }
    );
    // The next round finds nothing: nothing written, so the task sleeps.
    assert_eq!(round.step(None), RoundAction::EndRound { frame: None, sleep: true });
}

#[test]
fn round_ends_on_malformed_entry() {
    let mut round = LogTaskRound::new();
    assert_eq!(round.step(Some(&entry(LEVEL_INFO, b"x\n"))), RoundAction::PopNext);
    assert_eq!(
        round.step(Some(&[0u8, 5, 6])),
        RoundAction::EndRound { frame: Some(b"Ix\r\n".to_vec()), sleep: false }
    );
}

#[test]
fn round_writes_full_frames_and_does_not_sleep() {
    let mut round = LogTaskRound::new();
    let e = entry(LEVEL_INFO, &vec![b'a'; 199]);
    assert_eq!(round.step(Some(&e)), RoundAction::PopNext);
    match round.step(Some(&e)) {
        RoundAction::Write(f) => assert_eq!(f.len(), 400),
        other => panic!("unexpected {:?}", other),
    }
    // Packet empty at the end, but the round wrote a frame: no sleep.
    assert_eq!(round.step(None), RoundAction::EndRound { frame: None, sleep: false });
}

#[test]
fn packer_turns_newline_into_crlf() {
    let mut p = LogPacker::new();
    let e = entry(LEVEL_INFO, b"R/I 1 t: hi\n");
    assert_eq!(p.log_task_step(&e), PackStep::Packed(None));
    assert_eq!(p.finish(), Some(b"IR/I 1 t: hi\r\n".to_vec()));
    assert_eq!(p.finish(), None);
}

#[test]
fn packer_rejects_malformed_entry() {
    let mut p = LogPacker::new();
    assert_eq!(p.log_task_step(&[0, 1, 2]), PackStep::Malformed);
    assert_eq!(p.log_task_step(&[]), PackStep::Malformed);
    assert_eq!(p.finish(), None);
}

#[test]
fn packer_hands_out_frame_when_next_might_not_fit() {
    let mut p = LogPacker::new();
    let payload = vec![b'a'; 199];
    let e = entry(LEVEL_INFO, &payload);
    // 200 bytes packed each time (level + payload).
    assert_eq!(p.log_task_step(&e), PackStep::Packed(None));
    // 400 + 200 + 2 > 512: the packet goes out right after the second entry.
    match p.log_task_step(&e) {
        PackStep::Packed(Some(f)) => assert_eq!(f.len(), 400),
        other => panic!("unexpected {:?}", other),
    }
    assert_eq!(p.finish(), None);
}

#[test]
fn packer_splits_entry_that_does_not_fit() {
    let mut p = LogPacker::new();
    // First entry: 100 newlines -> 1 + 200 bytes.
    let nl = vec![b'\n'; 100];
    assert_eq!(p.log_task_step(&entry(LEVEL_INFO, &nl)), PackStep::Packed(None));
    assert_eq!(p.log_task_step(&entry(LEVEL_INFO, &nl)), PackStep::Packed(None));
    // 402 bytes packed; the next 200-byte entry does not fit whole.
    let big = vec![b'z'; 199];
    match p.log_task_step(&entry(LEVEL_INFO, &big)) {
        PackStep::Packed(Some(f)) => {
            assert_eq!(f.len(), 512);
            assert_eq!(f[402], LEVEL_INFO);
        }
        other => panic!("unexpected {:?}", other),
    }
    // The rest of the entry starts the next packet.
    let rest = p.finish().expect("rest");
    assert_eq!(rest.len(), 200 - 110);
    assert!(rest.iter().all(|&b| b == b'z'));
    assert_eq!(PKT_CAP, 512);
}

#[test]
fn queued_record_reaches_console() {
    let mut st = LogState::new();
    st.task_active = true;
    assert_eq!(emit(&mut st, LEVEL_WARN, "nav", b"gps lost"), EmitOutcome::Queued(true));
    let mut packer = LogPacker::new();
    let popped = st.ring.ring_pop(ENTRY_BUF);
    assert_eq!(packer.log_task_step(&popped), PackStep::Packed(None));
    assert_eq!(packer.finish(), Some(b"WR/W/nav: gps lost\r\n".to_vec()));
}
