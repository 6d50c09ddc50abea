//! Application logging. A line goes either straight to the console (`log`, `raw`,
//! and `emit` while no log task runs), or, once the log task was started, into the
//! log ring as a record that the log task later packs into console frames.
//! Lines are prefixed `R/{L}/{tag}: `; the formatted message text, the console
//! device and the locking around the ring belong to the embedding application.

use vstd::prelude::*;
use vstd::string::StringSliceAdditionalSpecFns;
use crate::abi::{SlotServices, RTOS_RT_NONE};
use crate::log_ring::{push_outcome, LogRing};
use crate::rtos::{spawn_rt, task_name_buffer, TaskSpawn};
use crate::text::{lemma_truncated_append, truncated, BufWriter};

verus! {

pub const LEVEL_DEBUG: u8 = 68;
pub const LEVEL_INFO: u8 = 73;
pub const LEVEL_WARN: u8 = 87;
pub const LEVEL_ERROR: u8 = 69;

/// Capacity of a console line built by `log` and `raw`.
pub const LINE_CAP: usize = 256;
/// Capacity of a record built by `emit` for the ring.
pub const RECORD_CAP: usize = 180;
/// Priority of the log task: below every application task.
pub const LOG_TASK_PRIO: u8 = 28;
/// Stack size of the log task.
pub const LOG_TASK_STACK_SIZE: usize = 4096;

/// The letter shown for a level; every unknown level shows as an error.
pub open spec fn level_letter(level: u8) -> u8 {
    if level == LEVEL_DEBUG {
        68u8
    } else if level == LEVEL_INFO {
        73u8
    } else if level == LEVEL_WARN {
        87u8
    } else {
        69u8
    }
}

/// The console line of `log`: `R/{L}/{tag}: {msg}\r\n`, cut to 256 bytes.
pub open spec fn log_line(level: u8, tag: Seq<u8>, msg: Seq<u8>) -> Seq<u8> {
    truncated(
        seq![82u8, 47u8, level_letter(level), 47u8] + tag + seq![58u8, 32u8] + msg + seq![13u8, 10u8],
        LINE_CAP as nat,
    )
}

/// The console line of `raw`: `R/{L}: {text}\r\n`, cut to 256 bytes.
pub open spec fn raw_line(level: u8, text: Seq<u8>) -> Seq<u8> {
    truncated(
        seq![82u8, 47u8, level_letter(level), 58u8, 32u8] + text + seq![13u8, 10u8],
        LINE_CAP as nat,
    )
}

/// Start of a ring record: `R/{level}/`.
pub open spec fn emit_header(level: u8) -> Seq<u8> {
    seq![82u8, 47u8, level, 47u8]
}

/// Room for the tag in a record: what the record buffer leaves after the header and
/// four more bytes.
pub open spec fn emit_tag_room() -> int {
    RECORD_CAP - 4 - 4
}

/// A record up to its message: header, tag (cut to its room) and `: `.
pub open spec fn emit_core(level: u8, tag: Seq<u8>) -> Seq<u8> {
    let room = emit_tag_room();
    let n = if tag.len() < room { tag.len() as int } else { room };
    emit_header(level) + tag.take(n) + seq![58u8, 32u8]
}

/// The message leaves room for the closing newline in the record buffer.
pub open spec fn emit_fits(level: u8, tag: Seq<u8>, msg: Seq<u8>) -> bool {
    emit_core(level, tag).len() + msg.len() < RECORD_CAP
}

/// The record queued by `emit`: `R/{level}/{tag}: {msg}\n`, with the line end stored
/// as a lone `\n`.
pub open spec fn emit_record(level: u8, tag: Seq<u8>, msg: Seq<u8>) -> Seq<u8> {
    emit_core(level, tag) + msg + seq![10u8]
}

/// The letter a level shows: the four known levels show as their own letter,
/// every other level as `E`.
pub proof fn law_level_letter(level: u8)
    ensures
        level == 68u8 || level == 73u8 || level == 87u8 || level == 69u8 ==> level_letter(level) == level,
        !(level == 68u8 || level == 73u8 || level == 87u8 || level == 69u8) ==> level_letter(level) == 69u8,
{
}

/// Layout of a log line: `R/`, the level's letter, `/`, the whole tag, `: `, the
/// whole message and `\r\n`, cut only at 256 bytes; what is cut is the end.
pub proof fn law_log_line_layout(level: u8, tag: Seq<u8>, msg: Seq<u8>)
    ensures
        ({
            let l = log_line(level, tag, msg);
            let full = tag.len() + msg.len() + 8;
            let t = tag.len() as int;
            let m = msg.len() as int;
            &&& l.len() == if full <= 256 { full } else { 256 }
            &&& l[0] == 82u8 && l[1] == 47u8 && l[2] == level_letter(level) && l[3] == 47u8
            &&& forall|i: int| 0 <= i < t && 4 + i < 256 ==> l[4 + i] == tag[i]
            &&& 4 + t < 256 ==> l[4 + t] == 58u8
            &&& 5 + t < 256 ==> l[5 + t] == 32u8
            &&& forall|i: int| 0 <= i < m && 6 + t + i < 256 ==> l[6 + t + i] == msg[i]
            &&& full <= 256 ==> l[6 + t + m] == 13u8 && l[7 + t + m] == 10u8
        }),
{
    let s = seq![82u8, 47u8, level_letter(level), 47u8] + tag + seq![58u8, 32u8] + msg + seq![13u8, 10u8];
    assert(s.len() == tag.len() + msg.len() + 8);
    let t = tag.len() as int;
    let m = msg.len() as int;
    assert forall|i: int| 0 <= i < t implies s[4 + i] == tag[i] by {}
    assert forall|i: int| 0 <= i < m implies s[6 + t + i] == msg[i] by {}
}

/// Layout of a bare line: `R/`, the level's letter, `: `, the whole text and
/// `\r\n`, cut only at 256 bytes; it shows the same letter as a log line does.
pub proof fn law_raw_line_layout(level: u8, text: Seq<u8>, tag: Seq<u8>, msg: Seq<u8>)
    ensures
        ({
            let l = raw_line(level, text);
            let full = text.len() + 7;
            let n = text.len() as int;
            &&& l.len() == if full <= 256 { full } else { 256 }
            &&& l[0] == 82u8 && l[1] == 47u8 && l[3] == 58u8 && l[4] == 32u8
            &&& l[2] == log_line(level, tag, msg)[2]
            &&& l[2] == level_letter(level)
            &&& forall|i: int| 0 <= i < n && 5 + i < 256 ==> l[5 + i] == text[i]
            &&& full <= 256 ==> l[5 + n] == 13u8 && l[6 + n] == 10u8
        }),
{
    let s = seq![82u8, 47u8, level_letter(level), 58u8, 32u8] + text + seq![13u8, 10u8];
    assert(s.len() == text.len() + 7);
    let n = text.len() as int;
    assert forall|i: int| 0 <= i < n implies s[5 + i] == text[i] by {}
    law_log_line_layout(level, tag, msg);
}

/// Layout of a ring record: `R/`, the level byte itself, `/`, the tag (cut to 172
/// bytes), `: `, the whole message and a lone `\n`; it fits the 180-byte record
/// buffer exactly when the message leaves room for that newline.
pub proof fn law_emit_record_layout(level: u8, tag: Seq<u8>, msg: Seq<u8>)
    ensures
        ({
            let r = emit_record(level, tag, msg);
            let t: int = if tag.len() < 172 { tag.len() as int } else { 172 };
            let m = msg.len() as int;
            &&& r.len() == t + m + 7
            &&& r[0] == 82u8 && r[1] == 47u8 && r[2] == level && r[3] == 47u8
            &&& r.subrange(4, 4 + t) == tag.take(t)
            &&& r[4 + t] == 58u8 && r[5 + t] == 32u8
            &&& r.subrange(6 + t, 6 + t + m) == msg
            &&& r[6 + t + m] == 10u8
            &&& emit_fits(level, tag, msg) == (t + m + 6 < 180)
        }),
{
    let r = emit_record(level, tag, msg);
    let t: int = if tag.len() < 172 { tag.len() as int } else { 172 };
    let m = msg.len() as int;
    assert(r.subrange(4, 4 + t) =~= tag.take(t));
    assert(r.subrange(6 + t, 6 + t + m) =~= msg);
}

/// Builds the console line of a log call (the formatted message is `msg`).
pub fn log(level: u8, tag: &str, msg: &[u8]) -> (line: Vec<u8>)
    ensures
        line@ == log_line(level, tag.spec_bytes(), msg@),
{
    let tb = tag.as_bytes();
    let mb = msg;
    let mut w = BufWriter::new(LINE_CAP);
    let letter: u8 = if level == LEVEL_DEBUG {
        68
    } else if level == LEVEL_INFO {
        73
    } else if level == LEVEL_WARN {
        87
    } else {
        69
    };
    let ghost cap = LINE_CAP as nat;
    w.write_byte(82);
    w.write_byte(47);
    w.write_byte(letter);
    w.write_byte(47);
    let ghost a0 = seq![82u8, 47u8, letter, 47u8];
    proof {
        assert(w@ =~= a0);
    }
    w.write_str(tb);
    proof {
        lemma_truncated_append(a0, tb@, cap);
    }
    let ghost a1 = a0 + tb@;
    w.write_byte(58);
    proof {
        lemma_truncated_append(a1, seq![58u8], cap);
    }
    w.write_byte(32);
    proof {
        lemma_truncated_append(a1 + seq![58u8], seq![32u8], cap);
    }
    let ghost a2 = a1 + seq![58u8] + seq![32u8];
    w.write_str(mb);
    proof {
        lemma_truncated_append(a2, mb@, cap);
    }
    let ghost a3 = a2 + mb@;
    w.write_byte(13);
    proof {
        lemma_truncated_append(a3, seq![13u8], cap);
    }
    w.write_byte(10);
    proof {
        lemma_truncated_append(a3 + seq![13u8], seq![10u8], cap);
        assert(a3 + seq![13u8] + seq![10u8] =~= seq![82u8, 47u8, level_letter(level), 47u8]
            + tag.spec_bytes() + seq![58u8, 32u8] + msg@ + seq![13u8, 10u8]);
    }
    let line = w.as_slice();
    slice_to_vec(line)
}

/// Builds a bare console line `R/{L}: {text}\r\n` (lifecycle reports).
pub fn raw(level: u8, text: &str) -> (line: Vec<u8>)
    ensures
        line@ == raw_line(level, text.spec_bytes()),
{
    let tb = text.as_bytes();
    let mut w = BufWriter::new(LINE_CAP);
    let letter: u8 = if level == LEVEL_DEBUG {
        68
    } else if level == LEVEL_INFO {
        73
    } else if level == LEVEL_WARN {
        87
    } else {
        69
    };
    let ghost cap = LINE_CAP as nat;
    w.write_byte(82);
    w.write_byte(47);
    w.write_byte(letter);
    w.write_byte(58);
    w.write_byte(32);
    let ghost a0 = seq![82u8, 47u8, letter, 58u8, 32u8];
    proof {
        assert(w@ =~= a0);
    }
    w.write_str(tb);
    proof {
        lemma_truncated_append(a0, tb@, cap);
    }
    let ghost a1 = a0 + tb@;
    w.write_byte(13);
    proof {
        lemma_truncated_append(a1, seq![13u8], cap);
    }
    w.write_byte(10);
    proof {
        lemma_truncated_append(a1 + seq![13u8], seq![10u8], cap);
        assert(a1 + seq![13u8] + seq![10u8] =~= seq![82u8, 47u8, level_letter(level), 58u8, 32u8]
            + text.spec_bytes() + seq![13u8, 10u8]);
    }
    let line = w.as_slice();
    slice_to_vec(line)
}

/// Copies a byte slice into a vector.
fn slice_to_vec(s: &[u8]) -> (v: Vec<u8>)
    ensures
        v@ == s@,
{
    let mut v: Vec<u8> = Vec::new();
    let mut i: usize = 0;
    while i < s.len()
        invariant
            i <= s@.len(),
            v@ =~= s@.take(i as int),
        decreases s@.len() - i,
    {
        v.push(s[i]);
        i = i + 1;
    }
    assert(s@.take(s@.len() as int) =~= s@);
    v
}

/// Builds the ring record of `emit`.
pub fn emit_record_bytes(level: u8, tag: &str, msg: &[u8]) -> (rec: Vec<u8>)
    requires
        emit_fits(level, tag.spec_bytes(), msg@),
    ensures
        rec@ == emit_record(level, tag.spec_bytes(), msg@),
{
    let tb = tag.as_bytes();
    let mut buf: Vec<u8> = Vec::new();
    buf.push(82);
    buf.push(47);
    buf.push(level);
    buf.push(47);
    assert(buf@ =~= emit_header(level));
    let room = RECORD_CAP - buf.len() - 4;
    let n = if tb.len() < room { tb.len() } else { room };
    let ghost h = buf@;
    let mut j: usize = 0;
    while j < n
        invariant
            n <= tb@.len(),
            j <= n,
            buf@ =~= h + tb@.take(j as int),
            h.len() == 4,
        decreases n - j,
    {
        buf.push(tb[j]);
        j = j + 1;
    }
    buf.push(58);
    buf.push(32);
    assert(buf@ =~= emit_core(level, tag.spec_bytes()));
    let mut w = BufWriter::new(RECORD_CAP - buf.len());
    w.write_str(msg);
    assert(w@ =~= msg@);
    let body = w.as_slice();
    let ghost c = buf@;
    let mut k: usize = 0;
    while k < body.len()
        invariant
            k <= body@.len(),
            body@ == msg@,
            buf@ =~= c + body@.take(k as int),
            c.len() + msg@.len() < RECORD_CAP,
        decreases body@.len() - k,
    {
        buf.push(body[k]);
        k = k + 1;
    }
    buf.push(10);
    assert(body@.take(body@.len() as int) =~= body@);
    assert(buf@ =~= emit_record(level, tag.spec_bytes(), msg@));
    buf
}

/// Whether a record for this message fits the record buffer, which `emit` needs
/// once the log task runs (a message that would fill the buffer to the last byte
/// leaves no room for its newline).
pub fn emit_fits_check(level: u8, tag: &str, msg: &[u8]) -> (ok: bool)
    ensures
        ok == emit_fits(level, tag.spec_bytes(), msg@),
{
    let header: usize = 4;
    let room = RECORD_CAP - header - 4;
    let tag_len = tag.as_bytes().len();
    let n = if tag_len < room { tag_len } else { room };
    let core = header + n + 2;
    msg.len() < RECORD_CAP - core
}

/// What the shared logging state is: the ring, and whether the log task runs.
pub struct LogState {
    pub ring: LogRing,
    pub task_active: bool,
}

impl LogState {
    /// No log task, empty ring.
    pub fn new() -> (s: Self)
        ensures
            s.ring.wf(),
            s.ring@ == Seq::<(u8, Seq<u8>)>::empty(),
            !s.task_active,
    {
        LogState { ring: LogRing::new(), task_active: false }
    }
}

/// Where a log call went.
#[derive(PartialEq, Eq, Debug)]
pub enum EmitOutcome {
    /// No log task runs: this line is to be written to the console now.
    Direct(Vec<u8>),
    /// The record was offered to the ring; whether it was stored.
    Queued(bool),
}

/// Logs one message (`msg` is its formatted text): while no log task runs, the
/// console line of `log` is returned for a direct write; afterwards the record
/// `R/{level}/{tag}: {msg}\n` is pushed into the ring.
pub fn emit(state: &mut LogState, level: u8, tag: &str, msg: &[u8]) -> (out: EmitOutcome)
    requires
        old(state).ring.wf(),
        old(state).task_active ==> emit_fits(level, tag.spec_bytes(), msg@),
    ensures
        final(state).ring.wf(),
        final(state).task_active == old(state).task_active,
        !old(state).task_active ==> {
            &&& out matches EmitOutcome::Direct(line) && line@ == log_line(level, tag.spec_bytes(), msg@)
            &&& final(state).ring == old(state).ring
        },
        old(state).task_active ==> (out matches EmitOutcome::Queued(stored) && (stored, final(state).ring@)
            == push_outcome(old(state).ring@, level, emit_record(level, tag.spec_bytes(), msg@))),
{
    if !state.task_active {
        return EmitOutcome::Direct(log(level, tag, msg));
    }
    let rec = emit_record_bytes(level, tag, msg);
    let stored = state.ring.ring_push(level, rec.as_slice());
    EmitOutcome::Queued(stored)
}

/// Plans the log task (priority 28, 4 KiB stack, privileged, not real-time). The
/// log task counts as running, so that `emit` queues from then on, only once a task
/// was requested: without the kernel's `task_create_rt` nothing changes and `emit`
/// keeps writing directly.
pub fn spawn_log_task(state: &mut LogState, services: &SlotServices) -> (req: Option<TaskSpawn>)
    ensures
        final(state).task_active == (old(state).task_active || services.task_create_rt),
        final(state).ring == old(state).ring,
        req.is_some() == services.task_create_rt,
        req matches Some(t) ==> {
            &&& t.name@ == task_name_buffer("log_task".spec_bytes())
            &&& t.prio == LOG_TASK_PRIO
            &&& t.stack_size == LOG_TASK_STACK_SIZE
            &&& t.priv_ == 1
            &&& t.attr.rt_class == RTOS_RT_NONE
            &&& t.attr.deadline_ticks == 0
            &&& t.attr.wcet_ticks == 0
        },
{
    let req = spawn_rt(services, "log_task", LOG_TASK_PRIO, LOG_TASK_STACK_SIZE, 1, RTOS_RT_NONE, 0, 0);
    if req.is_some() {
        state.task_active = true;
    }
    req
}

} // verus!
