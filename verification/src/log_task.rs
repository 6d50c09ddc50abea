//! The log task's packing of ring entries into console frames. Entries hold `\n`
//! line ends; on the console each becomes `\r\n`. Entries are gathered in a packet
//! of 512 bytes, which is handed out as a frame when the next entry would not fit.
//! The log task works in rounds: it pops entries until the lock is busy, the ring is
//! empty or an entry is malformed, then writes what is left in the packet and sleeps
//! when the round wrote nothing. `LogTaskRound` decides each step; popping under the
//! lock, writing to the console and sleeping belong to the embedding application.

use vstd::prelude::*;

verus! {

/// Capacity of a console frame.
pub const PKT_CAP: usize = 512;
/// Size of the buffer an entry is popped into.
pub const ENTRY_BUF: usize = 256;

/// A payload byte on the console: `\n` becomes `\r\n`.
pub open spec fn unit(b: u8) -> Seq<u8> {
    if b == 10u8 {
        seq![13u8, 10u8]
    } else {
        seq![b]
    }
}

/// A payload with every `\n` turned into `\r\n`.
pub open spec fn expand(p: Seq<u8>) -> Seq<u8>
    decreases p.len(),
{
    if p.len() == 0 {
        Seq::empty()
    } else {
        expand(p.drop_last()) + unit(p.last())
    }
}

/// Appending starts at byte `i` of `p` to a packet whose contents before `p` were
/// `used` bytes long: the index of the first byte whose expansion no longer fits.
pub open spec fn fit_from(used: int, p: Seq<u8>, i: int) -> int
    decreases p.len() - i,
{
    if i >= p.len() {
        p.len() as int
    } else if used + expand(p.take(i + 1)).len() > PKT_CAP {
        i
    } else {
        fit_from(used, p, i + 1)
    }
}

/// How many leading bytes of `p` fit after `used` bytes of packet.
pub open spec fn fit_len(used: int, p: Seq<u8>) -> int {
    fit_from(used, p, 0)
}

/// Byte `i` of the entry buffer: the popped bytes, then zeros.
pub open spec fn entry_byte(entry: Seq<u8>, i: int) -> u8 {
    if 0 <= i < entry.len() {
        entry[i]
    } else {
        0u8
    }
}

/// The bytes after the length byte that the length byte covers (level and text).
pub open spec fn entry_payload(entry: Seq<u8>) -> Seq<u8> {
    Seq::new(entry_byte(entry, 0) as nat, |i: int| entry_byte(entry, i + 1))
}

/// The length byte is zero or overruns the entry buffer.
pub open spec fn entry_malformed(entry: Seq<u8>) -> bool {
    entry_byte(entry, 0) == 0 || entry_byte(entry, 0) + 1 > ENTRY_BUF
}

/// Packing one popped entry into the packet `pkt`: the frame handed out, if any, and
/// the packet afterwards. When the entry does not fit, the packet is filled as far
/// as it goes, handed out, and the rest starts the next packet. When it fits but the
/// packet could not take another entry of the same size, the packet is handed out.
pub open spec fn pack_outcome(pkt: Seq<u8>, entry: Seq<u8>) -> (Option<Seq<u8>>, Seq<u8>) {
    let p = entry_payload(entry);
    let k = fit_len(pkt.len() as int, p);
    if k < p.len() {
        let rest = p.skip(k);
        let k2 = fit_len(0, rest);
        (Some(pkt + expand(p.take(k))), expand(rest.take(k2)))
    } else {
        let pkt1 = pkt + expand(p);
        if pkt1.len() + p.len() + 2 > PKT_CAP {
            (Some(pkt1), Seq::empty())
        } else {
            (None, pkt1)
        }
    }
}

pub proof fn lemma_expand_push(p: Seq<u8>, b: u8)
    ensures
        expand(p.push(b)) == expand(p) + unit(b),
{
    assert(p.push(b).drop_last() =~= p);
}

/// Expansion distributes over concatenation.
pub proof fn lemma_expand_concat(a: Seq<u8>, b: Seq<u8>)
    ensures
        expand(a + b) =~= expand(a) + expand(b),
    decreases b.len(),
{
    if b.len() == 0 {
        assert(a + b =~= a);
    } else {
        lemma_expand_concat(a, b.drop_last());
        assert((a + b).drop_last() =~= a + b.drop_last());
        assert((a + b).last() == b.last());
    }
}

/// Only line ends change on the console: text without `\n` is copied byte for byte,
/// a `\n` becomes `\r\n`, and text is expanded piece by piece. These determine the
/// expansion of every payload.
pub proof fn law_expand_changes_only_line_ends(p: Seq<u8>, a: Seq<u8>, b: Seq<u8>)
    ensures
        (forall|i: int| 0 <= i < p.len() ==> p[i] != 10u8) ==> expand(p) == p,
        expand(seq![10u8]) == seq![13u8, 10u8],
        expand(a + b) == expand(a) + expand(b),
    decreases p.len(),
{
    lemma_expand_concat(a, b);
    assert(seq![10u8].drop_last() =~= Seq::<u8>::empty());
    assert(expand(Seq::<u8>::empty()) == Seq::<u8>::empty());
    assert(seq![10u8].last() == 10u8);
    assert(expand(seq![10u8]) == expand(Seq::<u8>::empty()) + unit(10u8));
    assert(Seq::<u8>::empty() + seq![13u8, 10u8] =~= seq![13u8, 10u8]);
    if forall|i: int| 0 <= i < p.len() ==> p[i] != 10u8 {
        if p.len() > 0 {
            let dl = p.drop_last();
            assert forall|i: int| 0 <= i < dl.len() implies dl[i] != 10u8 by {
                assert(dl[i] == p[i]);
            }
            law_expand_changes_only_line_ends(dl, a, b);
            assert(p.last() == p[p.len() - 1]);
            assert(dl.push(p.last()) =~= p);
        } else {
            assert(p =~= Seq::<u8>::empty());
        }
    }
}

/// A prefix expands to no more than the whole, and no byte expands to more than two.
pub proof fn lemma_expand_len(p: Seq<u8>, i: int)
    requires
        0 <= i <= p.len(),
    ensures
        expand(p.take(i)).len() <= expand(p).len(),
        expand(p).len() <= 2 * p.len(),
        expand(p).len() >= p.len(),
    decreases p.len(),
{
    if p.len() > 0 {
        if i == p.len() {
            assert(p.take(i) =~= p);
            lemma_expand_len(p.drop_last(), 0);
        } else {
            lemma_expand_len(p.drop_last(), i);
            assert(p.drop_last().take(i) =~= p.take(i));
        }
    } else {
        assert(p.take(i) =~= p);
    }
}

/// Everything fits into an empty packet when its expansion does.
pub proof fn lemma_fit_all(used: int, p: Seq<u8>, i: int)
    requires
        0 <= i <= p.len(),
        used + expand(p).len() <= PKT_CAP,
    ensures
        fit_from(used, p, i) == p.len(),
    decreases p.len() - i,
{
    if i < p.len() {
        lemma_expand_len(p, i + 1);
        lemma_fit_all(used, p, i + 1);
    }
}

/// The greedy fit stays within the payload and ahead of its start, and what it
/// takes fits.
pub proof fn lemma_fit_from_bounds(used: int, p: Seq<u8>, i: int)
    requires
        0 <= i <= p.len(),
        used + expand(p.take(i)).len() <= PKT_CAP,
    ensures
        i <= fit_from(used, p, i) <= p.len(),
        used + expand(p.take(fit_from(used, p, i))).len() <= PKT_CAP,
    decreases p.len() - i,
{
    if i == p.len() {
        assert(p.take(i) =~= p);
    }
    if i < p.len() && used + expand(p.take(i + 1)).len() <= PKT_CAP {
        lemma_fit_from_bounds(used, p, i + 1);
    }
}

/// The frame of a stored entry, popped whole, is well formed, and what it carries
/// to the console is its level byte followed by its payload.
pub proof fn law_entry_frame_roundtrip(level: u8, payload: Seq<u8>)
    requires
        1 <= payload.len() <= 254,
    ensures
        crate::log_ring::entry_bytes((level, payload)).len() <= ENTRY_BUF,
        !entry_malformed(crate::log_ring::entry_bytes((level, payload))),
        entry_payload(crate::log_ring::entry_bytes((level, payload))) == seq![level] + payload,
{
    let e = crate::log_ring::entry_bytes((level, payload));
    assert(entry_byte(e, 0) == payload.len() + 1);
    assert(entry_payload(e) =~= seq![level] + payload);
}

/// Packing loses and reorders nothing: for every well-formed entry, the frame handed
/// out (if any) followed by the packet afterwards is the packet before followed by
/// the entry's payload with `\n` as `\r\n`; no frame exceeds the packet capacity.
pub proof fn law_pack_preserves_bytes(pkt: Seq<u8>, entry: Seq<u8>)
    requires
        pkt.len() <= PKT_CAP,
        entry.len() <= ENTRY_BUF,
        !entry_malformed(entry),
    ensures
        ({
            let (frame, pkt2) = pack_outcome(pkt, entry);
            let sent = match frame {
                Some(f) => f,
                None => Seq::empty(),
            };
            &&& sent + pkt2 == pkt + expand(entry_payload(entry))
            &&& sent.len() <= PKT_CAP
            &&& pkt2.len() <= PKT_CAP
        }),
{
    let p = entry_payload(entry);
    lemma_expand_len(p, 0);
    assert(p.take(0) =~= Seq::<u8>::empty());
    lemma_fit_from_bounds(pkt.len() as int, p, 0);
    let k = fit_len(pkt.len() as int, p);
    if k < p.len() {
        let rest = p.skip(k);
        lemma_expand_len(rest, 0);
        lemma_fit_all(0, rest, 0);
        assert(rest.take(rest.len() as int) =~= rest);
        assert(p =~= p.take(k) + rest);
        lemma_expand_concat(p.take(k), rest);
        assert(expand(rest).len() <= PKT_CAP);
    } else {
        assert(p.take(k) =~= p);
    }
}

/// A record queued into an empty ring reaches the console whole: popped into the
/// entry buffer and packed into an empty packet, the frame handed out (if any)
/// followed by the packet is its level byte and the record, `\n` as `\r\n`.
pub proof fn law_queued_record_reaches_console(level: u8, record: Seq<u8>)
    requires
        1 <= record.len() <= 254,
    ensures
        ({
            let (stored, es) = crate::log_ring::push_outcome(Seq::empty(), level, record);
            let (popped, rest) = crate::log_ring::pop_outcome(es, ENTRY_BUF as nat);
            let (frame, pkt) = pack_outcome(Seq::empty(), popped);
            let sent = match frame {
                Some(f) => f,
                None => Seq::empty(),
            };
            &&& stored
            &&& rest.len() == 0
            &&& !entry_malformed(popped)
            &&& sent + pkt == expand(seq![level] + record)
        }),
{
    crate::log_ring::law_pop_returns_pushed(level, record, ENTRY_BUF as nat);
    law_entry_frame_roundtrip(level, record);
    let e = crate::log_ring::entry_bytes((level, record));
    assert(crate::text::truncated(e, ENTRY_BUF as nat) == e);
    law_pack_preserves_bytes(Seq::empty(), e);
    assert(Seq::<u8>::empty() + expand(seq![level] + record) =~= expand(seq![level] + record));
}

/// Appends the bytes of `p` from `start` on, `\n` as `\r\n`, while they fit into a
/// packet of `PKT_CAP` bytes; returns the index of the first byte left out.
fn append_fitting(pkt: &mut Vec<u8>, p: &[u8], start: usize) -> (end: usize)
    requires
        start <= p@.len(),
        old(pkt)@.len() <= PKT_CAP,
    ensures
        end == start + fit_len(old(pkt)@.len() as int, p@.skip(start as int)),
        final(pkt)@ == old(pkt)@ + expand(p@.subrange(start as int, end as int)),
        final(pkt)@.len() <= PKT_CAP,
{
    let ghost q = p@.skip(start as int);
    let ghost used0 = pkt@.len() as int;
    let ghost pkt0 = pkt@;
    let mut j = start;
    proof {
        assert(q.take(0) =~= Seq::<u8>::empty());
        assert(pkt@ =~= pkt0 + expand(q.take(0)));
    }
    while j < p.len()
        invariant
            start <= j <= p@.len(),
            q == p@.skip(start as int),
            used0 == pkt0.len(),
            pkt@ =~= pkt0 + expand(q.take(j - start)),
            pkt@.len() <= PKT_CAP,
            fit_len(used0, q) == fit_from(used0, q, j - start),
        ensures
            fit_len(used0, q) == j - start,
        decreases p@.len() - j,
    {
        let b = p[j];
        let ghost t = j - start;
        proof {
            assert(q[t] == b);
            assert(q.take(t + 1) =~= q.take(t).push(b));
            lemma_expand_push(q.take(t), b);
        }
        if b == 10 {
            if pkt.len() + 2 > PKT_CAP {
                break;
            }
            pkt.push(13);
            pkt.push(10);
        } else {
            if pkt.len() + 1 > PKT_CAP {
                break;
            }
            pkt.push(b);
        }
        j = j + 1;
    }
    proof {
        assert(p@.subrange(start as int, j as int) =~= q.take(j - start));
    }
    j
}

/// The packet the log task gathers console output in.
pub struct LogPacker {
    pkt: Vec<u8>,
}

impl View for LogPacker {
    type V = Seq<u8>;

    closed spec fn view(&self) -> Seq<u8> {
        self.pkt@
    }
}

/// What packing one popped entry gave.
#[derive(PartialEq, Eq, Debug)]
pub enum PackStep {
    /// The length byte was zero or overran the entry buffer: the entry is dropped and
    /// the round ends.
    Malformed,
    /// The entry was packed; a full frame to write now, if any.
    Packed(Option<Vec<u8>>),
}

impl LogPacker {
    /// The packet never exceeds its capacity.
    pub closed spec fn wf(&self) -> bool {
        self.pkt@.len() <= PKT_CAP
    }

    /// A well-formed packet never holds more than a frame's capacity.
    pub proof fn lemma_wf_bound(&self)
        requires
            self.wf(),
        ensures
            self@.len() <= PKT_CAP,
    {
    }

    pub fn new() -> (p: Self)
        ensures
            p.wf(),
            p@ == Seq::<u8>::empty(),
    {
        LogPacker { pkt: Vec::new() }
    }

    /// Packs one entry as popped from the ring (`entry` holds the popped bytes; the
    /// rest of the entry buffer reads as zeros).
    pub fn log_task_step(&mut self, entry: &[u8]) -> (step: PackStep)
        requires
            old(self).wf(),
            entry@.len() <= ENTRY_BUF,
        ensures
            final(self).wf(),
            entry_malformed(entry@) ==> step == PackStep::Malformed && final(self)@ == old(self)@,
            !entry_malformed(entry@) ==> (step matches PackStep::Packed(frame) && (
            match frame {
                Some(f) => Some(f@),
                None => None,
            },
            final(self)@,
            ) == pack_outcome(old(self)@, entry@)),
    {
        let e_len: usize = if entry.len() > 0 {
            entry[0] as usize
        } else {
            0
        };
        if e_len == 0 || e_len + 1 > ENTRY_BUF {
            return PackStep::Malformed;
        }
        let mut payload: Vec<u8> = Vec::new();
        let mut i: usize = 0;
        while i < e_len
            invariant
                e_len == entry_byte(entry@, 0),
                i <= e_len,
                payload@ =~= entry_payload(entry@).take(i as int),
            decreases e_len - i,
        {
            let b = if i + 1 < entry.len() {
                entry[i + 1]
            } else {
                0
            };
            payload.push(b);
            i = i + 1;
        }
        let ghost p = entry_payload(entry@);
        assert(payload@ =~= p);
        let ghost pkt0 = self.pkt@;
        let k = append_fitting(&mut self.pkt, payload.as_slice(), 0);
        assert(p.skip(0) =~= p);
        proof {
            assert(p.take(0) =~= Seq::<u8>::empty());
            lemma_fit_from_bounds(pkt0.len() as int, p, 0);
        }
        assert(p.subrange(0, k as int) =~= p.take(k as int));
        if k < e_len {
            let mut frame: Vec<u8> = Vec::new();
            std::mem::swap(&mut frame, &mut self.pkt);
            let k2 = append_fitting(&mut self.pkt, payload.as_slice(), k);
            proof {
                assert(p.skip(k as int).take(0) =~= Seq::<u8>::empty());
                lemma_fit_from_bounds(0, p.skip(k as int), 0);
                assert(p.subrange(k as int, k2 as int) =~= p.skip(k as int).take(k2 - k));
            }
            return PackStep::Packed(Some(frame));
        }
        proof {
            assert(p.take(k as int) =~= p);
        }
        if self.pkt.len() + e_len + 2 > PKT_CAP {
            let mut frame: Vec<u8> = Vec::new();
            std::mem::swap(&mut frame, &mut self.pkt);
            return PackStep::Packed(Some(frame));
        }
        PackStep::Packed(None)
    }

    /// End of a round: the packet, if it holds anything, is handed out as a frame.
    pub fn finish(&mut self) -> (frame: Option<Vec<u8>>)
        requires
            old(self).wf(),
        ensures
            final(self).wf(),
            final(self)@ == Seq::<u8>::empty(),
            old(self)@.len() == 0 ==> frame.is_none(),
            old(self)@.len() > 0 ==> (frame matches Some(f) && f@ == old(self)@),
    {
        if self.pkt.len() > 0 {
            let mut frame: Vec<u8> = Vec::new();
            std::mem::swap(&mut frame, &mut self.pkt);
            Some(frame)
        } else {
            None
        }
    }
}

/// The end of a round for a packet `pkt` and whether the round already wrote a
/// frame: the packet is written if it holds anything, and the task sleeps when the
/// round wrote nothing at all.
pub open spec fn round_end(pkt: Seq<u8>, flushed: bool) -> (Option<Seq<u8>>, bool) {
    if pkt.len() > 0 {
        (Some(pkt), false)
    } else {
        (None, !flushed)
    }
}

/// What the log task does next.
#[derive(PartialEq, Eq, Debug)]
pub enum RoundAction {
    /// Write this frame to the console, then pop the next entry.
    Write(Vec<u8>),
    /// Pop the next entry.
    PopNext,
    /// The round is over: write `frame` if any, then sleep if `sleep`, then start the
    /// next round.
    EndRound { frame: Option<Vec<u8>>, sleep: bool },
}

/// The log task's state across a round: its packet, and whether the round wrote.
pub struct LogTaskRound {
    packer: LogPacker,
    flushed: bool,
}

impl View for LogTaskRound {
    type V = (Seq<u8>, bool);

    closed spec fn view(&self) -> (Seq<u8>, bool) {
        (self.packer@, self.flushed)
    }
}

impl LogTaskRound {
    pub closed spec fn wf(&self) -> bool {
        self.packer.wf()
    }

    /// A well-formed round's packet never holds more than a frame's capacity.
    pub proof fn lemma_wf_bound(&self)
        requires
            self.wf(),
        ensures
            self@.0.len() <= PKT_CAP,
    {
    }

    /// The start of the first round: empty packet, nothing written.
    pub fn new() -> (r: Self)
        ensures
            r.wf(),
            r@ == (Seq::<u8>::empty(), false),
    {
        LogTaskRound { packer: LogPacker::new(), flushed: false }
    }

    /// One step of a round. `popped` is the entry just popped from the ring, or
    /// `None` when the round stops popping (the lock was busy, the ring was empty, or
    /// there is no console). After `EndRound` the state is that of a new round.
    pub fn step(&mut self, popped: Option<&[u8]>) -> (action: RoundAction)
        requires
            old(self).wf(),
            popped matches Some(e) ==> e@.len() <= ENTRY_BUF,
        ensures
            final(self).wf(),
            ({
                let (pkt, flushed) = old(self)@;
                let ends = match popped {
                    Some(e) => entry_malformed(e@),
                    None => true,
                };
                &&& ends ==> {
                    &&& final(self)@ == (Seq::<u8>::empty(), false)
                    &&& (action matches RoundAction::EndRound { frame, sleep } && sleep == round_end(
                        pkt,
                        flushed,
                    ).1 && match frame {
                        Some(f) => round_end(pkt, flushed).0 == Some(f@),
                        None => round_end(pkt, flushed).0 is None,
                    })
                }
                &&& !ends ==> (popped matches Some(e) && {
                    let (f, pkt2) = pack_outcome(pkt, e@);
                    &&& final(self)@.0 == pkt2
                    &&& match f {
                        Some(fb) => (action matches RoundAction::Write(w) && w@ == fb && final(self)@.1),
                        None => action == RoundAction::PopNext && final(self)@.1 == flushed,
                    }
                })
            }),
    {
        match popped {
            Some(e) => {
                let st = self.packer.log_task_step(e);
                match st {
                    PackStep::Packed(Some(frame)) => {
                        self.flushed = true;
                        return RoundAction::Write(frame);
                    },
                    PackStep::Packed(None) => {
                        return RoundAction::PopNext;
                    },
                    PackStep::Malformed => {},
                }
            },
            None => {},
        }
        let frame = self.packer.finish();
        let wrote = self.flushed || frame.is_some();
        self.flushed = false;
        RoundAction::EndRound { frame, sleep: !wrote }
    }
}

/// A round ends by writing the packet exactly when it holds something, and the task
/// sleeps exactly when the round wrote nothing at all.
pub proof fn law_round_end_sleeps_only_when_idle(pkt: Seq<u8>, flushed: bool)
    ensures
        round_end(pkt, flushed).0 == (if pkt.len() > 0 { Some(pkt) } else { None }),
        round_end(pkt, flushed).1 == (pkt.len() == 0 && !flushed),
{
}

/// When an entry fits the packet whole, the packet is handed out right after it
/// exactly when another entry of the same length might no longer fit; otherwise the
/// entry is only added to the packet.
pub proof fn law_pack_flush_rule(pkt: Seq<u8>, entry: Seq<u8>)
    requires
        pkt.len() <= PKT_CAP,
        entry.len() <= ENTRY_BUF,
        !entry_malformed(entry),
        pkt.len() + expand(entry_payload(entry)).len() <= PKT_CAP,
    ensures
        ({
            let p = entry_payload(entry);
            let full = pkt + expand(p);
            &&& full.len() + p.len() + 2 > PKT_CAP ==> pack_outcome(pkt, entry) == (
                Some(full),
                Seq::<u8>::empty(),
            )
            &&& full.len() + p.len() + 2 <= PKT_CAP ==> pack_outcome(pkt, entry) == (
                None::<Seq<u8>>,
                full,
            )
        }),
{
    let p = entry_payload(entry);
    lemma_fit_all(pkt.len() as int, p, 0);
}

/// Where the greedy fit stops short, the next byte does not fit.
proof fn lemma_fit_from_stop(used: int, p: Seq<u8>, i: int)
    requires
        0 <= i <= p.len(),
    ensures
        fit_from(used, p, i) < p.len() ==> used + expand(p.take(fit_from(used, p, i) + 1)).len() > PKT_CAP,
    decreases p.len() - i,
{
    if i < p.len() && used + expand(p.take(i + 1)).len() <= PKT_CAP {
        lemma_fit_from_stop(used, p, i + 1);
    }
}

/// When an entry does not fit the packet whole, the packet is filled as far as it
/// goes before it is handed out: the frame is the packet followed by the longest
/// leading part of the entry that fits, so the next byte would overflow it.
pub proof fn law_pack_split_fills_frame(pkt: Seq<u8>, entry: Seq<u8>)
    requires
        pkt.len() <= PKT_CAP,
        entry.len() <= ENTRY_BUF,
        !entry_malformed(entry),
        pkt.len() + expand(entry_payload(entry)).len() > PKT_CAP,
    ensures
        ({
            let p = entry_payload(entry);
            exists|k: int|
                0 <= k < p.len() && pack_outcome(pkt, entry).0 == Some(pkt + expand(p.take(k)))
                    && pkt.len() + expand(p.take(k)).len() <= PKT_CAP && pkt.len() + expand(
                    p.take(k + 1),
                ).len() > PKT_CAP
        }),
{
    let p = entry_payload(entry);
    assert(p.take(0) =~= Seq::<u8>::empty());
    lemma_fit_from_bounds(pkt.len() as int, p, 0);
    lemma_fit_from_stop(pkt.len() as int, p, 0);
    let k = fit_len(pkt.len() as int, p);
    if k == p.len() {
        assert(p.take(k) =~= p);
    }
    assert(0 <= k < p.len());
    assert(pack_outcome(pkt, entry).0 == Some(pkt + expand(p.take(k))));
    assert(pkt.len() + expand(p.take(k + 1)).len() > PKT_CAP);
}

/// All bytes of a sequence of frames, in order.
pub open spec fn frames_bytes(fs: Seq<Seq<u8>>) -> Seq<u8>
    decreases fs.len(),
{
    if fs.len() == 0 {
        Seq::empty()
    } else {
        frames_bytes(fs.drop_last()) + fs.last()
    }
}

/// The console bytes of a sequence of popped entries: each one's payload (level byte
/// and text) with `\n` as `\r\n`, in order.
pub open spec fn entries_console_bytes(entries: Seq<Seq<u8>>) -> Seq<u8>
    decreases entries.len(),
{
    if entries.len() == 0 {
        Seq::empty()
    } else {
        entries_console_bytes(entries.drop_last()) + expand(entry_payload(entries.last()))
    }
}

/// Packing entries one after the other from the packet `pkt`: the frames handed out,
/// and the packet afterwards.
pub open spec fn pack_all(pkt: Seq<u8>, entries: Seq<Seq<u8>>) -> (Seq<Seq<u8>>, Seq<u8>)
    decreases entries.len(),
{
    if entries.len() == 0 {
        (Seq::empty(), pkt)
    } else {
        let (fs, p) = pack_all(pkt, entries.drop_last());
        let (f, p2) = pack_outcome(p, entries.last());
        (
            match f {
                Some(x) => fs.push(x),
                None => fs,
            },
            p2,
        )
    }
}

/// The entries a round can pop: each fits the entry buffer and is well formed.
pub open spec fn round_entries(entries: Seq<Seq<u8>>) -> bool {
    forall|i: int|
        0 <= i < entries.len() ==> (#[trigger] entries[i]).len() <= ENTRY_BUF && !entry_malformed(
            entries[i],
        )
}

/// A whole round loses, adds and reorders nothing: when the round pops the entries
/// `e_1 .. e_k` into the packet `pkt`, the frames written during the round followed
/// by the packet written at its end are `pkt` followed by each entry's level byte and
/// text with `\n` as `\r\n`; every frame and the final packet fit in 512 bytes. A
/// round starts with an empty packet, so the round writes exactly the console bytes
/// of its entries.
pub proof fn law_round_preserves_bytes(pkt: Seq<u8>, entries: Seq<Seq<u8>>)
    requires
        pkt.len() <= PKT_CAP,
        round_entries(entries),
    ensures
        ({
            let (fs, p) = pack_all(pkt, entries);
            &&& frames_bytes(fs) + p == pkt + entries_console_bytes(entries)
            &&& p.len() <= PKT_CAP
            &&& forall|i: int| 0 <= i < fs.len() ==> (#[trigger] fs[i]).len() <= PKT_CAP
        }),
    decreases entries.len(),
{
    if entries.len() == 0 {
        assert(pkt + Seq::<u8>::empty() =~= pkt);
        assert(frames_bytes(Seq::<Seq<u8>>::empty()) + pkt =~= pkt);
    } else {
        let dl = entries.drop_last();
        assert forall|i: int| 0 <= i < dl.len() implies (#[trigger] dl[i]).len() <= ENTRY_BUF
            && !entry_malformed(dl[i]) by {
            assert(dl[i] == entries[i]);
        }
        law_round_preserves_bytes(pkt, dl);
        let (fs, p) = pack_all(pkt, dl);
        let e = entries.last();
        assert(e == entries[entries.len() - 1]);
        law_pack_preserves_bytes(p, e);
        let (f, p2) = pack_outcome(p, e);
        let ex = expand(entry_payload(e));
        assert(entries_console_bytes(entries) == entries_console_bytes(dl) + ex);
        assert(frames_bytes(fs) + p == pkt + entries_console_bytes(dl));
        assert(frames_bytes(fs) + (p + ex) =~= (frames_bytes(fs) + p) + ex);
        assert(pkt + entries_console_bytes(dl) + ex =~= pkt + entries_console_bytes(entries));
        match f {
            Some(x) => {
                assert(fs.push(x).drop_last() =~= fs);
                assert(frames_bytes(fs.push(x)) == frames_bytes(fs) + x);
                assert forall|i: int| 0 <= i < fs.push(x).len() implies (#[trigger] fs.push(x)[i]).len()
                    <= PKT_CAP by {
                    if i < fs.len() {
                        assert(fs.push(x)[i] == fs[i]);
                    }
                }
                assert(x + p2 == p + ex);
                assert(frames_bytes(fs) + x + p2 =~= frames_bytes(fs) + (x + p2));
                assert(frames_bytes(fs) + x + p2 =~= pkt + entries_console_bytes(entries));
            },
            None => {
                lemma_no_frame(p, e);
                assert(p2 == p + ex);
                assert(frames_bytes(fs) + p2 =~= pkt + entries_console_bytes(entries));
            },
        }
    }
}

/// Without a frame, packing only appends to the packet.
proof fn lemma_no_frame(p: Seq<u8>, e: Seq<u8>)
    requires
        p.len() <= PKT_CAP,
        e.len() <= ENTRY_BUF,
        !entry_malformed(e),
        pack_outcome(p, e).0 is None,
    ensures
        pack_outcome(p, e).1 == p + expand(entry_payload(e)),
{
    law_pack_preserves_bytes(p, e);
    assert(Seq::<u8>::empty() + pack_outcome(p, e).1 =~= pack_outcome(p, e).1);
}

} // verus!
