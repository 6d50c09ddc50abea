//! The log ring: a byte ring of fixed size holding framed entries
//! `[len][level][payload]`, where `len` counts the level byte and the payload.
//! A producer appends; the log task pops the oldest entry. When the ring lacks room,
//! an Info entry may evict the oldest entries as long as none of them is a warning or
//! an error; warnings and errors never evict anything.

use vstd::prelude::*;
use crate::log::{LEVEL_ERROR, LEVEL_WARN};
use crate::text::truncated;

verus! {

/// Size in bytes of the log ring.
pub const LOG_RING_SIZE: usize = 2048;

/// Warning and error entries are critical: they are never overwritten by a push.
pub open spec fn is_critical(level: u8) -> bool {
    level == LEVEL_WARN || level == LEVEL_ERROR
}

/// The frame of one entry (level, payload) in the ring.
pub open spec fn entry_bytes(e: (u8, Seq<u8>)) -> Seq<u8> {
    seq![(e.1.len() + 1) as u8, e.0] + e.1
}

/// Bytes an entry occupies in the ring.
pub open spec fn entry_size(e: (u8, Seq<u8>)) -> nat {
    e.1.len() + 2
}

/// The frames of a sequence of entries, oldest first.
pub open spec fn entries_bytes(es: Seq<(u8, Seq<u8>)>) -> Seq<u8>
    decreases es.len(),
{
    if es.len() == 0 {
        Seq::empty()
    } else {
        entries_bytes(es.drop_last()) + entry_bytes(es.last())
    }
}

/// Bytes a sequence of entries occupies in the ring.
pub open spec fn used_size(es: Seq<(u8, Seq<u8>)>) -> nat
    decreases es.len(),
{
    if es.len() == 0 {
        0
    } else {
        used_size(es.drop_last()) + entry_size(es.last())
    }
}

/// Some entry of `es` is a warning or an error.
pub open spec fn has_critical(es: Seq<(u8, Seq<u8>)>) -> bool {
    exists|j: int| 0 <= j < es.len() && #[trigger] is_critical(es[j].0)
}

/// How many of the oldest entries must go so that `deficit` more bytes become free.
pub open spec fn evict_count(es: Seq<(u8, Seq<u8>)>, deficit: int) -> nat
    decreases es.len(),
{
    if deficit <= 0 || es.len() == 0 {
        0
    } else {
        1 + evict_count(es.skip(1), deficit - entry_size(es[0]))
    }
}

/// Result of pushing an entry: whether it was stored, and the entries afterwards.
/// A payload of 1 to 254 bytes (its length byte counts the level byte too) is stored
/// when the ring keeps at least one byte free afterwards, so that head and tail stay
/// apart. Otherwise a warning or an error is refused, and an Info entry evicts the
/// fewest oldest entries that make that room, unless one of them is a warning or an
/// error, in which case it is refused. A refused push leaves the entries as they were.
pub open spec fn push_outcome(es: Seq<(u8, Seq<u8>)>, level: u8, payload: Seq<u8>) -> (
    bool,
    Seq<(u8, Seq<u8>)>,
) {
    let n = payload.len();
    let need = n + 2;
    let free = LOG_RING_SIZE - used_size(es);
    if n == 0 || n > 254 {
        (false, es)
    } else if free > need {
        (true, es.push((level, payload)))
    } else if is_critical(level) {
        (false, es)
    } else {
        let k = evict_count(es, need - free + 1);
        if has_critical(es.take(k as int)) {
            (false, es)
        } else {
            (true, es.skip(k as int).push((level, payload)))
        }
    }
}

/// Result of popping with an output buffer of `cap` bytes: the bytes copied out of
/// the oldest frame, and the entries afterwards.
pub open spec fn pop_outcome(es: Seq<(u8, Seq<u8>)>, cap: nat) -> (Seq<u8>, Seq<(u8, Seq<u8>)>) {
    if es.len() == 0 {
        (Seq::empty(), es)
    } else {
        (truncated(entry_bytes(es[0]), cap), es.skip(1))
    }
}

/// `x` brought back into `0..LOG_RING_SIZE`, for `0 <= x < 2 * LOG_RING_SIZE`.
pub open spec fn wrap(x: int) -> int {
    if x >= LOG_RING_SIZE {
        x - LOG_RING_SIZE
    } else {
        x
    }
}

/// Forward distance in the ring from `base` to `j`.
pub open spec fn offset(j: int, base: int) -> int {
    if j >= base {
        j - base
    } else {
        j + LOG_RING_SIZE - base
    }
}

/// No more entries can be evicted than there are.
pub proof fn lemma_evict_count_bound(es: Seq<(u8, Seq<u8>)>, deficit: int)
    ensures
        evict_count(es, deficit) <= es.len(),
    decreases es.len(),
{
    if deficit > 0 && es.len() > 0 {
        lemma_evict_count_bound(es.skip(1), deficit - entry_size(es[0]));
    }
}

pub proof fn lemma_entries_push(es: Seq<(u8, Seq<u8>)>, e: (u8, Seq<u8>))
    ensures
        entries_bytes(es.push(e)) =~= entries_bytes(es) + entry_bytes(e),
        used_size(es.push(e)) == used_size(es) + entry_size(e),
{
    assert(es.push(e).drop_last() =~= es);
}

pub proof fn lemma_size_is_len(es: Seq<(u8, Seq<u8>)>)
    ensures
        entries_bytes(es).len() == used_size(es),
        used_size(es) >= 2 * es.len(),
    decreases es.len(),
{
    if es.len() > 0 {
        lemma_size_is_len(es.drop_last());
    }
}

/// Splitting the entries splits their frames.
pub proof fn lemma_split(es: Seq<(u8, Seq<u8>)>, k: int)
    requires
        0 <= k <= es.len(),
    ensures
        entries_bytes(es) =~= entries_bytes(es.take(k)) + entries_bytes(es.skip(k)),
        used_size(es) == used_size(es.take(k)) + used_size(es.skip(k)),
    decreases es.len(),
{
    if k == es.len() {
        assert(es.take(k) =~= es);
        assert(es.skip(k) =~= Seq::<(u8, Seq<u8>)>::empty());
    } else {
        let dl = es.drop_last();
        lemma_split(dl, k);
        assert(es.take(k) =~= dl.take(k));
        assert(es.skip(k).drop_last() =~= dl.skip(k));
        assert(es.skip(k).last() == es.last());
    }
}

/// The frame of the `k`-th entry starts after the frames of the entries before it.
pub proof fn lemma_entry_at(es: Seq<(u8, Seq<u8>)>, k: int)
    requires
        0 <= k < es.len(),
    ensures
        used_size(es.take(k + 1)) == used_size(es.take(k)) + entry_size(es[k]),
        used_size(es.take(k)) + entry_size(es[k]) <= used_size(es),
        forall|t: int|
            0 <= t < entry_size(es[k]) ==> entries_bytes(es)[used_size(es.take(k)) + t]
                == #[trigger] entry_bytes(es[k])[t],
{
    lemma_split(es, k + 1);
    assert(es.take(k + 1) =~= es.take(k).push(es[k]));
    lemma_entries_push(es.take(k), es[k]);
    lemma_size_is_len(es.take(k));
    lemma_size_is_len(es.take(k + 1));
    lemma_size_is_len(es.skip(k + 1));
    assert forall|t: int| 0 <= t < entry_size(es[k]) implies entries_bytes(
        es,
    )[used_size(es.take(k)) + t] == #[trigger] entry_bytes(es[k])[t] by {
        assert(entries_bytes(es)[used_size(es.take(k)) + t] == entries_bytes(es.take(k + 1))[used_size(es.take(k)) + t]);
    }
}

/// The ring bytes from `head` on are the frames of `es`.
#[verifier::opaque]
spec fn holds_frames(buf: Seq<u8>, head: int, es: Seq<(u8, Seq<u8>)>) -> bool {
    forall|j: int|
        0 <= j < LOG_RING_SIZE && offset(j, head) < used_size(es) ==> #[trigger] buf[j]
            == entries_bytes(es)[offset(j, head)]
}

/// Reads one byte of the stored frames.
proof fn lemma_frame_byte(buf: Seq<u8>, head: int, es: Seq<(u8, Seq<u8>)>, off: int)
    requires
        holds_frames(buf, head, es),
        0 <= head < LOG_RING_SIZE,
        0 <= off < used_size(es),
        used_size(es) < LOG_RING_SIZE,
    ensures
        buf[wrap(head + off)] == entries_bytes(es)[off],
{
    reveal(holds_frames);
    assert(offset(wrap(head + off), head) == off);
}

/// After the frame of `e` was written at `tail`, the ring from `head + scanned`
/// holds the entries that survived eviction followed by `e`.
proof fn lemma_after_write(
    es: Seq<(u8, Seq<u8>)>,
    old_buf: Seq<u8>,
    new_buf: Seq<u8>,
    head: int,
    tail: int,
    k: int,
    e: (u8, Seq<u8>),
)
    requires
        old_buf.len() == LOG_RING_SIZE,
        new_buf.len() == LOG_RING_SIZE,
        0 <= head < LOG_RING_SIZE,
        0 <= tail < LOG_RING_SIZE,
        used_size(es) < LOG_RING_SIZE,
        offset(tail, head) == used_size(es),
        holds_frames(old_buf, head, es),
        0 <= k <= es.len(),
        LOG_RING_SIZE - used_size(es) + used_size(es.take(k)) > entry_size(e),
        forall|j: int|
            0 <= j < LOG_RING_SIZE ==> #[trigger] new_buf[j] == if offset(j, tail) < entry_size(e) {
                entry_bytes(e)[offset(j, tail)]
            } else {
                old_buf[j]
            },
    ensures
        ({
            let h = wrap(head + used_size(es.take(k)));
            let es3 = es.skip(k).push(e);
            &&& 0 <= h < LOG_RING_SIZE
            &&& used_size(es3) < LOG_RING_SIZE
            &&& used_size(es3) == offset(wrap(tail + entry_size(e)), h)
            &&& holds_frames(new_buf, h, es3)
        }),
{
    reveal(holds_frames);
    let scanned = used_size(es.take(k));
    let used = used_size(es);
    let h = wrap(head + scanned);
    let es2 = es.skip(k);
    lemma_split(es, k);
    lemma_size_is_len(es);
    lemma_size_is_len(es2);
    lemma_size_is_len(es.take(k));
    lemma_entries_push(es2, e);
    {
        let es3 = es2.push(e);
        assert forall|j: int|
            0 <= j < LOG_RING_SIZE && offset(j, h) < used_size(es3) implies #[trigger] new_buf[j]
            == entries_bytes(es3)[offset(j, h)] by {
            let o = offset(j, h);
            if o < used - scanned {
                assert(offset(j, tail) >= entry_size(e));
                assert(offset(j, head) == scanned + o);
                assert(entries_bytes(es)[scanned + o] == entries_bytes(es2)[o]);
            } else {
                assert(offset(j, tail) == o - (used - scanned));
            }
        }
    }
}

/// The ring of log entries. Its view is the sequence of stored entries
/// `(level, payload)`, oldest first.
pub struct LogRing {
    buf: [u8; 2048],
    head: usize,
    tail: usize,
    entries: Ghost<Seq<(u8, Seq<u8>)>>,
}

impl View for LogRing {
    type V = Seq<(u8, Seq<u8>)>;

    closed spec fn view(&self) -> Seq<(u8, Seq<u8>)> {
        self.entries@
    }
}

impl LogRing {
    /// The bytes between head and tail are the frames of the stored entries, and each
    /// stored payload has between 1 and 254 bytes.
    pub closed spec fn wf(&self) -> bool {
        let es = self.entries@;
        &&& self.buf@.len() == LOG_RING_SIZE
        &&& self.head < LOG_RING_SIZE
        &&& self.tail < LOG_RING_SIZE
        &&& used_size(es) == offset(self.tail as int, self.head as int)
        &&& holds_frames(self.buf@, self.head as int, es)
        &&& forall|i: int| 0 <= i < es.len() ==> 1 <= (#[trigger] es[i]).1.len() <= 254
    }

    /// What a well-formed ring tells of its entries.
    pub proof fn lemma_wf_view(&self)
        requires
            self.wf(),
        ensures
            valid_entries(self@),
    {
    }

    /// An empty ring.
    pub fn new() -> (r: Self)
        ensures
            r.wf(),
            r@ == Seq::<(u8, Seq<u8>)>::empty(),
    {
        let buf: [u8; 2048] = [0u8; 2048];
        proof {
            reveal(holds_frames);
        }
        LogRing { buf, head: 0, tail: 0, entries: Ghost(Seq::empty()) }
    }

    /// Writes the frame of `(level, payload)` at the tail and advances the tail.
    fn write_entry(&mut self, level: u8, payload: &[u8])
        requires
            old(self).buf@.len() == LOG_RING_SIZE,
            old(self).tail < LOG_RING_SIZE,
            1 <= payload@.len() <= 254,
        ensures
            final(self).buf@.len() == LOG_RING_SIZE,
            final(self).head == old(self).head,
            final(self).entries == old(self).entries,
            final(self).tail == wrap(old(self).tail + payload@.len() + 2),
            forall|j: int|
                0 <= j < LOG_RING_SIZE ==> #[trigger] final(self).buf@[j] == if offset(
                    j,
                    old(self).tail as int,
                ) < payload@.len() + 2 {
                    entry_bytes((level, payload@))[offset(j, old(self).tail as int)]
                } else {
                    old(self).buf@[j]
                },
    {
        let tail = self.tail;
        let n = payload.len();
        let ghost eb = entry_bytes((level, payload@));
        let ghost b0 = self.buf@;
        assert(eb[0] == (n + 1) as u8);
        assert(eb[1] == level);
        self.buf[tail] = (n + 1) as u8;
        self.buf[(tail + 1) % LOG_RING_SIZE] = level;
        let mut i: usize = 0;
        while i < n
            invariant
                n == payload@.len(),
                1 <= n <= 254,
                tail < LOG_RING_SIZE,
                i <= n,
                self.buf@.len() == LOG_RING_SIZE,
                self.head == old(self).head,
                self.tail == tail,
                self.entries == old(self).entries,
                eb == entry_bytes((level, payload@)),
                forall|j: int|
                    0 <= j < LOG_RING_SIZE ==> #[trigger] self.buf@[j] == if offset(j, tail as int) < i + 2 {
                        eb[offset(j, tail as int)]
                    } else {
                        b0[j]
                    },
            decreases n - i,
        {
            let pos = (tail + 2 + i) % LOG_RING_SIZE;
            assert(pos == wrap(tail + 2 + i));
            assert(eb[i + 2] == payload@[i as int]);
            self.buf[pos] = payload[i];
            i = i + 1;
        }
        self.tail = (tail + n + 2) % LOG_RING_SIZE;
    }

    /// Appends an entry; see `push_outcome` for when it is stored and what is evicted.
    /// A refused push leaves the ring exactly as it was.
    pub fn ring_push(&mut self, level: u8, payload: &[u8]) -> (pushed: bool)
        requires
            old(self).wf(),
        ensures
            final(self).wf(),
            (pushed, final(self)@) == push_outcome(old(self)@, level, payload@),
            !pushed ==> *final(self) == *old(self),
    {
        let ghost es = self.entries@;
        proof {
            lemma_size_is_len(es);
        }
        // The length byte holds the payload length plus the level byte.
        if payload.len() == 0 || payload.len() > 254 {
            return false;
        }
        let head = self.head;
        let tail = self.tail;
        let need = payload.len() + 2;
        let free = if tail >= head {
            LOG_RING_SIZE - (tail - head)
        } else {
            head - tail
        };
        assert(free == LOG_RING_SIZE - used_size(es));
        if free > need {
            let ghost b0 = self.buf@;
            self.write_entry(level, payload);
            proof {
                assert(es.take(0) =~= Seq::<(u8, Seq<u8>)>::empty());
                assert(es.skip(0) =~= es);
                lemma_after_write(es, b0, self.buf@, head as int, tail as int, 0, (level, payload@));
                self.entries = Ghost(es.push((level, payload@)));
            }
            return true;
        }
        if critical(level) {
            return false;
        }
        let mut h = head;
        let mut scanned: usize = 0;
        let ghost mut k: int = 0;
        let ghost deficit: int = need - free + 1;
        proof {
            assert(es.take(0) =~= Seq::<(u8, Seq<u8>)>::empty());
            assert(es.skip(0) =~= es);
        }
        // Walk the oldest entries until freeing them leaves a byte to spare.
        while free + scanned <= need
            invariant
                self.wf(),
                self.entries@ == es,
                *self == *old(self),
                es == old(self)@,
                self.head == head,
                self.tail == tail,
                head < LOG_RING_SIZE,
                free == LOG_RING_SIZE - used_size(es),
                need == payload@.len() + 2,
                need <= 256,
                free <= need,
                deficit == need - free + 1,
                !is_critical(level),
                1 <= payload@.len() <= 254,
                0 <= k <= es.len(),
                scanned == used_size(es.take(k)),
                scanned <= used_size(es),
                h == wrap(head + scanned),
                !has_critical(es.take(k)),
                evict_count(es, deficit) == k + evict_count(es.skip(k), deficit - scanned),
            decreases LOG_RING_SIZE - scanned,
        {
            proof {
                if k == es.len() {
                    assert(es.take(k) =~= es);
                }
                lemma_entry_at(es, k);
                lemma_size_is_len(es);
                assert(entries_bytes(es)[scanned as int] == entry_bytes(es[k])[0]);
                assert(entries_bytes(es)[scanned + 1] == entry_bytes(es[k])[1]);
                lemma_frame_byte(self.buf@, head as int, es, scanned as int);
                lemma_frame_byte(self.buf@, head as int, es, scanned + 1);
                assert(wrap(head + scanned + 1) == wrap(h + 1));
            }
            let cur = h;
            let cur_len = self.buf[cur] as usize + 1;
            let cur_level = self.buf[(cur + 1) % LOG_RING_SIZE];
            assert(cur_len == entry_size(es[k]));
            assert(cur_level == es[k].0);
            if cur_level == LEVEL_WARN || cur_level == LEVEL_ERROR {
                proof {
                    let kk = evict_count(es, deficit);
                    lemma_evict_count_bound(es, deficit);
                    assert(es.skip(k).len() > 0);
                    assert(evict_count(es.skip(k), deficit - scanned) >= 1);
                    assert(es.take(kk as int)[k] == es[k]);
                    assert(is_critical(es.take(kk as int)[k].0));
                    assert(has_critical(es.take(kk as int)));
                    assert(kk == evict_count(es, need - free + 1));
                    assert(push_outcome(es, level, payload@) == (false, es));
                }
                return false;
            }
            proof {
                assert(es.skip(k).skip(1) =~= es.skip(k + 1));
                assert(es.skip(k)[0] == es[k]);
                assert forall|j: int| 0 <= j < k + 1 implies !#[trigger] is_critical(
                    es.take(k + 1)[j].0,
                ) by {
                    if j < k {
                        assert(es.take(k + 1)[j] == es.take(k)[j]);
                    }
                }
            }
            h = (h + cur_len) % LOG_RING_SIZE;
            scanned = scanned + cur_len;
            proof {
                k = k + 1;
            }
        }
        proof {
            lemma_size_is_len(es);
            assert(evict_count(es.skip(k), deficit - scanned) == 0);
        }
        self.head = h;
        let ghost b0 = self.buf@;
        self.write_entry(level, payload);
        proof {
            lemma_after_write(es, b0, self.buf@, head as int, tail as int, k, (level, payload@));
            self.entries = Ghost(es.skip(k).push((level, payload@)));
        }
        true
    }

    /// Takes the oldest entry out of the ring and returns as many bytes of its frame
    /// as an output buffer of `cap` bytes holds.
    pub fn ring_pop(&mut self, cap: usize) -> (out: Vec<u8>)
        requires
            old(self).wf(),
        ensures
            final(self).wf(),
            (out@, final(self)@) == pop_outcome(old(self)@, cap as nat),
    {
        let ghost es = self.entries@;
        proof {
            lemma_size_is_len(es);
        }
        let head = self.head;
        let tail = self.tail;
        if head == tail {
            return Vec::new();
        }
        proof {
            lemma_entry_at(es, 0);
            assert(es.take(0) =~= Seq::<(u8, Seq<u8>)>::empty());
            assert(entries_bytes(es)[0] == entry_bytes(es[0])[0]);
            lemma_frame_byte(self.buf@, head as int, es, 0);
        }
        let first = self.buf[head];
        let entry_len = first as usize + 1;
        assert(entry_len == entry_size(es[0]));
        let n = if entry_len < cap { entry_len } else { cap };
        let mut out: Vec<u8> = Vec::new();
        let mut i: usize = 0;
        while i < n
            invariant
                self.wf(),
                self.entries@ == es,
                self.head == head,
                es.len() > 0,
                n <= entry_size(es[0]),
                entry_size(es[0]) <= used_size(es),
                i <= n,
                out@ =~= entry_bytes(es[0]).take(i as int),
            decreases n - i,
        {
            proof {
                lemma_entry_at(es, 0);
                assert(es.take(0) =~= Seq::<(u8, Seq<u8>)>::empty());
                assert(entries_bytes(es)[i as int] == entry_bytes(es[0])[i as int]);
                lemma_frame_byte(self.buf@, head as int, es, i as int);
            }
            out.push(self.buf[(head + i) % LOG_RING_SIZE]);
            i = i + 1;
        }
        self.head = (head + entry_len) % LOG_RING_SIZE;
        proof {
            let es2 = es.skip(1);
            lemma_split(es, 1);
            assert(es.take(1) =~= seq![es[0]]);
            assert(seq![es[0]] =~= Seq::<(u8, Seq<u8>)>::empty().push(es[0]));
            lemma_entries_push(Seq::<(u8, Seq<u8>)>::empty(), es[0]);
            assert(entries_bytes(es.take(1)) =~= entry_bytes(es[0]));
            reveal(holds_frames);
            assert forall|j: int|
                0 <= j < LOG_RING_SIZE && offset(j, self.head as int) < used_size(es2) implies #[trigger] self.buf@[j]
                == entries_bytes(es2)[offset(j, self.head as int)] by {
                assert(offset(j, head as int) == entry_len + offset(j, self.head as int));
            }
            assert(out@ =~= truncated(entry_bytes(es[0]), cap as nat));
            self.entries = Ghost(es2);
        }
        out
    }
}

/// The entries a well-formed ring can hold: payloads of 1 to 254 bytes, fewer bytes
/// in all than the ring has.
pub open spec fn valid_entries(es: Seq<(u8, Seq<u8>)>) -> bool {
    &&& used_size(es) < LOG_RING_SIZE
    &&& forall|i: int| 0 <= i < es.len() ==> 1 <= (#[trigger] es[i]).1.len() <= 254
}

/// What is read back is what was written: an entry pushed into an empty ring is
/// what the next pop returns, frame and all.
pub proof fn law_pop_returns_pushed(level: u8, payload: Seq<u8>, cap: nat)
    requires
        1 <= payload.len() <= 254,
    ensures
        ({
            let (stored, es) = push_outcome(Seq::empty(), level, payload);
            &&& stored
            &&& es == seq![(level, payload)]
            &&& pop_outcome(es, cap) == (truncated(entry_bytes((level, payload)), cap), Seq::<(u8, Seq<u8>)>::empty())
        }),
{
    let empty = Seq::<(u8, Seq<u8>)>::empty();
    assert(used_size(empty) == 0);
    assert(empty.push((level, payload)) =~= seq![(level, payload)]);
    lemma_entries_push(empty, (level, payload));
    assert(seq![(level, payload)].skip(1) =~= empty);
}

/// A stored push always keeps its entry: it is the newest entry afterwards, and the
/// ring keeps a byte free, so it never reads as empty.
pub proof fn law_stored_push_keeps_entry(es: Seq<(u8, Seq<u8>)>, level: u8, payload: Seq<u8>)
    requires
        valid_entries(es),
        push_outcome(es, level, payload).0,
    ensures
        ({
            let es2 = push_outcome(es, level, payload).1;
            &&& es2.len() > 0
            &&& es2.last() == (level, payload)
            &&& valid_entries(es2)
        }),
{
    let n = payload.len();
    let need = n + 2;
    let free = LOG_RING_SIZE - used_size(es);
    let es2 = push_outcome(es, level, payload).1;
    if free > need {
        lemma_entries_push(es, (level, payload));
        assert forall|i: int| 0 <= i < es2.len() implies 1 <= (#[trigger] es2[i]).1.len() <= 254 by {
            if i < es.len() {
                assert(es2[i] == es[i]);
            }
        }
    } else {
        let k = evict_count(es, need - free + 1);
        lemma_evict_count_bound(es, need - free + 1);
        lemma_evict_count_least(es, need - free + 1);
        lemma_split(es, k as int);
        lemma_entries_push(es.skip(k as int), (level, payload));
        assert forall|i: int| 0 <= i < es2.len() implies 1 <= (#[trigger] es2[i]).1.len() <= 254 by {
            if i < es.len() - k {
                assert(es2[i] == es[i + k]);
            }
        }
    }
}

/// Bytes taken by the first `j + 1` entries: the first entry, then `j` more.
proof fn lemma_take_first(es: Seq<(u8, Seq<u8>)>, j: int)
    requires
        0 <= j < es.len(),
    ensures
        used_size(es.take(j + 1)) == entry_size(es[0]) + used_size(es.skip(1).take(j)),
{
    let t = es.take(j + 1);
    lemma_split(t, 1);
    assert(t.take(1) =~= Seq::<(u8, Seq<u8>)>::empty().push(es[0]));
    lemma_entries_push(Seq::<(u8, Seq<u8>)>::empty(), es[0]);
    assert(t.skip(1) =~= es.skip(1).take(j));
}

/// `evict_count` is the length of the shortest prefix whose bytes reach `deficit`.
pub proof fn lemma_evict_count_least(es: Seq<(u8, Seq<u8>)>, deficit: int)
    requires
        0 < deficit <= used_size(es),
    ensures
        evict_count(es, deficit) >= 1,
        used_size(es.take(evict_count(es, deficit) as int)) >= deficit,
        used_size(es.take(evict_count(es, deficit) - 1)) < deficit,
    decreases es.len(),
{
    lemma_size_is_len(es);
    let s0 = entry_size(es[0]);
    let rest = es.skip(1);
    lemma_split(es, 1);
    assert(es.take(1) =~= Seq::<(u8, Seq<u8>)>::empty().push(es[0]));
    lemma_entries_push(Seq::<(u8, Seq<u8>)>::empty(), es[0]);
    assert(es.take(0) =~= Seq::<(u8, Seq<u8>)>::empty());
    if deficit - s0 > 0 {
        lemma_evict_count_least(rest, deficit - s0);
        lemma_evict_count_bound(rest, deficit - s0);
        let k2 = evict_count(rest, deficit - s0);
        lemma_take_first(es, k2 as int);
        lemma_take_first(es, k2 - 1);
    }
}

/// Entries leave in the order they came: a push that finds room keeps every stored
/// entry in place, so the next pop returns the same oldest entry as before the push.
pub proof fn law_push_keeps_order(es: Seq<(u8, Seq<u8>)>, level: u8, payload: Seq<u8>, cap: nat)
    requires
        valid_entries(es),
        es.len() > 0,
        LOG_RING_SIZE - used_size(es) > payload.len() + 2,
    ensures
        ({
            let (stored, es2) = push_outcome(es, level, payload);
            &&& es2.take(es.len() as int) == es
            &&& pop_outcome(es2, cap).0 == pop_outcome(es, cap).0
        }),
{
    let (stored, es2) = push_outcome(es, level, payload);
    if stored {
        assert(es2 == es.push((level, payload)));
        assert(es2.take(es.len() as int) =~= es);
        assert(es2[0] == es[0]);
    } else {
        assert(es2.take(es.len() as int) =~= es);
    }
}

/// Warnings and errors are never overwritten: after any push, every warning or
/// error entry is still stored.
pub proof fn law_critical_entries_survive(es: Seq<(u8, Seq<u8>)>, level: u8, payload: Seq<u8>)
    requires
        valid_entries(es),
    ensures
        forall|i: int|
            0 <= i < es.len() && is_critical(#[trigger] es[i].0) ==> push_outcome(es, level, payload).1.contains(
                es[i],
            ),
{
    let (stored, es2) = push_outcome(es, level, payload);
    let n = payload.len();
    let need = n + 2;
    let free = LOG_RING_SIZE - used_size(es);
    assert forall|i: int| 0 <= i < es.len() && is_critical(#[trigger] es[i].0) implies es2.contains(es[i]) by {
        if es2 == es {
            assert(es2[i] == es[i]);
        } else if n >= 1 && n <= 254 && free > need {
            assert(es2 == es.push((level, payload)));
            assert(es2[i] == es[i]);
        } else {
            let k = evict_count(es, need - free + 1);
            lemma_evict_count_bound(es, need - free + 1);
            assert(!has_critical(es.take(k as int)));
            assert(es2 == es.skip(k as int).push((level, payload)));
            if i < k {
                assert(es.take(k as int)[i] == es[i]);
                assert(is_critical(es.take(k as int)[i].0));
            }
            assert(es2[i - k] == es[i]);
        }
    }
}

/// A warning or an error never evicts anything: it is stored after all the entries,
/// or refused with the entries unchanged.
pub proof fn law_critical_push_never_evicts(es: Seq<(u8, Seq<u8>)>, level: u8, payload: Seq<u8>)
    requires
        is_critical(level),
    ensures
        ({
            let (stored, es2) = push_outcome(es, level, payload);
            &&& stored ==> es2 == es.push((level, payload))
            &&& !stored ==> es2 == es
        }),
{
}

/// An Info entry evicts only the oldest entries, only Info ones, and no more of them
/// than it needs: the ring after a stored push is the old one without its shortest
/// prefix whose removal leaves a byte to spare, with the new entry last.
pub proof fn law_info_evicts_oldest_info(es: Seq<(u8, Seq<u8>)>, level: u8, payload: Seq<u8>)
    requires
        valid_entries(es),
        !is_critical(level),
        push_outcome(es, level, payload).0,
    ensures
        exists|k: int|
            0 <= k <= es.len() && !has_critical(es.take(k)) && push_outcome(es, level, payload).1
                == es.skip(k).push((level, payload))
                && LOG_RING_SIZE - used_size(es) + used_size(es.take(k)) > payload.len() + 2
                && (k > 0 ==> LOG_RING_SIZE - used_size(es) + used_size(es.take(k - 1))
                    <= payload.len() + 2),
{
    let n = payload.len();
    let need = n + 2;
    let free = LOG_RING_SIZE - used_size(es);
    if free > need {
        assert(es.skip(0) =~= es);
        assert(es.take(0) =~= Seq::<(u8, Seq<u8>)>::empty());
        assert(!has_critical(es.take(0)));
    } else {
        let k = evict_count(es, need - free + 1);
        lemma_evict_count_bound(es, need - free + 1);
        lemma_evict_count_least(es, need - free + 1);
        assert(!has_critical(es.take(k as int)));
    }
}

/// Taking more of the oldest entries never takes fewer bytes.
proof fn lemma_used_take_monotone(es: Seq<(u8, Seq<u8>)>, j: int, k: int)
    requires
        0 <= j <= k <= es.len(),
    ensures
        used_size(es.take(j)) <= used_size(es.take(k)),
{
    lemma_split(es.take(k), j);
    assert(es.take(k).take(j) =~= es.take(j));
}

/// Exactly warnings (`W`) and errors (`E`) are critical.
pub proof fn law_critical_levels(level: u8)
    ensures
        is_critical(level) == (level == 87u8 || level == 69u8),
{
}

/// Any push of a 1- to 254-byte payload that leaves a byte free is stored after all
/// the entries, whatever its level.
pub proof fn law_push_with_room_appends(es: Seq<(u8, Seq<u8>)>, level: u8, payload: Seq<u8>)
    requires
        1 <= payload.len() <= 254,
        LOG_RING_SIZE - used_size(es) > payload.len() + 2,
    ensures
        push_outcome(es, level, payload) == (true, es.push((level, payload))),
{
}

/// An Info push is refused only when making room would need a warning or an error:
/// whenever some run of oldest entries without a warning or an error frees enough
/// room (a byte to spare after the new entry), the push is stored, after evicting
/// no more of the oldest entries than such a run.
pub proof fn law_info_push_stored_when_room_can_be_made(
    es: Seq<(u8, Seq<u8>)>,
    level: u8,
    payload: Seq<u8>,
    k: int,
)
    requires
        valid_entries(es),
        !is_critical(level),
        1 <= payload.len() <= 254,
        0 <= k <= es.len(),
        !has_critical(es.take(k)),
        LOG_RING_SIZE - used_size(es) + used_size(es.take(k)) > payload.len() + 2,
    ensures
        push_outcome(es, level, payload).0,
        exists|j: int|
            0 <= j <= k && push_outcome(es, level, payload).1 == es.skip(j).push((level, payload)),
{
    let need = payload.len() + 2;
    let free = LOG_RING_SIZE - used_size(es);
    if free > need {
        assert(es.skip(0) =~= es);
    } else {
        let d = need - free + 1;
        lemma_size_is_len(es);
        lemma_split(es, k);
        lemma_evict_count_least(es, d);
        lemma_evict_count_bound(es, d);
        let k0 = evict_count(es, d) as int;
        if k0 > k {
            lemma_used_take_monotone(es, k, k0 - 1);
            assert(false);
        }
        assert(!has_critical(es.take(k0))) by {
            if has_critical(es.take(k0)) {
                let j = choose|j: int| 0 <= j < k0 && #[trigger] is_critical(es.take(k0)[j].0);
                assert(es.take(k0)[j] == es.take(k)[j]);
                assert(is_critical(es.take(k)[j].0));
            }
        }
    }
}

/// A warning or an error is stored exactly when it leaves a byte free without
/// evicting anything.
pub proof fn law_critical_push_stored_iff_room(es: Seq<(u8, Seq<u8>)>, level: u8, payload: Seq<u8>)
    requires
        is_critical(level),
        1 <= payload.len() <= 254,
    ensures
        push_outcome(es, level, payload).0 == (LOG_RING_SIZE - used_size(es) > payload.len() + 2),
{
}

/// Whether a level is critical (warning or error).
pub fn critical(level: u8) -> (r: bool)
    ensures
        r == is_critical(level),
{
    level == LEVEL_WARN || level == LEVEL_ERROR
}

} // verus!
