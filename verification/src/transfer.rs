//! The chunked, flow-controlled transfer engine: slices a binary payload
//! into frames of at most the fixed chunk size, keeps them in an ordered
//! pending queue owned by one stream, and drains them into a direct data
//! channel until the channel's send buffer pushes back. Draining resumes,
//! from the exact frame that was refused, whenever the channel signals that
//! its buffered amount fell below the low-water mark.

use vstd::prelude::*;

use std::collections::VecDeque;

use vstd::arithmetic::div_mod::lemma_div_plus_one;
use vstd::slice::{slice_subrange, slice_to_vec};

use crate::MAX_CHUNK_SIZE;

verus! {

/// A file as handed to a channel: display name, MIME-like type tag, and
/// the raw bytes. Serialized compactly into one payload before chunking.
#[derive(Debug)]
pub struct FileData {
    pub name: String,
    pub file_typ: String,
    pub data: Vec<u8>,
}

#[verifier::external_type_specification]
#[verifier::external_body]
pub struct ExRtcDataChannel(web_sys::RtcDataChannel);

#[verifier::external_type_specification]
#[verifier::external_body]
pub struct ExJsValue(wasm_bindgen::JsValue);

/// Relies on `web_sys::RtcDataChannel::send_with_u8_array`: hands one
/// binary frame to the browser's data channel. Whether the channel takes
/// the frame depends on its state and buffer, so nothing is promised of
/// the outcome; the caller treats any rejection as back-pressure.
#[verifier::external_body]
fn channel_send(channel: &web_sys::RtcDataChannel, frame: &Vec<u8>) -> Result<
    (),
    wasm_bindgen::JsValue,
> {
    channel.send_with_u8_array(frame.as_slice())
}

/// How many frames a payload of this length yields: one per full chunk,
/// plus one for a trailing partial chunk.
pub open spec fn spec_chunk_count(len: int, chunk: int) -> nat
    recommends
        chunk > 0,
    decreases
            if len > 0 {
                len
            } else {
                0
            },
{
    if len <= 0 || chunk <= 0 {
        0
    } else {
        1 + spec_chunk_count(len - chunk, chunk)
    }
}

/// Where the frame at position `i` ends: a full chunk further, or at the
/// payload's end for the trailing partial frame.
pub open spec fn chunk_end(len: int, chunk: int, i: int) -> int {
    if (i + 1) * chunk <= len {
        (i + 1) * chunk
    } else {
        len
    }
}

/// The frames are exactly the payload cut every `chunk` bytes, in order.
pub open spec fn is_chunking(payload: Seq<u8>, chunk: int, frames: Seq<Seq<u8>>) -> bool {
    &&& frames.len() == spec_chunk_count(payload.len() as int, chunk)
    &&& forall|i: int|
        0 <= i < frames.len() ==> #[trigger] frames[i] == payload.subrange(
            i * chunk,
            chunk_end(payload.len() as int, chunk, i),
        )
}

/// The byte sequences a list of frames holds, in order.
pub open spec fn views_of(frames: Seq<Vec<u8>>) -> Seq<Seq<u8>> {
    frames.map_values(|f: Vec<u8>| f@)
}

/// The frame count is the length divided by the chunk size, rounded up.
pub proof fn lemma_chunk_count_is_div_rounded_up(len: int, chunk: int)
    requires
        chunk > 0,
        len >= 0,
    ensures
        spec_chunk_count(len, chunk) == (len + chunk - 1) / chunk,
    decreases len,
{
    if len == 0 {
        assert((chunk - 1) / chunk == 0) by (nonlinear_arith)
            requires
                chunk > 0,
        ;
    } else if len - chunk < 0 {
        assert(spec_chunk_count(len - chunk, chunk) == 0);
        assert(spec_chunk_count(len, chunk) == 1);
        assert((len + chunk - 1) / chunk == 1) by (nonlinear_arith)
            requires
                chunk > 0,
                0 < len < chunk,
        ;
    } else {
        lemma_chunk_count_is_div_rounded_up(len - chunk, chunk);
        lemma_div_plus_one(len - 1, chunk);
    }
}

/// The frame count is the least number of chunks that covers the length.
proof fn lemma_chunk_count_bounds(len: int, chunk: int)
    requires
        chunk > 0,
    ensures
        len <= 0 ==> spec_chunk_count(len, chunk) == 0,
        spec_chunk_count(len, chunk) * chunk >= len,
        len > 0 ==> (spec_chunk_count(len, chunk) - 1) * chunk < len,
    decreases
            if len > 0 {
                len
            } else {
                0
            },
{
    if len > 0 {
        lemma_chunk_count_bounds(len - chunk, chunk);
        let rest = spec_chunk_count(len - chunk, chunk) as int;
        assert((rest + 1) * chunk == rest * chunk + chunk) by (nonlinear_arith);
        if len - chunk > 0 {
            assert(rest * chunk == (rest - 1) * chunk + chunk) by (nonlinear_arith);
            assert(rest * chunk < len);
        } else {
            assert(rest == 0);
        }
    }
}

/// Only one count satisfies those bounds.
proof fn lemma_chunk_count_unique(len: int, chunk: int, k: int)
    requires
        chunk > 0,
        k >= 0,
        k * chunk >= len,
        k == 0 ==> len <= 0,
        k > 0 ==> (k - 1) * chunk < len,
    ensures
        k == spec_chunk_count(len, chunk),
{
    lemma_chunk_count_bounds(len, chunk);
    let c = spec_chunk_count(len, chunk) as int;
    if k != c {
        assert(false) by (nonlinear_arith)
            requires
                chunk > 0,
                k >= 0,
                c >= 0,
                k * chunk >= len,
                c * chunk >= len,
                k == 0 ==> len <= 0,
                c == 0 ==> len <= 0,
                k > 0 ==> (k - 1) * chunk < len,
                c > 0 ==> (c - 1) * chunk < len,
                k != c,
        ;
    }
}

/// Cuts a payload into frames of at most `chunk_size` bytes, in order.
pub fn chunk_payload(payload: &[u8], chunk_size: usize) -> (frames: Vec<Vec<u8>>)
    requires
        chunk_size > 0,
        payload@.len() + chunk_size <= usize::MAX,
    ensures
        is_chunking(payload@, chunk_size as int, views_of(frames@)),
{
    let len = payload.len();
    let ghost chunk = chunk_size as int;
    let mut frames: Vec<Vec<u8>> = Vec::new();
    let mut begin: usize = 0;
    proof {
        assert((frames@.len() as int) * chunk == 0) by (nonlinear_arith)
            requires
                frames@.len() == 0,
        ;
    }
    while begin < len
        invariant
            len == payload@.len(),
            chunk == chunk_size as int,
            chunk > 0,
            len + chunk_size <= usize::MAX,
            begin as int == if (frames@.len() as int) * chunk <= len as int {
                (frames@.len() as int) * chunk
            } else {
                len as int
            },
            frames@.len() > 0 ==> (frames@.len() as int - 1) * chunk < len as int,
            forall|i: int|
                0 <= i < frames@.len() ==> #[trigger] frames@[i]@ == payload@.subrange(
                    i * chunk,
                    chunk_end(len as int, chunk, i),
                ),
        decreases len - begin,
    {
        let ghost k = frames@.len() as int;
        proof {
            assert(begin as int == k * chunk);
            assert((k + 1) * chunk == k * chunk + chunk) by (nonlinear_arith);
        }
        let end = if len - begin > chunk_size {
            begin + chunk_size
        } else {
            len
        };
        frames.push(slice_to_vec(slice_subrange(payload, begin, end)));
        begin = end;
    }
    proof {
        let k = frames@.len() as int;
        if k > 0 {
            assert((k - 1) * chunk < len as int);
        }
        assert(k * chunk >= len as int);
        lemma_chunk_count_unique(len as int, chunk, k);
        assert(views_of(frames@) =~= frames@.map_values(|f: Vec<u8>| f@));
        assert forall|i: int| 0 <= i < views_of(frames@).len() implies #[trigger] views_of(
            frames@,
        )[i] == payload@.subrange(i * chunk, chunk_end(len as int, chunk, i)) by {
            assert(frames@[i]@ == payload@.subrange(i * chunk, chunk_end(len as int, chunk, i)));
        }
    }
    frames
}

/// Every frame of a chunking is a full chunk except the last, which holds
/// the remainder; together they carry the payload's exact length.
pub proof fn lemma_chunking_frame_sizes(payload: Seq<u8>, chunk: int, frames: Seq<Seq<u8>>)
    requires
        chunk > 0,
        is_chunking(payload, chunk, frames),
    ensures
        forall|i: int| 0 <= i < frames.len() - 1 ==> (#[trigger] frames[i]).len() == chunk,
        frames.len() > 0 ==> frames[frames.len() - 1].len() == payload.len() - (frames.len() - 1)
            * chunk,
        frames.len() == 0 ==> payload.len() == 0,
{
    lemma_chunk_count_bounds(payload.len() as int, chunk);
    let k = frames.len() as int;
    assert forall|i: int| 0 <= i < k - 1 implies (#[trigger] frames[i]).len() == chunk by {
        assert((i + 1) * chunk <= (k - 1) * chunk && (i + 1) * chunk >= 0 && i * chunk >= 0 && i
            * chunk + chunk == (i + 1) * chunk) by (nonlinear_arith)
            requires
                chunk > 0,
                0 <= i < k - 1,
        ;
        assert((k - 1) * chunk < payload.len());
    }
    if k > 0 {
        assert((k - 1) * chunk < payload.len() && k * chunk >= payload.len());
        assert(chunk_end(payload.len() as int, chunk, k - 1) == payload.len());
    }
}

/// Concatenating a chunking's frames gives back the payload, byte for
/// byte.
pub proof fn lemma_chunking_concat(payload: Seq<u8>, chunk: int, frames: Seq<Seq<u8>>)
    requires
        chunk > 0,
        is_chunking(payload, chunk, frames),
    ensures
        frames.flatten() == payload,
    decreases frames.len(),
{
    broadcast use Seq::<_>::lemma_flatten_push;

    lemma_chunk_count_bounds(payload.len() as int, chunk);
    let k = frames.len() as int;
    if k == 0 {
        assert(payload =~= frames.flatten());
    } else {
        let shorter = payload.take((k - 1) * chunk);
        assert(0 <= (k - 1) * chunk <= payload.len()) by (nonlinear_arith)
            requires
                chunk > 0,
                k > 0,
                (k - 1) * chunk < payload.len(),
        ;
        assert(shorter.len() == (k - 1) * chunk);
        assert(is_chunking(shorter, chunk, frames.drop_last())) by {
            if k - 1 > 0 {
                assert((k - 2) * chunk < (k - 1) * chunk) by (nonlinear_arith)
                    requires
                        chunk > 0,
                        k >= 2,
                ;
            } else {
                assert((k - 1) * chunk == 0) by (nonlinear_arith)
                    requires
                        k == 1,
                ;
            }
            lemma_chunk_count_unique(shorter.len() as int, chunk, k - 1);
            assert forall|i: int| 0 <= i < k - 1 implies #[trigger] frames.drop_last()[i]
                == shorter.subrange(i * chunk, chunk_end(shorter.len() as int, chunk, i)) by {
                assert(0 <= i * chunk && (i + 1) * chunk <= (k - 1) * chunk && (i + 1) * chunk == i
                    * chunk + chunk) by (nonlinear_arith)
                    requires
                        chunk > 0,
                        0 <= i < k - 1,
                ;
                assert(chunk_end(shorter.len() as int, chunk, i) == (i + 1) * chunk);
                assert(chunk_end(payload.len() as int, chunk, i) == (i + 1) * chunk);
                assert(shorter.subrange(i * chunk, (i + 1) * chunk) =~= payload.subrange(
                    i * chunk,
                    (i + 1) * chunk,
                ));
            }
        }
        lemma_chunking_concat(shorter, chunk, frames.drop_last());
        assert(frames.drop_last().push(frames.last()) =~= frames);
        assert(chunk_end(payload.len() as int, chunk, k - 1) == payload.len());
        assert(frames.last() == payload.subrange((k - 1) * chunk, payload.len() as int));
        assert(shorter + frames.last() =~= payload);
    }
}

/// One outbound stream's transfer engine: the pending frame queue, owned
/// exclusively by this stream, and the running byte counter. Frames enter
/// in payload order and leave from the front only.
pub struct TransferEngine {
    queue: VecDeque<Vec<u8>>,
    bytes_sent: u64,
    history: Ghost<Seq<Seq<u8>>>,
    sent: Ghost<nat>,
}

impl TransferEngine {
    /// Every frame ever enqueued on this stream, in order.
    pub closed spec fn frames_enqueued(self) -> Seq<Seq<u8>> {
        self.history@
    }

    /// How many of those frames the channel has accepted so far.
    pub closed spec fn frames_sent_count(self) -> nat {
        self.sent@
    }

    /// The frames still waiting, in order.
    pub closed spec fn pending(self) -> Seq<Seq<u8>> {
        views_of(self.queue@)
    }

    /// The frames the channel has accepted, in order.
    pub open spec fn frames_drained(self) -> Seq<Seq<u8>> {
        self.frames_enqueued().take(self.frames_sent_count() as int)
    }

    /// The byte counter: each accepted frame counts one nominal chunk.
    pub closed spec fn nominal_bytes(self) -> u64 {
        self.bytes_sent
    }

    /// The queue holds exactly the enqueued frames not yet accepted, in
    /// order, and the byte counter stands at one nominal chunk per
    /// accepted frame.
    pub closed spec fn wf(self) -> bool {
        &&& self.sent@ + self.queue@.len() == self.history@.len()
        &&& views_of(self.queue@) == self.history@.skip(self.sent@ as int)
        &&& self.bytes_sent as int == self.sent@ * (MAX_CHUNK_SIZE as int)
        &&& self.history@.len() * (MAX_CHUNK_SIZE as int) <= u64::MAX as int
    }

    /// A fresh engine for one stream: nothing pending, nothing counted.
    pub fn new() -> (res: TransferEngine)
        ensures
            res.wf(),
            res.frames_enqueued() == Seq::<Seq<u8>>::empty(),
            res.frames_sent_count() == 0,
            res.nominal_bytes() == 0,
    {
        let res = TransferEngine {
            queue: VecDeque::new(),
            bytes_sent: 0,
            history: Ghost(Seq::empty()),
            sent: Ghost(0),
        };
        proof {
            assert(views_of(res.queue@) =~= res.history@.skip(0));
        }
        res
    }

    /// The byte counter's current value.
    pub fn bytes_sent(&self) -> (res: u64)
        ensures
            res == self.nominal_bytes(),
    {
        self.bytes_sent
    }

    /// How many frames are still waiting.
    pub fn pending_count(&self) -> (res: usize)
        ensures
            res == self.pending().len(),
    {
        self.queue.len()
    }

    /// The frame the next send attempt will carry: always the first
    /// pending one, which is the oldest not yet accepted.
    pub fn next_frame(&self) -> (res: Option<&Vec<u8>>)
        requires
            self.wf(),
        ensures
            match res {
                Some(frame) => self.pending().len() > 0 && frame@ == self.frames_enqueued()[
                    self.frames_sent_count() as int
                ],
                None => self.pending().len() == 0,
            },
    {
        if self.queue.len() == 0 {
            None
        } else {
            proof {
                assert(views_of(self.queue@)[0] == self.queue@[0]@);
            }
            Some(&self.queue[0])
        }
    }

    /// Records that the channel accepted the first pending frame: the
    /// frame leaves the queue and the counter grows by one nominal chunk.
    pub fn mark_sent(&mut self)
        requires
            old(self).wf(),
            old(self).pending().len() > 0,
        ensures
            final(self).wf(),
            final(self).frames_enqueued() == old(self).frames_enqueued(),
            final(self).frames_sent_count() == old(self).frames_sent_count() + 1,
            final(self).pending() == old(self).pending().drop_first(),
            final(self).nominal_bytes() == old(self).nominal_bytes() + MAX_CHUNK_SIZE,
    {
        proof {
            assert(old(self).queue@.len() > 0);
            assert((self.sent@ + 1) * (MAX_CHUNK_SIZE as int) <= self.history@.len() * (
            MAX_CHUNK_SIZE as int)) by (nonlinear_arith)
                requires
                    self.sent@ + 1 <= self.history@.len(),
            ;
            assert((self.sent@ + 1) * (MAX_CHUNK_SIZE as int) == self.sent@ * (MAX_CHUNK_SIZE
                as int) + MAX_CHUNK_SIZE as int) by (nonlinear_arith);
        }
        let popped = self.queue.pop_front();
        self.bytes_sent = self.bytes_sent + MAX_CHUNK_SIZE as u64;
        proof {
            self.sent@ = self.sent@ + 1;
            assert(views_of(self.queue@) =~= self.history@.skip(self.sent@ as int)) by {
                assert(forall|i: int|
                    0 <= i < self.queue@.len() ==> #[trigger] views_of(self.queue@)[i] == views_of(
                        old(self).queue@,
                    )[i + 1]);
            }
            assert(final(self).pending() =~= old(self).pending().drop_first());
        }
    }

    /// Appends one frame to the pending queue.
    fn enqueue_frame(&mut self, frame: Vec<u8>)
        requires
            old(self).wf(),
            (old(self).frames_enqueued().len() + 1) * (MAX_CHUNK_SIZE as int) <= u64::MAX as int,
        ensures
            final(self).wf(),
            final(self).frames_enqueued() == old(self).frames_enqueued().push(frame@),
            final(self).frames_sent_count() == old(self).frames_sent_count(),
            final(self).nominal_bytes() == old(self).nominal_bytes(),
    {
        let ghost view = frame@;
        self.queue.push_back(frame);
        proof {
            self.history@ = self.history@.push(view);
            assert(views_of(self.queue@) =~= self.history@.skip(self.sent@ as int)) by {
                assert(forall|i: int|
                    0 <= i < old(self).queue@.len() ==> #[trigger] views_of(self.queue@)[i]
                        == views_of(old(self).queue@)[i]);
                assert(views_of(self.queue@)[self.queue@.len() - 1] == view);
            }
        }
    }

    /// Drains the queue: repeatedly offers the first pending frame to the
    /// channel and counts it once accepted. Stops when the queue is empty
    /// or the channel refuses a frame; a refused frame stays first in
    /// line, so the next drain retries exactly it.
    pub fn send_till_buffer_full(&mut self, channel: &web_sys::RtcDataChannel)
        requires
            old(self).wf(),
        ensures
            final(self).wf(),
            final(self).frames_enqueued() == old(self).frames_enqueued(),
            old(self).frames_sent_count() <= final(self).frames_sent_count()
                <= final(self).frames_enqueued().len(),
    {
        let mut blocked = false;
        while !blocked
            invariant
                self.wf(),
                self.frames_enqueued() == old(self).frames_enqueued(),
                old(self).frames_sent_count() <= self.frames_sent_count(),
            decreases self.pending().len() + if blocked {
                0int
            } else {
                1int
            },
        {
            let mut accepted = false;
            match self.next_frame() {
                None => {
                    blocked = true;
                },
                Some(frame) => {
                    match channel_send(channel, frame) {
                        Ok(_) => {
                            accepted = true;
                        },
                        Err(_) => {
                            blocked = true;
                        },
                    }
                },
            }
            if accepted {
                self.mark_sent();
            }
        }
    }

    /// Queues one payload's frames, cut at the fixed chunk size, in
    /// order, without touching the channel: the caller drives the drain.
    pub fn enqueue_payload(&mut self, payload: &[u8])
        requires
            old(self).wf(),
            payload@.len() + MAX_CHUNK_SIZE <= usize::MAX,
            (old(self).frames_enqueued().len() + spec_chunk_count(
                payload@.len() as int,
                MAX_CHUNK_SIZE as int,
            )) * (MAX_CHUNK_SIZE as int) <= u64::MAX as int,
        ensures
            final(self).wf(),
            final(self).frames_sent_count() == old(self).frames_sent_count(),
            final(self).nominal_bytes() == old(self).nominal_bytes(),
            final(self).frames_enqueued().len() == old(self).frames_enqueued().len()
                + spec_chunk_count(payload@.len() as int, MAX_CHUNK_SIZE as int),
            final(self).frames_enqueued().take(old(self).frames_enqueued().len() as int) == old(
                self,
            ).frames_enqueued(),
            is_chunking(
                payload@,
                MAX_CHUNK_SIZE as int,
                final(self).frames_enqueued().skip(old(self).frames_enqueued().len() as int),
            ),
    {
        let mut frames = chunk_payload(payload, MAX_CHUNK_SIZE as usize);
        let ghost all = views_of(frames@);
        let ghost base = self.frames_enqueued();
        let ghost total = all.len();
        let mut i: usize = 0;
        let n = frames.len();
        while i < n
            invariant
                n == frames@.len(),
                i <= n,
                views_of(frames@) == all,
                total == all.len(),
                self.wf(),
                self.frames_sent_count() == old(self).frames_sent_count(),
                self.nominal_bytes() == old(self).nominal_bytes(),
                self.frames_enqueued() == base + all.take(i as int),
                base == old(self).frames_enqueued(),
                (base.len() + total) * (MAX_CHUNK_SIZE as int) <= u64::MAX as int,
            decreases n - i,
        {
            proof {
                assert((base.len() + i + 1) * (MAX_CHUNK_SIZE as int) <= (base.len() + total) * (
                MAX_CHUNK_SIZE as int)) by (nonlinear_arith)
                    requires
                        base.len() + i + 1 <= base.len() + total,
                        MAX_CHUNK_SIZE as int > 0,
                ;
            }
            let frame = frames[i].clone();
            proof {
                assert(frame@ == all[i as int]);
            }
            self.enqueue_frame(frame);
            proof {
                assert(base + all.take(i as int) + seq![all[i as int]] =~= base + all.take(
                    i as int + 1,
                ));
            }
            i = i + 1;
        }
        proof {
            assert(all.take(total as int) =~= all);
            assert(final(self).frames_enqueued().take(base.len() as int) =~= base);
            assert(final(self).frames_enqueued().skip(base.len() as int) =~= all);
        }
    }

    /// Sends one payload over the channel: cuts it into frames of at most
    /// the fixed chunk size, queues them in order, and drains the queue
    /// as far as the channel allows after each frame. The caller must
    /// have arranged the channel's low-water signal to call
    /// [`Self::send_till_buffer_full`] so that draining resumes.
    pub fn send(&mut self, channel: &web_sys::RtcDataChannel, payload: &[u8])
        requires
            old(self).wf(),
            payload@.len() + MAX_CHUNK_SIZE <= usize::MAX,
            (old(self).frames_enqueued().len() + spec_chunk_count(
                payload@.len() as int,
                MAX_CHUNK_SIZE as int,
            )) * (MAX_CHUNK_SIZE as int) <= u64::MAX as int,
        ensures
            final(self).wf(),
            old(self).frames_sent_count() <= final(self).frames_sent_count(),
            final(self).frames_enqueued().len() == old(self).frames_enqueued().len()
                + spec_chunk_count(payload@.len() as int, MAX_CHUNK_SIZE as int),
            final(self).frames_enqueued().take(old(self).frames_enqueued().len() as int) == old(
                self,
            ).frames_enqueued(),
            is_chunking(
                payload@,
                MAX_CHUNK_SIZE as int,
                final(self).frames_enqueued().skip(old(self).frames_enqueued().len() as int),
            ),
    {
        let mut frames = chunk_payload(payload, MAX_CHUNK_SIZE as usize);
        let ghost all = views_of(frames@);
        let ghost base = self.frames_enqueued();
        let ghost total = all.len();
        let mut i: usize = 0;
        let n = frames.len();
        while i < n
            invariant
                n == frames@.len(),
                i <= n,
                views_of(frames@) == all,
                total == all.len(),
                self.wf(),
                old(self).frames_sent_count() <= self.frames_sent_count(),
                self.frames_enqueued() == base + all.take(i as int),
                base == old(self).frames_enqueued(),
                (base.len() + total) * (MAX_CHUNK_SIZE as int) <= u64::MAX as int,
            decreases n - i,
        {
            proof {
                assert((base.len() + i + 1) * (MAX_CHUNK_SIZE as int) <= (base.len() + total) * (
                MAX_CHUNK_SIZE as int)) by (nonlinear_arith)
                    requires
                        base.len() + i + 1 <= base.len() + total,
                        MAX_CHUNK_SIZE as int > 0,
                ;
            }
            let frame = frames[i].clone();
            proof {
                assert(frame@ == all[i as int]);
            }
            self.enqueue_frame(frame);
            self.send_till_buffer_full(channel);
            proof {
                assert(base + all.take(i as int) + seq![all[i as int]] =~= base + all.take(
                    i as int + 1,
                ));
            }
            i = i + 1;
        }
        proof {
            assert(all.take(total as int) =~= all);
            assert(final(self).frames_enqueued().take(base.len() as int) =~= base);
            assert(final(self).frames_enqueued().skip(base.len() as int) =~= all);
        }
    }
}

/// Frames are neither lost, duplicated, nor reordered: at every point the
/// frames the channel has accepted, followed by the frames still pending,
/// are exactly the frames enqueued, in enqueue order.
pub proof fn lemma_no_loss_no_duplication(engine: TransferEngine)
    requires
        engine.wf(),
    ensures
        engine.frames_drained() + engine.pending() == engine.frames_enqueued(),
        engine.frames_drained().len() == engine.frames_sent_count(),
        engine.nominal_bytes() as int == engine.frames_sent_count() * (MAX_CHUNK_SIZE as int),
{
    assert(engine.frames_drained() + engine.pending() =~= engine.frames_enqueued());
}

/// Once the queue of a stream that carried one whole payload is empty,
/// the channel has accepted one frame per chunk of the payload, the byte
/// counter stands at the frame count times the nominal chunk size, and
/// the accepted frames concatenate back to the payload.
pub proof fn lemma_complete_drain(engine: TransferEngine, payload: Seq<u8>)
    requires
        engine.wf(),
        engine.pending().len() == 0,
        is_chunking(payload, MAX_CHUNK_SIZE as int, engine.frames_enqueued()),
    ensures
        engine.frames_sent_count() == spec_chunk_count(payload.len() as int, MAX_CHUNK_SIZE as int),
        engine.nominal_bytes() == engine.frames_sent_count() * (MAX_CHUNK_SIZE as int),
        engine.frames_drained().flatten() == payload,
{
    lemma_no_loss_no_duplication(engine);
    assert(engine.frames_drained() =~= engine.frames_enqueued());
    lemma_chunking_concat(payload, MAX_CHUNK_SIZE as int, engine.frames_enqueued());
}

} // verus!
