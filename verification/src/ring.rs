//! Peer-observable single-producer/single-consumer ring buffer.
//!
//! The queue state is a header (capacity, channels, monotonic write and read
//! indices, last push timestamp) beside a data region of interleaved stereo
//! frames. Indices never wrap; the physical slot of a queued frame is its
//! index modulo the capacity, so a peer that reads the header can reconstruct
//! the queue without calling into this crate.

use vstd::arithmetic::div_mod::lemma_fundamental_div_mod;
use vstd::prelude::*;

use crate::sample::{frames_of, samples_of, Frame};
use crate::time::monotonic_timestamp_ns;

verus! {

/// Largest accepted ring capacity in frames.
pub const MAX_CAPACITY_FRAMES: usize = 0x40000000;

/// Header stored at the front of a shared buffer so that peer processes can
/// inspect queue state without invoking this crate's code.
pub struct RingBufferHeader {
    /// Capacity of the data region in frames.
    pub capacity_frames: u32,
    /// Number of interleaved channels per frame.
    pub channels: u32,
    /// Reserved for layout padding; always zero.
    pub reserved: u32,
    /// Monotonic count of frames ever written.
    pub write_index: u64,
    /// Monotonic count of frames ever consumed.
    pub read_index: u64,
    /// Timestamp attached to the most recent successful push.
    pub last_timestamp_ns: u64,
}

impl RingBufferHeader {
    /// A fresh header for an empty queue.
    pub fn new(capacity_frames: usize, channels: usize) -> (h: RingBufferHeader)
        requires
            capacity_frames <= u32::MAX as usize,
            channels <= u32::MAX as usize,
        ensures
            h.capacity_frames == capacity_frames,
            h.channels == channels,
            h.reserved == 0,
            h.write_index == 0,
            h.read_index == 0,
            h.last_timestamp_ns == 0,
    {
        RingBufferHeader {
            capacity_frames: capacity_frames as u32,
            channels: channels as u32,
            reserved: 0,
            write_index: 0,
            read_index: 0,
            last_timestamp_ns: 0,
        }
    }

    /// Capacity of the data region in frames.
    pub fn capacity_frames(&self) -> (r: usize)
        ensures
            r == self.capacity_frames,
    {
        self.capacity_frames as usize
    }

    /// Number of interleaved channels per frame.
    pub fn channels(&self) -> (r: usize)
        ensures
            r == self.channels,
    {
        self.channels as usize
    }
}

/// Ring buffer of interleaved stereo frames with monotonic indices.
pub struct SharedRingBuffer {
    /// Peer-visible queue state.
    pub header: RingBufferHeader,
    /// Interleaved frame storage; the slot of index `i` is `i % capacity`.
    pub data: Vec<Frame>,
}

/// Frames accepted by a push: as many of the offered frames as fit.
pub open spec fn ring_accept(avail: int, cap: int, offered: int) -> int {
    if offered <= cap - avail {
        offered
    } else {
        cap - avail
    }
}

impl SharedRingBuffer {
    /// Capacity of the ring in frames.
    pub open spec fn capacity(&self) -> int {
        self.header.capacity_frames as int
    }

    /// The monotonic write index.
    pub open spec fn write_index(&self) -> int {
        self.header.write_index as int
    }

    /// The monotonic read index.
    pub open spec fn read_index(&self) -> int {
        self.header.read_index as int
    }

    /// Structural invariant: stereo layout, indices in order, queue within
    /// capacity.
    pub open spec fn wf(&self) -> bool {
        &&& self.header.channels == 2
        &&& 1 <= self.capacity() <= MAX_CAPACITY_FRAMES as int
        &&& self.data@.len() == self.capacity()
        &&& self.read_index() <= self.write_index()
        &&& self.write_index() - self.read_index() <= self.capacity()
    }

    /// The queued frames, oldest first.
    pub open spec fn contents(&self) -> Seq<Frame> {
        Seq::new(
            (self.write_index() - self.read_index()) as nat,
            |i: int| self.data@[(self.read_index() + i) % self.capacity()],
        )
    }

    /// Timestamp attached to the most recent successful push.
    pub open spec fn spec_last_timestamp_ns(&self) -> u64 {
        self.header.last_timestamp_ns
    }

    /// Create a ring with local storage.
    pub fn new_local(capacity_frames: usize, channels: usize) -> (r: SharedRingBuffer)
        requires
            1 <= capacity_frames <= MAX_CAPACITY_FRAMES,
            channels == 2,
        ensures
            r.wf(),
            r.capacity() == capacity_frames,
            r.contents() == Seq::<Frame>::empty(),
            r.write_index() == 0,
            r.read_index() == 0,
            r.spec_last_timestamp_ns() == 0,
    {
        let mut data: Vec<Frame> = Vec::new();
        while data.len() < capacity_frames
            invariant
                data@.len() <= capacity_frames,
            decreases capacity_frames - data@.len(),
        {
            data.push(Frame::silence());
        }
        let r = SharedRingBuffer { header: RingBufferHeader::new(capacity_frames, channels), data };
        proof {
            assert(r.contents() =~= Seq::<Frame>::empty());
        }
        r
    }

    /// Total capacity in frames.
    pub fn capacity_frames(&self) -> (r: usize)
        ensures
            r == self.capacity(),
    {
        self.header.capacity_frames()
    }

    /// Total capacity in samples (frames times channels).
    pub fn capacity_samples(&self) -> (r: usize)
        requires
            self.wf(),
        ensures
            r == 2 * self.capacity(),
    {
        self.header.capacity_frames() * 2
    }

    /// Frames ready for reading; never more than the capacity.
    pub fn available_read(&self) -> (r: usize)
        requires
            self.wf(),
        ensures
            r == self.contents().len(),
            r <= self.capacity(),
    {
        (self.header.write_index - self.header.read_index) as usize
    }

    /// Timestamp of the last write.
    pub fn last_timestamp_ns(&self) -> (r: u64)
        ensures
            r == self.spec_last_timestamp_ns(),
    {
        self.header.last_timestamp_ns
    }

    /// Push interleaved samples into the ring, returning frames written.
    ///
    /// Writes as many whole frames as fit; a full ring accepts nothing and is
    /// left unchanged. On success the last-push timestamp becomes the given
    /// timestamp, or a host clock reading when none is given.
    pub fn push(&mut self, samples: &Vec<i32>, timestamp_ns: Option<u64>) -> (written: usize)
        requires
            old(self).wf(),
        ensures
            final(self).wf(),
            final(self).capacity() == old(self).capacity(),
            final(self).read_index() == old(self).read_index(),
            written == ({
                let fit = ring_accept(
                    old(self).contents().len() as int,
                    old(self).capacity(),
                    samples@.len() as int / 2,
                );
                if samples@.len() / 2 == 0 || fit == 0 || old(self).write_index() + fit
                    > u64::MAX as int {
                    0int
                } else {
                    fit
                }
            }),
            final(self).write_index() == old(self).write_index() + written,
            final(self).contents() == old(self).contents() + frames_of(samples@).take(
                written as int,
            ),
            written == 0 ==> *final(self) == *old(self),
            written > 0 && timestamp_ns.is_some() ==> final(self).spec_last_timestamp_ns()
                == timestamp_ns.unwrap(),
    {
        let frames_count: usize = samples.len() / 2;
        if frames_count == 0 {
            proof {
                assert(self.contents() =~= old(self).contents() + frames_of(samples@).take(0));
            }
            return 0;
        }
        let capacity: u64 = self.header.capacity_frames as u64;
        let write_index: u64 = self.header.write_index;
        let read_index: u64 = self.header.read_index;
        let used: u64 = write_index - read_index;
        let free: u64 = capacity - used;
        if free == 0 {
            proof {
                assert(self.contents() =~= old(self).contents() + frames_of(samples@).take(0));
            }
            return 0;
        }
        let frames_to_write: usize = if frames_count < free as usize {
            frames_count
        } else {
            free as usize
        };
        if u64::MAX - write_index < frames_to_write as u64 {
            proof {
                assert(self.contents() =~= old(self).contents() + frames_of(samples@).take(0));
            }
            return 0;
        }

        let ghost cap_int: int = capacity as int;
        let ghost old_data: Seq<Frame> = self.data@;
        let mut j: usize = 0;
        while j < frames_to_write
            invariant
                0 <= j <= frames_to_write,
                frames_to_write <= frames_count,
                frames_count == samples@.len() / 2,
                self.header == old(self).header,
                capacity == self.header.capacity_frames,
                write_index == self.header.write_index,
                read_index == self.header.read_index,
                used == write_index - read_index,
                frames_to_write <= capacity - used,
                write_index as int + frames_to_write as int <= u64::MAX as int,
                old(self).wf(),
                self.data@.len() == cap_int,
                cap_int == capacity as int,
                cap_int == old(self).capacity(),
                old_data.len() == cap_int,
                forall|i: int|
                    0 <= i < used as int ==> self.data@[#[trigger] ((read_index as int + i)
                        % cap_int)] == old_data[(read_index as int + i) % cap_int],
                forall|i: int|
                    0 <= i < j as int ==> self.data@[#[trigger] ((write_index as int + i)
                        % cap_int)] == frames_of(samples@)[i],
            decreases frames_to_write - j,
        {
            proof {
                assert(2 * j + 1 < samples@.len()) by {
                    lemma_fundamental_div_mod(samples@.len() as int, 2);
                };
            }
            let frame = Frame { left: samples[2 * j], right: samples[2 * j + 1] };
            let pos: usize = ((write_index + j as u64) % capacity) as usize;
            proof {
                let wpos = (write_index as int + j as int) % cap_int;
                assert(0 <= wpos < cap_int) by {
                    lemma_fundamental_div_mod(write_index as int + j as int, cap_int);
                };
                assert forall|i: int| 0 <= i < used as int implies #[trigger] ((read_index
                    as int + i) % cap_int) != wpos by {
                    lemma_distinct_residues(
                        read_index as int,
                        i,
                        used as int + j as int,
                        cap_int,
                    );
                };
                assert forall|i: int| 0 <= i < j as int implies #[trigger] ((write_index as int
                    + i) % cap_int) != wpos by {
                    lemma_distinct_residues(
                        read_index as int,
                        used as int + i,
                        used as int + j as int,
                        cap_int,
                    );
                };
            }
            self.data.set(pos, frame);
            j = j + 1;
        }

        let new_write: u64 = write_index + frames_to_write as u64;
        self.header.write_index = new_write;
        let timestamp: u64 = match timestamp_ns {
            Option::Some(t) => t,
            Option::None => monotonic_timestamp_ns(),
        };
        self.header.last_timestamp_ns = timestamp;
        proof {
            let cs = self.contents();
            let expected = old(self).contents() + frames_of(samples@).take(frames_to_write as int);
            assert forall|i: int| 0 <= i < cs.len() implies cs[i] == expected[i] by {
                if i < used as int {
                    assert(cs[i] == self.data@[(read_index as int + i) % cap_int]);
                } else {
                    assert(read_index as int + i == write_index as int + (i - used as int));
                }
            };
            assert(cs =~= expected);
        }
        frames_to_write
    }

    /// Pop frames into the provided interleaved buffer, returning frames read.
    ///
    /// Fills a prefix of `out` with the oldest queued frames; the rest of
    /// `out` is left as it was.
    pub fn pop(&mut self, out: &mut Vec<i32>) -> (taken: usize)
        requires
            old(self).wf(),
        ensures
            final(self).wf(),
            final(self).capacity() == old(self).capacity(),
            final(self).write_index() == old(self).write_index(),
            final(self).spec_last_timestamp_ns() == old(self).spec_last_timestamp_ns(),
            taken == ({
                let requested = old(out)@.len() as int / 2;
                let avail = old(self).contents().len() as int;
                if requested <= avail {
                    requested
                } else {
                    avail
                }
            }),
            final(self).contents() == old(self).contents().skip(taken as int),
            final(out)@ == samples_of(old(self).contents().take(taken as int)) + old(out)@.skip(
                2 * taken as int,
            ),
            taken == 0 ==> *final(self) == *old(self),
    {
        let requested: usize = out.len() / 2;
        if requested == 0 {
            proof {
                assert(self.contents() =~= old(self).contents().skip(0));
                assert(out@ =~= samples_of(old(self).contents().take(0)) + old(out)@.skip(0));
            }
            return 0;
        }
        let capacity: u64 = self.header.capacity_frames as u64;
        let write_index: u64 = self.header.write_index;
        let read_index: u64 = self.header.read_index;
        let available: u64 = write_index - read_index;
        if available == 0 {
            proof {
                assert(self.contents() =~= old(self).contents().skip(0));
                assert(out@ =~= samples_of(old(self).contents().take(0)) + old(out)@.skip(0));
            }
            return 0;
        }
        let frames_to_read: usize = if requested < available as usize {
            requested
        } else {
            available as usize
        };

        let ghost cap_int: int = capacity as int;
        let ghost old_out: Seq<i32> = out@;
        let mut j: usize = 0;
        while j < frames_to_read
            invariant
                0 <= j <= frames_to_read,
                frames_to_read <= requested,
                requested == old_out.len() / 2,
                *self == *old(self),
                old(self).wf(),
                capacity == self.header.capacity_frames,
                write_index == self.header.write_index,
                read_index == self.header.read_index,
                available == write_index - read_index,
                frames_to_read <= available,
                cap_int == capacity as int,
                out@.len() == old_out.len(),
                forall|k: int| 2 * j as int <= k < old_out.len() ==> out@[k] == old_out[k],
                forall|i: int|
                    0 <= i < j as int ==> out@[2 * i] == old(self).contents()[i].left && out@[2 * i
                        + 1] == old(self).contents()[i].right,
            decreases frames_to_read - j,
        {
            proof {
                assert(2 * j + 1 < old_out.len()) by {
                    lemma_fundamental_div_mod(old_out.len() as int, 2);
                };
                let rpos = (read_index as int + j as int) % cap_int;
                assert(0 <= rpos < cap_int) by {
                    lemma_fundamental_div_mod(read_index as int + j as int, cap_int);
                };
            }
            let pos: usize = ((read_index + j as u64) % capacity) as usize;
            let frame = self.data[pos];
            proof {
                assert(frame == old(self).contents()[j as int]);
            }
            out.set(2 * j, frame.left);
            out.set(2 * j + 1, frame.right);
            j = j + 1;
        }

        self.header.read_index = read_index + frames_to_read as u64;
        proof {
            let cs = self.contents();
            let expected = old(self).contents().skip(frames_to_read as int);
            assert forall|i: int| 0 <= i < cs.len() implies cs[i] == expected[i] by {
                assert(self.read_index() + i == old(self).read_index() + (frames_to_read as int
                    + i));
            };
            assert(cs =~= expected);
            let outexp = samples_of(old(self).contents().take(frames_to_read as int)) + old(
                out,
            )@.skip(2 * frames_to_read as int);
            assert forall|k: int| 0 <= k < out@.len() implies out@[k] == outexp[k] by {
                if k < 2 * frames_to_read as int {
                    lemma_fundamental_div_mod(k, 2);
                }
            };
            assert(out@ =~= outexp);
        }
        frames_to_read
    }

    /// Pop up to `max_frames` frames into `out[start..]`, returning frames
    /// read. Slots outside the written range keep their old values.
    pub fn pop_frames(&mut self, out: &mut Vec<Frame>, start: usize, max_frames: usize) -> (taken:
        usize)
        requires
            old(self).wf(),
            start + max_frames <= old(out)@.len(),
        ensures
            final(self).wf(),
            final(self).capacity() == old(self).capacity(),
            final(self).write_index() == old(self).write_index(),
            final(self).spec_last_timestamp_ns() == old(self).spec_last_timestamp_ns(),
            taken == ({
                let avail = old(self).contents().len() as int;
                if max_frames as int <= avail {
                    max_frames as int
                } else {
                    avail
                }
            }),
            final(self).contents() == old(self).contents().skip(taken as int),
            final(out)@ == old(out)@.take(start as int) + old(self).contents().take(taken as int)
                + old(out)@.skip(start as int + taken as int),
    {
        let capacity: u64 = self.header.capacity_frames as u64;
        let write_index: u64 = self.header.write_index;
        let read_index: u64 = self.header.read_index;
        let available: u64 = write_index - read_index;
        let frames_to_read: usize = if max_frames < available as usize {
            max_frames
        } else {
            available as usize
        };

        let ghost cap_int: int = capacity as int;
        let ghost old_out: Seq<Frame> = out@;
        let out_len: usize = out.len();
        let mut j: usize = 0;
        while j < frames_to_read
            invariant
                0 <= j <= frames_to_read,
                frames_to_read <= max_frames,
                start + max_frames <= old_out.len(),
                old_out.len() == out_len,
                *self == *old(self),
                old(self).wf(),
                capacity == self.header.capacity_frames,
                write_index == self.header.write_index,
                read_index == self.header.read_index,
                available == write_index - read_index,
                frames_to_read <= available,
                cap_int == capacity as int,
                out@.len() == old_out.len(),
                forall|k: int|
                    0 <= k < old_out.len() && !(start as int <= k < start as int + j as int)
                        ==> out@[k] == old_out[k],
                forall|i: int|
                    0 <= i < j as int ==> out@[start as int + i] == old(self).contents()[i],
            decreases frames_to_read - j,
        {
            proof {
                let rpos = (read_index as int + j as int) % cap_int;
                assert(0 <= rpos < cap_int) by {
                    lemma_fundamental_div_mod(read_index as int + j as int, cap_int);
                };
            }
            let pos: usize = ((read_index + j as u64) % capacity) as usize;
            let frame = self.data[pos];
            proof {
                assert(frame == old(self).contents()[j as int]);
            }
            out.set(start + j, frame);
            j = j + 1;
        }

        self.header.read_index = read_index + frames_to_read as u64;
        proof {
            let cs = self.contents();
            let expected = old(self).contents().skip(frames_to_read as int);
            assert forall|i: int| 0 <= i < cs.len() implies cs[i] == expected[i] by {
                assert(self.read_index() + i == old(self).read_index() + (frames_to_read as int
                    + i));
            };
            assert(cs =~= expected);
            assert(out@ =~= old_out.take(start as int) + old(self).contents().take(
                frames_to_read as int,
            ) + old_out.skip(start as int + frames_to_read as int));
        }
        frames_to_read
    }

    /// Push with the drop-oldest producer policy: write what fits, and if
    /// frames were lost, discard that many from the head of the queue and
    /// write the remainder. During overrun this keeps the most recent frames.
    pub fn push_drop_oldest(&mut self, samples: &Vec<i32>, timestamp_ns: Option<u64>) -> (written:
        usize)
        requires
            old(self).wf(),
        ensures
            final(self).wf(),
            final(self).capacity() == old(self).capacity(),
            old(self).write_index() + samples@.len() as int <= u64::MAX as int
                ==> final(self).contents() == spec_push_drop_oldest(
                old(self).contents(),
                old(self).capacity(),
                frames_of(samples@),
            ),
            old(self).write_index() + samples@.len() as int <= u64::MAX as int ==> written as int
                == spec_push_drop_oldest_count(
                old(self).contents(),
                old(self).capacity(),
                frames_of(samples@),
            ),
            old(self).write_index() + samples@.len() as int > u64::MAX as int ==> *final(self)
                == *old(self) && written == 0,
            written <= samples@.len() / 2,
    {
        let samples_len: usize = samples.len();
        if u64::MAX - self.header.write_index < samples_len as u64 {
            return 0;
        }
        let frames_count: usize = samples.len() / 2;
        let written = self.push(samples, timestamp_ns);
        proof {
            lemma_fundamental_div_mod(samples@.len() as int, 2);
        }
        if written >= frames_count {
            return written;
        }
        let lost: usize = frames_count - written;
        self.discard(lost);
        let mut rest: Vec<i32> = Vec::new();
        let mut k: usize = 2 * written;
        while k < 2 * frames_count
            invariant
                2 * written <= k <= 2 * frames_count,
                2 * frames_count <= samples@.len(),
                samples@.len() <= usize::MAX as int,
                rest@ == samples@.subrange(2 * written as int, k as int),
            decreases 2 * frames_count - k,
        {
            rest.push(samples[k]);
            proof {
                assert(rest@ =~= samples@.subrange(2 * written as int, k as int + 1));
            }
            k = k + 1;
        }
        proof {
            let f = frames_of(samples@);
            let fr = frames_of(rest@);
            assert(rest@.len() == 2 * (frames_count - written));
            assert forall|i: int| 0 <= i < fr.len() implies fr[i] == f.skip(written as int)[i] by {
                assert(rest@[2 * i] == samples@[2 * written as int + 2 * i]);
                assert(rest@[2 * i + 1] == samples@[2 * written as int + 2 * i + 1]);
            };
            assert(fr =~= f.skip(written as int));
        }
        let w2 = self.push(&rest, timestamp_ns);
        proof {
            let f = frames_of(samples@);
            let expected = spec_push_drop_oldest(
                old(self).contents(),
                old(self).capacity(),
                f,
            );
            assert(self.contents() =~= expected);
        }
        written + w2
    }

    /// Drop frames without copying, returning the number discarded.
    pub fn discard(&mut self, frames: usize) -> (dropped: usize)
        requires
            old(self).wf(),
        ensures
            final(self).wf(),
            final(self).capacity() == old(self).capacity(),
            final(self).write_index() == old(self).write_index(),
            final(self).spec_last_timestamp_ns() == old(self).spec_last_timestamp_ns(),
            dropped == ({
                let avail = old(self).contents().len() as int;
                if frames as int <= avail {
                    frames as int
                } else {
                    avail
                }
            }),
            final(self).contents() == old(self).contents().skip(dropped as int),
    {
        let write_index: u64 = self.header.write_index;
        let read_index: u64 = self.header.read_index;
        let available: u64 = write_index - read_index;
        if available == 0 {
            proof {
                assert(self.contents() =~= old(self).contents().skip(0));
            }
            return 0;
        }
        let frames_to_drop: usize = if frames < available as usize {
            frames
        } else {
            available as usize
        };
        self.header.read_index = read_index + frames_to_drop as u64;
        proof {
            let cs = self.contents();
            let expected = old(self).contents().skip(frames_to_drop as int);
            assert forall|i: int| 0 <= i < cs.len() implies cs[i] == expected[i] by {
                assert(self.read_index() + i == old(self).read_index() + (frames_to_drop as int
                    + i));
            };
            assert(cs =~= expected);
        }
        frames_to_drop
    }
}

/// Byte length of the peer-visible ring header: the fields padded to a
/// 64-byte boundary so that peers observe cache-line-isolated indices.
pub const HEADER_BYTES: usize = 64;

/// Little-endian byte `i` of a value.
pub open spec fn le_byte(v: int, i: int) -> u8
    decreases i,
{
    if i <= 0 {
        (v % 256) as u8
    } else {
        le_byte(v / 256, i - 1)
    }
}

/// Encode the peer-visible header layout: capacity, channels and the
/// reserved word as little-endian 32-bit fields, then (from byte 16) the
/// write index, read index and last push timestamp as little-endian 64-bit
/// fields, zero-padded to the 64-byte header size.
pub fn header_to_bytes(h: &RingBufferHeader) -> (b: Vec<u8>)
    ensures
        b@.len() == HEADER_BYTES,
        forall|i: int| 0 <= i < 4 ==> b@[i] == le_byte(h.capacity_frames as int, i),
        forall|i: int| 0 <= i < 4 ==> b@[4 + i] == le_byte(h.channels as int, i),
        forall|i: int| 0 <= i < 4 ==> b@[8 + i] == le_byte(h.reserved as int, i),
        forall|i: int| 12 <= i < 16 ==> b@[i] == 0u8,
        forall|i: int| 0 <= i < 8 ==> b@[16 + i] == le_byte(h.write_index as int, i),
        forall|i: int| 0 <= i < 8 ==> b@[24 + i] == le_byte(h.read_index as int, i),
        forall|i: int| 0 <= i < 8 ==> b@[32 + i] == le_byte(h.last_timestamp_ns as int, i),
        forall|i: int| 40 <= i < HEADER_BYTES as int ==> b@[i] == 0u8,
{
    let mut b: Vec<u8> = Vec::new();
    append_le_u64(&mut b, h.capacity_frames as u64, 4);
    append_le_u64(&mut b, h.channels as u64, 4);
    append_le_u64(&mut b, h.reserved as u64, 4);
    append_le_u64(&mut b, 0, 4);
    append_le_u64(&mut b, h.write_index, 8);
    append_le_u64(&mut b, h.read_index, 8);
    append_le_u64(&mut b, h.last_timestamp_ns, 8);
    append_le_u64(&mut b, 0, 8);
    append_le_u64(&mut b, 0, 8);
    append_le_u64(&mut b, 0, 8);
    proof {
        assert forall|i: int| 12 <= i < 16 implies b@[i] == 0u8 by {
            assert(b@[12 + (i - 12)] == le_byte(0, i - 12));
            lemma_le_byte_zero(i - 12);
        };
        assert forall|i: int| 40 <= i < HEADER_BYTES as int implies b@[i] == 0u8 by {
            if i < 48 {
                assert(b@[40 + (i - 40)] == le_byte(0, i - 40));
                lemma_le_byte_zero(i - 40);
            } else if i < 56 {
                assert(b@[48 + (i - 48)] == le_byte(0, i - 48));
                lemma_le_byte_zero(i - 48);
            } else {
                assert(b@[56 + (i - 56)] == le_byte(0, i - 56));
                lemma_le_byte_zero(i - 56);
            }
        };
    }
    b
}

/// Every little-endian byte of zero is zero.
proof fn lemma_le_byte_zero(i: int)
    requires
        i >= 0,
    ensures
        le_byte(0, i) == 0u8,
    decreases i,
{
    if i > 0 {
        lemma_le_byte_zero(i - 1);
    }
}

/// Append the `width` low little-endian bytes of a value.
fn append_le_u64(b: &mut Vec<u8>, v: u64, width: usize)
    ensures
        final(b)@.len() == old(b)@.len() + width,
        forall|i: int| 0 <= i < old(b)@.len() ==> final(b)@[i] == old(b)@[i],
        forall|i: int|
            0 <= i < width as int ==> final(b)@[old(b)@.len() + i] == le_byte(v as int, i),
{
    let mut rest: u64 = v;
    let mut k: usize = 0;
    while k < width
        invariant
            0 <= k <= width,
            b@.len() == old(b)@.len() + k,
            forall|i: int| 0 <= i < old(b)@.len() ==> b@[i] == old(b)@[i],
            forall|i: int| 0 <= i < k as int ==> b@[old(b)@.len() + i] == le_byte(v as int, i),
            rest as int == shifted_down(v as int, k as int),
        decreases width - k,
    {
        proof {
            lemma_le_byte_step(v as int, k as int);
        }
        b.push((rest % 256) as u8);
        rest = rest / 256;
        k = k + 1;
    }
}

/// A value with its `i` low little-endian bytes removed.
pub open spec fn shifted_down(v: int, i: int) -> int
    decreases i,
{
    if i <= 0 {
        v
    } else {
        shifted_down(v, i - 1) / 256
    }
}

/// The next little-endian byte is the low byte of the shifted value.
proof fn lemma_le_byte_step(v: int, k: int)
    requires
        k >= 0,
    ensures
        le_byte(v, k) == (shifted_down(v, k) % 256) as u8,
    decreases k,
{
    if k > 0 {
        lemma_le_byte_step(v / 256, k - 1);
        lemma_shift_commute(v, k);
    }
}

/// Shifting commutes with removing the low byte first.
proof fn lemma_shift_commute(v: int, k: int)
    requires
        k >= 1,
    ensures
        shifted_down(v / 256, k - 1) == shifted_down(v, k),
    decreases k,
{
    if k == 1 {
        assert(shifted_down(v, 0) == v);
        assert(shifted_down(v / 256, 0) == v / 256);
        assert(shifted_down(v, 1) == v / 256);
    } else {
        lemma_shift_commute(v, k - 1);
        assert(shifted_down(v / 256, k - 1) == shifted_down(v / 256, k - 2) / 256);
        assert(shifted_down(v, k) == shifted_down(v, k - 1) / 256);
    }
}

/// Largest value a `n`-byte little-endian field can hold.
pub open spec fn bytes_max(n: int) -> int
    decreases n,
{
    if n <= 0 {
        0
    } else {
        256 * bytes_max(n - 1) + 255
    }
}

/// The field bound is never negative.
proof fn lemma_bytes_max_nonneg(n: int)
    ensures
        bytes_max(n) >= 0,
    decreases n,
{
    if n > 0 {
        lemma_bytes_max_nonneg(n - 1);
    }
}

/// The field bound grows with the width.
proof fn lemma_bytes_max_mono(n1: int, n2: int)
    requires
        n1 <= n2,
    ensures
        bytes_max(n1) <= bytes_max(n2),
    decreases n2,
{
    if n1 < n2 && n2 > 0 {
        lemma_bytes_max_mono(n1, n2 - 1);
        lemma_bytes_max_nonneg(n2 - 1);
    }
}

/// Eight bytes hold at most the largest 64-bit value.
proof fn lemma_bytes_max_8()
    ensures
        bytes_max(8) == 0xFFFFFFFFFFFFFFFF,
{
    assert(bytes_max(0) == 0);
    assert(bytes_max(1) == 255);
    assert(bytes_max(2) == 0xFFFF);
    assert(bytes_max(3) == 0xFFFFFF);
    assert(bytes_max(4) == 0xFFFFFFFF);
    assert(bytes_max(5) == 0xFFFFFFFFFF);
    assert(bytes_max(6) == 0xFFFFFFFFFFFF);
    assert(bytes_max(7) == 0xFFFFFFFFFFFFFF);
    assert(bytes_max(8) == 0xFFFFFFFFFFFFFFFF);
}

/// Decode a little-endian field of up to eight bytes from a byte buffer.
pub fn read_le_u64(b: &Vec<u8>, offset: usize, width: usize) -> (v: u64)
    requires
        offset + width <= b@.len(),
        width <= 8,
    ensures
        v as int == le_value(b@, offset as int, width as int),
{
    let mut v: u64 = 0;
    let b_len: usize = b.len();
    let mut k: usize = width;
    while k > 0
        invariant
            0 <= k <= width,
            width <= 8,
            b_len == b@.len(),
            offset + width <= b_len,
            v as int == le_value_from(b@, offset as int, width as int, k as int),
            v as int <= bytes_max(width as int - k as int),
        decreases k,
    {
        proof {
            lemma_bytes_max_mono(width as int - k as int + 1, 8);
            lemma_bytes_max_8();
            assert((v as int) * 256 + 255 <= bytes_max(width as int - k as int + 1));
        }
        k = k - 1;
        v = v * 256 + (b[offset + k] as u64);
    }
    v
}

/// The value of the `width`-byte little-endian field at an offset.
pub open spec fn le_value(b: Seq<u8>, offset: int, width: int) -> int {
    le_value_from(b, offset, width, 0)
}

/// The value of the bytes of a little-endian field from position `k` up.
pub open spec fn le_value_from(b: Seq<u8>, offset: int, width: int, k: int) -> int
    decreases width - k,
{
    if k >= width {
        0
    } else {
        b[offset + k] + 256 * le_value_from(b, offset, width, k + 1)
    }
}

/// Encoding then decoding a field returns the value: a little-endian field
/// is exactly its weighted byte sum.
pub proof fn lemma_le_roundtrip(b: Seq<u8>, offset: int, v: int, width: int)
    requires
        0 <= v,
        v < vstd::arithmetic::power::pow(256, width as nat),
        0 <= width,
        0 <= offset,
        offset + width <= b.len(),
        forall|i: int| 0 <= i < width ==> b[offset + i] == le_byte(v, i),
    ensures
        le_value(b, offset, width) == v,
{
    lemma_le_roundtrip_from(b, offset, v, width, 0);
}

/// Helper: the tail of the weighted byte sum equals the shifted value.
proof fn lemma_le_roundtrip_from(b: Seq<u8>, offset: int, v: int, width: int, k: int)
    requires
        0 <= v,
        v < vstd::arithmetic::power::pow(256, width as nat),
        0 <= k <= width,
        0 <= offset,
        offset + width <= b.len(),
        forall|i: int| 0 <= i < width ==> b[offset + i] == le_byte(v, i),
    ensures
        le_value_from(b, offset, width, k) == shifted_down(v, k),
    decreases width - k,
{
    if k == width {
        lemma_shifted_down_small(v, width);
    } else {
        lemma_le_roundtrip_from(b, offset, v, width, k + 1);
        lemma_le_byte_step(v, k);
        lemma_fundamental_div_mod(shifted_down(v, k), 256);
    }
}

/// A little-endian field holds at most its width's bound.
pub proof fn lemma_le_value_bound(b: Seq<u8>, offset: int, width: int, k: int)
    requires
        0 <= k <= width,
        0 <= offset,
        offset + width <= b.len(),
    ensures
        0 <= le_value_from(b, offset, width, k) <= bytes_max(width - k),
    decreases width - k,
{
    if k < width {
        lemma_le_value_bound(b, offset, width, k + 1);
    }
}

/// Decode the peer-visible header layout.
pub fn header_from_bytes(b: &Vec<u8>) -> (h: RingBufferHeader)
    requires
        b@.len() >= HEADER_BYTES,
    ensures
        h.capacity_frames as int == le_value(b@, 0, 4),
        h.channels as int == le_value(b@, 4, 4),
        h.reserved as int == le_value(b@, 8, 4),
        h.write_index as int == le_value(b@, 16, 8),
        h.read_index as int == le_value(b@, 24, 8),
        h.last_timestamp_ns as int == le_value(b@, 32, 8),
{
    proof {
        lemma_le_value_bound(b@, 0, 4, 0);
        lemma_le_value_bound(b@, 4, 4, 0);
        lemma_le_value_bound(b@, 8, 4, 0);
        assert(bytes_max(0) == 0);
        assert(bytes_max(1) == 255);
        assert(bytes_max(2) == 0xFFFF);
        assert(bytes_max(3) == 0xFFFFFF);
        assert(bytes_max(4) == 0xFFFFFFFF);
    }
    RingBufferHeader {
        capacity_frames: read_le_u64(b, 0, 4) as u32,
        channels: read_le_u64(b, 4, 4) as u32,
        reserved: read_le_u64(b, 8, 4) as u32,
        write_index: read_le_u64(b, 16, 8),
        read_index: read_le_u64(b, 24, 8),
        last_timestamp_ns: read_le_u64(b, 32, 8),
    }
}

/// Shifting a value below `256^k` by `k` bytes leaves zero.
proof fn lemma_shifted_down_small(v: int, k: int)
    requires
        0 <= v,
        0 <= k,
        v < vstd::arithmetic::power::pow(256, k as nat),
    ensures
        shifted_down(v, k) == 0,
    decreases k,
{
    if k == 0 {
        vstd::arithmetic::power::lemma_pow0(256);
    } else {
        lemma_shift_commute(v, k);
        let p1 = vstd::arithmetic::power::pow(256, (k - 1) as nat);
        vstd::arithmetic::power::lemma_pow_adds(256, 1nat, (k - 1) as nat);
        vstd::arithmetic::power::lemma_pow1(256);
        vstd::arithmetic::power::lemma_pow_positive(256, (k - 1) as nat);
        vstd::arithmetic::div_mod::lemma_div_pos_is_pos(v, 256);
        assert(v / 256 < p1) by (nonlinear_arith)
            requires
                0 <= v,
                v < 256 * p1,
                p1 > 0,
        ;
        lemma_shifted_down_small(v / 256, k - 1);
    }
}

/// Two distinct offsets below the capacity land on distinct physical slots.
proof fn lemma_distinct_residues(base: int, o1: int, o2: int, cap: int)
    requires
        cap > 0,
        base >= 0,
        0 <= o1 < cap,
        0 <= o2 < cap,
        o1 != o2,
    ensures
        (base + o1) % cap != (base + o2) % cap,
{
    let x = base + o1;
    let y = base + o2;
    lemma_fundamental_div_mod(x, cap);
    lemma_fundamental_div_mod(y, cap);
    if x % cap == y % cap {
        let k = y / cap - x / cap;
        assert(y - x == cap * k) by (nonlinear_arith)
            requires
                x == cap * (x / cap) + x % cap,
                y == cap * (y / cap) + y % cap,
                x % cap == y % cap,
                k == y / cap - x / cap,
        ;
        assert(-cap < y - x < cap);
        assert(k == 0) by (nonlinear_arith)
            requires
                cap > 0,
                -cap < cap * k < cap,
        ;
        assert(false);
    }
}


/// One consumer- or producer-side queue operation, for stating laws about
/// operation sequences.
pub enum RingOp {
    /// A push offering the given frames.
    Push(Seq<Frame>),
    /// A pop (or discard) requesting the given number of frames.
    Pop(nat),
}

/// Queue contents after one operation.
pub open spec fn ring_step(q: Seq<Frame>, cap: int, op: RingOp) -> Seq<Frame> {
    match op {
        RingOp::Push(f) => q + f.take(ring_accept(q.len() as int, cap, f.len() as int)),
        RingOp::Pop(n) => if n <= q.len() {
            q.skip(n as int)
        } else {
            q.skip(q.len() as int)
        },
    }
}

/// Frames accepted by one operation (zero for a pop).
pub open spec fn ring_step_accepted(q: Seq<Frame>, cap: int, op: RingOp) -> int {
    match op {
        RingOp::Push(f) => ring_accept(q.len() as int, cap, f.len() as int),
        RingOp::Pop(n) => 0,
    }
}

/// Frames handed out by one operation (zero for a push).
pub open spec fn ring_step_popped(q: Seq<Frame>, cap: int, op: RingOp) -> int {
    match op {
        RingOp::Push(f) => 0,
        RingOp::Pop(n) => if n <= q.len() {
            n as int
        } else {
            q.len() as int
        },
    }
}

/// Queue contents after a sequence of operations.
pub open spec fn ring_run(q: Seq<Frame>, cap: int, ops: Seq<RingOp>) -> Seq<Frame>
    decreases ops.len(),
{
    if ops.len() == 0 {
        q
    } else {
        ring_run(ring_step(q, cap, ops[0]), cap, ops.skip(1))
    }
}

/// Total frames accepted over a sequence of operations.
pub open spec fn ring_run_accepted(q: Seq<Frame>, cap: int, ops: Seq<RingOp>) -> int
    decreases ops.len(),
{
    if ops.len() == 0 {
        0
    } else {
        ring_step_accepted(q, cap, ops[0]) + ring_run_accepted(
            ring_step(q, cap, ops[0]),
            cap,
            ops.skip(1),
        )
    }
}

/// Total frames handed out over a sequence of operations.
pub open spec fn ring_run_popped(q: Seq<Frame>, cap: int, ops: Seq<RingOp>) -> int
    decreases ops.len(),
{
    if ops.len() == 0 {
        0
    } else {
        ring_step_popped(q, cap, ops[0]) + ring_run_popped(
            ring_step(q, cap, ops[0]),
            cap,
            ops.skip(1),
        )
    }
}

/// Conservation of frames: over any sequence of pushes and pops with valid
/// arguments, the frames accepted equal the frames handed out plus the frames
/// still queued, and the queue never exceeds the capacity.
pub proof fn lemma_ring_conservation(q: Seq<Frame>, cap: int, ops: Seq<RingOp>)
    requires
        0 <= q.len() <= cap,
    ensures
        ring_run(q, cap, ops).len() == q.len() + ring_run_accepted(q, cap, ops)
            - ring_run_popped(q, cap, ops),
        ring_run(q, cap, ops).len() <= cap,
    decreases ops.len(),
{
    if ops.len() > 0 {
        let q1 = ring_step(q, cap, ops[0]);
        assert(q1.len() == q.len() + ring_step_accepted(q, cap, ops[0]) - ring_step_popped(
            q,
            cap,
            ops[0],
        ));
        assert(q1.len() <= cap);
        lemma_ring_conservation(q1, cap, ops.skip(1));
    }
}

/// Push-then-pop identity: a ring with room for every offered frame accepts
/// them all, and a pop that reaches past the frames already queued returns
/// exactly the pushed frames.
pub proof fn lemma_push_then_pop_identity(q: Seq<Frame>, cap: int, f: Seq<Frame>)
    requires
        0 <= q.len(),
        f.len() <= cap - q.len(),
    ensures
        ring_step(q, cap, RingOp::Push(f)) == q + f,
        ring_step(q, cap, RingOp::Push(f)).skip(q.len() as int) == f,
{
    assert(ring_accept(q.len() as int, cap, f.len() as int) == f.len() as int);
    assert(f.take(f.len() as int) =~= f);
    assert(q + f.take(f.len() as int) =~= q + f);
    assert((q + f).skip(q.len() as int) =~= f);
}

/// The drop-oldest producer policy: push what fits, and if frames were lost,
/// discard that many from the head and push the remainder.
pub open spec fn spec_push_drop_oldest(q: Seq<Frame>, cap: int, f: Seq<Frame>) -> Seq<Frame> {
    let w1 = ring_accept(q.len() as int, cap, f.len() as int);
    if w1 == f.len() as int {
        q + f.take(w1)
    } else {
        let q1 = q + f.take(w1);
        let lost = f.len() as int - w1;
        let d = if lost <= q1.len() as int {
            lost
        } else {
            q1.len() as int
        };
        let q2 = q1.skip(d);
        let w2 = ring_accept(q2.len() as int, cap, lost);
        q2 + f.skip(w1).take(w2)
    }
}

/// Frames accepted in total by the drop-oldest producer policy: the first
/// write plus the retry after the discard.
pub open spec fn spec_push_drop_oldest_count(q: Seq<Frame>, cap: int, f: Seq<Frame>) -> int {
    let w1 = ring_accept(q.len() as int, cap, f.len() as int);
    if w1 == f.len() as int {
        w1
    } else {
        let q1 = q + f.take(w1);
        let lost = f.len() as int - w1;
        let d = if lost <= q1.len() as int {
            lost
        } else {
            q1.len() as int
        };
        let q2 = q1.skip(d);
        w1 + ring_accept(q2.len() as int, cap, lost)
    }
}

/// Overrun keeps the most recent frames: pushing between one and two
/// capacities' worth of frames into an empty ring with the drop-oldest policy
/// leaves exactly the trailing `cap` frames queued.
pub proof fn lemma_drop_oldest_keeps_recent(cap: int, f: Seq<Frame>)
    requires
        cap >= 1,
        cap <= f.len() <= 2 * cap,
    ensures
        spec_push_drop_oldest(Seq::<Frame>::empty(), cap, f) =~= f.skip(f.len() - cap),
        spec_push_drop_oldest(Seq::<Frame>::empty(), cap, f).len() <= cap,
{
    let q = Seq::<Frame>::empty();
    let w1 = ring_accept(0, cap, f.len() as int);
    assert(w1 == cap);
    if f.len() == cap {
        assert(spec_push_drop_oldest(q, cap, f) =~= f.skip(0));
    } else {
        let q1 = q + f.take(cap);
        let lost = f.len() - cap;
        assert(q1.len() == cap);
        let q2 = q1.skip(lost as int);
        let w2 = ring_accept(q2.len() as int, cap, lost as int);
        assert(w2 == lost);
        assert(q2 + f.skip(cap).take(lost as int) =~= f.skip(f.len() - cap));
    }
}

} // verus!
