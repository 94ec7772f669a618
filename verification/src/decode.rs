//! Byte-to-sample conversion: pairs of consecutive bytes are read as
//! little-endian signed 16-bit mono PCM samples. A trailing byte that has
//! no partner (an odd-length final chunk) is discarded, never buffered as
//! a half sample.

use vstd::prelude::*;
use crate::buffer::LockFreeBuffer;

verus! {

/// Value of the sample whose little-endian bytes are `lo` then `hi`:
/// the two's-complement reading of `hi * 256 + lo`.
pub open spec fn sample_value(lo: u8, hi: u8) -> int {
    if hi < 128 {
        hi * 256 + lo
    } else {
        hi * 256 + lo - 65536
    }
}

/// The samples encoded by a byte sequence: one per complete pair, in
/// order; a final unpaired byte contributes nothing.
pub open spec fn decoded_samples(bytes: Seq<u8>) -> Seq<i16>
    decreases bytes.len(),
{
    if bytes.len() < 2 {
        Seq::empty()
    } else {
        seq![sample_value(bytes[0], bytes[1]) as i16] + decoded_samples(bytes.skip(2))
    }
}

/// A byte sequence of length `n` decodes to exactly `n / 2` samples.
pub proof fn lemma_decoded_len(bytes: Seq<u8>)
    ensures
        decoded_samples(bytes).len() == bytes.len() / 2,
    decreases bytes.len(),
{
    if bytes.len() >= 2 {
        lemma_decoded_len(bytes.skip(2));
    }
}

/// Appending a single byte to an even-length stream does not change what
/// it decodes to: an odd trailing byte is dropped.
pub proof fn lemma_odd_trailing_byte_dropped(bytes: Seq<u8>, b: u8)
    requires
        bytes.len() % 2 == 0,
    ensures
        decoded_samples(bytes.push(b)) =~= decoded_samples(bytes),
    decreases bytes.len(),
{
    if bytes.len() >= 2 {
        assert(bytes.push(b).skip(2) =~= bytes.skip(2).push(b));
        lemma_odd_trailing_byte_dropped(bytes.skip(2), b);
    }
}

/// Extending an even-length stream by one complete pair appends exactly
/// one sample.
pub proof fn lemma_decoded_snoc_pair(bytes: Seq<u8>, lo: u8, hi: u8)
    requires
        bytes.len() % 2 == 0,
    ensures
        decoded_samples(bytes.push(lo).push(hi)) =~= decoded_samples(bytes).push(
            sample_value(lo, hi) as i16,
        ),
    decreases bytes.len(),
{
    let sample = sample_value(lo, hi) as i16;
    let x = bytes.push(lo).push(hi);
    if bytes.len() >= 2 {
        assert(x.skip(2) =~= bytes.skip(2).push(lo).push(hi));
        lemma_decoded_snoc_pair(bytes.skip(2), lo, hi);
        assert(x[0] == bytes[0]);
        assert(x[1] == bytes[1]);
        assert(decoded_samples(x) == seq![sample_value(x[0], x[1]) as i16] + decoded_samples(
            x.skip(2),
        ));
        assert(decoded_samples(bytes) == seq![sample_value(bytes[0], bytes[1]) as i16]
            + decoded_samples(bytes.skip(2)));
        assert(seq![sample_value(bytes[0], bytes[1]) as i16] + decoded_samples(bytes.skip(2)).push(
            sample,
        ) =~= (seq![sample_value(bytes[0], bytes[1]) as i16] + decoded_samples(
            bytes.skip(2),
        )).push(sample));
    } else {
        assert(x.skip(2) =~= Seq::<u8>::empty());
        assert(x[0] == lo);
        assert(x[1] == hi);
        assert(decoded_samples(x) == seq![sample_value(x[0], x[1]) as i16] + decoded_samples(
            x.skip(2),
        ));
        assert(decoded_samples(Seq::<u8>::empty()) =~= Seq::<i16>::empty());
        assert(seq![sample] + Seq::<i16>::empty() =~= decoded_samples(bytes).push(sample));
    }
}

/// Reads one sample from its two little-endian bytes.
pub fn decode_sample(lo: u8, hi: u8) -> (sample: i16)
    ensures
        sample as int == sample_value(lo, hi),
{
    let raw: i32 = lo as i32 + 256 * (hi as i32);
    if raw < 32768 {
        raw as i16
    } else {
        (raw - 65536) as i16
    }
}

/// Decodes every complete byte pair of a chunk, discarding a trailing
/// unpaired byte.
pub fn decode_chunk(bytes: &[u8]) -> (samples: Vec<i16>)
    ensures
        samples@ =~= decoded_samples(bytes@),
{
    let n = bytes.len();
    let mut samples: Vec<i16> = Vec::new();
    let mut i: usize = 0;
    while i + 1 < n
        invariant
            n == bytes@.len(),
            i % 2 == 0,
            i <= n,
            samples@ =~= decoded_samples(bytes@.take(i as int)),
        decreases n - i,
    {
        let sample = decode_sample(bytes[i], bytes[i + 1]);
        proof {
            assert(bytes@.take(i + 2) =~= bytes@.take(i as int).push(bytes@[i as int]).push(
                bytes@[i + 1],
            ));
            lemma_decoded_snoc_pair(bytes@.take(i as int), bytes@[i as int], bytes@[i + 1]);
        }
        samples.push(sample);
        i = i + 2;
    }
    proof {
        if i < n {
            assert(bytes@ =~= bytes@.take(i as int).push(bytes@[i as int]));
            lemma_odd_trailing_byte_dropped(bytes@.take(i as int), bytes@[i as int]);
        } else {
            assert(bytes@.take(i as int) =~= bytes@);
        }
    }
    samples
}

/// Decodes a chunk and appends every resulting sample at the buffer's
/// tail, in order; the finished flag keeps its value. This is the
/// producer's per-chunk step.
pub fn push_chunk(buf: &mut LockFreeBuffer, bytes: &[u8])
    ensures
        final(buf)@.samples =~= old(buf)@.samples + decoded_samples(bytes@),
        final(buf)@.done == old(buf)@.done,
{
    let samples = decode_chunk(bytes);
    let m = samples.len();
    let mut i: usize = 0;
    while i < m
        invariant
            m == samples@.len(),
            i <= m,
            buf@.samples =~= old(buf)@.samples + samples@.take(i as int),
            buf@.done == old(buf)@.done,
        decreases m - i,
    {
        let s = samples[i];
        buf.push(s);
        proof {
            assert(old(buf)@.samples + samples@.take(i + 1) =~= (old(buf)@.samples
                + samples@.take(i as int)).push(samples@[i as int]));
        }
        i = i + 1;
    }
    proof {
        assert(samples@.take(m as int) =~= samples@);
    }
}

/// The byte left over after decoding: empty if the stream so far has even
/// length, else exactly its last byte.
pub open spec fn leftover_of(bytes: Seq<u8>) -> Seq<u8> {
    if bytes.len() % 2 == 0 {
        Seq::empty()
    } else {
        seq![bytes[bytes.len() - 1]]
    }
}

/// Reassembles samples from a byte stream that arrives in arbitrarily
/// sized chunks with no sample-boundary alignment: a chunk's trailing
/// unpaired byte is held back and joined with the next chunk, so that
/// only the stream's very last byte can ever be discarded.
pub struct SampleAssembler {
    pending: Option<u8>,
}

impl View for SampleAssembler {
    type V = Seq<u8>;

    closed spec fn view(&self) -> Seq<u8> {
        match self.pending {
            Some(b) => seq![b],
            None => Seq::empty(),
        }
    }
}

impl SampleAssembler {
    /// A fresh assembler holding no partial sample.
    pub fn new() -> (assembler: Self)
        ensures
            assembler@ =~= Seq::<u8>::empty(),
    {
        SampleAssembler { pending: None }
    }

    /// Feeds one chunk: every complete pair of the held-back byte followed
    /// by the chunk becomes a sample appended to the buffer, in order, and
    /// the new unpaired byte (if any) is held back for the next chunk.
    pub fn feed(&mut self, buf: &mut LockFreeBuffer, bytes: &[u8])
        ensures
            final(buf)@.samples =~= old(buf)@.samples + decoded_samples(old(self)@ + bytes@),
            final(buf)@.done == old(buf)@.done,
            final(self)@ =~= leftover_of(old(self)@ + bytes@),
    {
        let n = bytes.len();
        match self.pending {
            None => {
                proof {
                    assert(old(self)@ + bytes@ =~= bytes@);
                }
                push_chunk(buf, bytes);
                if n % 2 == 1 {
                    self.pending = Some(bytes[n - 1]);
                }
            },
            Some(b) => {
                proof {
                    assert((old(self)@ + bytes@)[0] == b);
                }
                if n == 0 {
                    proof {
                        assert(old(self)@ + bytes@ =~= seq![b]);
                        assert(decoded_samples(seq![b]) =~= Seq::<i16>::empty());
                        assert(old(buf)@.samples + Seq::<i16>::empty() =~= old(buf)@.samples);
                    }
                } else {
                    let first = decode_sample(b, bytes[0]);
                    buf.push(first);
                    let (_, rest) = bytes.split_at(1);
                    push_chunk(buf, rest);
                    if n % 2 == 0 {
                        self.pending = Some(bytes[n - 1]);
                    } else {
                        self.pending = None;
                    }
                    proof {
                        let combined = old(self)@ + bytes@;
                        assert(combined[1] == bytes@[0]);
                        assert(combined.skip(2) =~= rest@);
                        assert(decoded_samples(combined) == seq![sample_value(b, bytes@[0]) as i16]
                            + decoded_samples(combined.skip(2)));
                        assert(old(buf)@.samples.push(first) + decoded_samples(rest@) =~= old(
                            buf,
                        )@.samples + decoded_samples(combined));
                        assert(combined[combined.len() - 1] == bytes@[n - 1]);
                    }
                }
            },
        }
    }
}

} // verus!
