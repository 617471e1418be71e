//! The inbound reader's buffer discipline.
//!
//! Each connection is read into a fixed-size buffer. A message no larger
//! than the buffer arrives in one read; a larger one crosses reads and
//! reaches the peers as several fanout events, with no byte lost across the
//! split. Between reads the buffer is zero-filled so that a shorter next
//! read cannot leak stale trailing bytes.

use vstd::prelude::*;

verus! {

/// Size of the per-connection read buffer, in bytes.
pub const BUF_SIZE: usize = 1024;

/// The bytes of one chunk.
pub open spec fn bytes_of() -> spec_fn(Vec<u8>) -> Seq<u8> {
    |c: Vec<u8>| c@
}

/// The mathematical value of a list of chunks.
pub open spec fn chunks_view(chunks: Seq<Vec<u8>>) -> Seq<Seq<u8>> {
    chunks.map_values(bytes_of())
}

/// Split a message into the reads a peer observes: successive chunks of at
/// most [`BUF_SIZE`] bytes, every chunk but the last exactly full. A message
/// that fits the buffer — even one filling it exactly — arrives whole, as
/// one chunk; a longer one arrives as two or more separate fanout events,
/// and the chunks concatenate back to the message, so no byte is lost
/// across the split.
pub fn split_message(msg: &Vec<u8>) -> (chunks: Vec<Vec<u8>>)
    ensures
        chunks_view(chunks@).flatten() == msg@,
        forall|i: int| 0 <= i < chunks@.len() ==> 0 < (#[trigger] chunks@[i])@.len() <= BUF_SIZE,
        forall|i: int|
            0 <= i < chunks@.len() - 1 ==> (#[trigger] chunks@[i])@.len() == BUF_SIZE,
        msg@.len() == 0 ==> chunks@.len() == 0,
        0 < msg@.len() <= BUF_SIZE ==> chunks@.len() == 1,
        msg@.len() > BUF_SIZE ==> chunks@.len() >= 2,
{
    let mut chunks: Vec<Vec<u8>> = Vec::new();
    let mut start: usize = 0;
    while start < msg.len()
        invariant
            start <= msg@.len(),
            chunks_view(chunks@).flatten() == msg@.take(start as int),
            forall|i: int|
                0 <= i < chunks@.len() ==> 0 < (#[trigger] chunks@[i])@.len() <= BUF_SIZE,
            forall|i: int|
                0 <= i < chunks@.len() - 1 ==> (#[trigger] chunks@[i])@.len() == BUF_SIZE,
            start < msg@.len() ==> forall|i: int|
                0 <= i < chunks@.len() ==> (#[trigger] chunks@[i])@.len() == BUF_SIZE,
            start <= chunks@.len() * BUF_SIZE,
            start == chunks@.len() * BUF_SIZE || (start == msg@.len() && chunks@.len() >= 1
                && (chunks@.len() - 1) * BUF_SIZE < msg@.len()),
        decreases msg@.len() - start,
    {
        let take: usize = if msg.len() - start > BUF_SIZE {
            BUF_SIZE
        } else {
            msg.len() - start
        };
        let mut c: Vec<u8> = Vec::new();
        let mut j: usize = 0;
        while j < take
            invariant
                j <= take,
                start + take <= msg@.len(),
                msg@.len() <= usize::MAX,
                c@ == msg@.subrange(start as int, start as int + j as int),
            decreases take - j,
        {
            c.push(msg[start + j]);
            proof {
                assert(c@ =~= msg@.subrange(start as int, start as int + j as int + 1));
            }
            j += 1;
        }
        let ghost chunks0 = chunks@;
        chunks.push(c);
        proof {
            assert(chunks_view(chunks@) =~= chunks_view(chunks0).push(c@));
            chunks_view(chunks0).lemma_flatten_push(c@);
            assert(chunks_view(chunks@).flatten() =~= msg@.take(start as int + take as int));
            assert forall|i: int| 0 <= i < chunks@.len() implies 0 < (#[trigger] chunks@[i])@.len()
                <= BUF_SIZE by {
                if i < chunks@.len() - 1 {
                    assert(chunks@[i] == chunks0[i]);
                }
            }
            assert forall|i: int| 0 <= i < chunks@.len() - 1 implies (#[trigger] chunks@[i])@.len()
                == BUF_SIZE by {
                assert(chunks@[i] == chunks0[i]);
            }
        }
        start = start + take;
    }
    proof {
        assert(msg@.take(msg@.len() as int) =~= msg@);
    }
    chunks
}

/// Zero-fill the read buffer, keeping its length, so that no bytes of the
/// previous message survive into the next read.
pub fn reset_buf(buf: &mut Vec<u8>)
    ensures
        final(buf)@.len() == old(buf)@.len(),
        forall|i: int| 0 <= i < final(buf)@.len() ==> final(buf)@[i] == 0,
{
    let mut i: usize = 0;
    while i < buf.len()
        invariant
            i <= buf@.len(),
            buf@.len() == old(buf)@.len(),
            forall|k: int| 0 <= k < i ==> buf@[k] == 0,
        decreases buf@.len() - i,
    {
        buf.set(i, 0);
        i += 1;
    }
}

} // verus!
