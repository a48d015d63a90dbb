//! Framing: a batch of records becomes one newline-delimited byte buffer.

use vstd::prelude::*;

verus! {

/// The byte that ends each record in a frame.
pub const DELIMITER: u8 = 10;

/// The records of a batch as byte sequences.
pub open spec fn records_view(batch: Seq<Vec<u8>>) -> Seq<Seq<u8>> {
    batch.map_values(|r: Vec<u8>| r@)
}

/// The frame of a batch: each record's bytes followed by one delimiter, in order.
pub open spec fn frame_of(batch: Seq<Seq<u8>>) -> Seq<u8>
    decreases batch.len(),
{
    if batch.len() == 0 {
        Seq::empty()
    } else {
        frame_of(batch.drop_last()) + batch.last() + seq![DELIMITER]
    }
}

/// The sum of the records' lengths.
pub open spec fn total_len(batch: Seq<Seq<u8>>) -> nat
    decreases batch.len(),
{
    if batch.len() == 0 {
        0
    } else {
        total_len(batch.drop_last()) + batch.last().len()
    }
}

/// A frame is as long as its records together plus one delimiter per record.
pub proof fn lemma_frame_length(batch: Seq<Seq<u8>>)
    ensures
        frame_of(batch).len() == total_len(batch) + batch.len(),
    decreases batch.len(),
{
    if batch.len() > 0 {
        lemma_frame_length(batch.drop_last());
    }
}

/// Framing two batches one after the other gives the frame of the records of
/// both: frames never split or merge records.
pub proof fn lemma_frame_concat(a: Seq<Seq<u8>>, b: Seq<Seq<u8>>)
    ensures
        frame_of(a + b) == frame_of(a) + frame_of(b),
    decreases b.len(),
{
    if b.len() == 0 {
        assert(a + b =~= a);
        assert(frame_of(b) =~= Seq::<u8>::empty());
        assert(frame_of(a) + frame_of(b) =~= frame_of(a));
    } else {
        lemma_frame_concat(a, b.drop_last());
        assert((a + b).drop_last() =~= a + b.drop_last());
        assert((a + b).last() == b.last());
        assert(frame_of(a + b) =~= frame_of(a) + frame_of(b));
    }
}

/// Encodes a batch into its frame. The buffer is allocated once, sized by the
/// records' lengths plus one byte per delimiter.
pub fn encode(batch: &[Vec<u8>]) -> (r: Vec<u8>)
    ensures
        r@ == frame_of(records_view(batch@)),
        r@.len() == total_len(records_view(batch@)) + batch@.len(),
{
    let mut estimated: usize = 0;
    let mut i: usize = 0;
    while i < batch.len()
        invariant
            i <= batch@.len(),
        decreases batch@.len() - i,
    {
        estimated = estimated.saturating_add(batch[i].len()).saturating_add(1);
        i = i + 1;
    }
    let mut buf: Vec<u8> = Vec::with_capacity(estimated);
    let ghost view = records_view(batch@);
    let mut i: usize = 0;
    while i < batch.len()
        invariant
            i <= batch@.len(),
            view == records_view(batch@),
            buf@ == frame_of(view.take(i as int)),
        decreases batch@.len() - i,
    {
        let record = &batch[i];
        buf.extend_from_slice(record.as_slice());
        buf.push(DELIMITER);
        proof {
            let t = view.take(i + 1);
            assert(t.drop_last() =~= view.take(i as int));
            assert(t.last() == record@);
            assert(buf@ =~= frame_of(t));
        }
        i = i + 1;
    }
    assert(view.take(batch@.len() as int) =~= view);
    proof {
        lemma_frame_length(view);
    }
    buf
}

} // verus!
