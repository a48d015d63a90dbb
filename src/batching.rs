//! Grouping of an ordered stream of records into bounded-size batches.
//! Batching is positional: a batch is closed when it holds `batch_size`
//! records, and the records' content is never inspected.

use vstd::prelude::*;
use crate::frame::records_view;

verus! {

/// The records of a sequence of batches, batch after batch.
pub open spec fn flatten(batches: Seq<Seq<Seq<u8>>>) -> Seq<Seq<u8>>
    decreases batches.len(),
{
    if batches.len() == 0 {
        Seq::empty()
    } else {
        flatten(batches.drop_last()) + batches.last()
    }
}

/// No batch is empty, none holds more than `batch_size` records, and every
/// batch but the last holds exactly `batch_size`.
pub open spec fn well_batched(batches: Seq<Seq<Seq<u8>>>, batch_size: nat) -> bool {
    forall|i: int|
        0 <= i < batches.len() ==> {
            &&& 1 <= #[trigger] batches[i].len() <= batch_size
            &&& i + 1 < batches.len() ==> batches[i].len() == batch_size
        }
}

/// A sequence of batches as nested byte sequences.
pub open spec fn batches_view(batches: Seq<Vec<Vec<u8>>>) -> Seq<Seq<Seq<u8>>> {
    batches.map_values(|b: Vec<Vec<u8>>| records_view(b@))
}

/// Appending a batch appends its records.
pub proof fn lemma_flatten_push(batches: Seq<Seq<Seq<u8>>>, b: Seq<Seq<u8>>)
    ensures
        flatten(batches.push(b)) == flatten(batches) + b,
{
    assert(batches.push(b).drop_last() =~= batches);
}

/// Collects records into batches as they arrive.
pub struct BatchAssembler {
    batch_size: usize,
    pending: Vec<Vec<u8>>,
    consumed: Ghost<Seq<Seq<u8>>>,
    emitted: Ghost<Seq<Seq<Seq<u8>>>>,
}

impl BatchAssembler {
    /// The number of records in a full batch.
    pub closed spec fn batch_size(&self) -> nat {
        self.batch_size as nat
    }

    /// The records taken in so far, in order.
    pub closed spec fn consumed(&self) -> Seq<Seq<u8>> {
        self.consumed@
    }

    /// The batches handed out so far, in order.
    pub closed spec fn emitted(&self) -> Seq<Seq<Seq<u8>>> {
        self.emitted@
    }

    /// The records taken in but not yet handed out in a batch.
    pub closed spec fn pending(&self) -> Seq<Seq<u8>> {
        records_view(self.pending@)
    }

    /// The handed-out batches followed by the pending records are exactly the
    /// records taken in; the handed-out batches are full and the pending
    /// records do not fill one.
    pub closed spec fn wf(&self) -> bool {
        &&& self.batch_size >= 1
        &&& flatten(self.emitted@) + records_view(self.pending@) == self.consumed@
        &&& self.pending@.len() < self.batch_size
        &&& forall|i: int| 0 <= i < self.emitted@.len() ==> #[trigger] self.emitted@[i].len() == self.batch_size
    }

    /// What well-formedness tells a caller: the handed-out batches, then the
    /// pending records, are the records taken in; every handed-out batch is
    /// full, and the pending records do not fill one.
    pub proof fn lemma_accounts(&self)
        requires
            self.wf(),
        ensures
            flatten(self.emitted()) + self.pending() == self.consumed(),
            self.pending().len() < self.batch_size(),
            self.batch_size() >= 1,
            forall|i: int| 0 <= i < self.emitted().len() ==> #[trigger] self.emitted()[i].len() == self.batch_size(),
    {
    }

    /// The number of records taken in but not yet handed out.
    pub fn pending_len(&self) -> (r: usize)
        ensures
            r == self.pending().len(),
    {
        self.pending.len()
    }

    /// An assembler with nothing taken in.
    pub fn new(batch_size: usize) -> (r: Self)
        requires
            batch_size >= 1,
        ensures
            r.wf(),
            r.batch_size() == batch_size,
            r.consumed() == Seq::<Seq<u8>>::empty(),
            r.emitted() == Seq::<Seq<Seq<u8>>>::empty(),
            r.pending() == Seq::<Seq<u8>>::empty(),
    {
        let r = BatchAssembler {
            batch_size,
            pending: Vec::with_capacity(batch_size),
            consumed: Ghost(Seq::empty()),
            emitted: Ghost(Seq::empty()),
        };
        assert(records_view(r.pending@) =~= Seq::<Seq<u8>>::empty());
        assert(flatten(r.emitted@) + records_view(r.pending@) =~= r.consumed@);
        r
    }

    /// Takes in one record; hands out the batch that it completes, if any.
    pub fn push(&mut self, record: Vec<u8>) -> (r: Option<Vec<Vec<u8>>>)
        requires
            old(self).wf(),
        ensures
            final(self).wf(),
            final(self).batch_size() == old(self).batch_size(),
            final(self).consumed() == old(self).consumed().push(record@),
            old(self).pending().len() + 1 == old(self).batch_size() ==> {
                &&& r is Some
                &&& records_view(r->0@) == old(self).pending().push(record@)
                &&& final(self).emitted() == old(self).emitted().push(old(self).pending().push(record@))
                &&& final(self).pending() == Seq::<Seq<u8>>::empty()
            },
            old(self).pending().len() + 1 < old(self).batch_size() ==> {
                &&& r is None
                &&& final(self).emitted() == old(self).emitted()
                &&& final(self).pending() == old(self).pending().push(record@)
            },
    {
        let ghost rv = record@;
        let ghost old_pending = records_view(self.pending@);
        self.pending.push(record);
        proof {
            self.consumed = Ghost(self.consumed@.push(rv));
            assert(records_view(self.pending@) =~= old_pending.push(rv));
        }
        if self.pending.len() == self.batch_size {
            let mut full: Vec<Vec<u8>> = Vec::with_capacity(self.batch_size);
            std::mem::swap(&mut self.pending, &mut full);
            proof {
                let b = records_view(full@);
                lemma_flatten_push(self.emitted@, b);
                self.emitted = Ghost(self.emitted@.push(b));
                assert(records_view(self.pending@) =~= Seq::<Seq<u8>>::empty());
                assert(flatten(self.emitted@) + records_view(self.pending@) =~= self.consumed@);
                assert forall|i: int| 0 <= i < self.emitted@.len() implies #[trigger] self.emitted@[i].len()
                    == self.batch_size by {
                    if i + 1 == self.emitted@.len() {
                        assert(self.emitted@[i] == b);
                    }
                }
            }
            Some(full)
        } else {
            proof {
                assert(flatten(self.emitted@) + records_view(self.pending@) =~= self.consumed@);
            }
            None
        }
    }

    /// Ends the input: hands out the pending records as a last, shorter batch
    /// if there are any. Afterwards the handed-out batches hold every record
    /// taken in, in order, and are well batched.
    pub fn finish(&mut self) -> (r: Option<Vec<Vec<u8>>>)
        requires
            old(self).wf(),
        ensures
            final(self).batch_size() == old(self).batch_size(),
            final(self).consumed() == old(self).consumed(),
            final(self).pending() == Seq::<Seq<u8>>::empty(),
            old(self).pending().len() == 0 ==> r is None && final(self).emitted() == old(self).emitted(),
            old(self).pending().len() > 0 ==> {
                &&& r is Some
                &&& records_view(r->0@) == old(self).pending()
                &&& final(self).emitted() == old(self).emitted().push(old(self).pending())
            },
            flatten(final(self).emitted()) == old(self).consumed(),
            well_batched(final(self).emitted(), old(self).batch_size()),
    {
        if self.pending.len() == 0 {
            proof {
                assert(records_view(self.pending@) =~= Seq::<Seq<u8>>::empty());
                assert(flatten(self.emitted@) + records_view(self.pending@) =~= flatten(self.emitted@));
            }
            None
        } else {
            let mut last: Vec<Vec<u8>> = Vec::new();
            std::mem::swap(&mut self.pending, &mut last);
            proof {
                let b = records_view(last@);
                lemma_flatten_push(self.emitted@, b);
                let old_emitted = self.emitted@;
                self.emitted = Ghost(self.emitted@.push(b));
                assert(records_view(self.pending@) =~= Seq::<Seq<u8>>::empty());
                assert forall|i: int| 0 <= i < self.emitted@.len() implies {
                    &&& 1 <= #[trigger] self.emitted@[i].len() <= self.batch_size
                    &&& i + 1 < self.emitted@.len() ==> self.emitted@[i].len() == self.batch_size
                } by {
                    if i + 1 < self.emitted@.len() {
                        assert(self.emitted@[i] == old_emitted[i]);
                    } else {
                        assert(self.emitted@[i] == b);
                    }
                }
            }
            Some(last)
        }
    }
}

/// Splits `records` into batches of `batch_size`, the last one possibly
/// shorter: joined in order they give back `records`, and none is empty.
pub fn assemble(records: &[Vec<u8>], batch_size: usize) -> (r: Vec<Vec<Vec<u8>>>)
    requires
        batch_size >= 1,
    ensures
        flatten(batches_view(r@)) == records_view(records@),
        well_batched(batches_view(r@), batch_size as nat),
{
    let mut assembler = BatchAssembler::new(batch_size);
    let mut out: Vec<Vec<Vec<u8>>> = Vec::new();
    let mut i: usize = 0;
    while i < records.len()
        invariant
            i <= records@.len(),
            assembler.wf(),
            assembler.batch_size() == batch_size,
            assembler.consumed() == records_view(records@).take(i as int),
            batches_view(out@) == assembler.emitted(),
        decreases records@.len() - i,
    {
        let record = records[i].clone();
        assert(record@ =~= records@[i as int]@);
        let ghost before = assembler.emitted();
        if let Some(b) = assembler.push(record) {
            out.push(b);
        }
        assert(records_view(records@).take(i + 1) =~= records_view(records@).take(i as int).push(
            records@[i as int]@,
        ));
        assert(batches_view(out@) =~= assembler.emitted());
        i = i + 1;
    }
    if let Some(b) = assembler.finish() {
        out.push(b);
    }
    assert(batches_view(out@) =~= assembler.emitted());
    assert(records_view(records@).take(records@.len() as int) =~= records_view(records@));
    out
}

} // verus!
