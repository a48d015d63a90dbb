//! The decisions of one run: records come in one at a time, frames go out to
//! the transport when a batch is full and at the end of the input, and the
//! number of records handed to the transport is kept. Reading the input,
//! sending frames and timing the run are done by the caller.

use vstd::prelude::*;
use crate::batching::{BatchAssembler, flatten, lemma_flatten_push};
use crate::frame::{encode, frame_of, lemma_frame_concat, records_view};

verus! {

/// The bytes of a sequence of frames sent one after another.
pub open spec fn concat(frames: Seq<Seq<u8>>) -> Seq<u8>
    decreases frames.len(),
{
    if frames.len() == 0 {
        Seq::empty()
    } else {
        concat(frames.drop_last()) + frames.last()
    }
}

/// The two kinds of transport a run can use.
#[derive(Clone, Copy, Debug, PartialEq, Eq, Structural)]
pub enum Transport {
    /// One connection for the whole run; each frame is written in full.
    Stream,
    /// Each frame is sent as one datagram.
    Datagram,
}

/// The state of one run.
pub struct Dispatcher {
    assembler: BatchAssembler,
    records_sent: usize,
    frames: Ghost<Seq<Seq<u8>>>,
}

impl Dispatcher {
    /// The records read so far, in order.
    pub closed spec fn consumed(&self) -> Seq<Seq<u8>> {
        self.assembler.consumed()
    }

    /// The records read but not yet framed.
    pub closed spec fn pending(&self) -> Seq<Seq<u8>> {
        self.assembler.pending()
    }

    /// The frames handed to the transport so far, in order.
    pub closed spec fn frames(&self) -> Seq<Seq<u8>> {
        self.frames@
    }

    /// The number of records in the frames handed out so far.
    pub closed spec fn sent(&self) -> nat {
        self.records_sent as nat
    }

    /// The number of records in a full batch.
    pub closed spec fn batch_size(&self) -> nat {
        self.assembler.batch_size()
    }

    /// Internal consistency: each frame handed out is the frame of one
    /// handed-out batch, and the count is the number of their records.
    pub closed spec fn wf(&self) -> bool {
        &&& self.assembler.wf()
        &&& self.assembler.consumed().len() <= usize::MAX
        &&& self.frames@.len() == self.assembler.emitted().len()
        &&& forall|i: int|
            0 <= i < self.frames@.len() ==> #[trigger] self.frames@[i] == frame_of(
                self.assembler.emitted()[i],
            )
        &&& self.records_sent == flatten(self.assembler.emitted()).len()
    }

    /// What a well-formed run guarantees: the frames handed out, followed by
    /// the frame of the pending records, are the frame of all records read;
    /// the count and the pending records together make up all records read.
    proof fn lemma_wf_accounts(&self)
        requires
            self.wf(),
        ensures
            concat(self.frames()) + frame_of(self.pending()) == frame_of(self.consumed()),
            self.sent() + self.pending().len() == self.consumed().len(),
            self.pending().len() < self.batch_size(),
    {
        let e = self.assembler.emitted();
        self.assembler.lemma_accounts();
        lemma_concat_frames(e, self.frames@);
        lemma_frame_concat(flatten(e), self.pending());
    }

    /// A run with nothing read yet.
    pub fn new(batch_size: usize) -> (r: Self)
        requires
            batch_size >= 1,
        ensures
            r.wf(),
            r.batch_size() == batch_size,
            r.consumed() == Seq::<Seq<u8>>::empty(),
            r.pending() == Seq::<Seq<u8>>::empty(),
            r.frames() == Seq::<Seq<u8>>::empty(),
            r.sent() == 0,
    {
        let r = Dispatcher { assembler: BatchAssembler::new(batch_size), records_sent: 0, frames: Ghost(Seq::empty()) };
        assert(flatten(r.assembler.emitted()) =~= Seq::<Seq<u8>>::empty());
        r
    }

    /// The number of records handed to the transport so far.
    pub fn records_sent(&self) -> (r: usize)
        ensures
            r == self.sent(),
    {
        self.records_sent
    }

    /// Whether one more record can be taken in: the count of records read
    /// must stay within `usize`.
    pub fn can_take(&self) -> (r: bool)
        requires
            self.wf(),
        ensures
            r == (self.consumed().len() < usize::MAX),
    {
        proof {
            self.lemma_wf_accounts();
        }
        self.records_sent < usize::MAX - self.assembler.pending_len()
    }

    /// Takes in the next record; returns the frame to send now when the
    /// record completes a batch.
    pub fn push_record(&mut self, record: Vec<u8>) -> (r: Option<Vec<u8>>)
        requires
            old(self).wf(),
            old(self).consumed().len() < usize::MAX,
        ensures
            final(self).wf(),
            final(self).batch_size() == old(self).batch_size(),
            final(self).consumed() == old(self).consumed().push(record@),
            old(self).pending().len() + 1 == old(self).batch_size() ==> {
                &&& r is Some
                &&& r->0@ == frame_of(old(self).pending().push(record@))
                &&& final(self).frames() == old(self).frames().push(r->0@)
                &&& final(self).pending() == Seq::<Seq<u8>>::empty()
                &&& final(self).sent() == old(self).sent() + old(self).batch_size()
            },
            old(self).pending().len() + 1 < old(self).batch_size() ==> {
                &&& r is None
                &&& final(self).frames() == old(self).frames()
                &&& final(self).pending() == old(self).pending().push(record@)
                &&& final(self).sent() == old(self).sent()
            },
            concat(final(self).frames()) + frame_of(final(self).pending()) == frame_of(final(self).consumed()),
            final(self).sent() + final(self).pending().len() == final(self).consumed().len(),
    {
        proof {
            self.lemma_wf_accounts();
        }
        let ghost e0 = self.assembler.emitted();
        match self.assembler.push(record) {
            Some(batch) => {
                let frame = encode(batch.as_slice());
                proof {
                    lemma_flatten_push(e0, records_view(batch@));
                }
                self.records_sent = self.records_sent + batch.len();
                proof {
                    let old_frames = self.frames@;
                    self.frames = Ghost(self.frames@.push(frame@));
                    assert forall|i: int| 0 <= i < self.frames@.len() implies #[trigger] self.frames@[i]
                        == frame_of(self.assembler.emitted()[i]) by {
                        if i + 1 < self.frames@.len() {
                            assert(self.frames@[i] == old_frames[i]);
                        }
                    }
                    self.lemma_wf_accounts();
                }
                Some(frame)
            },
            None => {
                proof {
                    self.lemma_wf_accounts();
                }
                None
            },
        }
    }

    /// Ends the input; returns the frame of the pending records, if any.
    /// Afterwards the frames handed out, sent in order, carry every record
    /// read, in order, and the count is the number of records read.
    pub fn finish(&mut self) -> (r: Option<Vec<u8>>)
        requires
            old(self).wf(),
        ensures
            final(self).consumed() == old(self).consumed(),
            final(self).pending() == Seq::<Seq<u8>>::empty(),
            old(self).pending().len() == 0 ==> r is None && final(self).frames() == old(self).frames(),
            old(self).pending().len() > 0 ==> {
                &&& r is Some
                &&& r->0@ == frame_of(old(self).pending())
                &&& final(self).frames() == old(self).frames().push(r->0@)
            },
            concat(final(self).frames()) == frame_of(old(self).consumed()),
            final(self).sent() == old(self).consumed().len(),
    {
        proof {
            self.lemma_wf_accounts();
        }
        let ghost e0 = self.assembler.emitted();
        let r = match self.assembler.finish() {
            Some(batch) => {
                let frame = encode(batch.as_slice());
                proof {
                    lemma_flatten_push(e0, records_view(batch@));
                }
                self.records_sent = self.records_sent + batch.len();
                proof {
                    let old_frames = self.frames@;
                    self.frames = Ghost(self.frames@.push(frame@));
                    assert forall|i: int| 0 <= i < self.frames@.len() implies #[trigger] self.frames@[i]
                        == frame_of(self.assembler.emitted()[i]) by {
                        if i + 1 < self.frames@.len() {
                            assert(self.frames@[i] == old_frames[i]);
                        }
                    }
                }
                Some(frame)
            },
            None => None,
        };
        proof {
            lemma_concat_frames(self.assembler.emitted(), self.frames@);
        }
        r
    }
}

/// Frames of batches, sent in order, carry the records of the batches in order.
pub proof fn lemma_concat_frames(batches: Seq<Seq<Seq<u8>>>, frames: Seq<Seq<u8>>)
    requires
        frames.len() == batches.len(),
        forall|i: int| 0 <= i < frames.len() ==> #[trigger] frames[i] == frame_of(batches[i]),
    ensures
        concat(frames) == frame_of(flatten(batches)),
    decreases batches.len(),
{
    if batches.len() > 0 {
        let fb = frames.drop_last();
        let bb = batches.drop_last();
        assert forall|i: int| 0 <= i < fb.len() implies #[trigger] fb[i] == frame_of(bb[i]) by {
            assert(fb[i] == frames[i]);
        }
        lemma_concat_frames(bb, fb);
        lemma_frame_concat(flatten(bb), batches.last());
        assert(frames.last() == frame_of(batches[batches.len() - 1]));
    }
}

} // verus!
