//! The write batcher's buffer: durable-write commands accumulate here in
//! arrival order until the buffer fills or a tick finds it non-empty, at
//! which point the whole buffer is handed out as one batch to run inside
//! a single store transaction.

use crate::models::{CmdV, DbCommand};
use crate::BATCH_CAPACITY;
use vstd::prelude::*;

verus! {

/// The command buffer of the single batching worker.
pub struct Batcher {
    buf: Vec<DbCommand>,
}

impl View for Batcher {
    type V = Seq<CmdV>;

    closed spec fn view(&self) -> Seq<CmdV> {
        self.buf.deep_view()
    }
}

impl Batcher {
    /// The buffer never reaches its flush threshold between calls.
    pub open spec fn wf(&self) -> bool {
        self@.len() < BATCH_CAPACITY
    }

    /// An empty buffer.
    pub fn new() -> (r: Batcher)
        ensures
            r@ == Seq::<CmdV>::empty(),
            r.wf(),
    {
        let r = Batcher { buf: Vec::new() };
        proof {
            assert(r@ =~= Seq::<CmdV>::empty());
        }
        r
    }

    /// Commands currently buffered.
    pub fn len(&self) -> (n: usize)
        ensures
            n == self@.len(),
    {
        self.buf.len()
    }

    /// Accept one command. The command goes to the back of the buffer;
    /// when that fills the buffer to capacity, the whole buffer comes
    /// back as one batch, in arrival order, and the buffer is left empty.
    pub fn push(&mut self, cmd: DbCommand) -> (flushed: Option<Vec<DbCommand>>)
        requires
            old(self).wf(),
        ensures
            final(self).wf(),
            match flushed {
                Some(batch) => old(self)@.len() + 1 == BATCH_CAPACITY && batch.deep_view() == old(
                    self,
                )@.push(cmd@) && final(self)@ == Seq::<CmdV>::empty(),
                None => old(self)@.len() + 1 < BATCH_CAPACITY && final(self)@ == old(self)@.push(
                    cmd@,
                ),
            },
    {
        let ghost d0 = self@;
        let ghost c = cmd@;
        self.buf.push(cmd);
        proof {
            assert forall|k: int| 0 <= k < self@.len() implies self@[k] == d0.push(c)[k] by {
                if k < d0.len() {
                } else {
                }
            }
            assert(self@ =~= d0.push(c));
        }
        if self.buf.len() >= BATCH_CAPACITY {
            let mut batch: Vec<DbCommand> = Vec::new();
            core::mem::swap(&mut batch, &mut self.buf);
            proof {
                assert(self@ =~= Seq::<CmdV>::empty());
            }
            Some(batch)
        } else {
            None
        }
    }

    /// A tick of the flush timer: a non-empty buffer is handed out whole,
    /// in arrival order; an empty buffer stays put.
    pub fn tick(&mut self) -> (flushed: Option<Vec<DbCommand>>)
        requires
            old(self).wf(),
        ensures
            final(self).wf(),
            final(self)@ == Seq::<CmdV>::empty(),
            match flushed {
                Some(batch) => old(self)@.len() > 0 && batch.deep_view() == old(self)@,
                None => old(self)@.len() == 0,
            },
    {
        if self.buf.len() == 0 {
            proof {
                assert(self@ =~= Seq::<CmdV>::empty());
            }
            None
        } else {
            let mut batch: Vec<DbCommand> = Vec::new();
            core::mem::swap(&mut batch, &mut self.buf);
            proof {
                assert(self@ =~= Seq::<CmdV>::empty());
            }
            Some(batch)
        }
    }
}

} // verus!
