//! Transfer executor core: the decision logic of the data-channel copy
//! loop. The caller owns the socket and the sink; this state machine is fed
//! each read's byte count and says what to write and when to stop. The
//! final write is sized so that exactly the declared byte count reaches the
//! sink, even if the peer sends more.

use vstd::prelude::*;

verus! {

/// Progress of one transfer: how many bytes have reached the sink, against
/// the declared size. Owned for the duration of one transfer only.
pub struct Transfer {
    pub size: usize,
    pub written: usize,
}

/// What to do with one read from the data socket.
#[derive(PartialEq, Eq, Structural)]
pub enum ReadStep {
    /// Write the first `count` bytes of the chunk; `done` says the declared
    /// size has now been reached.
    Write { count: usize, done: bool },
    /// The peer closed the socket before the declared size arrived: fatal.
    ShortTransfer,
}

impl Transfer {
    pub open spec fn wf(&self) -> bool {
        self.written <= self.size
    }

    pub fn new(size: usize) -> (r: Transfer)
        ensures
            r.size == size,
            r.written == 0,
            r.wf(),
    {
        Transfer { size, written: 0 }
    }

    /// React to one read of `count` bytes (zero meaning the peer closed the
    /// connection). Progress only ever grows, never past the declared size.
    pub fn on_read(&mut self, count: usize) -> (r: ReadStep)
        requires
            old(self).wf(),
            old(self).written < old(self).size,
        ensures
            final(self).wf(),
            final(self).size == old(self).size,
            count == 0 ==> r == ReadStep::ShortTransfer && *final(self) == *old(self),
            count > 0 ==> ({
                let w = if count <= old(self).size - old(self).written {
                    count as int
                } else {
                    old(self).size - old(self).written
                };
                &&& final(self).written == old(self).written + w
                &&& r == (ReadStep::Write {
                    count: w as usize,
                    done: final(self).written == final(self).size,
                })
            }),
    {
        if count == 0 {
            return ReadStep::ShortTransfer;
        }
        let room = self.size - self.written;
        let w = if count <= room {
            count
        } else {
            room
        };
        self.written = self.written + w;
        ReadStep::Write { count: w, done: self.written == self.size }
    }
}

/// The whole-transfer model: what becomes of a transfer that starts with
/// `written` bytes done out of `size`, when the socket delivers `reads`.
pub ghost enum RunOutcome {
    /// The declared size was reached; `written` bytes total hit the sink.
    Done { written: nat },
    /// A read returned zero before the size was reached.
    Short { written: nat },
    /// The reads ran out with the transfer still incomplete.
    NeedMore { written: nat },
}

pub open spec fn run_from(written: nat, size: nat, reads: Seq<nat>) -> RunOutcome
    decreases reads.len(),
{
    if written >= size {
        RunOutcome::Done { written }
    } else if reads.len() == 0 {
        RunOutcome::NeedMore { written }
    } else if reads.first() == 0 {
        RunOutcome::Short { written }
    } else {
        let w = if reads.first() <= size - written {
            reads.first()
        } else {
            (size - written) as nat
        };
        run_from(written + w, size, reads.drop_first())
    }
}

pub open spec fn sum(reads: Seq<nat>) -> nat
    decreases reads.len(),
{
    if reads.len() == 0 {
        0
    } else {
        reads.first() + sum(reads.drop_first())
    }
}

proof fn lemma_run_done(written: nat, size: nat, reads: Seq<nat>)
    requires
        forall|i: int| 0 <= i < reads.len() ==> reads[i] > 0,
        written + sum(reads) == size,
    ensures
        run_from(written, size, reads) == (RunOutcome::Done { written: size }),
    decreases reads.len(),
{
    if written >= size {
        assert(sum(reads) == 0);
    } else {
        assert(reads.len() > 0);
        assert(reads.first() > 0);
        assert(forall|i: int|
            0 <= i < reads.drop_first().len() ==> #[trigger] reads.drop_first()[i] == reads[i + 1]);
        lemma_run_done(written + reads.first(), size, reads.drop_first());
    }
}

/// Transfer completion: when the data socket delivers exactly the declared
/// size across any number of non-empty reads, the executor writes exactly
/// that many bytes to the sink and finishes without error.
pub proof fn lemma_transfer_completion(size: nat, reads: Seq<nat>)
    requires
        forall|i: int| 0 <= i < reads.len() ==> reads[i] > 0,
        sum(reads) == size,
    ensures
        run_from(0, size, reads) == (RunOutcome::Done { written: size }),
{
    lemma_run_done(0, size, reads);
}

proof fn lemma_run_short(written: nat, size: nat, reads: Seq<nat>)
    requires
        forall|i: int| 0 <= i < reads.len() ==> reads[i] > 0,
        written + sum(reads) < size,
    ensures
        run_from(written, size, reads.push(0)) == (RunOutcome::Short {
            written: (written + sum(reads)) as nat,
        }),
    decreases reads.len(),
{
    if reads.len() == 0 {
        assert(reads.push(0).first() == 0);
    } else {
        assert(reads.push(0).first() == reads.first());
        assert(reads.push(0).drop_first() =~= reads.drop_first().push(0));
        assert(forall|i: int|
            0 <= i < reads.drop_first().len() ==> #[trigger] reads.drop_first()[i] == reads[i + 1]);
        lemma_run_short(written + reads.first(), size, reads.drop_first());
    }
}

/// Short-transfer detection: when the peer closes (a zero-length read)
/// after delivering fewer bytes than declared, the transfer fails with the
/// short-transfer error, having written exactly what arrived.
pub proof fn lemma_short_transfer_detection(size: nat, reads: Seq<nat>)
    requires
        forall|i: int| 0 <= i < reads.len() ==> reads[i] > 0,
        sum(reads) < size,
    ensures
        run_from(0, size, reads.push(0)) == (RunOutcome::Short { written: sum(reads) }),
{
    lemma_run_short(0, size, reads);
}

} // verus!
