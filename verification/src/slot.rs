//! The single slot in which a video is processed: at most one job holds it,
//! and every other job is told to wait and ask again.
use vstd::prelude::*;

verus! {

/// How long a job waits before it asks again, in milliseconds.
pub const RETRY_BACKOFF_MS: u64 = 600;

/// What a job that asks for the slot is told.
#[derive(Clone, Copy, Debug, PartialEq, Eq, Structural)]
pub enum Admission {
    /// The slot is the job's own, under this number, until it releases it.
    Run { job: u64 },
    /// Another job holds the slot: ask again after the backoff.
    Wait { backoff_ms: u64 },
}

/// The slot: who holds it, and the number that the next holder gets.
#[derive(Clone, Copy, Debug, PartialEq, Eq, Structural)]
pub struct ProcessingSlot {
    pub holder: Option<u64>,
    pub next_job: u64,
}

/// The number after `job`; after the last number the first comes again.
pub open spec fn following(job: u64) -> u64 {
    if job == u64::MAX {
        0
    } else {
        (job + 1) as u64
    }
}

impl ProcessingSlot {
    /// The slot after a job has asked for it: taken when it was free, as it
    /// was when it was held.
    pub open spec fn asked(self) -> ProcessingSlot {
        if self.holder is None {
            ProcessingSlot { holder: Some(self.next_job), next_job: following(self.next_job) }
        } else {
            self
        }
    }

    /// What a job that asks for the slot is told.
    pub open spec fn answer(self) -> Admission {
        if self.holder is None {
            Admission::Run { job: self.next_job }
        } else {
            Admission::Wait { backoff_ms: RETRY_BACKOFF_MS }
        }
    }

    /// The slot after the job under the number `job` has given it back:
    /// free when that job held it, as it was otherwise.
    pub open spec fn given_back(self, job: u64) -> ProcessingSlot {
        if self.holder == Some(job) {
            ProcessingSlot { holder: None, next_job: self.next_job }
        } else {
            self
        }
    }

    /// A free slot.
    pub fn new() -> (slot: ProcessingSlot)
        ensures
            slot.holder is None,
            slot.next_job == 0,
    {
        ProcessingSlot { holder: None, next_job: 0 }
    }

    /// Tells whether a job holds the slot.
    pub fn is_busy(&self) -> (busy: bool)
        ensures
            busy == self.holder is Some,
    {
        self.holder.is_some()
    }

    /// Asks for the slot. A free slot is handed out under a number that
    /// no other job has; a slot that is held stays as it is, and the job is
    /// told to wait.
    pub fn try_acquire(&mut self) -> (admission: Admission)
        ensures
            *final(self) == old(self).asked(),
            admission == old(self).answer(),
            admission is Run <==> old(self).holder is None,
            admission is Run ==> final(self).holder == Some(admission->job),
    {
        if self.holder.is_some() {
            return Admission::Wait { backoff_ms: RETRY_BACKOFF_MS };
        }
        let job = self.next_job;
        self.holder = Some(job);
        self.next_job = if job == u64::MAX {
            0
        } else {
            job + 1
        };
        Admission::Run { job }
    }

    /// Gives the slot back. Only the job that holds it can do so; a call
    /// under any other number changes nothing.
    pub fn release(&mut self, job: u64) -> (released: bool)
        ensures
            *final(self) == old(self).given_back(job),
            released <==> old(self).holder == Some(job),
    {
        match self.holder {
            Some(holder) => {
                if holder == job {
                    self.holder = None;
                    true
                } else {
                    false
                }
            },
            None => false,
        }
    }
}

/// Single flight: while a job holds the slot, whoever asks is told to wait
/// and the slot stays the job's; no other number gives it back; and once
/// the job has given it back, the next to ask runs under another number.
pub proof fn lemma_single_flight(slot: ProcessingSlot, job: u64, other: u64)
    requires
        slot.holder == Some(job),
        other != job,
    ensures
        slot.answer() is Wait,
        slot.asked() == slot,
        slot.given_back(other) == slot,
        slot.given_back(job).holder is None,
        slot.given_back(job).answer() is Run,
        slot.given_back(job).asked().holder is Some,
        following(job) != job,
{
}

} // verus!
