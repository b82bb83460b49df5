//! Writes: cutting a write into messages, and the bookkeeping of deferred writes.

use crate::calls;
use crate::calls::{Answer, AnswerOf, Call, CallOf, EIO};
use vstd::prelude::*;
use vstd::slice::slice_subrange;

verus! {

/// A write under way: `data` goes to `fid` from byte `start` on, in messages of at most `chunk`
/// bytes, and the first `pos` bytes have been taken. `B` is the type of a run of bytes.
#[derive(Debug, PartialEq, Eq)]
pub struct JobOf<B> {
    pub fid: u32,
    pub start: u64,
    pub data: B,
    pub chunk: usize,
    pub pos: usize,
}

pub type WriteJob = JobOf<Vec<u8>>;

pub type JobView = JobOf<Seq<u8>>;

impl View for JobOf<Vec<u8>> {
    type V = JobView;

    open spec fn view(&self) -> JobView {
        JobOf {
            fid: self.fid,
            start: self.start,
            data: self.data@,
            chunk: self.chunk,
            pos: self.pos,
        }
    }
}

/// A fresh write.
pub open spec fn fresh_job(fid: u32, start: u64, data: Seq<u8>, chunk: usize) -> JobView {
    JobOf { fid, start, data, chunk, pos: 0 }
}

/// Whether a write of `len` bytes from `start` on stays within the numbers that offsets can be.
pub open spec fn write_fits(start: u64, len: nat) -> bool {
    start + len <= u64::MAX
}

/// Where the next message of a write ends.
pub open spec fn chunk_end(job: JobView) -> int {
    let step: int = if job.chunk == 0 {
        1
    } else {
        job.chunk as int
    };
    if job.pos + step < job.data.len() {
        job.pos + step
    } else {
        job.data.len() as int
    }
}

/// The bytes of the next message of a write.
pub open spec fn next_piece(job: JobView) -> Seq<u8> {
    job.data.subrange(job.pos as int, chunk_end(job))
}

/// The next message of a write, or `None` if all has been taken. Offsets past the largest number wrap
/// around.
pub open spec fn job_call(job: JobView) -> Option<calls::CallView> {
    if job.pos < job.data.len() {
        Some(
            CallOf::Write {
                fid: job.fid,
                offset: job.start.wrapping_add(job.pos as u64),
                data: next_piece(job),
            },
        )
    } else {
        None
    }
}

/// How far a write has got when `n` more bytes of it were taken.
pub open spec fn pos_after(job: JobView, n: u32) -> usize {
    if job.pos + n < job.data.len() {
        (job.pos + n) as usize
    } else {
        job.data.len() as usize
    }
}

/// What the outcome of a message makes of a write. A server that takes no bytes has failed, so that
/// the write does not go on for ever.
pub open spec fn job_advanced(job: JobView, outcome: calls::Outcome) -> Result<JobView, i32> {
    match outcome {
        Ok(AnswerOf::Count(n)) => if n == 0 {
            Err(EIO)
        } else {
            Ok(JobOf { pos: pos_after(job, n), ..job })
        },
        Ok(_) => Err(EIO),
        Err(e) => Err(e),
    }
}

impl JobOf<Vec<u8>> {
    pub fn new(fid: u32, start: u64, data: Vec<u8>, chunk: usize) -> (job: Self)
        ensures
            job@ == fresh_job(fid, start, data@, chunk),
            job.data == data,
    {
        JobOf { fid, start, data, chunk, pos: 0 }
    }

    /// The next message to send, or `None` if all has been taken.
    pub fn next(&self) -> (call: Option<Call>)
        ensures
            match call {
                Some(c) => job_call(self@) == Some(c@),
                None => job_call(self@) is None,
            },
    {
        if self.pos >= self.data.len() {
            return None;
        }
        let step: usize = if self.chunk == 0 {
            1
        } else {
            self.chunk
        };
        let left: usize = self.data.len() - self.pos;
        let end: usize = if step < left {
            self.pos + step
        } else {
            self.data.len()
        };
        let data: Vec<u8> = vstd::slice::slice_to_vec(
            slice_subrange(self.data.as_slice(), self.pos, end),
        );
        Some(CallOf::Write { fid: self.fid, offset: self.start.wrapping_add(self.pos as u64), data })
    }

    /// Takes the outcome of the message that was sent.
    pub fn advance(self, outcome: Result<Answer, i32>) -> (r: Result<Self, i32>)
        ensures
            match r {
                Ok(job) => job_advanced(self@, calls::outcome_view(outcome)) == Ok::<JobView, i32>(
                    job@,
                ),
                Err(e) => job_advanced(self@, calls::outcome_view(outcome)) == Err::<JobView, i32>(
                    e,
                ),
            },
    {
        match outcome {
            Ok(AnswerOf::Count(n)) => {
                if n == 0 {
                    Err(EIO)
                } else {
                    let len: usize = self.data.len();
                    let pos: usize = if self.pos < len && (n as usize) < len - self.pos {
                        self.pos + n as usize
                    } else {
                        len
                    };
                    Ok(
                        JobOf {
                            fid: self.fid,
                            start: self.start,
                            chunk: self.chunk,
                            pos,
                            data: self.data,
                        },
                    )
                }
            },
            Ok(_) => Err(EIO),
            Err(e) => Err(e),
        }
    }
}

/// The state of a write after the server took `counts[0]`, `counts[1]`, ... bytes of its messages.
pub open spec fn job_after(job: JobView, counts: Seq<u32>) -> JobView
    decreases counts.len(),
{
    if counts.len() == 0 {
        job
    } else {
        let before = job_after(job, counts.drop_last());
        JobOf { pos: pos_after(before, counts.last()), ..before }
    }
}

/// That the server took some, and no more than it was sent, of each message.
pub open spec fn honest(job: JobView, counts: Seq<u32>) -> bool
    decreases counts.len(),
{
    counts.len() > 0 ==> {
        let before = job_after(job, counts.drop_last());
        &&& honest(job, counts.drop_last())
        &&& before.pos < before.data.len()
        &&& 0 < counts.last() <= next_piece(before).len()
    }
}

/// What the server has written, in order, when it took that much of each message.
pub open spec fn taken(job: JobView, counts: Seq<u32>) -> Seq<u8>
    decreases counts.len(),
{
    if counts.len() == 0 {
        Seq::empty()
    } else {
        taken(job, counts.drop_last()) + next_piece(job_after(job, counts.drop_last())).subrange(
            0,
            counts.last() as int,
        )
    }
}

/// However little the server takes at a time, it writes the data once and in order: each message
/// starts at the offset where the one before it was cut off, and when none is left, all of the data
/// has been written.
pub proof fn write_covers_data_once(
    fid: u32,
    start: u64,
    data: Seq<u8>,
    chunk: usize,
    counts: Seq<u32>,
)
    requires
        write_fits(start, data.len()),
        data.len() <= usize::MAX,
        honest(fresh_job(fid, start, data, chunk), counts),
    ensures
        ({
            let job = fresh_job(fid, start, data, chunk);
            let now = job_after(job, counts);
            &&& now.pos <= data.len()
            &&& taken(job, counts) == data.subrange(0, now.pos as int)
            &&& job_call(now) matches Some(CallOf::Write { offset, .. }) ==> offset == start
                + taken(job, counts).len()
            &&& job_call(now) is None ==> taken(job, counts) == data
        }),
    decreases counts.len(),
{
    let job = fresh_job(fid, start, data, chunk);
    lemma_job_keeps(job, counts);
    if counts.len() == 0 {
        assert(data.subrange(0, 0) =~= Seq::<u8>::empty());
        assert(data.len() == 0 ==> data =~= Seq::<u8>::empty());
    } else {
        write_covers_data_once(fid, start, data, chunk, counts.drop_last());
        let before = job_after(job, counts.drop_last());
        lemma_job_keeps(job, counts.drop_last());
        let now = job_after(job, counts);
        assert(next_piece(before).subrange(0, counts.last() as int) =~= data.subrange(
            before.pos as int,
            now.pos as int,
        ));
        assert(data.subrange(0, before.pos as int) + data.subrange(
            before.pos as int,
            now.pos as int,
        ) =~= data.subrange(0, now.pos as int));
        if job_call(now) is None {
            assert(data.subrange(0, now.pos as int) =~= data);
        }
    }
}

/// Every message of a write goes to the file that the write is for, and carries as much of what is
/// left, from where the last one was cut off, as one message may.
pub proof fn write_goes_to_its_file(job: JobView, counts: Seq<u32>)
    requires
        job.data.len() <= usize::MAX,
    ensures
        ({
            let now = job_after(job, counts);
            let left = job.data.len() - now.pos;
            match job_call(now) {
                Some(CallOf::Write { fid, offset, data }) => {
                    &&& left > 0 && fid == job.fid
                    &&& job.start + now.pos <= u64::MAX ==> offset == job.start + now.pos
                    &&& data.len() == if job.chunk == 0 {
                        1
                    } else if job.chunk < left {
                        job.chunk as int
                    } else {
                        left
                    }
                    &&& forall|i: int| 0 <= i < data.len() ==> #[trigger] data[i] == job.data[now.pos
                        + i]
                },
                Some(_) => false,
                None => left <= 0,
            }
        }),
{
    lemma_job_keeps(job, counts);
}

/// A server that takes some of each message is done after at most one message per byte.
pub proof fn write_ends(fid: u32, start: u64, data: Seq<u8>, chunk: usize, counts: Seq<u32>)
    requires
        write_fits(start, data.len()),
        data.len() <= usize::MAX,
        honest(fresh_job(fid, start, data, chunk), counts),
    ensures
        counts.len() <= data.len(),
        counts.len() <= job_after(fresh_job(fid, start, data, chunk), counts).pos,
    decreases counts.len(),
{
    write_covers_data_once(fid, start, data, chunk, counts);
    if counts.len() > 0 {
        write_ends(fid, start, data, chunk, counts.drop_last());
        write_covers_data_once(fid, start, data, chunk, counts.drop_last());
        lemma_job_keeps(fresh_job(fid, start, data, chunk), counts.drop_last());
    }
}

proof fn lemma_job_keeps(job: JobView, counts: Seq<u32>)
    ensures
        job_after(job, counts) == (JobOf { pos: job_after(job, counts).pos, ..job }),
    decreases counts.len(),
{
    if counts.len() > 0 {
        lemma_job_keeps(job, counts.drop_last());
    }
}

/// The deferred writes of one open file: how many may be in flight, how many are, and the first error
/// that one of them met, which a flush, an fsync or the release will report.
#[verifier::ext_equal]
pub struct QueueView {
    pub depth: usize,
    pub in_flight: usize,
    pub err: Option<i32>,
}

/// The deferred writes of one open file.
#[derive(Debug, PartialEq, Eq)]
pub struct WriteBack {
    depth: usize,
    in_flight: usize,
    err: Option<i32>,
}

impl View for WriteBack {
    type V = QueueView;

    closed spec fn view(&self) -> QueueView {
        QueueView { depth: self.depth, in_flight: self.in_flight, err: self.err }
    }
}

/// The error to report when one more deferred write has ended: the first one stays.
pub open spec fn kept(err: Option<i32>, result: Result<(), i32>) -> Option<i32> {
    match (err, result) {
        (None, Err(e)) => Some(e),
        _ => err,
    }
}

/// The error to report when several deferred writes have ended in turn.
pub open spec fn kept_after(results: Seq<Result<(), i32>>) -> Option<i32>
    decreases results.len(),
{
    if results.len() == 0 {
        None
    } else {
        kept(kept_after(results.drop_last()), results.last())
    }
}

/// If any deferred write failed, the error of the first that did is reported; else none is.
pub proof fn first_error_is_reported(results: Seq<Result<(), i32>>)
    ensures
        match kept_after(results) {
            Some(e) => exists|i: int|
                {
                    &&& 0 <= i < results.len()
                    &&& #[trigger] results[i] == Err::<(), i32>(e)
                    &&& forall|j: int| 0 <= j < i ==> (#[trigger] results[j]) is Ok
                },
            None => forall|j: int| 0 <= j < results.len() ==> (#[trigger] results[j]) is Ok,
        },
    decreases results.len(),
{
    if results.len() > 0 {
        let before = results.drop_last();
        first_error_is_reported(before);
        let last = results.len() - 1;
        match kept_after(before) {
            Some(e) => {
                let i = choose|i: int|
                    {
                        &&& 0 <= i < before.len()
                        &&& #[trigger] before[i] == Err::<(), i32>(e)
                        &&& forall|j: int| 0 <= j < i ==> (#[trigger] before[j]) is Ok
                    };
                assert(results[i] == Err::<(), i32>(e));
                assert forall|j: int| 0 <= j < i implies (#[trigger] results[j]) is Ok by {
                    assert(before[j] is Ok);
                }
            },
            None => {
                assert forall|j: int| 0 <= j < last implies (#[trigger] results[j]) is Ok by {
                    assert(before[j] is Ok);
                }
                assert(results[last] == results.last());
            },
        }
    }
}

/// A queue with nothing in flight.
pub open spec fn queue_new(depth: usize) -> QueueView {
    QueueView { depth, in_flight: 0, err: None }
}

/// The queue when one more write wants to start, and whether it may: not while as many are in flight
/// as the depth allows.
pub open spec fn queue_started(q: QueueView) -> (QueueView, bool) {
    if q.in_flight < q.depth {
        (QueueView { in_flight: (q.in_flight + 1) as usize, ..q }, true)
    } else {
        (q, false)
    }
}

/// The queue when a write has ended.
pub open spec fn queue_ended(q: QueueView, result: Result<(), i32>) -> QueueView {
    QueueView {
        in_flight: if q.in_flight > 0 {
            (q.in_flight - 1) as usize
        } else {
            0
        },
        err: kept(q.err, result),
        ..q
    }
}

/// The queue when someone wants to know how the writes came out, and the answer: none while one is in
/// flight, then the error, which is told once.
pub open spec fn queue_drained(q: QueueView) -> (QueueView, Option<Option<i32>>) {
    if q.in_flight == 0 {
        (QueueView { err: None, ..q }, Some(q.err))
    } else {
        (q, None)
    }
}

/// Never are more writes of a file in flight than its depth allows.
pub proof fn depth_bounds_writes_in_flight(q: QueueView, result: Result<(), i32>)
    requires
        q.in_flight <= q.depth,
    ensures
        queue_started(q).0.in_flight <= q.depth,
        queue_ended(q, result).in_flight <= q.depth,
        queue_drained(q).0.in_flight <= q.depth,
        queue_started(q).0.depth == q.depth,
        queue_ended(q, result).depth == q.depth,
        queue_drained(q).0.depth == q.depth,
{
}

/// A write that may not start can when another has ended, so that none waits for ever behind writes
/// that end.
pub proof fn an_ended_write_makes_room(q: QueueView, result: Result<(), i32>)
    requires
        0 < q.in_flight <= q.depth,
    ensures
        queue_started(queue_ended(q, result)).1,
{
}

/// An error is not lost while writes go on: it stays until it is told.
pub proof fn errors_stay_until_told(q: QueueView, result: Result<(), i32>)
    requires
        q.err is Some,
    ensures
        queue_started(q).0.err == q.err,
        queue_ended(q, result).err == q.err,
        queue_drained(q).1 is None ==> queue_drained(q).0.err == q.err,
        queue_drained(q).1 matches Some(told) ==> told == q.err && queue_drained(q).0.err is None,
{
}

impl WriteBack {
    #[verifier::type_invariant]
    spec fn bounded(self) -> bool {
        self.in_flight <= self.depth
    }

    pub fn new(depth: usize) -> (w: Self)
        ensures
            w@ == queue_new(depth),
    {
        WriteBack { depth, in_flight: 0, err: None }
    }

    /// A write wants to start. Returns whether it may.
    pub fn start(&mut self) -> (go: bool)
        ensures
            (final(self)@, go) == queue_started(old(self)@),
            final(self)@.in_flight <= final(self)@.depth,
    {
        proof {
            use_type_invariant(&*self);
        }
        if self.in_flight < self.depth {
            self.in_flight = self.in_flight + 1;
            true
        } else {
            false
        }
    }

    /// A deferred write has ended. The first error is kept, later ones are dropped.
    pub fn finished(&mut self, result: Result<(), i32>)
        ensures
            final(self)@ == queue_ended(old(self)@, result),
            final(self)@.in_flight <= final(self)@.depth,
    {
        proof {
            use_type_invariant(&*self);
        }
        if self.in_flight > 0 {
            self.in_flight = self.in_flight - 1;
        }
        if let Err(e) = result {
            if self.err.is_none() {
                self.err = Some(e);
            }
        }
    }

    /// Asks how the deferred writes came out: `None` while one is in flight, else the error to
    /// report, if any. It is reported once.
    pub fn drain(&mut self) -> (r: Option<Option<i32>>)
        ensures
            (final(self)@, r) == queue_drained(old(self)@),
    {
        if self.in_flight == 0 {
            let e: Option<i32> = self.err;
            self.err = None;
            Some(e)
        } else {
            None
        }
    }
}

/// A write that finds room is one more in flight, and one that does not changes nothing. An ended
/// write is one less, and its error is kept if it is the first since errors were last told. Errors are
/// told once nothing is in flight, and then forgotten.
pub proof fn queue_counts_writes(q: QueueView, e: i32)
    requires
        0 < q.in_flight < usize::MAX,
    ensures
        q.in_flight < q.depth ==> {
            &&& queue_started(q).1 && queue_started(q).0.in_flight == q.in_flight + 1
            &&& queue_started(q).0.err == q.err
        },
        q.in_flight >= q.depth ==> !queue_started(q).1 && queue_started(q).0 == q,
        queue_ended(q, Ok(())).in_flight == q.in_flight - 1,
        queue_ended(q, Ok(())).err == q.err,
        queue_ended(q, Err(e)).in_flight == q.in_flight - 1,
        q.err is None ==> queue_ended(q, Err(e)).err == Some(e),
        q.err is Some ==> queue_ended(q, Err(e)).err == q.err,
        queue_drained(q).1 is None && queue_drained(q).0 == q,
        ({
            let idle = QueueView { in_flight: 0, ..q };
            &&& queue_drained(idle).1 == Some(q.err)
            &&& queue_drained(idle).0.err is None && queue_drained(idle).0.in_flight == 0
            &&& queue_drained(queue_drained(idle).0).1 == Some(None::<i32>)
        }),
{
}

/// How a write goes on when a message of it has come out: from behind what the server took, unless the
/// server took nothing (5), refused, or answered something else (5).
pub proof fn writes_go_on_behind_what_was_taken(job: JobView, n: u32, e: i32, a: calls::AnswerView)
    requires
        job.pos < job.data.len() <= usize::MAX,
    ensures
        0 < n <= job.data.len() - job.pos ==> {
            &&& job_advanced(job, Ok(AnswerOf::Count(n))) matches Ok(next) && {
                &&& next.pos == job.pos + n && next.fid == job.fid && next.start == job.start
                &&& next.data == job.data && next.chunk == job.chunk
            }
        },
        n > job.data.len() - job.pos ==> (job_advanced(job, Ok(AnswerOf::Count(n))) matches Ok(next)
            && job_call(next) is None),
        job_advanced(job, Ok(AnswerOf::Count(0))) matches Err(x) && x == 5,
        job_advanced(job, Err(e)) matches Err(x) && x == e,
        !(a is Count) ==> (job_advanced(job, Ok(a)) matches Err(x) && x == 5),
{
}

/// A fresh queue lets as many writes start as it has room for, and has no error to tell.
pub proof fn fresh_queues_are_idle(depth: usize)
    ensures
        queue_new(depth).depth == depth,
        queue_started(queue_new(depth)).1 <==> depth > 0,
        queue_drained(queue_new(depth)).1 == Some(None::<i32>),
{
}

} // verus!
