use vstd::prelude::*;
use std::collections::VecDeque;

verus! {

/// What a worker receives: a job to run, or the signal to exit.
pub enum Message<J> {
    NewJob(J),
    Terminate,
}

/// The number of terminate signals in `s`.
pub open spec fn terminates<J>(s: Seq<Message<J>>) -> nat
    decreases s.len(),
{
    if s.len() == 0 {
        0
    } else {
        (if s[0] is Terminate {
            1nat
        } else {
            0nat
        }) + terminates(s.drop_first())
    }
}

proof fn lemma_terminates_push<J>(s: Seq<Message<J>>, m: Message<J>)
    ensures
        terminates(s.push(m)) == terminates(s) + if m is Terminate {
            1nat
        } else {
            0nat
        },
    decreases s.len(),
{
    if s.len() > 0 {
        lemma_terminates_push(s.drop_first(), m);
        assert(s.push(m).drop_first() == s.drop_first().push(m));
        assert(s.push(m)[0] == s[0]);
    } else {
        assert(s.push(m).drop_first() == s);
        assert(s.push(m)[0] == m);
    }
}

proof fn lemma_no_terminates<J>(s: Seq<Message<J>>)
    requires
        forall|i: int| 0 <= i < s.len() ==> (#[trigger] s[i]) is NewJob,
    ensures
        terminates(s) == 0,
    decreases s.len(),
{
    if s.len() > 0 {
        lemma_no_terminates(s.drop_first());
    }
}

/// The queue from which a fixed set of workers takes its work. Jobs are
/// taken in the order they were submitted. Shutdown queues one terminate
/// signal per live worker, and each worker exits on the first it takes.
pub struct JobQueue<J> {
    messages: VecDeque<Message<J>>,
    live: usize,
    closed: bool,
    /// While closed: how many of the queued messages were queued before
    /// shutdown began; the rest are late jobs.
    early: Ghost<nat>,
}

impl<J> JobQueue<J> {
    /// The queued messages, oldest first.
    pub closed spec fn queue(&self) -> Seq<Message<J>> {
        self.messages@
    }

    /// The number of workers that have not yet exited.
    pub closed spec fn live_workers(&self) -> nat {
        self.live as nat
    }

    /// Whether shutdown has begun.
    pub closed spec fn is_closed(&self) -> bool {
        self.closed
    }

    /// Once shutdown has begun, the number of queued messages that were
    /// queued before it.
    pub closed spec fn early_count(&self) -> nat {
        self.early@
    }

    /// Before shutdown only jobs are queued. After it, the early messages
    /// hold exactly one terminate signal per live worker, and all later
    /// messages are jobs.
    pub closed spec fn wf(&self) -> bool {
        if self.closed {
            &&& self.early@ <= self.messages@.len()
            &&& terminates(self.messages@.take(self.early@ as int)) == self.live
            &&& forall|i: int|
                self.early@ <= i < self.messages@.len() ==> (#[trigger] self.messages@[i]) is NewJob
        } else {
            forall|i: int| 0 <= i < self.messages@.len() ==> (#[trigger] self.messages@[i]) is NewJob
        }
    }

    /// An empty queue for `workers` workers.
    pub fn new(workers: usize) -> (r: Self)
        ensures
            r.wf(),
            r.queue().len() == 0,
            r.live_workers() == workers,
            !r.is_closed(),
    {
        JobQueue { messages: VecDeque::new(), live: workers, closed: false, early: Ghost(0) }
    }

    pub fn live_count(&self) -> (r: usize)
        ensures
            r == self.live_workers(),
    {
        self.live
    }

    /// Queues a job behind everything queued so far. It never blocks.
    pub fn submit(&mut self, job: J)
        requires
            old(self).wf(),
        ensures
            final(self).wf(),
            final(self).queue() == old(self).queue().push(Message::NewJob(job)),
            final(self).live_workers() == old(self).live_workers(),
            final(self).is_closed() == old(self).is_closed(),
            final(self).early_count() == old(self).early_count(),
    {
        let ghost before = self.messages@;
        self.messages.push_back(Message::NewJob(job));
        proof {
            if self.closed {
                assert(self.messages@.take(self.early@ as int) == before.take(self.early@ as int));
            }
        }
    }

    /// Begins shutdown: queues one terminate signal per live worker. A
    /// queue whose shutdown has begun is left as it is.
    pub fn shutdown(&mut self)
        requires
            old(self).wf(),
        ensures
            final(self).wf(),
            final(self).is_closed(),
            final(self).live_workers() == old(self).live_workers(),
            old(self).is_closed() ==> *final(self) == *old(self),
            !old(self).is_closed() ==> final(self).queue() == old(self).queue() + Seq::new(
                old(self).live_workers(),
                |i: int| Message::<J>::Terminate,
            ),
            !old(self).is_closed() ==> final(self).early_count() == final(self).queue().len(),
    {
        if self.closed {
            return;
        }
        let ghost start = self.messages@;
        proof {
            lemma_no_terminates(start);
        }
        let mut k: usize = 0;
        assert(start == start + Seq::new(0, |i: int| Message::<J>::Terminate));
        while k < self.live
            invariant
                !self.closed,
                self.live == old(self).live,
                start == old(self).messages@,
                k <= self.live,
                self.messages@ == start + Seq::new(k as nat, |i: int| Message::<J>::Terminate),
                terminates(self.messages@) == k,
            decreases self.live - k,
        {
            let ghost before = self.messages@;
            self.messages.push_back(Message::Terminate);
            proof {
                lemma_terminates_push(before, Message::<J>::Terminate);
                assert(self.messages@ =~= start + Seq::new((k + 1) as nat, |i: int| Message::<J>::Terminate));
            }
            k = k + 1;
        }
        self.closed = true;
        self.early = Ghost(self.messages@.len());
        assert(self.messages@.take(self.early@ as int) == self.messages@);
    }

    /// A live worker takes the oldest message; taking a terminate signal
    /// retires it. There is nothing to take when the queue is empty or no
    /// worker is left.
    pub fn take(&mut self) -> (r: Option<Message<J>>)
        requires
            old(self).wf(),
        ensures
            final(self).wf(),
            final(self).is_closed() == old(self).is_closed(),
            match r {
                Some(m) => {
                    &&& old(self).live_workers() > 0
                    &&& old(self).queue().len() > 0
                    &&& m == old(self).queue()[0]
                    &&& final(self).queue() == old(self).queue().drop_first()
                    &&& final(self).live_workers() == old(self).live_workers() - if m is Terminate {
                        1int
                    } else {
                        0int
                    }
                    &&& old(self).is_closed() ==> old(self).early_count() > 0
                        && final(self).early_count() == old(self).early_count() - 1
                },
                None => {
                    &&& old(self).live_workers() == 0 || old(self).queue().len() == 0
                    &&& *final(self) == *old(self)
                },
            },
    {
        if self.live == 0 || self.messages.len() == 0 {
            return None;
        }
        let ghost before = self.messages@;
        proof {
            if self.closed && self.early@ == 0 {
                assert(before.take(0) == Seq::<Message<J>>::empty());
            }
        }
        let m = self.messages.pop_front();
        match m {
            Some(msg) => {
                proof {
                    if self.closed {
                        let e = self.early@;
                        assert(before.take(e as int).drop_first() == self.messages@.take(e - 1));
                        self.early = Ghost((e - 1) as nat);
                    }
                }
                match &msg {
                    Message::Terminate => {
                        proof {
                            if !self.closed {
                                assert(before[0] is NewJob);
                            }
                        }
                        self.live = self.live - 1;
                    },
                    Message::NewJob(_) => {},
                }
                Some(msg)
            },
            None => None,
        }
    }
}

/// Shutdown runs no late job. Once shutdown has begun, a job submitted
/// afterwards stands behind every terminate signal, one per live worker; so
/// when only such jobs are left in the queue, no worker is left to take
/// them.
pub proof fn lemma_late_jobs_never_run<J>(q: JobQueue<J>)
    requires
        q.wf(),
        q.is_closed(),
        q.early_count() == 0,
    ensures
        q.live_workers() == 0,
{
    assert(q.messages@.take(0) == Seq::<Message<J>>::empty());
}

} // verus!
