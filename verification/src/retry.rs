//! A queue of writes to the server that are tried again after a failure,
//! each time after a longer delay, and given up after a bounded number of
//! attempts, so that a failure in the background is reported.

use vstd::prelude::*;

verus! {

/// The most attempts a task gets.
pub const MAX_ATTEMPTS: u32 = 5;

/// The delay before the second attempt, in milliseconds.
pub const BASE_DELAY_MS: u64 = 200;

/// The longest delay between attempts, in milliseconds.
pub const MAX_DELAY_MS: u64 = 5000;

/// The delay before the next attempt after `failures` failed ones: the base
/// delay doubled with each failure after the first, up to the longest delay.
pub open spec fn backoff(failures: nat) -> nat
    decreases failures,
{
    if failures <= 1 {
        BASE_DELAY_MS as nat
    } else if backoff((failures - 1) as nat) * 2 >= MAX_DELAY_MS {
        MAX_DELAY_MS as nat
    } else {
        backoff((failures - 1) as nat) * 2
    }
}

/// The delay never exceeds the longest delay.
pub proof fn lemma_backoff_bounded(failures: nat)
    ensures
        BASE_DELAY_MS <= backoff(failures) <= MAX_DELAY_MS,
    decreases failures,
{
    if failures > 1 {
        lemma_backoff_bounded((failures - 1) as nat);
    }
}

/// The delay does not shrink with more failures.
pub proof fn lemma_backoff_monotone(failures: nat)
    ensures
        backoff(failures) <= backoff(failures + 1),
{
    lemma_backoff_bounded(failures);
}

/// The delay before the next attempt after `failures` failed ones.
pub fn backoff_delay(failures: u32) -> (delay: u64)
    ensures
        delay == backoff(failures as nat),
{
    let mut delay: u64 = BASE_DELAY_MS;
    let mut i: u32 = 1;
    while i < failures
        invariant
            1 <= i,
            i <= failures || failures == 0,
            failures == 0 ==> i == 1,
            delay == backoff(i as nat),
            delay <= MAX_DELAY_MS,
        decreases failures - i,
    {
        if delay * 2 >= MAX_DELAY_MS {
            delay = MAX_DELAY_MS;
        } else {
            delay = delay * 2;
        }
        i = i + 1;
    }
    proof {
        assert(backoff(0) == backoff(1));
    }
    delay
}

/// A task that waits to be tried again.
#[derive(Clone, Copy, Debug, PartialEq, Eq, Structural)]
pub struct RetryTask {
    /// The task's id in the queue.
    pub id: u64,
    /// How many attempts have failed.
    pub failures: u32,
}

/// What to do after an attempt has failed.
#[derive(Clone, Copy, Debug, PartialEq, Eq, Structural)]
pub enum RetryDecision {
    /// Try again after this many milliseconds.
    RetryAfter(u64),
    /// The task has used up its attempts: report it.
    GiveUp,
    /// No such task is in the queue.
    Unknown,
}

/// The tasks that are not done yet, oldest first.
pub struct RetryQueue {
    tasks: Vec<RetryTask>,
    next_id: u64,
}

/// The place of the task `id` in `tasks`, or their number where it is not
/// among them.
pub open spec fn position(tasks: Seq<RetryTask>, id: u64) -> int
    decreases tasks.len(),
{
    if tasks.len() == 0 {
        0
    } else if tasks[0].id == id {
        0
    } else {
        1 + position(tasks.skip(1), id)
    }
}

/// The place found is inside the tasks or just behind them, and holds the id.
pub proof fn lemma_position(tasks: Seq<RetryTask>, id: u64)
    ensures
        0 <= position(tasks, id) <= tasks.len(),
        position(tasks, id) < tasks.len() ==> tasks[position(tasks, id)].id == id,
        forall|j: int| 0 <= j < position(tasks, id) ==> (#[trigger] tasks[j]).id != id,
    decreases tasks.len(),
{
    if tasks.len() > 0 && tasks[0].id != id {
        lemma_position(tasks.skip(1), id);
        assert forall|j: int| 0 <= j < position(tasks, id) implies (#[trigger] tasks[j]).id
            != id by {
            if j > 0 {
                assert(tasks[j] == tasks.skip(1)[j - 1]);
            }
        }
    }
}

impl View for RetryQueue {
    type V = Seq<RetryTask>;

    closed spec fn view(&self) -> Seq<RetryTask> {
        self.tasks@
    }
}

impl RetryQueue {
    /// The id that the next task gets.
    pub closed spec fn spec_next_id(&self) -> u64 {
        self.next_id
    }

    /// Every task has failed fewer times than it has attempts, and its id
    /// was handed out before.
    #[verifier::type_invariant]
    spec fn wf(&self) -> bool {
        forall|i: int|
            0 <= i < self.tasks@.len() ==> (#[trigger] self.tasks@[i]).failures < MAX_ATTEMPTS
                && self.tasks@[i].id < self.next_id
    }

    /// An empty queue.
    pub fn new() -> (q: Self)
        ensures
            q@ == Seq::<RetryTask>::empty(),
            q.spec_next_id() == 0,
    {
        RetryQueue { tasks: Vec::new(), next_id: 0 }
    }

    /// How many tasks wait.
    pub fn len(&self) -> (n: usize)
        ensures
            n == self@.len(),
    {
        self.tasks.len()
    }

    /// Takes a new task in and gives its id.
    pub fn push(&mut self) -> (id: u64)
        requires
            old(self).spec_next_id() < u64::MAX,
        ensures
            id == old(self).spec_next_id(),
            final(self).spec_next_id() == id + 1,
            final(self)@ == old(self)@.push(RetryTask { id, failures: 0 }),
    {
        proof {
            use_type_invariant(&*self);
        }
        let id = self.next_id;
        let mut tasks: Vec<RetryTask> = Vec::new();
        core::mem::swap(&mut self.tasks, &mut tasks);
        tasks.push(RetryTask { id, failures: 0 });
        self.next_id = id + 1;
        self.tasks = tasks;
        id
    }

    /// The place of the task `id`, if it waits.
    fn find(&self, id: u64) -> (i: usize)
        ensures
            i == position(self@, id),
    {
        let mut i: usize = 0;
        proof {
            assert(self@.skip(0) =~= self@);
        }
        while i < self.tasks.len()
            invariant
                i <= self@.len(),
                position(self@, id) == i + position(self@.skip(i as int), id),
            decreases self@.len() - i,
        {
            proof {
                assert(self@.skip(i as int)[0] == self@[i as int]);
                assert(self@.skip(i as int).skip(1) =~= self@.skip(i + 1));
            }
            if self.tasks[i].id == id {
                return i;
            }
            i = i + 1;
        }
        i
    }

    /// The task `id` is done: it leaves the queue. It says whether the task
    /// was there.
    pub fn on_success(&mut self, id: u64) -> (found: bool)
        ensures
            final(self).spec_next_id() == old(self).spec_next_id(),
            found == (position(old(self)@, id) < old(self)@.len()),
            found ==> final(self)@ == old(self)@.remove(position(old(self)@, id)),
            !found ==> final(self)@ == old(self)@,
    {
        proof {
            use_type_invariant(&*self);
        }
        let i = self.find(id);
        if i < self.tasks.len() {
            let mut tasks: Vec<RetryTask> = Vec::new();
            core::mem::swap(&mut self.tasks, &mut tasks);
            let _ = tasks.remove(i);
            self.tasks = tasks;
            true
        } else {
            false
        }
    }

    /// An attempt at the task `id` has failed. A task that has attempts left
    /// stays and is to be tried again after the delay given; one that has
    /// used them up leaves the queue and is to be reported.
    pub fn on_failure(&mut self, id: u64) -> (d: RetryDecision)
        ensures
            final(self).spec_next_id() == old(self).spec_next_id(),
            ({
                let i = position(old(self)@, id);
                if i >= old(self)@.len() {
                    d == RetryDecision::Unknown && final(self)@ == old(self)@
                } else if old(self)@[i].failures + 1 >= MAX_ATTEMPTS {
                    d == RetryDecision::GiveUp && final(self)@ == old(self)@.remove(i)
                } else {
                    &&& d == RetryDecision::RetryAfter(
                        backoff((old(self)@[i].failures + 1) as nat) as u64,
                    )
                    &&& final(self)@ == old(self)@.update(
                        i,
                        RetryTask { id, failures: (old(self)@[i].failures + 1) as u32 },
                    )
                }
            }),
    {
        proof {
            use_type_invariant(&*self);
        }
        let i = self.find(id);
        proof {
            lemma_position(self@, id);
        }
        if i >= self.tasks.len() {
            return RetryDecision::Unknown;
        }
        let failures = self.tasks[i].failures + 1;
        let mut tasks: Vec<RetryTask> = Vec::new();
        core::mem::swap(&mut self.tasks, &mut tasks);
        if failures >= MAX_ATTEMPTS {
            let _ = tasks.remove(i);
            self.tasks = tasks;
            RetryDecision::GiveUp
        } else {
            tasks.set(i, RetryTask { id, failures });
            self.tasks = tasks;
            proof {
                lemma_backoff_bounded(failures as nat);
            }
            RetryDecision::RetryAfter(backoff_delay(failures))
        }
    }
}

} // verus!
