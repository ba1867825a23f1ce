//! The wake-ups of an event loop.
//!
//! Windows ask to be woken at a time of their choice. The loop keeps what
//! they ask for in order of time, sleeps until the first of them is due, and
//! wakes the window that asked for it. Times are counted in ticks of a clock
//! that the owner of the loop chooses.

use vstd::prelude::*;

verus! {

/// A wake-up asked for: the time, and the index of the window to wake.
#[derive(Clone, Copy, Debug, PartialEq, Eq, Structural)]
pub struct Resume {
    /// The time to wake at.
    pub at: u64,
    /// The index of the window to wake.
    pub window: usize,
}

/// What the event loop is to do until the next event.
#[derive(Clone, Copy, Debug, PartialEq, Eq, Structural)]
pub enum Flow {
    /// As it was told before.
    Unchanged,
    /// Sleep until an event arrives.
    Wait,
    /// Sleep until an event arrives or the time given has come.
    WaitUntil(u64),
    /// Leave the loop.
    Exit,
}

/// Whether the wake-ups are in order of time.
#[verifier::opaque]
pub open spec fn in_order(list: Seq<Resume>) -> bool {
    forall|i: int, j: int| 0 <= i <= j < list.len() ==> list[i].at <= list[j].at
}

/// How many of the wake-ups are due before `at`.
pub open spec fn count_before(list: Seq<Resume>, at: u64) -> int
    decreases list.len(),
{
    if list.len() == 0 {
        0
    } else {
        count_before(list.drop_last(), at) + if list.last().at < at {
            1int
        } else {
            0int
        }
    }
}

/// How many of the wake-ups are due at `at` or before.
pub open spec fn count_until(list: Seq<Resume>, at: u64) -> int
    decreases list.len(),
{
    if list.len() == 0 {
        0
    } else {
        count_until(list.drop_last(), at) + if list.last().at <= at {
            1int
        } else {
            0int
        }
    }
}

/// The wake-ups with one more asked for: it comes behind all that are due
/// at its time or before, as a sort that keeps the order of equals puts what
/// came last.
pub open spec fn added(list: Seq<Resume>, resume: Resume) -> Seq<Resume> {
    list.insert(count_until(list, resume.at), resume)
}

/// The wake-ups once the window of the first has asked for another time in
/// its place: the wake-up moves behind all that are due before its new time,
/// and stays before those due at that time, as a sort that keeps the order
/// of equals leaves what came first.
pub open spec fn moved_first(list: Seq<Resume>, at: u64) -> Seq<Resume> {
    let rest = list.drop_first();
    rest.insert(count_before(rest, at), Resume { at, window: list[0].window })
}

/// The wake-ups with those of several windows added, window by window:
/// `asked[i]` is what window `i` asks for.
pub open spec fn added_all(list: Seq<Resume>, asked: Seq<Option<u64>>) -> Seq<Resume>
    decreases asked.len(),
{
    if asked.len() == 0 {
        list
    } else {
        let before = added_all(list, asked.drop_last());
        match asked.last() {
            Some(at) => added(before, Resume { at, window: (asked.len() - 1) as usize }),
            None => before,
        }
    }
}

/// The index of a window once the window at `closed` is gone: the windows
/// behind it move up by one.
pub open spec fn index_after_close(window: usize, closed: usize) -> int {
    if window >= closed {
        window - 1
    } else {
        window as int
    }
}

/// What the loop is to do with these wake-ups asked for: sleep until the
/// first is due, or until an event arrives where there is none.
pub open spec fn flow_of(list: Seq<Resume>) -> Flow {
    if list.len() > 0 {
        Flow::WaitUntil(list[0].at)
    } else {
        Flow::Wait
    }
}

/// In wake-ups in order, those due before a time come first, and so do those
/// due at a time or before.
pub proof fn lemma_counts_split(list: Seq<Resume>, at: u64)
    requires
        in_order(list),
    ensures
        0 <= count_before(list, at) <= count_until(list, at) <= list.len(),
        forall|i: int| 0 <= i < count_before(list, at) ==> list[i].at < at,
        forall|i: int| count_before(list, at) <= i < list.len() ==> list[i].at >= at,
        forall|i: int| 0 <= i < count_until(list, at) ==> list[i].at <= at,
        forall|i: int| count_until(list, at) <= i < list.len() ==> list[i].at > at,
    decreases list.len(),
{
    reveal(in_order);
    if list.len() > 0 {
        let rest = list.drop_last();
        let last = list.len() - 1;
        assert(in_order(rest)) by {
            assert forall|i: int, j: int| 0 <= i <= j < rest.len() implies rest[i].at
                <= rest[j].at by {
                assert(list[i].at <= list[j].at);
            }
        }
        lemma_counts_split(rest, at);
        let before = count_before(rest, at);
        let until = count_until(rest, at);
        if list[last].at < at && before < last {
            assert(rest[before].at >= at);
            assert(list[before].at <= list[last].at);
        }
        if list[last].at <= at && until < last {
            assert(rest[until].at > at);
            assert(list[until].at <= list[last].at);
        }
        assert forall|i: int| 0 <= i < count_before(list, at) implies list[i].at < at by {
            if i < last {
                assert(rest[i] == list[i]);
            }
        }
        assert forall|i: int| count_before(list, at) <= i < list.len() implies list[i].at
            >= at by {
            if i < last {
                assert(rest[i] == list[i]);
            }
        }
        assert forall|i: int| 0 <= i < count_until(list, at) implies list[i].at <= at by {
            if i < last {
                assert(rest[i] == list[i]);
            }
        }
        assert forall|i: int| count_until(list, at) <= i < list.len() implies list[i].at
            > at by {
            if i < last {
                assert(rest[i] == list[i]);
            }
        }
    }
}

/// What is left of wake-ups in order once the first is gone is in order.
pub proof fn lemma_rest_in_order(list: Seq<Resume>)
    requires
        in_order(list),
        list.len() > 0,
    ensures
        in_order(list.drop_first()),
{
    reveal(in_order);
    let rest = list.drop_first();
    assert forall|i: int, j: int| 0 <= i <= j < rest.len() implies rest[i].at <= rest[j].at by {
        assert(list[i + 1].at <= list[j + 1].at);
    }
}

/// A wake-up put behind all that are due before it and before all that are
/// due after it leaves the wake-ups in order.
pub proof fn lemma_insert_in_order(list: Seq<Resume>, index: int, resume: Resume)
    requires
        in_order(list),
        0 <= index <= list.len(),
        forall|i: int| 0 <= i < index ==> list[i].at <= resume.at,
        forall|i: int| index <= i < list.len() ==> list[i].at >= resume.at,
    ensures
        in_order(list.insert(index, resume)),
{
    reveal(in_order);
    let after = list.insert(index, resume);
    assert forall|i: int, j: int| 0 <= i <= j < after.len() implies after[i].at
        <= after[j].at by {
        let a = if i < index {
            i
        } else {
            i - 1
        };
        let b = if j < index {
            j
        } else {
            j - 1
        };
        if i != index && j != index {
            assert(list[a].at <= list[b].at);
        }
    }
}

/// Adding a wake-up and moving the first keep the wake-ups in order.
pub proof fn lemma_stays_in_order(list: Seq<Resume>, resume: Resume)
    requires
        in_order(list),
    ensures
        in_order(added(list, resume)),
        list.len() > 0 ==> in_order(moved_first(list, resume.at)),
{
    lemma_counts_split(list, resume.at);
    lemma_insert_in_order(list, count_until(list, resume.at), resume);
    if list.len() > 0 {
        let rest = list.drop_first();
        lemma_rest_in_order(list);
        lemma_counts_split(rest, resume.at);
        lemma_insert_in_order(
            rest,
            count_before(rest, resume.at),
            Resume { at: resume.at, window: list[0].window },
        );
    }
}

/// The wake-ups that windows have asked for, in order of time.
#[derive(Clone, Debug)]
pub struct Resumes {
    list: Vec<Resume>,
}

impl View for Resumes {
    type V = Seq<Resume>;

    closed spec fn view(&self) -> Seq<Resume> {
        self.list@
    }
}

impl Resumes {
    /// The invariant of the type: the wake-ups are in order of time.
    pub open spec fn wf(&self) -> bool {
        in_order(self@)
    }

    /// No wake-ups.
    pub fn new() -> (r: Self)
        ensures
            r@ == Seq::<Resume>::empty(),
            r.wf(),
    {
        reveal(in_order);
        Resumes { list: Vec::new() }
    }

    /// The wake-up that is due first, where there is one.
    pub fn first(&self) -> (r: Option<Resume>)
        ensures
            r == if self@.len() > 0 {
                Some(self@[0])
            } else {
                None
            },
    {
        if self.list.len() > 0 {
            Some(self.list[0])
        } else {
            None
        }
    }

    /// What the loop is to do until the next event.
    pub fn flow(&self) -> (flow: Flow)
        ensures
            flow == flow_of(self@),
    {
        if self.list.len() > 0 {
            Flow::WaitUntil(self.list[0].at)
        } else {
            Flow::Wait
        }
    }

    /// Puts `resume` where `index` wake-ups come before it.
    fn insert_at(&mut self, index: usize, resume: Resume)
        requires
            index <= old(self)@.len(),
        ensures
            final(self)@ == old(self)@.insert(index as int, resume),
    {
        self.list.insert(index, resume);
    }

    /// Takes in a wake-up that a window asks for.
    pub fn add(&mut self, at: u64, window: usize)
        requires
            old(self).wf(),
        ensures
            final(self)@ == added(old(self)@, Resume { at, window }),
            final(self).wf(),
    {
        let len: usize = self.list.len();
        let mut index: usize = 0;
        proof {
            lemma_counts_split(self@, at);
            lemma_stays_in_order(self@, Resume { at, window });
        }
        while index < len && self.list[index].at <= at
            invariant
                len == self.list@.len(),
                index <= count_until(self@, at) <= len,
                forall|i: int| count_until(self@, at) <= i < len ==> self@[i].at > at,
            decreases len - index,
        {
            index = index + 1;
        }
        self.insert_at(index, Resume { at, window });
    }

    /// Takes in what each window asks for as the loop starts: `asked[i]` is
    /// the time at which window `i` wants to be woken, if any. Tells what the
    /// loop is to do next.
    pub fn init(&mut self, asked: &[Option<u64>]) -> (flow: Flow)
        requires
            old(self).wf(),
        ensures
            final(self)@ == added_all(old(self)@, asked@),
            final(self).wf(),
            flow == flow_of(final(self)@),
    {
        assert(asked@.take(0) =~= Seq::<Option<u64>>::empty());
        for n in 0..asked.len()
            invariant
                self.wf(),
                self@ == added_all(old(self)@, asked@.take(n as int)),
        {
            assert(asked@.take(n as int + 1).drop_last() =~= asked@.take(n as int));
            match asked[n] {
                Some(at) => {
                    self.add(at, n);
                },
                None => {},
            }
        }
        assert(asked@.take(asked@.len() as int) =~= asked@);
        self.flow()
    }

    /// The window to wake for the timer that was set for `requested`: that
    /// of the first wake-up, where this is the one due at that time.
    pub fn due(&self, requested: u64) -> (window: Option<usize>)
        ensures
            window == if self@.len() > 0 && self@[0].at == requested {
                Some(self@[0].window)
            } else {
                None
            },
    {
        if self.list.len() > 0 && self.list[0].at == requested {
            Some(self.list[0].window)
        } else {
            None
        }
    }

    /// Takes in what the window of the first wake-up asks for once it was
    /// woken: another time, to which its wake-up moves, or none, with which
    /// its wake-up goes. Tells what the loop is to do next.
    pub fn resumed(&mut self, resume: Option<u64>) -> (flow: Flow)
        requires
            old(self).wf(),
            old(self)@.len() > 0,
        ensures
            final(self).wf(),
            final(self)@ == match resume {
                Some(at) => moved_first(old(self)@, at),
                None => old(self)@.drop_first(),
            },
            flow == match resume {
                Some(_) => flow_of(final(self)@),
                None => Flow::Unchanged,
            },
    {
        let ghost before = self@;
        let first = self.list.remove(0);
        proof {
            assert(self@ =~= before.drop_first());
            lemma_rest_in_order(before);
        }
        match resume {
            Some(at) => {
                let len: usize = self.list.len();
                let mut index: usize = 0;
                proof {
                    lemma_counts_split(self@, at);
                    lemma_stays_in_order(before, Resume { at, window: first.window });
                }
                while index < len && self.list[index].at < at
                    invariant
                        len == self.list@.len(),
                        index <= count_before(self@, at) <= len,
                        forall|i: int| count_before(self@, at) <= i < len ==> self@[i].at >= at,
                    decreases len - index,
                {
                    index = index + 1;
                }
                self.insert_at(index, Resume { at, window: first.window });
                self.flow()
            },
            None => Flow::Unchanged,
        }
    }

    /// Whether `closed` can take the window at `window` away: no wake-up is
    /// left with an index that cannot move up.
    pub fn can_close(&self, window: usize) -> (b: bool)
        ensures
            b == (forall|i: int| 0 <= i < self@.len() ==> index_after_close(self@[i].window, window)
                >= 0),
    {
        if window > 0 {
            return true;
        }
        for n in 0..self.list.len()
            invariant
                window == 0,
                forall|i: int| 0 <= i < n ==> index_after_close(self@[i].window, window) >= 0,
        {
            if self.list[n].window == 0 {
                assert(index_after_close(self@[n as int].window, window) < 0);
                return false;
            }
        }
        true
    }

    /// Takes in that the window at `window` was closed, and how many windows
    /// are left. With none left the loop is to end. Else the windows behind
    /// the closed one have moved up by one, and so do the indices of the
    /// wake-ups at or behind it.
    pub fn closed(&mut self, window: usize, windows_left: usize) -> (flow: Flow)
        requires
            old(self).wf(),
            windows_left > 0 ==> forall|i: int|
                0 <= i < old(self)@.len() ==> index_after_close(old(self)@[i].window, window) >= 0,
        ensures
            final(self).wf(),
            final(self)@.len() == old(self)@.len(),
            windows_left == 0 ==> flow == Flow::Exit && final(self)@ == old(self)@,
            windows_left > 0 ==> flow == Flow::Unchanged && forall|i: int|
                0 <= i < old(self)@.len() ==> final(self)@[i] == (Resume {
                    at: old(self)@[i].at,
                    window: index_after_close(old(self)@[i].window, window) as usize,
                }),
    {
        if windows_left == 0 {
            return Flow::Exit;
        }
        let ghost before = self@;
        let len: usize = self.list.len();
        for n in 0..len
            invariant
                len == before.len(),
                self@.len() == before.len(),
                forall|i: int|
                    0 <= i < before.len() ==> index_after_close(before[i].window, window) >= 0,
                forall|i: int|
                    0 <= i < n ==> self@[i] == (Resume {
                        at: before[i].at,
                        window: index_after_close(before[i].window, window) as usize,
                    }),
                forall|i: int| n <= i < before.len() ==> self@[i] == before[i],
        {
            let resume = self.list[n];
            assert(resume == before[n as int]);
            assert(index_after_close(before[n as int].window, window) >= 0);
            if resume.window >= window {
                self.list[n] = Resume { at: resume.at, window: resume.window - 1 };
            }
        }
        proof {
            reveal(in_order);
            assert forall|i: int, j: int| 0 <= i <= j < self@.len() implies self@[i].at
                <= self@[j].at by {
                assert(before[i].at <= before[j].at);
            }
        }
        Flow::Unchanged
    }
}

} // verus!
