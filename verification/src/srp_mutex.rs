//! A mutex under the stack resource policy: each task that may take it registers its
//! priority, and while the mutex is held the CPU's priority ceiling is raised to the
//! highest registered priority, but only when tasks of different priorities share it.

use vstd::prelude::*;
use crate::sync::blocking_mutex::{Mutex as BlockingMutex, RawMutex};

verus! {

/// Who registered access to an SRP mutex: one task at its priority, several tasks all
/// at one priority, or tasks at different priorities up to the given highest one.
#[derive(Clone, Copy, PartialEq, Eq, Debug)]
pub enum State {
    Owned(u8),
    CoOwned(u8),
    Contended(u8),
}

/// The priority ceiling a state records: the highest registered priority.
pub open spec fn ceiling(s: State) -> u8 {
    match s {
        State::Owned(p) => p,
        State::CoOwned(p) => p,
        State::Contended(p) => p,
    }
}

/// The larger of two priorities.
pub open spec fn max_prio(a: u8, b: u8) -> u8 {
    if a >= b {
        a
    } else {
        b
    }
}

/// The state after a task at priority `prio` registers access.
pub open spec fn next_state(s: State, prio: u8) -> State {
    match s {
        State::Owned(p) => if p == prio {
            State::CoOwned(p)
        } else {
            State::Contended(max_prio(p, prio))
        },
        State::CoOwned(p) => if p != prio {
            State::Contended(max_prio(p, prio))
        } else {
            s
        },
        State::Contended(p) => if p != prio {
            State::Contended(max_prio(p, prio))
        } else {
            s
        },
    }
}

/// What holding the mutex asks of the CPU's priority ceiling: the ceiling to raise it to
/// while the mutex is held, if any, and whether the previous ceiling is written back after.
#[derive(Clone, Copy, PartialEq, Eq, Debug)]
pub struct SrpPlan {
    pub raise_to: Option<u8>,
    pub restore: bool,
}

/// A mutex guarding `T` under the stack resource policy.
pub struct SrpMutex<M, T> {
    state: BlockingMutex<M, State>,
    inner: T,
}

impl<M: RawMutex, T> SrpMutex<M, T> {
    /// Who has registered access so far.
    pub closed spec fn state(&self) -> State {
        self.state.data()
    }

    /// The guarded value.
    pub closed spec fn value(&self) -> T {
        self.inner
    }

    /// A mutex guarding `value`, owned by the task at priority `prio`.
    pub fn new(prio: u8, value: T) -> (r: Self)
        ensures
            r.state() == State::Owned(prio),
            r.value() == value,
    {
        Self { state: BlockingMutex::new(State::Owned(prio)), inner: value }
    }

    /// Registers access by a task at priority `prio`.
    pub fn register_access(&mut self, prio: u8)
        ensures
            final(self).state() == next_state(old(self).state(), prio),
            final(self).value() == old(self).value(),
    {
        let x = self.state.get_mut();
        match *x {
            State::Owned(p) => {
                *x = if p == prio {
                    State::CoOwned(p)
                } else {
                    State::Contended(if p >= prio {
                        p
                    } else {
                        prio
                    })
                };
            },
            State::CoOwned(p) => {
                if p != prio {
                    *x = State::Contended(if p >= prio {
                        p
                    } else {
                        prio
                    });
                }
            },
            State::Contended(p) => {
                if p != prio {
                    *x = State::Contended(if p >= prio {
                        p
                    } else {
                        prio
                    });
                }
            },
        }
    }

    /// The guarded value, for a holder of the mutex.
    pub fn get(&self) -> (r: &T)
        ensures
            *r == self.value(),
    {
        &self.inner
    }

    /// The guarded value, to change by a holder of the mutex; who has registered is kept.
    pub fn get_mut(&mut self) -> (r: &mut T)
        ensures
            *r == old(self).value(),
            final(self).value() == *final(r),
            final(self).state() == old(self).state(),
    {
        &mut self.inner
    }

    /// What taking the mutex does to a CPU ceiling of `previous_ceiling`: when tasks of
    /// different priorities share the mutex, the ceiling is raised to the highest of them
    /// if it is below it, and written back afterwards; otherwise it is left alone.
    pub fn srp_plan(&self, previous_ceiling: u8) -> (r: SrpPlan)
        ensures
            r.restore == (self.state() is Contended),
            r.raise_to == (if self.state() is Contended && previous_ceiling < ceiling(self.state()) {
                Some(ceiling(self.state()))
            } else {
                None
            }),
    {
        let state = self.state.dirty_read(|x: &State| -> (r: State)
            ensures
                r == *x,
        { *x });
        match state {
            State::Contended(p) => {
                if previous_ceiling < p {
                    SrpPlan { raise_to: Some(p), restore: true }
                } else {
                    SrpPlan { raise_to: None, restore: true }
                }
            },
            _ => SrpPlan { raise_to: None, restore: false },
        }
    }
}

/// Registering access raises the recorded ceiling to the registering priority if it was
/// lower, and leaves it otherwise.
pub proof fn lemma_register_ceiling(s: State, prio: u8)
    ensures
        ceiling(next_state(s, prio)) == max_prio(ceiling(s), prio),
{
}

/// Once tasks of different priorities have registered, the mutex stays contended.
pub proof fn lemma_contended_stays(s: State, prio: u8)
    ensures
        s is Contended ==> next_state(s, prio) is Contended,
{
}

/// A mutex owned by one priority becomes contended exactly when another priority
/// registers, and shared without contention when the same priority registers.
pub proof fn lemma_owned_register(p: u8, prio: u8)
    ensures
        next_state(State::Owned(p), prio) is Contended <==> p != prio,
        next_state(State::Owned(p), prio) == State::CoOwned(p) <==> p == prio,
{
}

/// A co-owned mutex becomes contended exactly when another priority registers, and
/// stays co-owned at its priority when the same priority registers again.
pub proof fn lemma_coowned_register(p: u8, prio: u8)
    ensures
        next_state(State::CoOwned(p), prio) is Contended <==> p != prio,
        p == prio ==> next_state(State::CoOwned(p), prio) == State::CoOwned(p),
{
}

/// The state after the priorities `ps` register, in order, on `s`.
pub open spec fn registered(s: State, ps: Seq<u8>) -> State
    decreases ps.len(),
{
    if ps.len() == 0 {
        s
    } else {
        next_state(registered(s, ps.drop_last()), ps.last())
    }
}

/// A mutex made at priority `p0` after the priorities `ps` registered: owned while
/// nothing registered; co-owned at `p0` while every registration was at `p0`; contended
/// exactly when some other priority registered; and its ceiling is the highest of `p0`
/// and the registered priorities.
pub proof fn lemma_registered(p0: u8, ps: Seq<u8>)
    ensures
        ps.len() == 0 ==> registered(State::Owned(p0), ps) == State::Owned(p0),
        (ps.len() > 0 && forall|i: int| 0 <= i < ps.len() ==> ps[i] == p0) ==> registered(
            State::Owned(p0),
            ps,
        ) == State::CoOwned(p0),
        registered(State::Owned(p0), ps) is Contended <==> exists|i: int|
            0 <= i < ps.len() && ps[i] != p0,
        ceiling(registered(State::Owned(p0), ps)) >= p0,
        forall|i: int| 0 <= i < ps.len() ==> ceiling(registered(State::Owned(p0), ps)) >= ps[i],
        ceiling(registered(State::Owned(p0), ps)) == p0 || exists|i: int|
            0 <= i < ps.len() && ceiling(registered(State::Owned(p0), ps)) == ps[i],
    decreases ps.len(),
{
    if ps.len() > 0 {
        let q = ps.drop_last();
        let last = ps.last();
        lemma_registered(p0, q);
        lemma_register_ceiling(registered(State::Owned(p0), q), last);
        let prev = registered(State::Owned(p0), q);
        assert(forall|i: int| 0 <= i < q.len() ==> q[i] == ps[i]);
        if exists|i: int| 0 <= i < q.len() && q[i] != p0 {
            let i = choose|i: int| 0 <= i < q.len() && q[i] != p0;
            assert(ps[i] != p0);
        } else {
            assert(forall|i: int| 0 <= i < q.len() ==> q[i] == p0);
            if last != p0 {
                assert(ps[ps.len() - 1] != p0);
            } else {
                assert forall|i: int| 0 <= i < ps.len() implies ps[i] == p0 by {
                    if i < q.len() {
                        assert(q[i] == p0);
                    }
                }
            }
        }
        if ceiling(prev) != p0 {
            let i = choose|i: int| 0 <= i < q.len() && ceiling(prev) == q[i];
            assert(ps[i] == q[i]);
        }
        assert(ps[ps.len() - 1] == last);
    }
}

} // verus!
