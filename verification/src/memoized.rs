//! Caching of a single value that can be obtained by evaluating a closure.
//! The closure presumably represents an expensive operation, the result of
//! which never changes.

use vstd::prelude::*;

verus! {

enum State<F, T> {
    Uninit(Option<F>),
    Init(T),
}

/// Lazily evaluated value supplied by a closure.
#[verifier::reject_recursive_types(T)]
pub struct Memoized<F, T> where F: FnOnce() -> T {
    state: State<F, T>,
}

impl<F, T> Memoized<F, T> where F: FnOnce() -> T {
    /// The memoized value, once the closure has been evaluated.
    pub closed spec fn sp_value(&self) -> Option<T> {
        match self.state {
            State::Init(v) => Some(v),
            State::Uninit(_) => None,
        }
    }

    /// The closure, until it has been evaluated.
    pub closed spec fn sp_closure(&self) -> Option<F> {
        match self.state {
            State::Uninit(f) => f,
            State::Init(_) => None,
        }
    }

    /// Either the closure or the value is present.
    pub closed spec fn wf(&self) -> bool {
        self.state is Uninit ==> self.state->Uninit_0 is Some
    }

    /// Creates a memoized value backed by the given closure.
    pub fn new(f: F) -> (r: Self)
        ensures
            r.wf(),
            r.sp_value() is None,
            r.sp_closure() == Some(f),
    {
        Memoized { state: State::Uninit(Some(f)) }
    }

    /// Obtains the memoized value, evaluating the closure if unset.
    pub fn get(&mut self) -> (r: &T)
        requires
            old(self).wf(),
            old(self).sp_closure() matches Some(f) ==> call_requires(f, ()),
        ensures
            final(self).wf(),
            final(self).sp_value() is Some,
            *r == final(self).sp_value()->Some_0,
            match old(self).sp_value() {
                Some(v) => final(self).sp_value() == Some(v),
                None => call_ensures(
                    old(self).sp_closure()->Some_0,
                    (),
                    final(self).sp_value()->Some_0,
                ),
            },
    {
        let mut tmp: State<F, T> = State::Uninit(None);
        core::mem::swap(&mut self.state, &mut tmp);
        match tmp {
            State::Uninit(opt) => match opt {
                Some(f) => {
                    let val = f();
                    self.state = State::Init(val);
                },
                None => {
                    proof {
                        assert(false);
                    }
                },
            },
            State::Init(v) => {
                self.state = State::Init(v);
            },
        }
        match &self.state {
            State::Init(v) => v,
            State::Uninit(_) => vstd::pervasive::unreached(),
        }
    }

    /// Obtains the memoized value if it is set. The closure is not evaluated
    /// if unset.
    pub fn try_get(&self) -> (r: Option<&T>)
        ensures
            match r {
                Some(v) => self.sp_value() == Some(*v),
                None => self.sp_value() is None,
            },
    {
        match &self.state {
            State::Uninit(_) => None,
            State::Init(val) => Some(val),
        }
    }
}

} // verus!
