//! The state every handler can reach: the application's own state beside the node's ids.

use vstd::prelude::*;

verus! {

/// What a node keeps for its handlers: a way to reach the node's ids once `init` has
/// named them (`R`), and the application's own state (`S`).
#[derive(Clone)]
pub struct State<S, R> {
    ids: R,
    app: S,
}

impl<S, R> State<S, R> {
    pub fn new(ids: R, app: S) -> (res: Self)
        ensures
            res.ids() == ids,
            res.app() == app,
    {
        State { ids, app }
    }

    pub closed spec fn ids(&self) -> R {
        self.ids
    }

    pub closed spec fn app(&self) -> S {
        self.app
    }

    /// The way to the node's ids.
    pub fn ids_source(&self) -> (res: &R)
        ensures
            *res == self.ids(),
    {
        &self.ids
    }

    /// The application's own state.
    pub fn app_state(&self) -> (res: &S)
        ensures
            *res == self.app(),
    {
        &self.app
    }
}

/// Builds a value from a reference to a larger one.
pub trait FromRef<T>: Sized {
    fn from_ref(input: &T) -> Self;
}

impl<T: Clone> FromRef<T> for T {
    /// A clone of the value itself.
    fn from_ref(input: &T) -> (res: T)
        ensures
            cloned(*input, res),
    {
        input.clone()
    }
}

impl<S: Clone, R> FromRef<State<S, R>> for S {
    /// A clone of the application's own state.
    fn from_ref(input: &State<S, R>) -> (res: S)
        ensures
            cloned(input.app(), res),
    {
        input.app.clone()
    }
}

/// The inner value of a type that a [`FromRef`] can be built from.
pub trait RefInner<T> {
    fn inner(&self) -> T;
}

impl<B, A: FromRef<B>> RefInner<A> for B {
    /// What `from_ref` builds from this value.
    fn inner(&self) -> (res: A)
        ensures
            call_ensures(A::from_ref, (self,), res),
    {
        A::from_ref(self)
    }
}

} // verus!
