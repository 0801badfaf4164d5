use vstd::prelude::*;

verus! {

/// A resource that is created after its owner, once a graphics context is
/// available.
pub struct LazyGraphicsResource<T> {
    data: Option<T>,
}

impl<T> LazyGraphicsResource<T> {
    /// The resource, if it was initialized.
    pub closed spec fn content(&self) -> Option<T> {
        self.data
    }

    pub fn new() -> (r: Self)
        ensures
            r.content() == None::<T>,
    {
        Self { data: None }
    }

    pub fn initialized(&self) -> (b: bool)
        ensures
            b == self.content() is Some,
    {
        self.data.is_some()
    }

    /// Stores the resource, which must not be initialized yet.
    pub fn init(&mut self, data: T)
        requires
            old(self).content() is None,
        ensures
            final(self).content() == Some(data),
    {
        self.data = Some(data);
    }

    /// The resource, which must be initialized.
    pub fn as_ref(&self) -> (r: &T)
        requires
            self.content() is Some,
        ensures
            *r == self.content()->0,
    {
        self.data.as_ref().unwrap()
    }

    /// The resource, for change in place; it must be initialized.
    pub fn as_mut(&mut self) -> (r: &mut T)
        requires
            old(self).content() is Some,
        ensures
            *r == old(self).content()->0,
            final(self).content() == Some(*final(r)),
    {
        self.data.as_mut().unwrap()
    }
}

impl<T> Default for LazyGraphicsResource<T> {
    fn default() -> (r: Self)
        ensures
            r.content() == None::<T>,
    {
        Self { data: None }
    }
}

/// A call on a lazy resource, as its contract describes the effect:
/// `init` stores a value, `initialized` and `as_ref` only read, and a change
/// through `as_mut` leaves the value written.
pub enum LazyCall<T> {
    Init(T),
    Initialized,
    Read,
    Write(T),
}

/// The call does not panic on a resource holding `c`.
pub open spec fn lazy_call_ok<T>(c: Option<T>, call: LazyCall<T>) -> bool {
    match call {
        LazyCall::Init(_) => c is None,
        LazyCall::Initialized => true,
        LazyCall::Read => c is Some,
        LazyCall::Write(_) => c is Some,
    }
}

/// What the resource holds after the call.
pub open spec fn lazy_after<T>(c: Option<T>, call: LazyCall<T>) -> Option<T> {
    match call {
        LazyCall::Init(v) => Some(v),
        LazyCall::Write(v) => Some(v),
        _ => c,
    }
}

/// What the resource holds after the calls, in order.
pub open spec fn lazy_run<T>(c: Option<T>, calls: Seq<LazyCall<T>>) -> Option<T>
    decreases calls.len(),
{
    if calls.len() == 0 {
        c
    } else {
        lazy_run(lazy_after(c, calls[0]), calls.drop_first())
    }
}

/// None of the calls panics.
pub open spec fn lazy_calls_ok<T>(c: Option<T>, calls: Seq<LazyCall<T>>) -> bool
    decreases calls.len(),
{
    calls.len() == 0 || (lazy_call_ok(c, calls[0]) && lazy_calls_ok(
        lazy_after(c, calls[0]),
        calls.drop_first(),
    ))
}

/// Law: starting from a resource that holds a value, calls that do not panic
/// leave it holding a value.
pub proof fn law_initialized_stays<T>(c: Option<T>, calls: Seq<LazyCall<T>>)
    requires
        c is Some,
        lazy_calls_ok(c, calls),
    ensures
        lazy_run(c, calls) is Some,
    decreases calls.len(),
{
    if calls.len() > 0 {
        law_initialized_stays(lazy_after(c, calls[0]), calls.drop_first());
    }
}

/// Law: a new resource on which calls that do not panic were made is
/// initialized exactly when one of them was an `init`; reading calls leave
/// it as it was.
pub proof fn law_initialized_after_init<T>(calls: Seq<LazyCall<T>>)
    requires
        lazy_calls_ok(None, calls),
    ensures
        lazy_run(None, calls) is Some <==> exists|i: int|
            0 <= i < calls.len() && #[trigger] calls[i] is Init,
        forall|c: Option<T>|
            lazy_after(c, LazyCall::Initialized) == c && lazy_after(c, LazyCall::Read) == c,
    decreases calls.len(),
{
    if calls.len() > 0 {
        let rest = calls.drop_first();
        let c1 = lazy_after(None, calls[0]);
        if calls[0] is Init {
            law_initialized_stays(c1, rest);
            assert(calls[0] is Init);
        } else {
            assert(c1 is None);
            law_initialized_after_init(rest);
            if exists|i: int| 0 <= i < calls.len() && #[trigger] calls[i] is Init {
                let i = choose|i: int| 0 <= i < calls.len() && #[trigger] calls[i] is Init;
                assert(rest[i - 1] == calls[i]);
            }
            if exists|i: int| 0 <= i < rest.len() && #[trigger] rest[i] is Init {
                let i = choose|i: int| 0 <= i < rest.len() && #[trigger] rest[i] is Init;
                assert(calls[i + 1] == rest[i]);
            }
        }
    }
}

} // verus!
