use vstd::prelude::*;

verus! {

/// A message together with its routing: the name of the subscriber it is
/// addressed to and its priority (higher is more urgent).
pub struct Envelope<M> {
    pub message: Message<M>,
    pub priority: usize,
    pub destination: String,
}

/// One message in flight on a bus whose messages are of type `M`: a closed
/// sum of the kinds of message that travel on it. Whoever holds the message
/// owns it; a subscriber tells the kinds apart by downcasting.
pub struct Message<M> {
    payload: M,
}

impl<M> Message<M> {
    pub closed spec fn payload_spec(&self) -> M {
        self.payload
    }

    /// Wraps a value of the bus's message type.
    pub fn new(payload: M) -> (r: Self)
        ensures
            r.payload_spec() == payload,
    {
        Message { payload }
    }

    /// Wraps a value of one kind.
    pub fn of<T: Variant<M>>(value: T) -> (r: Self)
        ensures
            T::project(r.payload_spec()) == Some(value),
    {
        Message { payload: value.into_message() }
    }

    /// The message as a value of the message type, whatever its kind.
    pub fn as_any(&self) -> (r: &M)
        ensures
            *r == self.payload_spec(),
    {
        &self.payload
    }

    /// The message as a value of the message type, whatever its kind, taking
    /// ownership.
    pub fn into_any(self) -> (r: M)
        ensures
            r == self.payload_spec(),
    {
        self.payload
    }

    /// A view of the message as a `T`, if it is of that kind.
    pub fn downcast_ref<T: Variant<M>>(&self) -> (r: Option<&T>)
        ensures
            T::project(self.payload_spec()) matches Some(v) ==> r == Some(&v),
            T::project(self.payload_spec()) is None ==> r is None,
    {
        T::from_message_ref(self.as_any())
    }

    /// The message as a `T`, if it is of that kind; else the message itself,
    /// unchanged, so that the failure can be recovered from.
    pub fn downcast<T: Variant<M>>(self) -> (r: Result<T, Self>)
        ensures
            T::project(self.payload_spec()) matches Some(v) ==> r == Ok::<T, Self>(v),
            T::project(self.payload_spec()) is None ==> r == Err::<T, Self>(self),
    {
        match T::from_message(self.into_any()) {
            Ok(v) => Ok(v),
            Err(back) => Err(Message { payload: back }),
        }
    }
}

/// One kind of message of the message type `M`.
pub trait Variant<M>: Sized {
    /// The value that `m` carries, where `m` is of this kind.
    spec fn project(m: M) -> Option<Self>;

    /// Wraps a value of this kind as a message.
    fn into_message(self) -> (r: M)
        ensures
            Self::project(r) == Some(self),
    ;

    /// The value, where `m` is of this kind; else `m` itself.
    fn from_message(m: M) -> (r: Result<Self, M>)
        ensures
            Self::project(m) matches Some(v) ==> r == Ok::<Self, M>(v),
            Self::project(m) is None ==> r == Err::<Self, M>(m),
    ;

    /// A view of the value, where `m` is of this kind.
    fn from_message_ref(m: &M) -> (r: Option<&Self>)
        ensures
            Self::project(*m) matches Some(v) ==> r == Some(&v),
            Self::project(*m) is None ==> r is None,
    ;
}

/// An observer told of each envelope just before it is enqueued, with the
/// time it was produced at; for recording a run to replay it later.
pub trait PublishHook<M> {
    fn on_publish(&self, envelope: &Envelope<M>, at: u64);
}

/// A hook that does nothing.
pub struct NoOpHook;

impl<M> PublishHook<M> for NoOpHook {
    #[inline(always)]
    fn on_publish(&self, envelope: &Envelope<M>, at: u64) {
    }
}

/// A subscriber: a stateful actor on the bus. Both callbacks return the
/// envelopes to be enqueued next, in order.
///
/// An implementation must not block, must not read the wall clock or any
/// other source of chance, and must derive all timing from `at`: that is what
/// makes a run of the `Simulator` a faithful replay of a live run.
pub trait Subscriber<M> {
    /// Called with each message addressed to this subscriber.
    fn receive(&mut self, msg: Message<M>, at: u64) -> Vec<Envelope<M>>;

    /// Called at each scheduled tick; `at` is the tick's time.
    fn tick(&mut self, at: u64) -> Vec<Envelope<M>>;
}

} // verus!
