use vstd::prelude::*;

use crate::envelope::{Envelope, Subscriber};

verus! {

/// One callback made on a subscriber, named by its place in the registry.
pub enum Callback {
    Tick { subscriber: int, at: u64 },
    Receive { subscriber: int, at: u64 },
}

impl Callback {
    /// The time the callback was given.
    pub open spec fn at(self) -> u64 {
        match self {
            Callback::Tick { subscriber: _, at } => at,
            Callback::Receive { subscriber: _, at } => at,
        }
    }
}

/// A callback together with the envelopes it returned.
pub struct Call<M> {
    pub callback: Callback,
    pub out: Seq<Envelope<M>>,
}

/// The callbacks of a log, without what they returned.
pub open spec fn callbacks<M>(calls: Seq<Call<M>>) -> Seq<Callback> {
    calls.map_values(|c: Call<M>| c.callback)
}

/// What the calls of a log returned, one after another.
pub open spec fn outputs<M>(calls: Seq<Call<M>>) -> Seq<Envelope<M>>
    decreases calls.len(),
{
    if calls.len() == 0 {
        Seq::empty()
    } else {
        outputs(calls.drop_last()) + calls.last().out
    }
}

/// The entries that `after` holds past `before`.
pub open spec fn added<M>(before: Seq<Call<M>>, after: Seq<Call<M>>) -> Seq<Call<M>> {
    after.subrange(before.len() as int, after.len() as int)
}

/// `after` extends `before`.
pub open spec fn extends<M>(before: Seq<Call<M>>, after: Seq<Call<M>>) -> bool {
    before.len() <= after.len() && after == before + added(before, after)
}

pub proof fn lemma_callbacks_append<M>(a: Seq<Call<M>>, b: Seq<Call<M>>)
    ensures
        callbacks(a + b) == callbacks(a) + callbacks(b),
{
    assert(callbacks(a + b) =~= callbacks(a) + callbacks(b));
}

pub proof fn lemma_added_chain<M>(a: Seq<Call<M>>, b: Seq<Call<M>>, c: Seq<Call<M>>)
    requires
        extends(a, b),
        extends(b, c),
    ensures
        extends(a, c),
        added(a, c) == added(a, b) + added(b, c),
{
    assert(added(a, c) =~= added(a, b) + added(b, c));
    assert(c =~= a + added(a, c));
}

/// No name occurs twice.
pub open spec fn unique_names(names: Seq<Seq<char>>) -> bool {
    forall|i: int, j: int|
        0 <= i < names.len() && 0 <= j < names.len() && i != j ==> names[i] != names[j]
}

/// The place of `name` among `names`, or -1 where it is absent.
pub open spec fn index_of(names: Seq<Seq<char>>, name: Seq<char>) -> int {
    if exists|i: int| 0 <= i < names.len() && names[i] == name {
        choose|i: int| 0 <= i < names.len() && names[i] == name
    } else {
        -1
    }
}

/// A tick at `at` for each of `count` subscribers, in registry order.
pub open spec fn tick_calls(count: nat, at: u64) -> Seq<Callback> {
    Seq::new(count, |i: int| Callback::Tick { subscriber: i, at })
}

/// The delivery of one envelope addressed to `name`: one call where a
/// subscriber has that name, none where no subscriber has it.
pub open spec fn receive_calls(names: Seq<Seq<char>>, name: Seq<char>, at: u64) -> Seq<Callback> {
    if index_of(names, name) >= 0 {
        seq![Callback::Receive { subscriber: index_of(names, name), at }]
    } else {
        Seq::empty()
    }
}

pub proof fn lemma_index_of(names: Seq<Seq<char>>, name: Seq<char>, k: int)
    requires
        unique_names(names),
        0 <= k < names.len(),
        names[k] == name,
    ensures
        index_of(names, name) == k,
{
}

/// An envelope addressed to no subscriber is dropped: it brings about no
/// callback at all.
pub proof fn law_unknown_destination_dropped(names: Seq<Seq<char>>, name: Seq<char>, at: u64)
    requires
        forall|i: int| 0 <= i < names.len() ==> names[i] != name,
    ensures
        index_of(names, name) == -1,
        receive_calls(names, name, at) == Seq::<Callback>::empty(),
{
}

/// The subscribers of a bus or a simulator, each under a distinct name. Every
/// callback on a subscriber goes through here, one at a time, and is written
/// to a log that contracts speak of.
pub struct Registry<M, S> {
    names: Vec<String>,
    subs: Vec<S>,
    log: Ghost<Seq<Call<M>>>,
}

impl<M, S> Registry<M, S> {
    /// The names, in registry order.
    pub closed spec fn names(&self) -> Seq<Seq<char>> {
        Seq::new(self.names@.len(), |i: int| self.names@[i]@)
    }

    /// Every callback made so far, in order.
    pub closed spec fn calls(&self) -> Seq<Call<M>> {
        self.log@
    }

    /// The subscriber at place `i`.
    pub closed spec fn subscriber_at(&self, i: int) -> S {
        self.subs@[i]
    }

    pub closed spec fn wf(&self) -> bool {
        &&& self.names@.len() == self.subs@.len()
        &&& unique_names(self.names())
    }

    /// A registry with no subscribers.
    pub fn new() -> (r: Self)
        ensures
            r.wf(),
            r.names() == Seq::<Seq<char>>::empty(),
            r.calls() == Seq::<Call<M>>::empty(),
    {
        let r = Registry { names: Vec::new(), subs: Vec::new(), log: Ghost(Seq::empty()) };
        assert(r.names() =~= Seq::<Seq<char>>::empty());
        r
    }

    /// The number of subscribers.
    pub fn len(&self) -> (r: usize)
        requires
            self.wf(),
        ensures
            r == self.names().len(),
    {
        self.names.len()
    }

    /// The place of the subscriber named `name`, if there is one.
    pub fn position(&self, name: &String) -> (r: Option<usize>)
        requires
            self.wf(),
        ensures
            r is None <==> index_of(self.names(), name@) == -1,
            r matches Some(i) ==> i == index_of(self.names(), name@),
    {
        let mut i: usize = 0;
        while i < self.names.len()
            invariant
                self.wf(),
                i <= self.names@.len(),
                forall|j: int| 0 <= j < i ==> self.names()[j] != name@,
            decreases self.names@.len() - i,
        {
            if self.names[i] == *name {
                proof {
                    assert(self.names()[i as int] == name@);
                    lemma_index_of(self.names(), name@, i as int);
                }
                return Some(i);
            }
            assert(self.names()[i as int] == self.names@[i as int]@);
            i = i + 1;
        }
        None
    }

    /// Registers `subscriber` under `name`, in place of one that held the name.
    pub fn subscribe(&mut self, name: String, subscriber: S)
        requires
            old(self).wf(),
        ensures
            final(self).wf(),
            final(self).calls() == old(self).calls(),
            index_of(old(self).names(), name@) >= 0 ==> final(self).names() == old(self).names(),
            index_of(old(self).names(), name@) == -1 ==> final(self).names() == old(
                self,
            ).names().push(name@),
            final(self).subscriber_at(index_of(final(self).names(), name@)) == subscriber,
            forall|i: int|
                0 <= i < old(self).names().len() && i != index_of(final(self).names(), name@)
                    ==> #[trigger] final(self).subscriber_at(i) == old(self).subscriber_at(i),
    {
        let ghost key = name@;
        match self.position(&name) {
            Some(i) => {
                self.subs.set(i, subscriber);
                assert(self.names() =~= old(self).names());
                proof {
                    lemma_index_of(self.names(), key, i as int);
                }
            },
            None => {
                self.names.push(name);
                self.subs.push(subscriber);
                assert(self.names() =~= old(self).names().push(key));
                proof {
                    lemma_index_of(self.names(), key, self.names().len() - 1);
                }
            },
        }
    }

    /// The subscriber named `name`, if there is one.
    pub fn get(&self, name: &String) -> (r: Option<&S>)
        requires
            self.wf(),
        ensures
            r is None <==> index_of(self.names(), name@) == -1,
            r matches Some(s) ==> *s == self.subscriber_at(index_of(self.names(), name@)),
    {
        match self.position(name) {
            Some(i) => Some(&self.subs[i]),
            None => None,
        }
    }

    /// Ticks every subscriber at `at`, in registry order, and hands back what
    /// they return, in that order.
    pub fn tick_all(&mut self, at: u64) -> (r: Vec<Envelope<M>>) where S: Subscriber<M>
        requires
            old(self).wf(),
        ensures
            final(self).wf(),
            final(self).names() == old(self).names(),
            extends(old(self).calls(), final(self).calls()),
            callbacks(added(old(self).calls(), final(self).calls())) == tick_calls(
                old(self).names().len(),
                at,
            ),
            r@ == outputs(added(old(self).calls(), final(self).calls())),
    {
        let mut out: Vec<Envelope<M>> = Vec::new();
        let mut i: usize = 0;
        let ghost mut seg: Seq<Call<M>> = Seq::empty();
        while i < self.subs.len()
            invariant
                self.wf(),
                self.names() == old(self).names(),
                i <= self.subs@.len(),
                self.calls() == old(self).calls() + seg,
                callbacks(seg) == tick_calls(i as nat, at),
                out@ == outputs(seg),
            decreases self.subs@.len() - i,
        {
            let mut v = self.subs[i].tick(at);
            let ghost got = v@;
            out.append(&mut v);
            proof {
                let c = Call { callback: Callback::Tick { subscriber: i as int, at }, out: got };
                let seg2 = seg.push(c);
                assert(seg2.drop_last() =~= seg);
                assert(seg2 =~= seg + seq![c]);
                lemma_callbacks_append(seg, seq![c]);
                assert(callbacks(seq![c]) =~= seq![c.callback]);
                assert(callbacks(seg2) =~= tick_calls((i + 1) as nat, at));
                self.log@ = self.log@.push(c);
                assert(self.log@ =~= old(self).calls() + seg2);
                seg = seg2;
            }
            i = i + 1;
        }
        assert(added(old(self).calls(), self.calls()) =~= seg);
        out
    }

    /// Hands `envelope`'s message to the subscriber it is addressed to, and
    /// back what that returns; an envelope addressed to no subscriber is
    /// dropped and leaves every subscriber as it was.
    pub fn deliver(&mut self, envelope: Envelope<M>, at: u64) -> (r: Vec<Envelope<M>>) where
        S: Subscriber<M>,
        requires
            old(self).wf(),
        ensures
            final(self).wf(),
            final(self).names() == old(self).names(),
            extends(old(self).calls(), final(self).calls()),
            callbacks(added(old(self).calls(), final(self).calls())) == receive_calls(
                old(self).names(),
                envelope.destination@,
                at,
            ),
            r@ == outputs(added(old(self).calls(), final(self).calls())),
            index_of(old(self).names(), envelope.destination@) == -1 ==> *final(self) == *old(
                self,
            ),
    {
        match self.position(&envelope.destination) {
            Some(i) => {
                let r = self.subs[i].receive(envelope.message, at);
                proof {
                    let c = Call { callback: Callback::Receive { subscriber: i as int, at }, out: r@ };
                    self.log@ = self.log@.push(c);
                    let seg = seq![c];
                    assert(added(old(self).calls(), self.calls()) =~= seg);
                    assert(self.calls() =~= old(self).calls() + seg);
                    assert(seg.drop_last() =~= Seq::<Call<M>>::empty());
                    assert(outputs(Seq::<Call<M>>::empty()) =~= Seq::<Envelope<M>>::empty());
                    assert(outputs(seg) =~= r@);
                    assert(callbacks(seg) =~= receive_calls(
                        old(self).names(),
                        envelope.destination@,
                        at,
                    ));
                }
                r
            },
            None => {
                assert(added(old(self).calls(), self.calls()) =~= Seq::<Call<M>>::empty());
                assert(self.calls() =~= old(self).calls() + Seq::<Call<M>>::empty());
                assert(callbacks(Seq::<Call<M>>::empty()) =~= Seq::<Callback>::empty());
                Vec::new()
            },
        }
    }
}

} // verus!
