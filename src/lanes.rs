use std::collections::VecDeque;
use vstd::prelude::*;

verus! {

/// The lane that an item of priority `priority` goes to when there are
/// `count` lanes: priorities past the top lane saturate to it.
pub open spec fn lane_of(priority: int, count: int) -> int {
    if priority < count - 1 {
        priority
    } else {
        count - 1
    }
}

/// Picks the lane for `priority` among `count` lanes.
pub fn lane_for(priority: usize, count: usize) -> (r: usize)
    requires
        count >= 1,
    ensures
        r == lane_of(priority as int, count as int),
        r < count,
{
    if priority < count - 1 {
        priority
    } else {
        count - 1
    }
}

/// A request for no lanes gets one.
pub fn normalize_lane_count(count: usize) -> (r: usize)
    ensures
        r == normalize_lane_count_spec(count),
        r >= 1,
{
    if count == 0 {
        1
    } else {
        count
    }
}

/// The order in which `count` lanes are polled: the top lane first, down to
/// lane 0.
pub fn poll_order(count: usize) -> (r: Vec<usize>)
    ensures
        r@.len() == count,
        forall|i: int| 0 <= i < count ==> #[trigger] r@[i] == count - 1 - i,
{
    let mut r: Vec<usize> = Vec::new();
    let mut k: usize = count;
    while k > 0
        invariant
            k <= count,
            r@.len() == count - k,
            forall|i: int| 0 <= i < r@.len() ==> #[trigger] r@[i] == count - 1 - i,
        decreases k,
    {
        k = k - 1;
        r.push(k);
    }
    r
}

/// The order in which a set of lanes is drained: the top lane first, each
/// lane front to back.
pub open spec fn drain_order<T>(lanes: Seq<Seq<T>>) -> Seq<T>
    decreases lanes.len(),
{
    if lanes.len() == 0 {
        Seq::empty()
    } else {
        lanes.last() + drain_order(lanes.drop_last())
    }
}

/// The index of the highest lane that holds an item, or -1 where all are
/// empty.
pub open spec fn top_lane<T>(lanes: Seq<Seq<T>>) -> int
    decreases lanes.len(),
{
    if lanes.len() == 0 {
        -1
    } else if lanes.last().len() > 0 {
        lanes.len() - 1
    } else {
        top_lane(lanes.drop_last())
    }
}

pub proof fn lemma_top_lane<T>(lanes: Seq<Seq<T>>)
    ensures
        -1 <= top_lane(lanes) < lanes.len(),
        top_lane(lanes) >= 0 ==> lanes[top_lane(lanes)].len() > 0,
        forall|j: int| top_lane(lanes) < j < lanes.len() ==> #[trigger] lanes[j].len() == 0,
        top_lane(lanes) == -1 <==> drain_order(lanes).len() == 0,
    decreases lanes.len(),
{
    if lanes.len() > 0 {
        let init = lanes.drop_last();
        lemma_top_lane(init);
        assert forall|j: int| top_lane(lanes) < j < lanes.len() implies #[trigger] lanes[j].len()
            == 0 by {
            if j < lanes.len() - 1 {
                assert(lanes[j] == init[j]);
            }
        }
    }
}

/// Taking the front of the top lane takes the first item of the drain order.
pub proof fn lemma_drain_pop<T>(lanes: Seq<Seq<T>>)
    requires
        top_lane(lanes) >= 0,
    ensures
        drain_order(lanes) =~= seq![lanes[top_lane(lanes)][0]] + drain_order(
            lanes.update(top_lane(lanes), lanes[top_lane(lanes)].drop_first()),
        ),
    decreases lanes.len(),
{
    lemma_top_lane(lanes);
    let k = top_lane(lanes);
    let rest = lanes.update(k, lanes[k].drop_first());
    if k == lanes.len() - 1 {
        assert(rest.drop_last() =~= lanes.drop_last());
        assert(rest.last() =~= lanes.last().drop_first());
    } else {
        lemma_drain_pop(lanes.drop_last());
        assert(rest.drop_last() =~= lanes.drop_last().update(k, lanes[k].drop_first()));
        assert(rest.last() == lanes.last());
    }
}

/// Strict priority: where lane `i` holds an item, the next item taken comes
/// from lane `i` or a higher one.
pub proof fn law_strict_priority<T>(lanes: Seq<Seq<T>>, i: int)
    requires
        0 <= i < lanes.len(),
        lanes[i].len() > 0,
    ensures
        top_lane(lanes) >= i,
{
    lemma_top_lane(lanes);
}

pub proof fn lemma_top_lane_is<T>(lanes: Seq<Seq<T>>, k: int)
    requires
        -1 <= k < lanes.len(),
        k >= 0 ==> lanes[k].len() > 0,
        forall|j: int| k < j < lanes.len() ==> #[trigger] lanes[j].len() == 0,
    ensures
        top_lane(lanes) == k,
    decreases lanes.len(),
{
    if lanes.len() > 0 && k < lanes.len() - 1 {
        assert(lanes.last().len() == 0);
        lemma_top_lane_is(lanes.drop_last(), k);
    }
}

pub open spec fn normalize_lane_count_spec(count: usize) -> usize {
    if count == 0 {
        1
    } else {
        count
    }
}

/// The items of `v` in a queue, front to back.
pub(crate) fn deque_of<T>(v: Vec<T>) -> (r: VecDeque<T>)
    ensures
        r@ == v@,
{
    let ghost orig = v@;
    let mut v = v;
    let mut r: VecDeque<T> = VecDeque::new();
    while v.len() > 0
        invariant
            v@ + r@ == orig,
        decreases v@.len(),
    {
        let x = v.pop().unwrap();
        r.push_front(x);
        assert(v@ + r@ =~= orig);
    }
    assert(r@ =~= orig);
    r
}

/// A set of FIFO queues, one per priority; lane 0 is the least urgent.
pub struct Lanes<T> {
    queues: Vec<VecDeque<T>>,
}

impl<T> View for Lanes<T> {
    type V = Seq<Seq<T>>;

    closed spec fn view(&self) -> Seq<Seq<T>> {
        Seq::new(self.queues@.len(), |i: int| self.queues@[i]@)
    }
}

impl<T> Lanes<T> {
    pub open spec fn wf(&self) -> bool {
        self@.len() >= 1
    }

    /// `count` empty lanes; a request for none gets one.
    pub fn new(count: usize) -> (r: Self)
        ensures
            r.wf(),
            r@ == Seq::new(normalize_lane_count_spec(count) as nat, |i: int| Seq::<T>::empty()),
    {
        let n = normalize_lane_count(count);
        let mut queues: Vec<VecDeque<T>> = Vec::new();
        while queues.len() < n
            invariant
                queues.len() <= n,
                forall|i: int| 0 <= i < queues.len() ==> (#[trigger] queues@[i])@.len() == 0,
            decreases n - queues.len(),
        {
            queues.push(VecDeque::new());
        }
        let r = Lanes { queues };
        assert forall|i: int| 0 <= i < r@.len() implies r@[i] =~= Seq::<T>::empty() by {
            assert(r@[i] == r.queues@[i]@);
        }
        assert(r@ =~= Seq::new(n as nat, |i: int| Seq::<T>::empty()));
        r
    }

    /// Lanes that hold the given items, lane by lane; an empty list gets one
    /// empty lane.
    pub fn from_vecs(items: Vec<Vec<T>>) -> (r: Self)
        ensures
            r.wf(),
            items@.len() == 0 ==> r@ == seq![Seq::<T>::empty()],
            items@.len() > 0 ==> r@ == Seq::new(items@.len(), |i: int| items@[i]@),
    {
        let ghost orig = items@;
        let mut items = items;
        let mut queues: Vec<VecDeque<T>> = Vec::new();
        while items.len() > 0
            invariant
                queues@.len() + items@.len() == orig.len(),
                forall|i: int| 0 <= i < queues@.len() ==> (#[trigger] queues@[i])@ == orig[i]@,
                forall|i: int|
                    0 <= i < items@.len() ==> #[trigger] items@[i] == orig[queues@.len() + i],
            decreases items@.len(),
        {
            let v = items.remove(0);
            queues.push(deque_of(v));
        }
        if queues.len() == 0 {
            queues.push(VecDeque::new());
        }
        let r = Lanes { queues };
        assert(orig.len() > 0 ==> r@ =~= Seq::new(orig.len(), |i: int| orig[i]@));
        assert(orig.len() == 0 ==> r@ =~= seq![Seq::<T>::empty()]);
        r
    }

    pub fn count(&self) -> (r: usize)
        ensures
            r == self@.len(),
    {
        self.queues.len()
    }

    /// The number of items in lane `k`.
    pub fn lane_len(&self, k: usize) -> (r: usize)
        requires
            k < self@.len(),
        ensures
            r == self@[k as int].len(),
    {
        self.queues[k].len()
    }

    /// Appends `item` to the back of the lane of its priority.
    pub fn push(&mut self, priority: usize, item: T)
        requires
            old(self).wf(),
        ensures
            final(self).wf(),
            final(self)@ == old(self)@.update(
                lane_of(priority as int, old(self)@.len() as int),
                old(self)@[lane_of(priority as int, old(self)@.len() as int)].push(item),
            ),
    {
        let k = lane_for(priority, self.queues.len());
        self.queues[k].push_back(item);
        assert(self@ =~= old(self)@.update(k as int, old(self)@[k as int].push(item)));
    }

    /// Takes the front item of the highest lane that holds one.
    pub fn pop_highest(&mut self) -> (r: Option<T>)
        ensures
            final(self)@.len() == old(self)@.len(),
            top_lane(old(self)@) == -1 ==> r is None && final(self)@ == old(self)@,
            top_lane(old(self)@) >= 0 ==> r == Some(old(self)@[top_lane(old(self)@)][0])
                && final(self)@ == old(self)@.update(
                top_lane(old(self)@),
                old(self)@[top_lane(old(self)@)].drop_first(),
            ),
    {
        proof {
            lemma_top_lane(self@);
        }
        let mut i: usize = self.queues.len();
        while i > 0
            invariant
                i <= self.queues@.len(),
                self@ == old(self)@,
                forall|j: int| i <= j < self@.len() ==> #[trigger] self@[j].len() == 0,
            decreases i,
        {
            if self.queues[i - 1].len() > 0 {
                let r = self.queues[i - 1].pop_front();
                assert(top_lane(old(self)@) == i - 1) by {
                    lemma_top_lane_is(old(self)@, i - 1);
                }
                assert(self@ =~= old(self)@.update(i - 1, old(self)@[i - 1].drop_first()));
                return r;
            }
            i = i - 1;
        }
        proof {
            lemma_top_lane_is(old(self)@, -1);
        }
        None
    }
}

} // verus!
