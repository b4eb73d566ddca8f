use vstd::multiset::Multiset;
use vstd::prelude::*;

use std::collections::BTreeSet;

verus! {

broadcast use {vstd::seq_lib::group_to_multiset_ensures, vstd::std_specs::btree::group_btree_axioms, vstd::laws_cmp::group_laws_cmp};

/// Requests to, and replies from, a priority queue protected by a
/// delegation lock.
#[derive(PartialEq, Eq, Structural, Clone, Copy, Debug)]
pub enum PQData<T> {
    Nothing,
    Push { data: T },
    Pop,
    Peek,
    PeekResult(Option<T>),
    PopResult(Option<T>),
}

impl<T> Default for PQData<T> {
    fn default() -> (d: Self)
        ensures
            d is Nothing,
    {
        PQData::Nothing
    }
}

/// A priority queue shared between threads.
pub trait ConcurrentPriorityQueue<T>: Sized {
    fn push(&self, item: T);

    fn peek(&self) -> Option<T>;

    fn pop(&self) -> Option<T>;
}

/// A priority queue used by one thread at a time. Each implementation
/// says, over its items, what a push leaves and which item comes out first.
pub trait SequentialPriorityQueue<T>: Sized {
    /// The items held.
    spec fn pq_view(&self) -> Multiset<T>;

    /// The items held after pushing `item` onto `items`.
    spec fn after_push(items: Multiset<T>, item: T) -> Multiset<T>;

    /// The item that comes out first, if any.
    spec fn top(items: Multiset<T>) -> Option<T>;

    fn push(&mut self, item: T)
        ensures
            final(self).pq_view() == Self::after_push(old(self).pq_view(), item),
    ;

    fn peek(&mut self) -> (r: Option<&T>)
        ensures
            final(self).pq_view() == old(self).pq_view(),
            match r {
                Some(x) => Self::top(old(self).pq_view()) == Some(*x),
                None => Self::top(old(self).pq_view()).is_none(),
            },
    ;

    fn pop(&mut self) -> (r: Option<T>)
        ensures
            r == Self::top(old(self).pq_view()),
            final(self).pq_view() == match r {
                Some(x) => old(self).pq_view().remove(x),
                None => old(self).pq_view(),
            },
    ;
}

/// The largest item, if any.
pub open spec fn max_of(items: Multiset<u64>) -> Option<u64> {
    if items.len() == 0 {
        None
    } else {
        Some(choose|x: u64| items.count(x) > 0 && forall|y: u64| items.count(y) > 0 ==> y <= x)
    }
}

/// The smallest item, if any.
pub open spec fn min_of(items: Multiset<u64>) -> Option<u64> {
    if items.len() == 0 {
        None
    } else {
        Some(choose|x: u64| items.count(x) > 0 && forall|y: u64| items.count(y) > 0 ==> x <= y)
    }
}

/// Index of a largest element of a non-empty vector.
fn index_of_max(v: &Vec<u64>) -> (i: usize)
    requires
        v@.len() > 0,
    ensures
        i < v@.len(),
        forall|j: int| 0 <= j < v@.len() ==> v@[j] <= v@[i as int],
{
    let mut best: usize = 0;
    let mut k: usize = 1;
    while k < v.len()
        invariant
            1 <= k <= v@.len(),
            best < k,
            forall|j: int| 0 <= j < k ==> v@[j] <= v@[best as int],
        decreases v@.len() - k,
    {
        if v[k] > v[best] {
            best = k;
        }
        k = k + 1;
    }
    best
}

proof fn lemma_max_is(s: Seq<u64>, i: int)
    requires
        0 <= i < s.len(),
        forall|j: int| 0 <= j < s.len() ==> s[j] <= s[i],
    ensures
        max_of(s.to_multiset()) == Some(s[i]),
{
    let m = s.to_multiset();
    assert(s.contains(s[i]));
    assert(m.count(s[i]) > 0);
    assert forall|y: u64| m.count(y) > 0 implies y <= s[i] by {
        assert(s.contains(y));
    }
    let x = choose|x: u64| m.count(x) > 0 && forall|y: u64| m.count(y) > 0 ==> y <= x;
    assert(m.count(x) > 0 && forall|y: u64| m.count(y) > 0 ==> y <= x);
    assert(x <= s[i] && s[i] <= x);
}

proof fn lemma_min_is(s: Seq<u64>, i: int)
    requires
        0 <= i < s.len(),
        forall|j: int| 0 <= j < s.len() ==> s[i] <= s[j],
    ensures
        min_of(s.to_multiset()) == Some(s[i]),
{
    let m = s.to_multiset();
    assert(s.contains(s[i]));
    assert(m.count(s[i]) > 0);
    assert forall|y: u64| m.count(y) > 0 implies s[i] <= y by {
        assert(s.contains(y));
    }
    let x = choose|x: u64| m.count(x) > 0 && forall|y: u64| m.count(y) > 0 ==> x <= y;
    assert(m.count(x) > 0 && forall|y: u64| m.count(y) > 0 ==> x <= y);
    assert(x <= s[i] && s[i] <= x);
}

/// A max-priority queue (the binary heap of the benchmark): pushes keep
/// every copy, the largest item comes out first.
pub struct MaxHeap {
    pub items: Vec<u64>,
}

impl MaxHeap {
    pub fn new() -> (h: Self)
        ensures
            h.pq_view() == Multiset::<u64>::empty(),
    {
        let h = MaxHeap { items: Vec::new() };
        proof {
            assert(h.items@.to_multiset().len() == 0);
            assert(h.items@.to_multiset() =~= Multiset::<u64>::empty());
        }
        h
    }
}

impl SequentialPriorityQueue<u64> for MaxHeap {
    open spec fn pq_view(&self) -> Multiset<u64> {
        self.items@.to_multiset()
    }

    open spec fn after_push(items: Multiset<u64>, item: u64) -> Multiset<u64> {
        items.insert(item)
    }

    open spec fn top(items: Multiset<u64>) -> Option<u64> {
        max_of(items)
    }

    fn push(&mut self, item: u64) {
        self.items.push(item);
    }

    fn peek(&mut self) -> (r: Option<&u64>) {
        if self.items.len() == 0 {
            None
        } else {
            let i = index_of_max(&self.items);
            proof {
                lemma_max_is(self.items@, i as int);
            }
            Some(&self.items[i])
        }
    }

    fn pop(&mut self) -> (r: Option<u64>) {
        if self.items.len() == 0 {
            None
        } else {
            let i = index_of_max(&self.items);
            proof {
                lemma_max_is(self.items@, i as int);
            }
            let x = self.items.remove(i);
            Some(x)
        }
    }
}

/// `BTreeSet::first`: per its documentation, the first element of the set,
/// which is always its minimum; none when the set is empty.
#[verifier::external_body]
fn btree_first(s: &BTreeSet<u64>) -> (r: Option<&u64>)
    ensures
        match r {
            None => s@ == Set::<u64>::empty(),
            Some(x) => s@.contains(*x) && forall|y: u64| s@.contains(y) ==> *x <= y,
        },
{
    s.first()
}

/// `BTreeSet::pop_first`: per its documentation, removes the first element
/// of the set, which is always its minimum, and returns it; none, and the
/// set unchanged, when it is empty.
#[verifier::external_body]
fn btree_pop_first(s: &mut BTreeSet<u64>) -> (r: Option<u64>)
    ensures
        match r {
            None => old(s)@ == Set::<u64>::empty() && final(s)@ == old(s)@,
            Some(x) => {
                &&& old(s)@.contains(x)
                &&& forall|y: u64| old(s)@.contains(y) ==> x <= y
                &&& final(s)@ == old(s)@.remove(x)
            },
        },
{
    s.pop_first()
}

/// An ordered set used as a min-priority queue: an item already held is not
/// added again, the smallest item comes out first.
pub struct MinSet {
    items: BTreeSet<u64>,
}

/// The multiset holding each item of `s` once.
pub open spec fn once_each(s: Set<u64>) -> Multiset<u64> {
    Multiset::from_set(s)
}

proof fn lemma_once_each(s: Set<u64>)
    requires
        s.finite(),
    ensures
        forall|x: u64| #[trigger] once_each(s).count(x) == if s.contains(x) { 1nat } else { 0nat },
        once_each(s).len() == 0 <==> s == Set::<u64>::empty(),
{
    let m = Map::<u64, nat>::new(|k: u64| s.contains(k), |v: u64| 1nat);
    assert(m.dom() =~= s);
    assert forall|x: u64| #[trigger] once_each(s).count(x) == if s.contains(x) { 1nat } else { 0nat } by {
        if s.contains(x) {
            vstd::multiset::axiom_multiset_contained(m, x);
        } else {
            vstd::multiset::axiom_multiset_new_not_contained(m, x);
        }
    }
    vstd::multiset::lemma_multiset_empty_len(once_each(s));
    if s =~= Set::<u64>::empty() {
        assert(once_each(s) =~= Multiset::<u64>::empty());
    }
    if once_each(s) =~= Multiset::<u64>::empty() {
        assert forall|x: u64| !s.contains(x) by {
            assert(once_each(s).count(x) == 0);
        }
        assert(s =~= Set::<u64>::empty());
    }
}

/// The least item of `s` is what `min_of` picks from it.
proof fn lemma_set_min(s: Set<u64>, x: u64)
    requires
        s.finite(),
        s.contains(x),
        forall|y: u64| s.contains(y) ==> x <= y,
    ensures
        min_of(once_each(s)) == Some(x),
{
    lemma_once_each(s);
    let m = once_each(s);
    assert(m.count(x) > 0);
    assert(m.len() != 0);
    let c = choose|c: u64| m.count(c) > 0 && forall|y: u64| m.count(y) > 0 ==> c <= y;
    assert(m.count(c) > 0 && forall|y: u64| m.count(y) > 0 ==> c <= y);
    assert(c <= x && x <= c);
}

impl MinSet {
    #[verifier::type_invariant]
    spec fn finite_items(self) -> bool {
        self.items@.finite()
    }

    pub fn new() -> (s: Self)
        ensures
            s.pq_view() == Multiset::<u64>::empty(),
    {
        let s = MinSet { items: BTreeSet::new() };
        proof {
            lemma_once_each(s.items@);
            assert(s.pq_view() =~= Multiset::<u64>::empty());
        }
        s
    }

    /// Whether `item` is held.
    pub fn contains(&self, item: u64) -> (r: bool)
        ensures
            r == (self.pq_view().count(item) > 0),
    {
        proof {
            use_type_invariant(self);
            lemma_once_each(self.items@);
        }
        self.items.contains(&item)
    }
}

impl SequentialPriorityQueue<u64> for MinSet {
    closed spec fn pq_view(&self) -> Multiset<u64> {
        once_each(self.items@)
    }

    open spec fn after_push(items: Multiset<u64>, item: u64) -> Multiset<u64> {
        if items.count(item) > 0 {
            items
        } else {
            items.insert(item)
        }
    }

    open spec fn top(items: Multiset<u64>) -> Option<u64> {
        min_of(items)
    }

    fn push(&mut self, item: u64) {
        proof {
            use_type_invariant(&*self);
            lemma_once_each(self.items@);
        }
        let ghost before = self.items@;
        let mut items = BTreeSet::new();
        std::mem::swap(&mut items, &mut self.items);
        items.insert(item);
        self.items = items;
        proof {
            lemma_once_each(self.items@);
            assert(self.pq_view() =~= Self::after_push(once_each(before), item));
        }
    }

    fn peek(&mut self) -> (r: Option<&u64>) {
        proof {
            use_type_invariant(&*self);
            lemma_once_each(self.items@);
        }
        let r = btree_first(&self.items);
        proof {
            match r {
                Some(x) => lemma_set_min(self.items@, *x),
                None => {},
            }
        }
        r
    }

    fn pop(&mut self) -> (r: Option<u64>) {
        proof {
            use_type_invariant(&*self);
            lemma_once_each(self.items@);
        }
        let ghost before = self.items@;
        let mut items = BTreeSet::new();
        std::mem::swap(&mut items, &mut self.items);
        let r = btree_pop_first(&mut items);
        self.items = items;
        proof {
            lemma_once_each(self.items@);
            match r {
                Some(x) => {
                    lemma_set_min(before, x);
                    assert(self.pq_view() =~= once_each(before).remove(x));
                },
                None => {},
            }
        }
        r
    }
}

/// The reply of a priority queue whose items are `items` to one request, and
/// the items afterwards.
pub open spec fn pq_reply<Q: SequentialPriorityQueue<u64>>(items: Multiset<u64>, input: PQData<u64>) -> (
    Multiset<u64>,
    PQData<u64>,
) {
    match input {
        PQData::Push { data } => (Q::after_push(items, data), PQData::Nothing),
        PQData::Pop => match Q::top(items) {
            Some(x) => (items.remove(x), PQData::PopResult(Some(x))),
            None => (items, PQData::PopResult(None)),
        },
        _ => (items, PQData::PeekResult(Q::top(items))),
    }
}

/// The critical section of the priority-queue benchmark: applies one
/// request (push, pop or peek) to the protected queue and answers it.
pub fn pq_operation<Q: SequentialPriorityQueue<u64>>(queue: &mut Q, input: PQData<u64>) -> (r:
    PQData<u64>)
    requires
        input is Push || input is Pop || input is Peek,
    ensures
        (final(queue).pq_view(), r) == pq_reply::<Q>(old(queue).pq_view(), input),
{
    match input {
        PQData::Push { data } => {
            queue.push(data);
            PQData::Nothing
        },
        PQData::Pop => {
            let output = queue.pop();
            PQData::PopResult(output)
        },
        _ => {
            let output = queue.peek();
            let copied = match output {
                Some(x) => Some(*x),
                None => None,
            };
            PQData::PeekResult(copied)
        },
    }
}

/// Law: the max-queue hands out items largest first: after pushing `a` and
/// `b`, a pop answers the larger of the two and leaves the other.
pub proof fn law_max_heap_pops_largest(a: u64, b: u64)
    ensures
        ({
            let (m1, _) = pq_reply::<MaxHeap>(Multiset::empty(), PQData::Push { data: a });
            let (m2, _) = pq_reply::<MaxHeap>(m1, PQData::Push { data: b });
            let (m3, r) = pq_reply::<MaxHeap>(m2, PQData::Pop);
            r == PQData::PopResult(Some(if a < b { b } else { a })) && m3 =~= Multiset::empty().insert(
                if a < b { a } else { b },
            )
        }),
{
    let s = seq![a, b];
    assert(s.to_multiset() =~= Multiset::empty().insert(a).insert(b)) by {
        assert(s =~= Seq::empty().push(a).push(b));
        assert(Seq::<u64>::empty().to_multiset() =~= Multiset::empty());
    }
    if a < b {
        lemma_max_is(s, 1);
    } else {
        lemma_max_is(s, 0);
    }
}

/// Law: the min-set hands out items smallest first and keeps one copy of
/// each: pushing `a` twice and popping twice answers `a`, then nothing.
pub proof fn law_min_set_dedups(a: u64)
    ensures
        ({
            let (m1, _) = pq_reply::<MinSet>(Multiset::empty(), PQData::Push { data: a });
            let (m2, _) = pq_reply::<MinSet>(m1, PQData::Push { data: a });
            let (m3, r1) = pq_reply::<MinSet>(m2, PQData::Pop);
            let (m4, r2) = pq_reply::<MinSet>(m3, PQData::Pop);
            r1 == PQData::PopResult(Some(a)) && r2 == PQData::<u64>::PopResult(None) && m4.len() == 0
        }),
{
    let m1 = Multiset::<u64>::empty().insert(a);
    assert(m1.count(a) > 0);
    let s = seq![a];
    assert(s.to_multiset() =~= m1) by {
        assert(s =~= Seq::empty().push(a));
        assert(Seq::<u64>::empty().to_multiset() =~= Multiset::empty());
    }
    lemma_min_is(s, 0);
    assert(m1.remove(a) =~= Multiset::empty());
}

} // verus!
