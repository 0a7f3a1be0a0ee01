use vstd::laws_cmp::{obeys_cmp, obeys_cmp_ord, obeys_cmp_partial_ord, obeys_partial_cmp_spec_properties};
use vstd::laws_eq::obeys_eq_spec_properties;
use vstd::multiset::Multiset;
use vstd::prelude::*;
use vstd::std_specs::cmp::{OrdSpec, PartialEqSpec, PartialOrdSpec};

use core::cmp::Ordering;

verus! {

/// A request to fire `payload` once `deadline` has passed.
///
/// The deadline is an absolute point in time, in nanoseconds since the Unix
/// epoch. Requests are ordered so that a max-oriented priority structure
/// hands out the one with the smallest deadline first; equal deadlines are
/// ordered by payload.
#[derive(Debug, PartialEq, Eq)]
pub struct TimeoutRequest<T> {
    pub deadline: u64,
    pub payload: T,
}

/// The ascending order of requests: by deadline, then by payload.
pub open spec fn ascending<T: Ord>(a: TimeoutRequest<T>, b: TimeoutRequest<T>) -> Ordering {
    if a.deadline < b.deadline {
        Ordering::Less
    } else if a.deadline > b.deadline {
        Ordering::Greater
    } else {
        a.payload.cmp_spec(&b.payload)
    }
}

pub open spec fn reversed(o: Ordering) -> Ordering {
    match o {
        Ordering::Less => Ordering::Greater,
        Ordering::Equal => Ordering::Equal,
        Ordering::Greater => Ordering::Less,
    }
}

/// Whether `a` is due no later than `b`: an earlier deadline, or the same
/// deadline and a payload that is not greater.
pub open spec fn due_no_later<T: Ord>(a: TimeoutRequest<T>, b: TimeoutRequest<T>) -> bool {
    ascending(a, b) != Ordering::Greater
}

impl<T> TimeoutRequest<T> {
    pub fn new(deadline: u64, payload: T) -> (r: Self)
        ensures
            r == (TimeoutRequest { deadline, payload }),
    {
        TimeoutRequest { deadline, payload }
    }
}

impl<T: Ord> TimeoutRequest<T> {
    pub open spec fn spec_cmp(&self, other: &Self) -> Ordering {
        reversed(ascending(*self, *other))
    }

    /// The request order: `(deadline, payload)` compared lexicographically,
    /// then reversed, so that the earliest request is the greatest.
    pub fn cmp(&self, other: &Self) -> (r: Ordering)
        requires
            obeys_cmp::<T>(),
        ensures
            r == self.spec_cmp(other),
    {
        proof {
            reveal(obeys_cmp_ord);
        }
        let order = if self.deadline < other.deadline {
            Ordering::Less
        } else if self.deadline > other.deadline {
            Ordering::Greater
        } else {
            self.payload.cmp(&other.payload)
        };
        match order {
            Ordering::Less => Ordering::Greater,
            Ordering::Equal => Ordering::Equal,
            Ordering::Greater => Ordering::Less,
        }
    }
}

/// The facts of a total order that the payload order is relied on for.
pub proof fn lemma_payload_order<T: Ord>()
    requires
        obeys_cmp::<T>(),
    ensures
        forall|x: T, y: T| #[trigger] x.cmp_spec(&y) == Ordering::Less <==> y.cmp_spec(&x) == Ordering::Greater,
        forall|x: T, y: T, z: T|
            #[trigger] x.cmp_spec(&y) == Ordering::Less && #[trigger] y.cmp_spec(&z) != Ordering::Greater
                ==> x.cmp_spec(&z) == Ordering::Less,
{
    reveal(obeys_cmp_ord);
    reveal(obeys_cmp_partial_ord);
    reveal(obeys_partial_cmp_spec_properties);
    reveal(obeys_eq_spec_properties);
    assert forall|x: T, y: T, z: T|
        #[trigger] x.cmp_spec(&y) == Ordering::Less && #[trigger] y.cmp_spec(&z) != Ordering::Greater
            implies x.cmp_spec(&z) == Ordering::Less by {
        assert(x.partial_cmp_spec(&y) == Some(x.cmp_spec(&y)));
        assert(y.partial_cmp_spec(&z) == Some(y.cmp_spec(&z)));
        assert(x.partial_cmp_spec(&z) == Some(x.cmp_spec(&z)));
        assert(z.partial_cmp_spec(&x) == Some(z.cmp_spec(&x)));
        assert(z.partial_cmp_spec(&y) == Some(z.cmp_spec(&y)));
        assert(y.partial_cmp_spec(&x) == Some(y.cmp_spec(&x)));
        if y.cmp_spec(&z) == Ordering::Equal {
            assert(y.eq_spec(&z));
            assert(z.eq_spec(&y));
            if x.cmp_spec(&z) == Ordering::Equal {
                assert(x.eq_spec(&z));
                assert(x.eq_spec(&y));
            } else if x.cmp_spec(&z) == Ordering::Greater {
                assert(z.partial_cmp_spec(&x) == Some(Ordering::Less));
                assert(z.partial_cmp_spec(&y) == Some(Ordering::Less));
            }
        }
    }
    assert forall|x: T, y: T| #[trigger] x.cmp_spec(&y) == Ordering::Less
        <==> y.cmp_spec(&x) == Ordering::Greater by {
        assert(x.partial_cmp_spec(&y) == Some(x.cmp_spec(&y)));
        assert(y.partial_cmp_spec(&x) == Some(y.cmp_spec(&x)));
    }
}

proof fn lemma_earlier_then_due<T: Ord>(a: TimeoutRequest<T>, b: TimeoutRequest<T>, c: TimeoutRequest<T>)
    requires
        obeys_cmp::<T>(),
        ascending(a, b) == Ordering::Less,
        due_no_later(b, c),
    ensures
        due_no_later(a, c),
{
    lemma_payload_order::<T>();
    if a.deadline == b.deadline && b.deadline == c.deadline {
        assert(a.payload.cmp_spec(&b.payload) == Ordering::Less);
        assert(b.payload.cmp_spec(&c.payload) != Ordering::Greater);
    }
}

proof fn lemma_due_no_later_refl<T: Ord>(a: TimeoutRequest<T>)
    requires
        obeys_cmp::<T>(),
    ensures
        due_no_later(a, a),
{
    lemma_payload_order::<T>();
    if a.payload.cmp_spec(&a.payload) == Ordering::Greater {
        assert(a.payload.cmp_spec(&a.payload) == Ordering::Less);
    }
}

proof fn lemma_not_earlier_flip<T: Ord>(a: TimeoutRequest<T>, b: TimeoutRequest<T>)
    requires
        obeys_cmp::<T>(),
        ascending(a, b) != Ordering::Less,
    ensures
        due_no_later(b, a),
{
    lemma_payload_order::<T>();
    if a.deadline == b.deadline && b.payload.cmp_spec(&a.payload) == Ordering::Greater {
        assert(a.payload.cmp_spec(&b.payload) == Ordering::Less);
    }
}

/// Whether taking `x` out of `before`, leaving `after`, takes a request that
/// is due no later than any that stays.
pub open spec fn is_earliest_pop<T: Ord>(
    before: Multiset<TimeoutRequest<T>>,
    x: TimeoutRequest<T>,
    after: Multiset<TimeoutRequest<T>>,
) -> bool {
    &&& before.contains(x)
    &&& after == before.remove(x)
    &&& forall|y: TimeoutRequest<T>| #[trigger] after.contains(y) ==> due_no_later(x, y)
}

/// Whether `out` is a sequence of successive extractions of the earliest
/// request from `pending`.
pub open spec fn is_extraction<T: Ord>(pending: Multiset<TimeoutRequest<T>>, out: Seq<TimeoutRequest<T>>) -> bool
    decreases out.len(),
{
    if out.len() == 0 {
        true
    } else {
        let rest = pending.remove(out[0]);
        is_earliest_pop(pending, out[0], rest) && is_extraction(rest, out.drop_first())
    }
}

/// Pending timeout requests, handed out earliest first.
///
/// This is a max-oriented queue under `TimeoutRequest::cmp`: the greatest
/// request under that order, which is the one with the smallest deadline,
/// comes out first.
#[derive(Debug)]
pub struct TimeoutQueue<T> {
    requests: Vec<TimeoutRequest<T>>,
}

impl<T> View for TimeoutQueue<T> {
    type V = Multiset<TimeoutRequest<T>>;

    closed spec fn view(&self) -> Multiset<TimeoutRequest<T>> {
        self.requests@.to_multiset()
    }
}

impl<T> TimeoutQueue<T> {
    pub fn new() -> (r: Self)
        ensures
            r@ == Multiset::<TimeoutRequest<T>>::empty(),
    {
        let r = TimeoutQueue { requests: Vec::new() };
        proof {
            broadcast use vstd::seq_lib::group_to_multiset_ensures;
            assert(r.requests@ =~= Seq::<TimeoutRequest<T>>::empty());
        }
        r
    }

    pub fn len(&self) -> (r: usize)
        ensures
            r == self@.len(),
    {
        proof {
            broadcast use vstd::seq_lib::group_to_multiset_ensures;
        }
        self.requests.len()
    }

    pub fn is_empty(&self) -> (r: bool)
        ensures
            r <==> self@.len() == 0,
    {
        proof {
            broadcast use vstd::seq_lib::group_to_multiset_ensures;
        }
        self.requests.len() == 0
    }

    /// Adds a request.
    pub fn push(&mut self, request: TimeoutRequest<T>)
        ensures
            final(self)@ == old(self)@.insert(request),
    {
        proof {
            broadcast use vstd::seq_lib::to_multiset_build;
        }
        self.requests.push(request);
    }
}

impl<T: Ord> TimeoutQueue<T> {
    /// Takes out the request that is due first: the smallest deadline, and
    /// among equal deadlines the smallest payload. `None` when empty.
    pub fn pop(&mut self) -> (r: Option<TimeoutRequest<T>>)
        requires
            obeys_cmp::<T>(),
        ensures
            r is None <==> old(self)@.len() == 0,
            r is None ==> final(self)@ == old(self)@,
            r matches Some(x) ==> is_earliest_pop(old(self)@, x, final(self)@),
    {
        proof {
            broadcast use vstd::seq_lib::group_to_multiset_ensures;
            lemma_payload_order::<T>();
        }
        let n = self.requests.len();
        if n == 0 {
            return None;
        }
        let mut best: usize = 0;
        let mut k: usize = 1;
        while k < n
            invariant
                n == self.requests.len(),
                obeys_cmp::<T>(),
                0 <= best < k <= n,
                forall|j: int| 0 <= j < k ==> due_no_later(self.requests@[best as int], #[trigger] self.requests@[j]),
            decreases n - k,
        {
            let ghost prev = best;
            if matches!(self.requests[k].cmp(&self.requests[best]), Ordering::Greater) {
                best = k;
            }
            proof {
                let v = self.requests@;
                assert forall|j: int| 0 <= j < k + 1 implies due_no_later(v[best as int], #[trigger] v[j]) by {
                    if best == k {
                        if j < k {
                            lemma_earlier_then_due(v[k as int], v[prev as int], v[j]);
                        } else {
                            lemma_due_no_later_refl(v[k as int]);
                        }
                    } else if j == k {
                        lemma_not_earlier_flip(v[k as int], v[best as int]);
                    }
                }
            }
            k = k + 1;
        }
        let ghost before = self.requests@;
        let x = self.requests.remove(best);
        proof {
            broadcast use vstd::seq_lib::to_multiset_remove;
            assert(self.requests@.to_multiset() == before.to_multiset().remove(before[best as int]));
            assert forall|y: TimeoutRequest<T>| #[trigger] self@.contains(y) implies due_no_later(x, y) by {
                let i = choose|i: int| 0 <= i < self.requests@.len() && self.requests@[i] == y;
                if i < best {
                    assert(before[i] == y);
                } else {
                    assert(before[i + 1] == y);
                }
            }
        }
        Some(x)
    }
}

/// Requests come out of a queue in order of deadline, and requests with
/// equal deadlines in order of payload, whatever order they went in.
pub proof fn lemma_extraction_order<T: Ord>(pending: Multiset<TimeoutRequest<T>>, out: Seq<TimeoutRequest<T>>)
    requires
        obeys_cmp::<T>(),
        is_extraction(pending, out),
    ensures
        forall|i: int, j: int| 0 <= i < j < out.len() ==> {
            &&& (#[trigger] out[i]).deadline <= (#[trigger] out[j]).deadline
            &&& out[i].deadline == out[j].deadline ==> out[i].payload.cmp_spec(&out[j].payload) != Ordering::Greater
        },
    decreases out.len(),
{
    if out.len() > 0 {
        let rest = pending.remove(out[0]);
        lemma_extraction_order(rest, out.drop_first());
        lemma_extraction_within(rest, out.drop_first());
        assert forall|i: int, j: int| 0 <= i < j < out.len() implies {
            &&& (#[trigger] out[i]).deadline <= (#[trigger] out[j]).deadline
            &&& out[i].deadline == out[j].deadline ==> out[i].payload.cmp_spec(&out[j].payload) != Ordering::Greater
        } by {
            if i == 0 {
                assert(rest.contains(out.drop_first()[j - 1]));
            } else {
                assert(out[i] == out.drop_first()[i - 1]);
                assert(out[j] == out.drop_first()[j - 1]);
            }
        }
    }
}

proof fn lemma_extraction_within<T: Ord>(pending: Multiset<TimeoutRequest<T>>, out: Seq<TimeoutRequest<T>>)
    requires
        is_extraction(pending, out),
    ensures
        forall|j: int| 0 <= j < out.len() ==> pending.contains(#[trigger] out[j]),
    decreases out.len(),
{
    if out.len() > 0 {
        let rest = pending.remove(out[0]);
        lemma_extraction_within(rest, out.drop_first());
        assert forall|j: int| 0 <= j < out.len() implies pending.contains(#[trigger] out[j]) by {
            if j > 0 {
                assert(out[j] == out.drop_first()[j - 1]);
                assert(rest.contains(out[j]));
                assert(rest.count(out[j]) <= pending.count(out[j]));
            }
        }
    }
}

} // verus!
