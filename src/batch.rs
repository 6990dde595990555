//! Preparing a batch of resources (parameter substitution) and collecting
//! their outcomes in resource order, whatever order they complete in.
use vstd::prelude::*;
use crate::structure::{any_needs_parameter, any_wants_parameter, placeholder, Resource};
use crate::text::replace_all;

verus! {

/// The parameters given for a batch.
#[derive(Clone, Debug)]
pub enum Params {
    /// No parameter at all.
    NotGiven,
    /// One parameter per resource, in resource order; a resource whose URL
    /// holds no placeholder ignores its entry.
    Positional(Vec<String>),
    /// One parameter for every resource that needs one.
    Shared(String),
}

/// Why the parameters do not fit the resources.
#[derive(Clone, Copy, Debug, PartialEq, Eq, Structural)]
pub enum ParamError {
    /// Some resource needs a parameter and none was given.
    MissingParameters,
    /// Positional parameters whose number differs from the number of resources.
    ParamCountMismatch { expected: usize, got: usize },
}

/// `after` is `before` with the placeholder of resource `i` replaced by
/// `param(i)`, selectors unchanged.
pub open spec fn substituted(before: Seq<Resource>, after: Seq<Resource>, param: spec_fn(int) -> Seq<char>) -> bool {
    &&& after.len() == before.len()
    &&& forall|i: int| 0 <= i < before.len() ==> (#[trigger] after[i]).url@ == replace_all(before[i].url@, placeholder(), param(i))
    &&& forall|i: int| 0 <= i < before.len() ==> (#[trigger] after[i]).selectors == before[i].selectors
}

/// Fills the placeholders of the resources' URLs from the parameters. Where
/// no resource needs one, the resources come back as they are. Otherwise no
/// parameters fail with `MissingParameters`, positional ones of the wrong
/// number with `ParamCountMismatch`, and given ones are substituted.
pub fn parameterize(resources: Vec<Resource>, params: &Params) -> (r: Result<Vec<Resource>, ParamError>)
    ensures
        !any_wants_parameter(resources@) ==> r == Ok::<_, ParamError>(resources),
        any_wants_parameter(resources@) ==> match params {
            Params::NotGiven => r == Err::<Vec<Resource>, _>(ParamError::MissingParameters),
            Params::Positional(ps) => if ps.len() != resources.len() {
                r == Err::<Vec<Resource>, _>(ParamError::ParamCountMismatch { expected: resources.len(), got: ps.len() })
            } else {
                r matches Ok(v) && substituted(resources@, v@, |i: int| ps@[i]@)
            },
            Params::Shared(p) => r matches Ok(v) && substituted(resources@, v@, |i: int| p@),
        },
{
    let needs = any_needs_parameter(&resources);
    if !needs {
        return Ok(resources);
    }
    match params {
        Params::NotGiven => Err(ParamError::MissingParameters),
        Params::Positional(ps) => {
            if ps.len() != resources.len() {
                return Err(ParamError::ParamCountMismatch { expected: resources.len(), got: ps.len() });
            }
            Ok(fill_each(resources, ps))
        },
        Params::Shared(p) => {
            let copies = repeated(p, resources.len());
            Ok(fill_each(resources, &copies))
        },
    }
}

/// `n` copies of `p`.
fn repeated(p: &String, n: usize) -> (r: Vec<String>)
    ensures
        r.len() == n,
        forall|i: int| 0 <= i < n ==> (#[trigger] r@[i])@ == p@,
{
    let mut r: Vec<String> = Vec::new();
    while r.len() < n
        invariant
            r.len() <= n,
            forall|i: int| 0 <= i < r.len() ==> (#[trigger] r@[i])@ == p@,
        decreases n - r.len(),
    {
        r.push(p.clone());
    }
    r
}

/// Substitutes parameter `i` into resource `i`.
fn fill_each(resources: Vec<Resource>, ps: &Vec<String>) -> (r: Vec<Resource>)
    requires
        ps.len() == resources.len(),
    ensures
        substituted(resources@, r@, |i: int| ps@[i]@),
{
    let ghost before = resources@;
    let mut out = resources;
    let mut i: usize = 0;
    while i < out.len()
        invariant
            out.len() == before.len(),
            ps.len() == before.len(),
            i <= out.len(),
            forall|k: int| 0 <= k < i ==> (#[trigger] out@[k]).url@ == replace_all(before[k].url@, placeholder(), ps@[k]@),
            forall|k: int| i <= k < out.len() ==> #[trigger] out@[k] == before[k],
            forall|k: int| 0 <= k < out.len() ==> (#[trigger] out@[k]).selectors == before[k].selectors,
        decreases out.len() - i,
    {
        out[i].mut_url_with_param(ps[i].as_str());
        i = i + 1;
    }
    out
}

/// `n` empty slots.
pub open spec fn empty_slots<T>(n: nat) -> Seq<Option<T>> {
    Seq::new(n, |i: int| None::<T>)
}

/// The slots after arrival `(i, x)`: it fills slot `i` where that slot is in
/// range and still empty, and changes nothing otherwise.
pub open spec fn record_step<T>(s: Seq<Option<T>>, i: int, x: T) -> Seq<Option<T>> {
    if 0 <= i < s.len() && s[i] is None {
        s.update(i, Some(x))
    } else {
        s
    }
}

/// The slots after each arrival `(index, item)` in turn has been recorded:
/// an arrival fills its slot where that slot is in range and still empty.
pub open spec fn recorded<T>(slots: Seq<Option<T>>, arrivals: Seq<(int, T)>) -> Seq<Option<T>>
    decreases arrivals.len(),
{
    if arrivals.len() == 0 {
        slots
    } else {
        record_step(recorded(slots, arrivals.drop_last()), arrivals.last().0, arrivals.last().1)
    }
}

/// Outcomes of the units of a batch, each kept in the slot of its unit, so
/// that they come out in unit order whatever order they were recorded in.
pub struct OrderedResults<T> {
    slots: Vec<Option<T>>,
}

impl<T> View for OrderedResults<T> {
    type V = Seq<Option<T>>;

    closed spec fn view(&self) -> Seq<Option<T>> {
        self.slots@
    }
}

impl<T> OrderedResults<T> {
    /// `n` empty slots.
    pub fn new(n: usize) -> (r: Self)
        ensures
            r@ == empty_slots::<T>(n as nat),
    {
        let mut slots: Vec<Option<T>> = Vec::new();
        let mut k: usize = 0;
        while k < n
            invariant
                k <= n,
                slots@ == Seq::new(k as nat, |i: int| None::<T>),
            decreases n - k,
        {
            slots.push(None);
            k = k + 1;
            assert(slots@ =~= Seq::new(k as nat, |i: int| None::<T>));
        }
        OrderedResults { slots }
    }

    /// The number of slots.
    pub fn len(&self) -> (r: usize)
        ensures
            r == self@.len(),
    {
        self.slots.len()
    }

    /// Records the outcome of unit `index`. It is kept, and `true` returned,
    /// only where the slot exists and is still empty; otherwise nothing changes.
    pub fn record(&mut self, index: usize, item: T) -> (r: bool)
        ensures
            r == (index < old(self)@.len() && old(self)@[index as int] is None),
            final(self)@ == record_step(old(self)@, index as int, item),
    {
        if index < self.slots.len() && self.slots[index].is_none() {
            self.slots.set(index, Some(item));
            true
        } else {
            false
        }
    }

    /// Whether every slot holds an outcome.
    pub fn is_complete(&self) -> (r: bool)
        ensures
            r == forall|i: int| 0 <= i < self@.len() ==> (#[trigger] self@[i]) is Some,
    {
        let mut i: usize = 0;
        while i < self.slots.len()
            invariant
                i <= self.slots.len(),
                forall|j: int| 0 <= j < i ==> (#[trigger] self.slots@[j]) is Some,
            decreases self.slots.len() - i,
        {
            if self.slots[i].is_none() {
                return false;
            }
            i = i + 1;
        }
        true
    }

    /// The outcomes in slot order, once every slot holds one; `None` while
    /// some slot is empty.
    pub fn into_ordered(self) -> (r: Option<Vec<T>>)
        ensures
            r is Some == (forall|i: int| 0 <= i < self@.len() ==> (#[trigger] self@[i]) is Some),
            r matches Some(v) ==> v.len() == self@.len()
                && forall|i: int| 0 <= i < v.len() ==> self@[i] == Some(#[trigger] v@[i]),
    {
        if !self.is_complete() {
            return None;
        }
        let ghost full = self@;
        let mut slots = self.slots;
        let mut out: Vec<T> = Vec::new();
        let mut i: usize = 0;
        while i < slots.len()
            invariant
                slots.len() == full.len(),
                i <= slots.len(),
                out.len() == i,
                forall|j: int| 0 <= j < full.len() ==> (#[trigger] full[j]) is Some,
                forall|j: int| i <= j < slots.len() ==> #[trigger] slots@[j] == full[j],
                forall|j: int| 0 <= j < i ==> full[j] == Some(#[trigger] out@[j]),
            decreases slots.len() - i,
        {
            match slots[i].take() {
                Some(x) => {
                    out.push(x);
                },
                None => {
                    assert(full[i as int] is Some);
                },
            }
            i = i + 1;
        }
        Some(out)
    }
}

/// Recording arrivals one at a time, as `record` does, gives `recorded`.
pub proof fn lemma_record_steps<T>(slots: Seq<Option<T>>, arrivals: Seq<(int, T)>, i: int, x: T)
    ensures
        record_step(recorded(slots, arrivals), i, x) == recorded(slots, arrivals.push((i, x))),
{
    assert(arrivals.push((i, x)).drop_last() =~= arrivals);
}

/// Whatever order the units complete in, each outcome ends in the slot of its
/// own unit, and the slots of units that have not completed stay empty: the
/// order of the results is the order of the units.
pub proof fn lemma_outcome_in_its_slot<T>(n: nat, arrivals: Seq<(int, T)>)
    requires
        forall|p: int| 0 <= p < arrivals.len() ==> 0 <= (#[trigger] arrivals[p]).0 < n,
        forall|p: int, q: int| 0 <= p < q < arrivals.len() ==> (#[trigger] arrivals[p]).0 != (#[trigger] arrivals[q]).0,
    ensures
        recorded(empty_slots::<T>(n), arrivals).len() == n,
        forall|p: int| 0 <= p < arrivals.len() ==>
            recorded(empty_slots::<T>(n), arrivals)[(#[trigger] arrivals[p]).0] == Some(arrivals[p].1),
        forall|k: int| 0 <= k < n && (forall|p: int| 0 <= p < arrivals.len() ==> (#[trigger] arrivals[p]).0 != k) ==>
            (#[trigger] recorded(empty_slots::<T>(n), arrivals)[k]) is None,
    decreases arrivals.len(),
{
    let empty = empty_slots::<T>(n);
    if arrivals.len() > 0 {
        let prev = arrivals.drop_last();
        lemma_outcome_in_its_slot(n, prev);
        let s = recorded(empty, prev);
        let (i, x) = arrivals.last();
        assert forall|p: int| 0 <= p < prev.len() implies (#[trigger] prev[p]).0 != i by {
            assert(arrivals[p] == prev[p]);
            assert(arrivals[arrivals.len() - 1] == arrivals.last());
        }
        assert(s[i] is None);
        assert forall|p: int| 0 <= p < arrivals.len() implies
            recorded(empty, arrivals)[(#[trigger] arrivals[p]).0] == Some(arrivals[p].1) by {
            if p < arrivals.len() - 1 {
                assert(arrivals[p] == prev[p]);
            }
        }
        assert forall|k: int| 0 <= k < n && (forall|p: int| 0 <= p < arrivals.len() ==> (#[trigger] arrivals[p]).0 != k) implies
            (#[trigger] recorded(empty, arrivals)[k]) is None by {
            assert forall|p: int| 0 <= p < prev.len() implies (#[trigger] prev[p]).0 != k by {
                assert(arrivals[p] == prev[p]);
            }
            assert(arrivals[arrivals.len() - 1].0 != k);
        }
    }
}

} // verus!
