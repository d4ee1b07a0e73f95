//! Values with a mathematical model, an exact copy and an exact comparison.
//!
//! A `Vec` inside a structure keeps two structures with equal contents apart in the logic. Every
//! type that the executor moves around therefore has a model, in which a vector is a sequence,
//! and contracts speak of the models.

use vstd::prelude::*;

verus! {

/// A value that is described completely by its model.
pub trait Data: Sized {
    /// The mathematical value.
    type M;

    /// The model of the value.
    spec fn model(&self) -> Self::M;

    /// Returns a value with the same model.
    fn copied(&self) -> (r: Self)
        ensures
            r.model() == self.model(),
    ;

    /// Tells whether two values have the same model.
    fn same(&self, other: &Self) -> (r: bool)
        ensures
            r == (self.model() == other.model()),
    ;
}

impl Data for () {
    type M = ();

    open spec fn model(&self) -> () {
        ()
    }

    fn copied(&self) -> (r: Self) {
    }

    fn same(&self, other: &Self) -> (r: bool) {
        true
    }
}

impl Data for bool {
    type M = bool;

    open spec fn model(&self) -> bool {
        *self
    }

    fn copied(&self) -> (r: Self) {
        *self
    }

    fn same(&self, other: &Self) -> (r: bool) {
        *self == *other
    }
}

impl Data for u8 {
    type M = u8;

    open spec fn model(&self) -> u8 {
        *self
    }

    fn copied(&self) -> (r: Self) {
        *self
    }

    fn same(&self, other: &Self) -> (r: bool) {
        *self == *other
    }
}

impl Data for u64 {
    type M = u64;

    open spec fn model(&self) -> u64 {
        *self
    }

    fn copied(&self) -> (r: Self) {
        *self
    }

    fn same(&self, other: &Self) -> (r: bool) {
        *self == *other
    }
}

impl<const N: usize> Data for [u8; N] {
    type M = [u8; N];

    open spec fn model(&self) -> [u8; N] {
        *self
    }

    fn copied(&self) -> (r: Self) {
        *self
    }

    fn same(&self, other: &Self) -> (r: bool) {
        let mut i: usize = 0;
        while i < N
            invariant
                0 <= i <= N,
                forall|j: int| 0 <= j < i ==> self@[j] == other@[j],
            decreases N - i,
        {
            if self[i] != other[i] {
                return false;
            }
            i = i + 1;
        }
        assert(*self =~= *other);
        true
    }
}

impl<T: Data> Data for Option<T> {
    type M = Option<T::M>;

    open spec fn model(&self) -> Option<T::M> {
        match self {
            Some(t) => Some(t.model()),
            None => None,
        }
    }

    fn copied(&self) -> (r: Self) {
        match self {
            Some(t) => Some(t.copied()),
            None => None,
        }
    }

    fn same(&self, other: &Self) -> (r: bool) {
        match (self, other) {
            (Some(a), Some(b)) => a.same(b),
            (None, None) => true,
            _ => false,
        }
    }
}

impl<T: Data> Data for Vec<T> {
    type M = Seq<T::M>;

    open spec fn model(&self) -> Seq<T::M> {
        Seq::new(self@.len(), |i: int| self@[i].model())
    }

    fn copied(&self) -> (r: Self) {
        let mut r: Vec<T> = Vec::new();
        let mut i: usize = 0;
        while i < self.len()
            invariant
                0 <= i <= self.len(),
                r@.len() == i,
                forall|j: int| 0 <= j < i ==> r@[j].model() == self@[j].model(),
            decreases self.len() - i,
        {
            r.push(self[i].copied());
            i = i + 1;
        }
        assert(r.model() =~= self.model());
        r
    }

    fn same(&self, other: &Self) -> (r: bool) {
        if self.len() != other.len() {
            assert(self.model().len() != other.model().len());
            return false;
        }
        let mut i: usize = 0;
        while i < self.len()
            invariant
                0 <= i <= self.len(),
                self.len() == other.len(),
                forall|j: int| 0 <= j < i ==> self@[j].model() == other@[j].model(),
            decreases self.len() - i,
        {
            if !self[i].same(&other[i]) {
                assert(self.model()[i as int] != other.model()[i as int]);
                return false;
            }
            i = i + 1;
        }
        assert(self.model() =~= other.model());
        true
    }
}

/// The model of a byte vector is the sequence of its bytes.
pub proof fn lemma_bytes_model(v: &Vec<u8>)
    ensures
        v.model() == v@,
{
    assert(v.model() =~= v@);
}

/// The model of a vector of fixed-size byte strings is its view.
pub proof fn lemma_arrays_model<const N: usize>(v: &Vec<[u8; N]>)
    ensures
        v.model() == v@,
{
    assert(v.model() =~= v@);
}

/// Puts an element behind the others.
pub fn push_item<T: Data>(to: &mut Vec<T>, item: T)
    ensures
        final(to).model() == old(to).model().push(item.model()),
{
    let ghost before = to.model();
    to.push(item);
    assert(to.model() =~= before.push(item.model()));
}

/// Moves the elements of the second vector behind those of the first.
pub fn append_all<T: Data>(to: &mut Vec<T>, from: Vec<T>)
    ensures
        final(to).model() == old(to).model() + from.model(),
{
    let mut rest: Vec<T> = from;
    let ghost before = *to;
    to.append(&mut rest);
    assert(to.model() =~= before.model() + from.model());
}

/// Copies the elements from `start` up to, but not with, `end`.
pub fn copy_range<T: Data>(v: &Vec<T>, start: usize, end: usize) -> (r: Vec<T>)
    requires
        start <= end <= v.len(),
    ensures
        r.model() == v.model().subrange(start as int, end as int),
{
    let mut r: Vec<T> = Vec::new();
    let mut i: usize = start;
    while i < end
        invariant
            start <= i <= end <= v.len(),
            r@.len() == i - start,
            forall|j: int| 0 <= j < i - start ==> r@[j].model() == v@[start + j].model(),
        decreases end - i,
    {
        r.push(v[i].copied());
        i = i + 1;
    }
    assert(r.model() =~= v.model().subrange(start as int, end as int));
    r
}

/// The model of a vector is the sequence of the models of its elements, and the model of an option
/// is the option of the model.
pub proof fn law_models_of_containers<T: Data>(list: Vec<T>, option: Option<T>)
    ensures
        list.model().len() == list@.len(),
        forall|i: int| 0 <= i < list@.len() ==> #[trigger] list.model()[i] == list@[i].model(),
        option is None ==> option.model() is None,
        option is Some ==> option.model() == Some(option->0.model()),
{
}

/// Plain values are their own models.
pub proof fn law_models_of_plain_values<const N: usize>(a: bool, b: u8, c: u64, d: [u8; N])
    ensures
        a.model() == a,
        b.model() == b,
        c.model() == c,
        d.model() == d,
{
}

} // verus!
