//! What a value is, apart from how it is held in memory.
//!
//! Every type of the sheet has a mathematical model: a text is its sequence of
//! characters, a list the sequence of its items' models, a map from column
//! names the map of their models. Contracts speak of models, so that a copy
//! is known to be the same value, and equality is decided exactly.

use vstd::prelude::*;

verus! {

broadcast use vstd::std_specs::vec::group_vec_axioms;

pub trait Model: Sized {
    type M;

    /// The value that this object stands for.
    spec fn model(&self) -> Self::M;

    /// A second object for the same value.
    fn copy_of(&self) -> (r: Self)
        ensures
            r.model() == self.model(),
    ;

    /// Whether both objects stand for one value.
    fn same_as(&self, other: &Self) -> (b: bool)
        ensures
            b == (self.model() == other.model()),
    ;
}

impl Model for bool {
    type M = bool;

    open spec fn model(&self) -> bool {
        *self
    }

    fn copy_of(&self) -> (r: Self) {
        *self
    }

    fn same_as(&self, other: &Self) -> (b: bool) {
        *self == *other
    }
}

impl Model for usize {
    type M = usize;

    open spec fn model(&self) -> usize {
        *self
    }

    fn copy_of(&self) -> (r: Self) {
        *self
    }

    fn same_as(&self, other: &Self) -> (b: bool) {
        *self == *other
    }
}

impl Model for () {
    type M = ();

    open spec fn model(&self) -> () {
        ()
    }

    fn copy_of(&self) -> (r: Self) {
        ()
    }

    fn same_as(&self, other: &Self) -> (b: bool) {
        true
    }
}

impl Model for String {
    type M = Seq<char>;

    open spec fn model(&self) -> Seq<char> {
        self@
    }

    fn copy_of(&self) -> (r: Self) {
        self.clone()
    }

    fn same_as(&self, other: &Self) -> (b: bool) {
        *self == *other
    }
}

impl<T: Model> Model for Option<T> {
    type M = Option<T::M>;

    open spec fn model(&self) -> Option<T::M> {
        match self {
            Some(t) => Some(t.model()),
            None => None,
        }
    }

    fn copy_of(&self) -> (r: Self) {
        match self {
            Some(t) => Some(t.copy_of()),
            None => None,
        }
    }

    fn same_as(&self, other: &Self) -> (b: bool) {
        match (self, other) {
            (Some(a), Some(b)) => a.same_as(b),
            (None, None) => true,
            _ => false,
        }
    }
}

impl<T: Model> Model for Vec<T> {
    type M = Seq<T::M>;

    open spec fn model(&self) -> Seq<T::M> {
        Seq::new(self@.len(), |i: int| self@[i].model())
    }

    fn copy_of(&self) -> (r: Self) {
        let mut out: Vec<T> = Vec::new();
        let mut i: usize = 0;
        while i < self.len()
            invariant
                i <= self.len(),
                out@.len() == i,
                forall|k: int| 0 <= k < i ==> (#[trigger] out@[k]).model() == self@[k].model(),
            decreases self.len() - i,
        {
            out.push(self[i].copy_of());
            i += 1;
        }
        assert(out.model() =~= self.model());
        out
    }

    fn same_as(&self, other: &Self) -> (b: bool) {
        if self.len() != other.len() {
            assert(self.model().len() != other.model().len());
            return false;
        }
        let mut i: usize = 0;
        while i < self.len()
            invariant
                i <= self.len(),
                self.len() == other.len(),
                forall|k: int| 0 <= k < i ==> (#[trigger] self@[k]).model() == other@[k].model(),
            decreases self.len() - i,
        {
            if !self[i].same_as(&other[i]) {
                assert(self.model()[i as int] != other.model()[i as int]);
                return false;
            }
            i += 1;
        }
        assert(self.model() =~= other.model());
        true
    }
}

} // verus!

verus! {

/// The model of a borrowed value that may be absent.
pub open spec fn ref_model<T: Model>(r: Option<&T>) -> Option<T::M> {
    match r {
        Some(t) => Some(t.model()),
        None => None,
    }
}

} // verus!
