use vstd::prelude::*;

verus! {

/// A handle into a [`ListCache`]; internally stored shifted up by one so that
/// the all-zero bit pattern is never a valid handle.
#[derive(Clone, Copy, PartialEq, Eq, Structural, Debug)]
pub struct ListIndex {
    raw: usize,
}

impl ListIndex {
    pub closed spec fn wf(&self) -> bool {
        self.raw >= 1
    }

    /// The list position this handle denotes.
    pub closed spec fn spec_index(&self) -> int {
        self.raw as int - 1
    }

    fn new(n: usize) -> (r: Self)
        requires
            n < usize::MAX,
        ensures
            r.wf(),
            r.spec_index() == n as int,
    {
        ListIndex { raw: n + 1 }
    }

    fn get(self) -> (r: usize)
        requires
            self.wf(),
        ensures
            r as int == self.spec_index(),
    {
        self.raw - 1
    }
}

/// A deduplicating append-only list: inserting a value equal to one already
/// present hands back the existing handle instead of storing a duplicate.
pub struct ListCache<T> {
    values: Vec<T>,
}

impl<T> ListCache<T> {
    pub closed spec fn view(&self) -> Seq<T> {
        self.values@
    }

    pub fn new() -> (r: Self)
        ensures
            r@ == Seq::<T>::empty(),
    {
        ListCache { values: Vec::new() }
    }

    /// Retrieves the value a handle denotes, if the handle is in range.
    pub fn get(&self, index: ListIndex) -> (r: Option<&T>)
        requires
            index.wf(),
        ensures
            match r {
                Some(v) => index.spec_index() < self@.len() && *v == self@[index.spec_index()],
                None => index.spec_index() >= self@.len(),
            },
    {
        let i = index.get();
        if i < self.values.len() {
            Some(&self.values[i])
        } else {
            None
        }
    }
}

impl<T: Eq + vstd::std_specs::cmp::PartialEqSpec> ListCache<T> {
    /// Hands back the handle of the first stored value equal to `value`,
    /// appending `value` first if no stored value equals it.
    pub fn get_or_insert(&mut self, value: T) -> (r: ListIndex)
        requires
            old(self)@.len() < usize::MAX,
        ensures
            r.wf(),
            0 <= r.spec_index() < final(self)@.len(),
            T::obeys_eq_spec() ==> {
                &&& (forall|i: int|
                    0 <= i < r.spec_index() ==> !(#[trigger] final(self)@[i]).eq_spec(&value))
                &&& if exists|i: int|
                    0 <= i < old(self)@.len() && (#[trigger] old(self)@[i]).eq_spec(&value) {
                    final(self)@ == old(self)@ && final(self)@[r.spec_index()].eq_spec(&value)
                } else {
                    final(self)@ == old(self)@.push(value) && r.spec_index() == old(self)@.len()
                        && final(self)@[r.spec_index()] == value
                }
            },
    {
        let n = self.values.len();
        let mut i: usize = 0;
        while i < n
            invariant
                n == self.values@.len(),
                i <= n,
                self == old(self),
                T::obeys_eq_spec() ==> forall|j: int|
                    0 <= j < i ==> !(#[trigger] self.values@[j]).eq_spec(&value),
            decreases n - i,
        {
            if self.values[i] == value {
                return ListIndex::new(i);
            }
            i = i + 1;
        }
        self.values.push(value);
        ListIndex::new(n)
    }
}

} // verus!
