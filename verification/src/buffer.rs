//! Bounded buffers: sequences with a capacity that is part of their type.
//! A buffer lives wherever its owner lives and never grows beyond its
//! capacity; an attempt to exceed it is refused.
use vstd::prelude::*;

verus! {

/// A sequence of at most `N` items, stored in place.
pub struct BoundedVec<T, const N: usize> {
    slots: [Option<T>; N],
    len: usize,
}

/// The slot of an empty position.
pub fn absent<T>(index: usize) -> (slot: Option<T>)
    ensures
        slot is None,
{
    None
}

/// The item of an occupied slot.
pub fn present<T>(slot: Option<T>) -> (item: T)
    requires
        slot is Some,
    ensures
        Some(item) == slot,
{
    slot.unwrap()
}

/// `slots` with its first `k` positions emptied.
pub open spec fn cleared<T, const N: usize>(slots: [Option<T>; N], k: nat) -> [Option<T>; N]
    decreases k,
{
    if k == 0 {
        slots
    } else {
        vstd::array::spec_array_update(cleared(slots, (k - 1) as nat), k - 1, None)
    }
}

/// `N` empty slots.
pub open spec fn none_slots<T, const N: usize>() -> [Option<T>; N] {
    cleared(arbitrary(), N as nat)
}

/// `values` with its first `k` positions set to the items of `slots`.
pub open spec fn unwrapped<T, const N: usize>(
    slots: [Option<T>; N],
    values: [T; N],
    k: nat,
) -> [T; N]
    decreases k,
{
    if k == 0 {
        values
    } else {
        vstd::array::spec_array_update(
            unwrapped(slots, values, (k - 1) as nat),
            k - 1,
            slots@[k - 1]->0,
        )
    }
}

/// The items of `N` occupied slots.
pub open spec fn item_array<T, const N: usize>(slots: [Option<T>; N]) -> [T; N] {
    unwrapped(slots, arbitrary(), N as nat)
}

proof fn lemma_cleared<T, const N: usize>(slots: [Option<T>; N], k: nat)
    requires
        k <= N,
    ensures
        forall|i: int| 0 <= i < k ==> (#[trigger] cleared(slots, k)@[i]) is None,
        forall|i: int| k <= i < N ==> (#[trigger] cleared(slots, k)@[i]) == slots@[i],
    decreases k,
{
    broadcast use vstd::array::group_array_axioms;

    if k > 0 {
        lemma_cleared(slots, (k - 1) as nat);
    }
}

/// Every one of `none_slots()` is empty.
pub proof fn lemma_none_slots<T, const N: usize>()
    ensures
        forall|i: int| 0 <= i < N ==> (#[trigger] none_slots::<T, N>()@[i]) is None,
{
    lemma_cleared::<T, N>(arbitrary(), N as nat);
}

proof fn lemma_unwrapped<T, const N: usize>(slots: [Option<T>; N], values: [T; N], k: nat)
    requires
        k <= N,
    ensures
        forall|i: int| 0 <= i < k ==> (#[trigger] unwrapped(slots, values, k)@[i]) == slots@[i]->0,
    decreases k,
{
    broadcast use vstd::array::group_array_axioms;

    if k > 0 {
        lemma_unwrapped(slots, values, (k - 1) as nat);
        let before = unwrapped(slots, values, (k - 1) as nat);
        let after = unwrapped(slots, values, k);
        assert(after@ == before@.update(k - 1, slots@[k - 1]->0));
        assert forall|i: int| 0 <= i < k implies (#[trigger] after@[i]) == slots@[i]->0 by {
            if i < k - 1 {
                assert(before@[i] == slots@[i]->0);
            }
        }
    }
}

/// `item_array(slots)` holds the item of each slot, in order.
pub proof fn lemma_item_array<T, const N: usize>(slots: [Option<T>; N])
    ensures
        forall|i: int| 0 <= i < N ==> (#[trigger] item_array(slots)@[i]) == slots@[i]->0,
{
    lemma_unwrapped(slots, arbitrary(), N as nat);
}

/// `core::array::from_fn` builds an array by calling a function with each
/// index in turn. Called with `absent`, which returns `None` whatever the
/// index, it gives `N` empty slots.
#[verifier::external_body]
fn empty_slots<T, const N: usize>() -> (slots: [Option<T>; N])
    ensures
        forall|i: int| 0 <= i < N ==> (#[trigger] slots@[i]) is None,
{
    core::array::from_fn(absent)
}

/// The array method `map` returns an array of the same size with a function
/// applied to each element in order. Called with `present` on slots that are
/// all occupied, it gives the array of their items.
#[verifier::external_body]
fn unwrap_slots<T, const N: usize>(slots: [Option<T>; N]) -> (items: [T; N])
    requires
        forall|i: int| 0 <= i < N ==> (#[trigger] slots@[i]) is Some,
    ensures
        forall|i: int| 0 <= i < N ==> Some(#[trigger] items@[i]) == slots@[i],
{
    slots.map(present)
}

impl<T, const N: usize> View for BoundedVec<T, N> {
    type V = Seq<T>;

    /// The items, oldest first.
    closed spec fn view(&self) -> Seq<T> {
        Seq::new(self.len as nat, |i: int| self.slots@[i]->0)
    }
}

impl<T, const N: usize> BoundedVec<T, N> {
    /// The occupied slots are exactly the first `len()`, and there are at
    /// most `N` of them.
    pub closed spec fn wf(&self) -> bool {
        &&& self.len <= N
        &&& forall|i: int| 0 <= i < self.len ==> (#[trigger] self.slots@[i]) is Some
        &&& forall|i: int| self.len <= i < N ==> (#[trigger] self.slots@[i]) is None
    }

    /// The empty buffer.
    pub closed spec fn spec_new() -> Self {
        BoundedVec { slots: none_slots(), len: 0 }
    }

    /// The buffer with `item` appended.
    pub closed spec fn spec_push(self, item: T) -> Self {
        BoundedVec {
            slots: vstd::array::spec_array_update(self.slots, self.len as int, Some(item)),
            len: (self.len + 1) as usize,
        }
    }

    /// The items of a full buffer, as an array.
    pub closed spec fn spec_into_array(self) -> [T; N] {
        item_array(self.slots)
    }

    /// A well-formed buffer holds at most `N` items.
    pub proof fn lemma_len_bound(self)
        requires
            self.wf(),
        ensures
            self@.len() <= N,
    {
    }

    /// Appending to a buffer that is not full makes it longer by one.
    pub proof fn lemma_spec_push_len(self, item: T)
        requires
            self@.len() < N,
        ensures
            self.spec_push(item)@.len() == self@.len() + 1,
    {
    }

    /// The empty buffer is well-formed and holds nothing.
    pub proof fn lemma_spec_new()
        ensures
            Self::spec_new().wf(),
            Self::spec_new()@ == Seq::<T>::empty(),
    {
        lemma_none_slots::<T, N>();
        assert(Self::spec_new()@ =~= Seq::<T>::empty());
    }

    /// Appending to a buffer that is not full gives a well-formed buffer
    /// with the item at its end.
    pub proof fn lemma_spec_push(self, item: T)
        requires
            self.wf(),
            self@.len() < N,
        ensures
            self.spec_push(item).wf(),
            self.spec_push(item)@ == self@.push(item),
    {
        broadcast use vstd::array::group_array_axioms;

        let next = self.spec_push(item);
        assert(next.slots@ == self.slots@.update(self.len as int, Some(item)));
        assert(next@ =~= self@.push(item));
    }

    /// The array of a full buffer holds the buffer's items.
    pub proof fn lemma_spec_into_array(self)
        requires
            self.wf(),
            self@.len() == N,
        ensures
            self.spec_into_array()@ == self@,
    {
        broadcast use vstd::array::group_array_axioms;

        lemma_item_array(self.slots);
        assert(self.spec_into_array()@ =~= self@);
    }

    /// Two well-formed buffers with the same items are the same buffer.
    pub proof fn lemma_ext_equal(self, other: Self)
        requires
            self.wf(),
            other.wf(),
            self@ == other@,
        ensures
            self == other,
    {
        broadcast use vstd::array::group_array_axioms;

        assert(self@.len() == self.len);
        assert(other@.len() == other.len);
        assert forall|i: int| 0 <= i < N implies self.slots@[i] == other.slots@[i] by {
            if i < self.len {
                assert(self@[i] == self.slots@[i]->0);
                assert(other@[i] == other.slots@[i]->0);
                assert(self.slots@[i] is Some);
                assert(other.slots@[i] is Some);
            } else {
                assert(self.slots@[i] is None);
                assert(other.slots@[i] is None);
            }
        }
        assert(self.slots =~= other.slots);
    }

    /// Makes an empty buffer.
    pub fn new() -> (buffer: Self)
        ensures
            buffer == Self::spec_new(),
            buffer.wf(),
            buffer@ == Seq::<T>::empty(),
    {
        let buffer = BoundedVec { slots: empty_slots(), len: 0 };
        proof {
            Self::lemma_spec_new();
            assert(buffer@ =~= Seq::<T>::empty());
            buffer.lemma_ext_equal(Self::spec_new());
        }
        buffer
    }

    /// The number of items.
    pub fn len(&self) -> (n: usize)
        ensures
            n == self@.len(),
    {
        self.len
    }

    /// The capacity.
    pub fn capacity(&self) -> (n: usize)
        ensures
            n == N,
    {
        N
    }

    /// Whether the buffer holds `N` items.
    pub fn is_full(&self) -> (full: bool)
        ensures
            full == (self@.len() >= N),
    {
        self.len >= N
    }

    /// Whether the buffer holds nothing.
    pub fn is_empty(&self) -> (empty: bool)
        ensures
            empty == (self@.len() == 0),
    {
        self.len == 0
    }

    /// The item at `index`.
    pub fn get(&self, index: usize) -> (item: &T)
        requires
            self.wf(),
            index < self@.len(),
        ensures
            *item == self@[index as int],
    {
        match &self.slots[index] {
            Some(item) => item,
            None => {
                proof {
                    assert(self.slots@[index as int] is Some);
                }
                unreached()
            },
        }
    }

    /// Appends `item` to a buffer that is not full.
    pub fn push(&mut self, item: T)
        requires
            old(self).wf(),
            old(self)@.len() < N,
        ensures
            *final(self) == old(self).spec_push(item),
            final(self).wf(),
            final(self)@ == old(self)@.push(item),
    {
        proof {
            old(self).lemma_spec_push(item);
        }
        self.slots[self.len] = Some(item);
        self.len = self.len + 1;
        proof {
            assert(self@ =~= old(self)@.push(item));
            self.lemma_ext_equal(old(self).spec_push(item));
        }
    }

    /// Appends `item` if there is room, and hands it back if there is none.
    pub fn try_push(&mut self, item: T) -> (res: Result<(), T>)
        requires
            old(self).wf(),
        ensures
            final(self).wf(),
            old(self)@.len() < N ==> res is Ok && *final(self) == old(self).spec_push(item)
                && final(self)@ == old(self)@.push(item),
            old(self)@.len() >= N ==> res == Err::<(), T>(item) && *final(self) == *old(self),
    {
        if self.len < N {
            self.push(item);
            Ok(())
        } else {
            Err(item)
        }
    }

    /// Removes the newest item and returns it, if there is one.
    pub fn pop(&mut self) -> (item: Option<T>)
        requires
            old(self).wf(),
        ensures
            final(self).wf(),
            old(self)@.len() == 0 ==> item is None && *final(self) == *old(self),
            old(self)@.len() > 0 ==> item == Some(old(self)@.last()) && final(self)@ == old(
                self,
            )@.drop_last(),
    {
        if self.len == 0 {
            return None;
        }
        self.len = self.len - 1;
        let item = self.slots[self.len].take();
        proof {
            assert(old(self).slots@[self.len as int] is Some);
            assert(self@ =~= old(self)@.drop_last());
        }
        item
    }

    /// Takes the contents out and leaves the buffer empty.
    pub fn take(&mut self) -> (contents: Self)
        ensures
            contents == *old(self),
            *final(self) == Self::spec_new(),
    {
        let mut contents = Self::new();
        core::mem::swap(self, &mut contents);
        contents
    }

    /// The items of a full buffer as an array; a buffer that is not full is
    /// handed back.
    pub fn into_array(self) -> (res: Result<[T; N], Self>)
        requires
            self.wf(),
        ensures
            self@.len() == N ==> (res matches Ok(items) && items == self.spec_into_array()
                && items@ == self@),
            self@.len() != N ==> (res matches Err(buffer) && buffer == self),
    {
        if self.len == N {
            proof {
                self.lemma_spec_into_array();
            }
            let items = unwrap_slots(self.slots);
            proof {
                broadcast use vstd::array::group_array_axioms;

                assert(items@ =~= self@);
                assert(items =~= self.spec_into_array());
            }
            Ok(items)
        } else {
            Err(self)
        }
    }
}

} // verus!
