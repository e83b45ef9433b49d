//! A growable array that keeps short sequences within its inline budget and
//! moves to a heap block of tracked capacity when they outgrow it.
//!
//! The elements are held in a vector throughout. What the array adds is the
//! capacity it accounts for: the inline slots while the elements fit there,
//! and beyond them a block whose size it chooses, grows to the next power of
//! two and gives back on request. [`ArrayModel`] says what each operation
//! does to the elements and to that capacity, and the laws that follow from
//! it.

use vstd::layout::{align_of, size_of, valid_layout};
use vstd::prelude::*;
use vstd::std_specs::cmp::{PartialEqSpec, PartialEqSpecImpl};
use vstd::std_specs::iter::IteratorSpec;
use vstd::slice::slice_to_vec;

verus! {

/// A block of inline slots: the element type and how many of them fit.
pub trait MemoryBlock {
    type LayoutItem;

    /// The number of slots in the block.
    spec fn spec_size() -> usize;

    /// The number of slots in the block.
    fn size() -> (n: usize)
        ensures
            n == Self::spec_size(),
    ;
}

impl<T> MemoryBlock for [T; 2] {
    type LayoutItem = T;

    open spec fn spec_size() -> usize {
        2
    }

    fn size() -> (n: usize) {
        2
    }
}

impl<T> MemoryBlock for [T; 4] {
    type LayoutItem = T;

    open spec fn spec_size() -> usize {
        4
    }

    fn size() -> (n: usize) {
        4
    }
}

impl<T> MemoryBlock for [T; 8] {
    type LayoutItem = T;

    open spec fn spec_size() -> usize {
        8
    }

    fn size() -> (n: usize) {
        8
    }
}

impl<T> MemoryBlock for [T; 16] {
    type LayoutItem = T;

    open spec fn spec_size() -> usize {
        16
    }

    fn size() -> (n: usize) {
        16
    }
}

impl<T> MemoryBlock for [T; 32] {
    type LayoutItem = T;

    open spec fn spec_size() -> usize {
        32
    }

    fn size() -> (n: usize) {
        32
    }
}

impl<T> MemoryBlock for [T; 64] {
    type LayoutItem = T;

    open spec fn spec_size() -> usize {
        64
    }

    fn size() -> (n: usize) {
        64
    }
}

impl<T> MemoryBlock for [T; 128] {
    type LayoutItem = T;

    open spec fn spec_size() -> usize {
        128
    }

    fn size() -> (n: usize) {
        128
    }
}

impl<T> MemoryBlock for [T; 256] {
    type LayoutItem = T;

    open spec fn spec_size() -> usize {
        256
    }

    fn size() -> (n: usize) {
        256
    }
}

/// The size and alignment of a block of memory, in bytes.
#[derive(Debug, Clone, Copy, PartialEq, Eq)]
pub struct BlockLayout {
    pub size: usize,
    pub align: usize,
}

/// Whether an array of `count` elements of `T` has a layout: its size in
/// bytes fits in `usize` and, rounded up to the alignment of `T`, in
/// `isize`.
pub open spec fn layout_exists<T>(count: usize) -> bool {
    &&& size_of::<T>() * count <= usize::MAX
    &&& valid_layout((size_of::<T>() * count) as usize, align_of::<T>() as usize)
}

/// The layout of an array of `count` elements of `T`: `count` times the
/// size of `T`, at the alignment of `T`. Fails where there is no such
/// layout.
pub fn calculate_memory_layout<T>(count: usize) -> (r: Result<BlockLayout, ()>)
    ensures
        r.is_ok() <==> layout_exists::<T>(count),
        r.is_ok() ==> r.unwrap().size == size_of::<T>() * count && r.unwrap().align
            == align_of::<T>(),
{
    broadcast use {vstd::layout::align_nonzero, vstd::layout::align_properties};

    let size: usize = match core::mem::size_of::<T>().checked_mul(count) {
        Some(size) => size,
        None => {
            return Err(());
        },
    };
    let alignment: usize = core::mem::align_of::<T>();
    let limit: usize = isize::MAX as usize;
    assert(alignment > 0);
    assert(limit % alignment <= limit) by (nonlinear_arith)
        requires
            alignment > 0,
    ;
    if size <= limit - limit % alignment {
        Ok(BlockLayout { size, align: alignment })
    } else {
        Err(())
    }
}

/// Whether `n` is a power of two.
pub open spec fn is_power_of_two(n: nat) -> bool
    decreases n,
{
    n == 1 || (n >= 2 && n % 2 == 0 && is_power_of_two(n / 2))
}

/// The smallest power of two that is at least `n`.
pub open spec fn next_power_of_two(n: nat) -> nat
    decreases n,
{
    if n <= 1 {
        1
    } else {
        2 * next_power_of_two((n + 1) / 2)
    }
}

/// `next_power_of_two(n)` is a power of two, at least `n` and less than
/// twice `n` (but for `n == 0`).
pub proof fn lemma_next_power_of_two(n: nat)
    ensures
        is_power_of_two(next_power_of_two(n)),
        n <= next_power_of_two(n),
        n >= 1 ==> next_power_of_two(n) < 2 * n,
    decreases n,
{
    if n > 1 {
        lemma_next_power_of_two((n + 1) / 2);
    }
}

/// Of two powers of two, the larger is at least twice the smaller.
pub proof fn lemma_powers_of_two_apart(p: nat, q: nat)
    requires
        is_power_of_two(p),
        is_power_of_two(q),
        p < q,
    ensures
        2 * p <= q,
    decreases p,
{
    if p != 1 {
        lemma_powers_of_two_apart(p / 2, q / 2);
    }
}

/// No power of two lies between `n` and `next_power_of_two(n)`.
pub proof fn lemma_next_power_of_two_is_least(n: nat, p: nat)
    requires
        is_power_of_two(p),
        n <= p,
    ensures
        next_power_of_two(n) <= p,
{
    lemma_next_power_of_two(n);
    if p < next_power_of_two(n) {
        lemma_powers_of_two_apart(p, next_power_of_two(n));
    }
}

/// The next power of two grows with its argument.
pub proof fn lemma_next_power_of_two_monotone(a: nat, b: nat)
    requires
        a <= b,
    ensures
        next_power_of_two(a) <= next_power_of_two(b),
{
    lemma_next_power_of_two(b);
    lemma_next_power_of_two_is_least(a, next_power_of_two(b));
}

/// An array has a layout where its size in bytes, with one alignment to
/// spare, fits in `isize`.
pub proof fn lemma_layout_exists<T>(count: usize)
    requires
        size_of::<T>() * count + align_of::<T>() <= isize::MAX,
    ensures
        layout_exists::<T>(count),
{
    broadcast use {vstd::layout::align_nonzero, vstd::layout::align_properties};

    let align = align_of::<T>() as int;
    assert(0 <= (isize::MAX as int) % align < align) by (nonlinear_arith)
        requires
            align > 0,
    ;
}

/// Where an array of some length has a layout, a shorter one has too.
pub proof fn lemma_layout_exists_smaller<T>(small: usize, large: usize)
    requires
        small <= large,
        layout_exists::<T>(large),
    ensures
        layout_exists::<T>(small),
{
    assert(size_of::<T>() * small <= size_of::<T>() * large) by (nonlinear_arith)
        requires
            small <= large,
    ;
}

/// The smallest power of two that is at least `n`, or `None` where it does
/// not fit in `usize`.
pub fn checked_next_power_of_two(n: usize) -> (r: Option<usize>)
    ensures
        r == if next_power_of_two(n as nat) <= usize::MAX {
            Some(next_power_of_two(n as nat) as usize)
        } else {
            None
        },
    decreases n,
{
    if n <= 1 {
        Some(1)
    } else {
        match checked_next_power_of_two(n - (n / 2)) {
            Some(half) => half.checked_mul(2),
            None => None,
        }
    }
}

/// `Vec::capacity`: the number of elements the vector has room for
/// without allocating again. It depends on what the allocator gave, so
/// all that is stated is that the elements fit in it.
#[verifier::external_body]
fn vec_capacity<T>(v: &Vec<T>) -> (c: usize)
    ensures
        c >= v@.len(),
{
    v.capacity()
}

/// `Vec::reserve_exact`: makes room for at least `additional` more
/// elements and leaves the elements as they are. It panics where the new
/// capacity in bytes exceeds `isize::MAX`, which the precondition rules
/// out.
#[verifier::external_body]
fn vec_reserve_exact<T>(v: &mut Vec<T>, additional: usize)
    requires
        old(v)@.len() + additional <= usize::MAX,
        layout_exists::<T>((old(v)@.len() + additional) as usize),
    ensures
        final(v)@ == old(v)@,
{
    v.reserve_exact(additional)
}

/// `Vec::shrink_to`: gives back capacity above the larger of the length
/// and `min_capacity` and leaves the elements as they are.
#[verifier::external_body]
fn vec_shrink_to<T>(v: &mut Vec<T>, min_capacity: usize)
    ensures
        final(v)@ == old(v)@,
{
    v.shrink_to(min_capacity)
}

/// `Iterator::size_hint`, its lower bound: how many items the iterator
/// says are left at least. An iterator may say anything, so nothing is
/// stated of it.
#[verifier::external_body]
fn lower_size_hint<I: Iterator>(iter: &I) -> usize {
    iter.size_hint().0
}

/// What an array is, apart from how it is stored: its elements in order,
/// the number of elements it has room for, and the number of slots it
/// holds inline.
pub struct ArrayModel<T> {
    pub items: Seq<T>,
    pub capacity: nat,
    pub slots: nat,
}

impl<T> ArrayModel<T> {
    /// The elements fit in the capacity, which is never under the inline
    /// slots.
    pub open spec fn wf(self) -> bool {
        self.items.len() <= self.capacity && self.slots <= self.capacity
    }

    /// Whether the elements live in a heap block: the capacity then exceeds
    /// the inline slots.
    pub open spec fn spilled(self) -> bool {
        self.capacity > self.slots
    }

    /// The empty array with `slots` inline slots.
    pub open spec fn empty(slots: nat) -> Self {
        ArrayModel { items: Seq::empty(), capacity: slots, slots }
    }

    /// The array of `items` that was handed a block of `capacity` slots: it
    /// keeps the block if that is larger than the inline slots, and lives
    /// inline otherwise.
    pub open spec fn adopt(items: Seq<T>, capacity: nat, slots: nat) -> Self {
        ArrayModel { items, capacity: if capacity <= slots { slots } else { capacity }, slots }
    }

    /// Whether `additional` more elements fit without growing.
    pub open spec fn has_room(self, additional: nat) -> bool {
        self.capacity - self.items.len() >= additional
    }

    /// The array moved to a block of `new_cap` slots, or to the inline
    /// slots where `new_cap` is no more than those.
    pub open spec fn grow(self, new_cap: nat) -> Self {
        ArrayModel {
            items: self.items,
            capacity: if new_cap <= self.slots { self.slots } else { new_cap },
            slots: self.slots,
        }
    }

    /// The capacity that makes room for `additional` more elements: the
    /// present one if it has the room, else the next power of two at or
    /// above the length that is asked for.
    pub open spec fn reserve(self, additional: nat) -> Self {
        if self.has_room(additional) {
            self
        } else {
            self.grow(next_power_of_two(self.items.len() + additional))
        }
    }

    /// Whether room for `additional` more elements can be had: either it is
    /// there, or the capacity to grow to fits in `usize` and a block of
    /// that many elements has a layout.
    pub open spec fn can_reserve(self, additional: nat) -> bool {
        let target = next_power_of_two(self.items.len() + additional);
        self.has_room(additional) || (target <= usize::MAX && layout_exists::<T>(target as usize))
    }

    /// `reserve` where room can be had, and no change where it cannot.
    pub open spec fn try_reserve(self, additional: nat) -> Self {
        if self.can_reserve(additional) {
            self.reserve(additional)
        } else {
            self
        }
    }

    /// The array with `value` added at the end.
    pub open spec fn push(self, value: T) -> Self {
        ArrayModel {
            items: self.items.push(value),
            capacity: self.reserve(1).capacity,
            slots: self.slots,
        }
    }

    /// The array with the elements of `values` added at the end one by
    /// one, first to last.
    pub open spec fn push_all(self, values: Seq<T>) -> Self
        decreases values.len(),
    {
        if values.len() == 0 {
            self
        } else {
            self.push(values.first()).push_all(values.drop_first())
        }
    }

    /// Whether room can be had for each of `values` in turn as `push_all`
    /// adds them.
    pub open spec fn can_push_all(self, values: Seq<T>) -> bool
        decreases values.len(),
    {
        values.len() == 0 || (self.can_reserve(1) && self.push(values.first()).can_push_all(
            values.drop_first(),
        ))
    }

    /// The array without its last element; the empty array stays as it is.
    pub open spec fn pop(self) -> Self {
        ArrayModel {
            items: if self.items.len() == 0 { self.items } else { self.items.drop_last() },
            capacity: self.capacity,
            slots: self.slots,
        }
    }

    /// The element that `pop` removes.
    pub open spec fn popped(self) -> Option<T> {
        if self.items.len() == 0 {
            None
        } else {
            Some(self.items.last())
        }
    }

    /// The array cut down to its first `target_len` elements; a shorter
    /// array stays as it is.
    pub open spec fn truncate(self, target_len: nat) -> Self {
        ArrayModel {
            items: if target_len < self.items.len() {
                self.items.take(target_len as int)
            } else {
                self.items
            },
            capacity: self.capacity,
            slots: self.slots,
        }
    }

    /// The array with `slice` put in before the element at `index`.
    pub open spec fn insert_slice(self, slice: Seq<T>, index: int) -> Self {
        ArrayModel {
            items: self.items.take(index) + slice + self.items.skip(index),
            capacity: self.reserve(slice.len()).capacity,
            slots: self.slots,
        }
    }

    /// The array with `slice` added at the end.
    pub open spec fn extend(self, slice: Seq<T>) -> Self {
        self.insert_slice(slice, self.items.len() as int)
    }

    /// The array with no capacity to spare: inline if the elements fit
    /// there, else in a block of exactly their number.
    pub open spec fn shrink(self) -> Self {
        ArrayModel {
            items: self.items,
            capacity: if self.items.len() <= self.slots { self.slots } else { self.items.len() },
            slots: self.slots,
        }
    }

    /// Every operation keeps the elements within the capacity and the
    /// capacity at or above the inline slots.
    pub proof fn lemma_operations_keep_wf(
        self,
        value: T,
        values: Seq<T>,
        index: int,
        count: nat,
    )
        requires
            self.wf(),
        ensures
            Self::empty(self.slots).wf(),
            self.items.len() <= count ==> Self::adopt(self.items, count, self.slots).wf(),
            self.items.len() < count ==> self.grow(count).wf(),
            self.reserve(count).wf(),
            self.try_reserve(count).wf(),
            self.push(value).wf(),
            self.pop().wf(),
            self.truncate(count).wf(),
            0 <= index <= self.items.len() ==> self.insert_slice(values, index).wf(),
            self.extend(values).wf(),
            self.shrink().wf(),
    {
        lemma_next_power_of_two(self.items.len() + count);
        lemma_next_power_of_two(self.items.len() + 1);
        lemma_next_power_of_two(self.items.len() + values.len());
    }

    /// What was pushed last is popped first, and the elements are then
    /// what they were before the push.
    pub proof fn lemma_push_then_pop(self, value: T)
        ensures
            self.push(value).popped() == Some(value),
            self.push(value).pop().items == self.items,
            self.push(value).pop().items.len() == self.items.len(),
    {
        assert(self.items.push(value).drop_last() =~= self.items);
    }

    /// Extending leaves the elements that were there, in their order,
    /// followed by the new ones.
    pub proof fn lemma_extend_appends(self, values: Seq<T>)
        ensures
            self.extend(values).items == self.items + values,
    {
        assert(self.extend(values).items =~= self.items + values);
    }

    /// Shrinking twice is shrinking once, and an array whose elements fit
    /// in the inline slots is inline after it.
    pub proof fn lemma_shrink_idempotent(self)
        ensures
            self.shrink().shrink() == self.shrink(),
            self.shrink().items == self.items,
            self.items.len() <= self.slots ==> !self.shrink().spilled(),
            self.items.len() > self.slots ==> self.shrink().capacity == self.items.len(),
    {
    }

    /// An attempt to reserve keeps the array well-formed, and room that
    /// could be had before can be had after.
    pub proof fn lemma_try_reserve(self, hint: nat, additional: nat)
        requires
            self.wf(),
            self.can_reserve(additional),
        ensures
            self.try_reserve(hint).wf(),
            self.try_reserve(hint).items == self.items,
            self.try_reserve(hint).can_reserve(additional),
    {
        lemma_next_power_of_two(self.items.len() + hint);
    }

    /// Where room for all of `values` can be had, it can be had for each
    /// in turn, and pushing them one by one ends in the same array as
    /// adding them at once.
    pub proof fn lemma_push_all_is_extend(self, values: Seq<T>)
        requires
            self.wf(),
            self.can_reserve(values.len()),
        ensures
            self.can_push_all(values),
            self.push_all(values) == self.extend(values),
        decreases values.len(),
    {
        let len = self.items.len();
        let n = values.len();
        if n == 0 {
            assert(self.extend(values).items =~= self.items);
        } else {
            let target = next_power_of_two(len + n);
            let first_target = next_power_of_two(len + 1);
            lemma_next_power_of_two(len + n);
            lemma_next_power_of_two(len + 1);
            lemma_next_power_of_two_monotone(len + 1, len + n);
            if !self.has_room(n) {
                lemma_layout_exists_smaller::<T>(first_target as usize, target as usize);
                if first_target >= len + n {
                    lemma_next_power_of_two_is_least(len + n, first_target);
                }
            }
            let next = self.push(values.first());
            let rest = values.drop_first();
            assert(next.items.len() + rest.len() == len + n);
            next.lemma_push_all_is_extend(rest);
            assert(next.extend(rest).items =~= self.extend(values).items);
        }
    }
}

/// A growable array with inline room for the slots of `A`.
///
/// `cap` says both where the elements live and how many there is room for:
/// up to the inline slots it is the length of an array that lives inline,
/// above them it is the capacity of the heap block.
#[derive(Debug)]
pub struct IArray<A: MemoryBlock> {
    cap: usize,
    store: Vec<A::LayoutItem>,
}

impl<A: MemoryBlock> View for IArray<A> {
    type V = Seq<A::LayoutItem>;

    closed spec fn view(&self) -> Seq<A::LayoutItem> {
        self.store@
    }
}

impl<A: MemoryBlock> IArray<A> {
    /// The number of inline slots: those of `A`, or no limit for elements
    /// of size zero, which take no room.
    pub open spec fn spec_stack_capacity() -> usize {
        if size_of::<A::LayoutItem>() > 0 {
            A::spec_size()
        } else {
            usize::MAX
        }
    }

    /// The value of the capacity field.
    pub closed spec fn raw_cap(&self) -> usize {
        self.cap
    }

    /// Whether the elements live in a heap block.
    pub open spec fn spec_went_off_stack(&self) -> bool {
        self.raw_cap() > Self::spec_stack_capacity()
    }

    /// The number of elements there is room for.
    pub open spec fn spec_capacity(&self) -> usize {
        if self.spec_went_off_stack() {
            self.raw_cap()
        } else {
            Self::spec_stack_capacity()
        }
    }

    /// The capacity field agrees with the elements: inline it is their
    /// number, in a heap block it is at least their number.
    pub open spec fn wf(&self) -> bool {
        if self.spec_went_off_stack() {
            self@.len() <= self.raw_cap()
        } else {
            self@.len() == self.raw_cap()
        }
    }

    /// The array apart from how it is stored.
    pub open spec fn model(&self) -> ArrayModel<A::LayoutItem> {
        ArrayModel {
            items: self@,
            capacity: self.spec_capacity() as nat,
            slots: Self::spec_stack_capacity() as nat,
        }
    }

    /// Whether room for `additional` more elements can be had.
    pub open spec fn can_reserve(&self, additional: usize) -> bool {
        self.model().can_reserve(additional as nat)
    }

    /// A well-formed array holds no more elements than it has room for,
    /// has at least the inline slots for capacity, exactly those while it
    /// lives inline and more once it lives in a heap block.
    pub proof fn lemma_wf_bounds(&self)
        requires
            self.wf(),
        ensures
            self.model().wf(),
            0 <= self@.len() <= self.spec_capacity(),
            self.spec_capacity() >= Self::spec_stack_capacity(),
            self.spec_went_off_stack() == self.model().spilled(),
            !self.spec_went_off_stack() ==> self.spec_capacity() == Self::spec_stack_capacity(),
            self.spec_went_off_stack() ==> self.spec_capacity() > Self::spec_stack_capacity(),
    {
    }

    /// An empty array, inline.
    pub fn new() -> (r: IArray<A>)
        ensures
            r.wf(),
            r.model() == ArrayModel::<A::LayoutItem>::empty(Self::spec_stack_capacity() as nat),
    {
        Self { cap: 0, store: Vec::new() }
    }

    /// The number of inline slots.
    pub fn stack_capacity() -> (n: usize)
        ensures
            n == Self::spec_stack_capacity(),
    {
        if core::mem::size_of::<A::LayoutItem>() > 0 {
            A::size()
        } else {
            usize::MAX
        }
    }

    /// Whether the elements live in a heap block.
    pub fn went_off_stack(&self) -> (b: bool)
        ensures
            b == self.spec_went_off_stack(),
    {
        self.cap > Self::stack_capacity()
    }

    /// The number of elements.
    pub fn len(&self) -> (n: usize)
        ensures
            n == self@.len(),
    {
        self.store.len()
    }

    /// Whether there are no elements.
    pub fn is_empty(&self) -> (b: bool)
        ensures
            b == (self@.len() == 0),
    {
        self.len() == 0
    }

    /// The number of elements there is room for.
    pub fn get_capacity(&self) -> (n: usize)
        ensures
            n == self.spec_capacity(),
    {
        if self.went_off_stack() {
            self.cap
        } else {
            Self::stack_capacity()
        }
    }

    /// An array of the elements of `store` that was handed a block of
    /// `capacity` slots with them: it keeps the block if that is larger
    /// than the inline slots, and lives inline otherwise.
    pub fn adopt(store: Vec<A::LayoutItem>, capacity: usize) -> (r: IArray<A>)
        requires
            store@.len() <= capacity,
        ensures
            r.wf(),
            r.model() == ArrayModel::adopt(
                store@,
                capacity as nat,
                Self::spec_stack_capacity() as nat,
            ),
    {
        if capacity <= Self::stack_capacity() {
            let len: usize = store.len();
            Self { cap: len, store }
        } else {
            Self { cap: capacity, store }
        }
    }

    /// An array of the elements of `vec`, which takes over the vector's
    /// block. It lives inline where the vector's capacity is no more than
    /// the inline slots, and keeps that capacity otherwise.
    pub fn from_vec(vec: Vec<A::LayoutItem>) -> (r: IArray<A>)
        ensures
            r.wf(),
            r@ == vec@,
            exists|capacity: nat|
                vec@.len() <= capacity && r.model() == #[trigger] ArrayModel::adopt(
                    vec@,
                    capacity,
                    Self::spec_stack_capacity() as nat,
                ),
    {
        let capacity: usize = vec_capacity(&vec);
        Self::adopt(vec, capacity)
    }

    /// Moves the elements to a block of `new_cap` slots, or back inline
    /// where `new_cap` is no more than the inline slots.
    ///
    /// `new_cap` must exceed the length, and a block of that many elements
    /// must have a layout where one is allocated.
    pub fn grow_block(&mut self, new_cap: usize)
        requires
            old(self).wf(),
            new_cap > old(self)@.len(),
            new_cap > Self::spec_stack_capacity() ==> layout_exists::<A::LayoutItem>(new_cap),
        ensures
            final(self).wf(),
            final(self).model() == old(self).model().grow(new_cap as nat),
    {
        let len: usize = self.store.len();
        let still_on_stack: bool = !self.went_off_stack();
        if new_cap <= Self::stack_capacity() {
            if still_on_stack {
                return ;
            }
            vec_shrink_to(&mut self.store, new_cap);
            self.cap = len;
        } else if new_cap != self.cap {
            if still_on_stack || new_cap > self.cap {
                vec_reserve_exact(&mut self.store, new_cap - len);
            } else {
                vec_shrink_to(&mut self.store, new_cap);
            }
            self.cap = new_cap;
        }
    }

    /// Makes room for `additional` more elements, if it can be had, and
    /// says whether it could.
    pub fn try_reserve(&mut self, additional: usize) -> (ok: bool)
        requires
            old(self).wf(),
        ensures
            final(self).wf(),
            ok == old(self).can_reserve(additional),
            final(self).model() == old(self).model().try_reserve(additional as nat),
    {
        let len: usize = self.store.len();
        let cap: usize = self.get_capacity();
        if cap - len >= additional {
            return true;
        }
        let wanted: usize = match len.checked_add(additional) {
            Some(wanted) => wanted,
            None => {
                proof {
                    lemma_next_power_of_two((len + additional) as nat);
                }
                return false;
            },
        };
        let new_cap: usize = match checked_next_power_of_two(wanted) {
            Some(new_cap) => new_cap,
            None => {
                return false;
            },
        };
        proof {
            lemma_next_power_of_two(wanted as nat);
        }
        if calculate_memory_layout::<A::LayoutItem>(new_cap).is_err() {
            return false;
        }
        self.grow_block(new_cap);
        true
    }

    /// Makes room for `additional` more elements: nothing changes if it is
    /// there, else the array moves to a block whose capacity is the next
    /// power of two at or above the length asked for.
    pub fn reserve(&mut self, additional: usize)
        requires
            old(self).wf(),
            old(self).can_reserve(additional),
        ensures
            final(self).wf(),
            final(self).model() == old(self).model().reserve(additional as nat),
            final(self).model().has_room(additional as nat),
    {
        proof {
            lemma_next_power_of_two((self@.len() + additional) as nat);
        }
        let ok: bool = self.try_reserve(additional);
        assert(ok);
    }

    /// Adds `val` at the end, growing first if the array is full.
    pub fn push(&mut self, val: A::LayoutItem)
        requires
            old(self).wf(),
            old(self).can_reserve(1),
        ensures
            final(self).wf(),
            final(self).model() == old(self).model().push(val),
    {
        proof {
            lemma_next_power_of_two((self@.len() + 1) as nat);
        }
        if self.store.len() == self.get_capacity() {
            self.reserve(1);
        }
        self.store.push(val);
        if !self.went_off_stack() {
            self.cap = self.store.len();
        }
    }

    /// Takes the last element off and returns it, or returns `None` where
    /// there is none.
    pub fn pop(&mut self) -> (r: Option<A::LayoutItem>)
        requires
            old(self).wf(),
        ensures
            final(self).wf(),
            final(self).model() == old(self).model().pop(),
            r == old(self).model().popped(),
    {
        let r = self.store.pop();
        if !self.went_off_stack() {
            self.cap = self.store.len();
        }
        r
    }

    /// Drops the elements from index `target_len` on, last first. An array
    /// that is no longer than that stays as it is.
    pub fn truncate(&mut self, target_len: usize)
        requires
            old(self).wf(),
        ensures
            final(self).wf(),
            final(self).model() == old(self).model().truncate(target_len as nat),
    {
        if target_len < self.store.len() {
            self.store.truncate(target_len);
            if !self.went_off_stack() {
                self.cap = target_len;
            }
        }
    }

    /// Drops every element.
    pub fn clear(&mut self)
        requires
            old(self).wf(),
        ensures
            final(self).wf(),
            final(self).model() == old(self).model().truncate(0),
    {
        self.truncate(0);
    }

    /// Gives up spare capacity: an array in a heap block moves inline if
    /// its elements fit there, and else to a block of exactly their number.
    /// An inline array stays as it is.
    pub fn shrink(&mut self)
        requires
            old(self).wf(),
        ensures
            final(self).wf(),
            final(self).model() == old(self).model().shrink(),
    {
        if !self.went_off_stack() {
            return ;
        }
        let current_len: usize = self.store.len();
        if Self::stack_capacity() >= current_len {
            vec_shrink_to(&mut self.store, current_len);
            self.cap = current_len;
        } else if self.cap > current_len {
            vec_shrink_to(&mut self.store, current_len);
            self.cap = current_len;
        }
    }

    /// Adds the items of `iterable` at the end, after an attempt to make
    /// room for `lower_bound` of them at once.
    ///
    /// Items go straight into the room there is; once that is used up the
    /// rest are pushed one by one, growing as `push` does.
    pub fn extend_with_hint<I: Iterator<Item = A::LayoutItem>>(
        &mut self,
        iterable: I,
        lower_bound: usize,
    )
        requires
            old(self).wf(),
            iterable.obeys_prophetic_iter_laws(),
            iterable.decrease() is Some,
            old(self).model().can_reserve(iterable.remaining().len()),
        ensures
            final(self).wf(),
            final(self).model() == old(self).model().try_reserve(lower_bound as nat).extend(
                iterable.remaining(),
            ),
    {
        let mut iter = iterable;
        let _ = self.try_reserve(lower_bound);
        let ghost goal = self.model().push_all(iter.remaining());
        proof {
            old(self).model().lemma_try_reserve(lower_bound as nat, iter.remaining().len());
            self.model().lemma_push_all_is_extend(iter.remaining());
        }
        let cap: usize = self.get_capacity();
        if self.went_off_stack() {
            while self.store.len() < cap
                invariant
                    self.wf(),
                    self.spec_went_off_stack(),
                    cap == self.spec_capacity(),
                    iter.obeys_prophetic_iter_laws(),
                    iter.decrease() is Some,
                    self.model().can_push_all(iter.remaining()),
                    self.model().push_all(iter.remaining()) == goal,
                    goal == old(self).model().try_reserve(lower_bound as nat).extend(
                        iterable.remaining(),
                    ),
                decreases iter.decrease()->0,
            {
                match iter.next() {
                    Some(out) => {
                        self.store.push(out);
                    },
                    None => {
                        return ;
                    },
                }
            }
        } else {
            // inline, the capacity field is the length: count the writes
            // apart and publish the count when the run is over
            let ghost slots = Self::spec_stack_capacity() as nat;
            let store = &mut self.store;
            let mut len = LenScopeGuard::new(&mut self.cap);
            let ghost guarded = len.real_ref;
            let mut exhausted: bool = false;
            while !exhausted && len.get_temp() < cap
                invariant
                    len.real_ref == guarded,
                    exhausted ==> iter.remaining().len() == 0,
                    cap == slots,
                    slots == Self::spec_stack_capacity(),
                    len.temp == store@.len(),
                    len.temp <= cap,
                    iter.obeys_prophetic_iter_laws(),
                    iter.decrease() is Some,
                    (ArrayModel { items: store@, capacity: slots, slots }).can_push_all(
                        iter.remaining(),
                    ),
                    (ArrayModel { items: store@, capacity: slots, slots }).push_all(
                        iter.remaining(),
                    ) == goal,
                    goal == old(self).model().try_reserve(lower_bound as nat).extend(
                        iterable.remaining(),
                    ),
                decreases (if exhausted { 0int } else { 1int }), iter.decrease()->0,
            {
                match iter.next() {
                    Some(out) => {
                        store.push(out);
                        len.incr();
                    },
                    None => {
                        exhausted = true;
                    },
                }
            }
            len.finish();
            if exhausted {
                return ;
            }
        }
        loop
            invariant
                self.wf(),
                iter.obeys_prophetic_iter_laws(),
                iter.decrease() is Some,
                self.model().can_push_all(iter.remaining()),
                self.model().push_all(iter.remaining()) == goal,
                goal == old(self).model().try_reserve(lower_bound as nat).extend(
                    iterable.remaining(),
                ),
            decreases iter.decrease()->0,
        {
            match iter.next() {
                Some(elem) => {
                    self.push(elem);
                },
                None => {
                    return ;
                },
            }
        }
    }

    /// Adds the items of `iterable` at the end, after an attempt to make
    /// room at once for as many as the iterator says are left at least.
    ///
    /// The capacity afterwards depends on what the iterator said.
    pub fn extend<I: Iterator<Item = A::LayoutItem>>(&mut self, iterable: I)
        requires
            old(self).wf(),
            iterable.obeys_prophetic_iter_laws(),
            iterable.decrease() is Some,
            old(self).model().can_reserve(iterable.remaining().len()),
        ensures
            final(self).wf(),
            final(self)@ == old(self)@ + iterable.remaining(),
            exists|hint: nat|
                final(self).model() == #[trigger] old(self).model().try_reserve(hint).extend(
                    iterable.remaining(),
                ),
    {
        let lower_bound: usize = lower_size_hint(&iterable);
        self.extend_with_hint(iterable, lower_bound)
    }
}

impl<A: MemoryBlock> IArray<A> where A::LayoutItem: Copy {
    /// An array of copies of the elements of `slice`: inline where they
    /// fit in the inline slots, else in a heap block of its own.
    pub fn from_slice(slice: &[A::LayoutItem]) -> (r: IArray<A>)
        ensures
            r.wf(),
            r@ == slice@,
            r.spec_went_off_stack() == (slice@.len() > Self::spec_stack_capacity()),
    {
        let slice_len: usize = slice.len();
        let store: Vec<A::LayoutItem> = slice_to_vec(slice);
        if slice_len <= Self::stack_capacity() {
            Self { cap: slice_len, store }
        } else {
            let cap: usize = vec_capacity(&store);
            Self { cap, store }
        }
    }

    /// Puts copies of the elements of `slice` in before the element at
    /// `index`, which may be the length: the elements from `index` on move
    /// up by the length of `slice`.
    pub fn insert_slice_at_index(&mut self, slice: &[A::LayoutItem], index: usize)
        requires
            old(self).wf(),
            index <= old(self)@.len(),
            old(self).can_reserve(slice.len()),
        ensures
            final(self).wf(),
            final(self).model() == old(self).model().insert_slice(slice@, index as int),
    {
        let add: usize = slice.len();
        self.reserve(add);
        let len: usize = self.store.len();
        let ghost before = self.store@;
        let ghost grown_cap = self.cap;
        let ghost capacity = self.spec_capacity();
        // lengthen the array by the slice
        let mut k: usize = 0;
        while k < add
            invariant
                k <= add,
                add == slice@.len(),
                self.cap == grown_cap,
                len + add <= capacity,
                capacity == old(self).model().reserve(add as nat).capacity,
                capacity == if grown_cap > Self::spec_stack_capacity() {
                    grown_cap
                } else {
                    Self::spec_stack_capacity()
                },
                self.store@ == before + slice@.take(k as int),
            decreases add - k,
        {
            self.store.push(slice[k]);
            proof {
                assert(slice@.take(k + 1) =~= slice@.take(k as int).push(slice@[k as int]));
                assert(self.store@ =~= before + slice@.take(k + 1));
            }
            k += 1;
        }
        // move the elements from `index` on up, last first
        let mut j: usize = len;
        while j > index
            invariant
                index <= j <= len,
                len == before.len(),
                add == slice@.len(),
                self.cap == grown_cap,
                len + add <= capacity,
                capacity == old(self).model().reserve(add as nat).capacity,
                capacity == if grown_cap > Self::spec_stack_capacity() {
                    grown_cap
                } else {
                    Self::spec_stack_capacity()
                },
                self.store@.len() == len + add,
                forall|p: int| 0 <= p < j ==> self.store@[p] == before[p],
                forall|p: int| j <= p < len ==> self.store@[p + add] == before[p],
            decreases j,
        {
            j -= 1;
            let moved: A::LayoutItem = self.store[j];
            self.store.set(j + add, moved);
        }
        // fill the gap
        let mut k: usize = 0;
        while k < add
            invariant
                k <= add,
                index <= len,
                len == before.len(),
                add == slice@.len(),
                self.cap == grown_cap,
                len + add <= capacity,
                capacity == old(self).model().reserve(add as nat).capacity,
                capacity == if grown_cap > Self::spec_stack_capacity() {
                    grown_cap
                } else {
                    Self::spec_stack_capacity()
                },
                self.store@.len() == len + add,
                forall|p: int| 0 <= p < index ==> self.store@[p] == before[p],
                forall|p: int| index <= p < len ==> self.store@[p + add] == before[p],
                forall|p: int| 0 <= p < k ==> self.store@[index + p] == slice@[p],
            decreases add - k,
        {
            self.store.set(index + k, slice[k]);
            k += 1;
        }
        proof {
            assert(self.store@ =~= before.take(index as int) + slice@ + before.skip(index as int));
        }
        if !self.went_off_stack() {
            self.cap = self.store.len();
        }
    }

    /// Adds copies of the elements of `slice` at the end.
    pub fn extend_from_slice(&mut self, slice: &[A::LayoutItem])
        requires
            old(self).wf(),
            old(self).can_reserve(slice.len()),
        ensures
            final(self).wf(),
            final(self).model() == old(self).model().extend(slice@),
    {
        self.insert_slice_at_index(slice, self.len())
    }
}

/// A counter that stands in for a length while a run of writes is under
/// way: it starts at the length, is bumped once for each write, and is
/// written back to the length when the run is over. Until then the length
/// keeps the value it had, so it never counts a slot that was not written.
pub struct LenScopeGuard<'a> {
    pub real_ref: &'a mut usize,
    pub temp: usize,
}

impl<'a> LenScopeGuard<'a> {
    /// A guard over `real_ref` whose counter starts at its value.
    pub fn new(real_ref: &'a mut usize) -> (g: Self)
        ensures
            g.temp == *old(real_ref),
            *g.real_ref == *old(real_ref),
            *final(g.real_ref) == *final(real_ref),
    {
        let ret: usize = *real_ref;
        Self { real_ref, temp: ret }
    }

    /// Bumps the counter and leaves the guarded length alone.
    pub fn incr(&mut self)
        requires
            old(self).temp < usize::MAX,
        ensures
            final(self).temp == old(self).temp + 1,
            final(self).real_ref == old(self).real_ref,
    {
        self.temp += 1;
    }

    /// The value of the counter.
    pub fn get_temp(&self) -> (t: usize)
        ensures
            t == self.temp,
    {
        self.temp
    }

    /// Ends the run: writes the counter back to the guarded length.
    pub fn finish(self)
        ensures
            *final(self.real_ref) == self.temp,
    {
        *self.real_ref = self.temp;
    }
}

impl<A: MemoryBlock> core::ops::Deref for IArray<A> {
    type Target = [A::LayoutItem];

    /// The elements as a slice.
    fn deref(&self) -> (slice: &[A::LayoutItem])
        ensures
            slice@ == self@,
    {
        self.store.as_slice()
    }
}

impl<A: MemoryBlock> core::ops::DerefMut for IArray<A> {
    /// The elements as a slice that can be written through.
    fn deref_mut(&mut self) -> (slice: &mut [A::LayoutItem])
        ensures
            slice@ == old(self)@,
            final(self)@ == final(slice)@,
            final(self).raw_cap() == old(self).raw_cap(),
    {
        self.store.as_mut_slice()
    }
}

impl<A: MemoryBlock> AsRef<[A::LayoutItem]> for IArray<A> {
    fn as_ref(&self) -> (slice: &[A::LayoutItem])
        ensures
            slice@ == self@,
    {
        self.store.as_slice()
    }
}

impl<A: MemoryBlock> AsMut<[A::LayoutItem]> for IArray<A> {
    fn as_mut(&mut self) -> (slice: &mut [A::LayoutItem])
        ensures
            slice@ == old(self)@,
            final(self)@ == final(slice)@,
            final(self).raw_cap() == old(self).raw_cap(),
    {
        self.store.as_mut_slice()
    }
}

impl<A: MemoryBlock, B: MemoryBlock> PartialEq<IArray<B>> for IArray<A> where
    A::LayoutItem: PartialEq<B::LayoutItem>,
 {
    /// Whether the two arrays hold equal elements in the same order,
    /// whatever their inline slots and capacities.
    fn eq(&self, rhs: &IArray<B>) -> (r: bool) {
        self.store == rhs.store
    }
}

impl<A: MemoryBlock, B: MemoryBlock> PartialEqSpecImpl<IArray<B>> for IArray<A> where
    A::LayoutItem: PartialEq<B::LayoutItem>,
 {
    open spec fn obeys_eq_spec() -> bool {
        <A::LayoutItem as PartialEqSpec<B::LayoutItem>>::obeys_eq_spec()
    }

    open spec fn eq_spec(&self, other: &IArray<B>) -> bool {
        &&& self@.len() == other@.len()
        &&& forall|i: int| 0 <= i < self@.len() ==> #[trigger] PartialEqSpec::eq_spec(
            &self@[i],
            &other@[i],
        )
    }
}

/// Where the elements compare equal exactly when they are the same, two
/// arrays compare equal exactly when their element sequences are the same,
/// whatever the inline slots and the capacity of either.
pub proof fn lemma_eq_is_sequence_equality<A: MemoryBlock, B: MemoryBlock>(
    x: &IArray<A>,
    y: &IArray<B>,
) where A::LayoutItem: PartialEq<B::LayoutItem>, B: MemoryBlock<LayoutItem = A::LayoutItem>
    requires
        forall|a: A::LayoutItem, b: A::LayoutItem| #[trigger]
            PartialEqSpec::eq_spec(&a, &b) <==> a == b,
    ensures
        PartialEqSpec::eq_spec(x, y) <==> x@ == y@,
{
    if PartialEqSpec::eq_spec(x, y) {
        assert forall|i: int| 0 <= i < x@.len() implies x@[i] == y@[i] by {
            assert(PartialEqSpec::eq_spec(&x@[i], &y@[i]));
        }
        assert(x@ =~= y@);
    }
}

} // verus!
