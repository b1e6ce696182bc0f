//! Values that an arena can store, and the bytes that stand for them.
use vstd::prelude::*;
use vstd::layout::{align_of, size_of};
use crate::model::{overwritten, Arena, Request};

verus! {

/// The `width` lowest bytes of `value` in two's complement, lowest first.
pub open spec fn le_bytes(value: int, width: nat) -> Seq<u8>
    decreases width,
{
    if width == 0 {
        Seq::empty()
    } else {
        seq![(value % 256) as u8] + le_bytes(value / 256, (width - 1) as nat)
    }
}

/// A value with a fixed representation in memory, `size_of::<Self>()` bytes
/// long. Integers are stored lowest byte first.
pub trait Plain: Sized {
    /// The bytes that stand for the value in memory.
    spec fn bytes(&self) -> Seq<u8>;

    /// A value takes as many bytes as its type's size.
    proof fn lemma_bytes_len(&self)
        ensures
            self.bytes().len() == size_of::<Self>(),
    ;

    /// Writes the value's bytes into `buf` from offset `at` on, and leaves
    /// the other bytes of `buf` as they are.
    fn store(&self, buf: &mut [u8], at: usize)
        requires
            at + size_of::<Self>() <= old(buf)@.len(),
        ensures
            final(buf)@ == overwritten(old(buf)@, at as int, self.bytes()),
    ;
}

/// The bytes of `items`, one item behind the other with nothing in between.
pub open spec fn packed<T: Plain>(items: Seq<T>) -> Seq<u8> {
    items.flat_map(|item: T| item.bytes())
}

/// `items` is what `f` gave for the indices below `count`, in order.
pub open spec fn generated<T, F: Fn(usize) -> T>(f: F, count: usize, items: Seq<T>) -> bool {
    &&& items.len() == count
    &&& forall|i: usize| i < count ==> call_ensures(f, (i,), #[trigger] items[i as int])
}

/// `le_bytes` gives as many bytes as it is asked for.
pub proof fn lemma_le_bytes_len(value: int, width: nat)
    ensures
        le_bytes(value, width).len() == width,
    decreases width,
{
    if width > 0 {
        lemma_le_bytes_len(value / 256, (width - 1) as nat);
    }
}

/// One more item adds its bytes behind those of the others.
pub proof fn lemma_packed_push<T: Plain>(items: Seq<T>, item: T)
    ensures
        packed(items.push(item)) == packed(items) + item.bytes(),
{
    let each = |item: T| item.bytes();
    assert(items.push(item).map_values(each) =~= items.map_values(each).push(item.bytes()));
    items.map_values(each).lemma_flatten_push(item.bytes());
}

/// The bytes of `items` take the size of `T` for each item.
pub proof fn lemma_packed_len<T: Plain>(items: Seq<T>)
    ensures
        packed(items).len() == items.len() * size_of::<T>(),
    decreases items.len(),
{
    if items.len() == 0 {
        assert(items.map_values(|item: T| item.bytes()) =~= Seq::<Seq<u8>>::empty());
    } else {
        let head = items.drop_last();
        assert(items =~= head.push(items.last()));
        lemma_packed_len(head);
        lemma_packed_push(head, items.last());
        items.last().lemma_bytes_len();
        assert(items.len() * size_of::<T>() == head.len() * size_of::<T>() + size_of::<T>())
            by (nonlinear_arith)
            requires
                items.len() == head.len() + 1,
        ;
    }
}

/// Among the bytes of `items`, those of item `i` stand at offset `i` times
/// the size of `T`: the items lie side by side.
pub proof fn lemma_packed_item<T: Plain>(items: Seq<T>, i: int)
    requires
        0 <= i < items.len(),
    ensures
        (i + 1) * size_of::<T>() <= packed(items).len(),
        packed(items).subrange(i * size_of::<T>(), (i + 1) * size_of::<T>()) == items[i].bytes(),
    decreases items.len(),
{
    let size = size_of::<T>() as int;
    let head = items.drop_last();
    assert(items =~= head.push(items.last()));
    lemma_packed_len(items);
    lemma_packed_len(head);
    lemma_packed_push(head, items.last());
    items[i].lemma_bytes_len();
    assert((i + 1) * size == i * size + size) by (nonlinear_arith);
    assert((i + 1) * size <= items.len() * size) by (nonlinear_arith)
        requires
            i + 1 <= items.len(),
            size >= 0,
    ;
    assert(0 <= i * size) by (nonlinear_arith)
        requires
            0 <= i,
            size >= 0,
    ;
    if i == items.len() - 1 {
        assert(packed(items).subrange(i * size, (i + 1) * size) =~= items[i].bytes());
    } else {
        lemma_packed_item(head, i);
        assert(packed(items).subrange(i * size, (i + 1) * size) =~= packed(head).subrange(
            i * size,
            (i + 1) * size,
        ));
    }
}

/// What storing each of `items` in turn asks of an arena.
pub open spec fn requests_for<T: Plain>(items: Seq<T>) -> Seq<Request> {
    items.map_values(|item: T| Request { data: item.bytes(), align: align_of::<T>() })
}

/// Single bytes that are stored one after another, and that all fit, stand
/// in the buffer from the cursor on, side by side and in the order in which
/// they were stored.
pub proof fn lemma_bytes_stand_in_order(arena: Arena, values: Seq<u8>)
    requires
        arena.wf(),
        values.len() <= arena.free(),
    ensures
        arena.served_all(requests_for(values)).used == arena.used + values.len(),
        arena.served_all(requests_for(values)).bytes == overwritten(
            arena.bytes,
            arena.used as int,
            values,
        ),
    decreases values.len(),
{
    broadcast use vstd::layout::align_of_u8;
    if values.len() == 0 {
        assert(arena.bytes =~= overwritten(arena.bytes, arena.used as int, values));
    } else {
        let head = values.drop_last();
        lemma_bytes_stand_in_order(arena, head);
        assert(requests_for(values).drop_last() =~= requests_for(head));
        let before = arena.served_all(requests_for(head));
        assert(before.bytes.len() == arena.bytes.len());
        assert(before.padding(1) == 0);
        assert(arena.served_all(requests_for(values)).bytes =~= overwritten(
            arena.bytes,
            arena.used as int,
            values,
        ));
    }
}

/// Writes the `width` lowest bytes of `value` into `buf` from offset `at` on.
fn store_unsigned(buf: &mut [u8], at: usize, width: usize, value: u128)
    requires
        at + width <= old(buf)@.len(),
    ensures
        final(buf)@ == overwritten(old(buf)@, at as int, le_bytes(value as int, width as nat)),
{
    broadcast use vstd::slice::axiom_spec_len;
    let ghost before = buf@;
    let ghost mut done: Seq<u8> = Seq::empty();
    assert(at + width <= buf.len());
    let mut rest = value;
    let mut i: usize = 0;
    assert(buf@ =~= overwritten(before, at as int, done));
    while i < width
        invariant
            i <= width,
            at + width <= before.len() <= usize::MAX,
            done.len() == i,
            le_bytes(value as int, width as nat) == done + le_bytes(rest as int, (width - i) as nat),
            buf@ == overwritten(before, at as int, done),
        decreases width - i,
    {
        let byte = (rest % 256) as u8;
        buf[at + i] = byte;
        proof {
            assert(buf@ =~= overwritten(before, at as int, done.push(byte)));
            assert(done + le_bytes(rest as int, (width - i) as nat) =~= done.push(byte) + le_bytes(
                rest as int / 256,
                (width - i - 1) as nat,
            ));
            done = done.push(byte);
        }
        rest = rest / 256;
        i = i + 1;
    }
    assert(done + le_bytes(rest as int, 0) =~= done);
}

/// Writes the `width` lowest bytes of `value`, in two's complement, into
/// `buf` from offset `at` on.
fn store_signed(buf: &mut [u8], at: usize, width: usize, value: i128)
    requires
        at + width <= old(buf)@.len(),
    ensures
        final(buf)@ == overwritten(old(buf)@, at as int, le_bytes(value as int, width as nat)),
{
    broadcast use vstd::slice::axiom_spec_len;
    let ghost before = buf@;
    let ghost mut done: Seq<u8> = Seq::empty();
    assert(at + width <= buf.len());
    let mut rest = value;
    let mut i: usize = 0;
    assert(buf@ =~= overwritten(before, at as int, done));
    while i < width
        invariant
            i <= width,
            at + width <= before.len() <= usize::MAX,
            done.len() == i,
            le_bytes(value as int, width as nat) == done + le_bytes(rest as int, (width - i) as nat),
            buf@ == overwritten(before, at as int, done),
        decreases width - i,
    {
        let low = rest & 0xff;
        assert(low == rest % 256 && rest >> 8 == rest / 256) by (bit_vector)
            requires
                low == rest & 0xff,
        ;
        let byte = low as u8;
        buf[at + i] = byte;
        proof {
            assert(buf@ =~= overwritten(before, at as int, done.push(byte)));
            assert(done + le_bytes(rest as int, (width - i) as nat) =~= done.push(byte) + le_bytes(
                rest as int / 256,
                (width - i - 1) as nat,
            ));
            done = done.push(byte);
        }
        rest = rest >> 8;
        i = i + 1;
    }
    assert(done + le_bytes(rest as int, 0) =~= done);
}

impl Plain for () {
    open spec fn bytes(&self) -> Seq<u8> {
        Seq::empty()
    }

    proof fn lemma_bytes_len(&self) {
        broadcast use vstd::layout::layout_of_unit_tuple;
    }

    fn store(&self, buf: &mut [u8], at: usize) {
        assert(buf@ =~= overwritten(buf@, at as int, self.bytes()));
    }
}

impl Plain for u8 {
    open spec fn bytes(&self) -> Seq<u8> {
        seq![*self]
    }

    proof fn lemma_bytes_len(&self) {
        broadcast use vstd::layout::layout_of_primitives;
    }

    fn store(&self, buf: &mut [u8], at: usize) {
        broadcast use vstd::layout::layout_of_primitives;
        buf[at] = *self;
        assert(buf@ =~= overwritten(old(buf)@, at as int, self.bytes()));
    }
}

impl Plain for i8 {
    open spec fn bytes(&self) -> Seq<u8> {
        le_bytes(*self as int, 1)
    }

    proof fn lemma_bytes_len(&self) {
        broadcast use vstd::layout::layout_of_primitives;
        lemma_le_bytes_len(*self as int, 1);
    }

    fn store(&self, buf: &mut [u8], at: usize) {
        broadcast use vstd::layout::layout_of_primitives;
        store_signed(buf, at, 1, *self as i128);
    }
}

impl Plain for u16 {
    open spec fn bytes(&self) -> Seq<u8> {
        le_bytes(*self as int, 2)
    }

    proof fn lemma_bytes_len(&self) {
        broadcast use vstd::layout::layout_of_primitives;
        lemma_le_bytes_len(*self as int, 2);
    }

    fn store(&self, buf: &mut [u8], at: usize) {
        broadcast use vstd::layout::layout_of_primitives;
        store_unsigned(buf, at, 2, *self as u128);
    }
}

impl Plain for i16 {
    open spec fn bytes(&self) -> Seq<u8> {
        le_bytes(*self as int, 2)
    }

    proof fn lemma_bytes_len(&self) {
        broadcast use vstd::layout::layout_of_primitives;
        lemma_le_bytes_len(*self as int, 2);
    }

    fn store(&self, buf: &mut [u8], at: usize) {
        broadcast use vstd::layout::layout_of_primitives;
        store_signed(buf, at, 2, *self as i128);
    }
}

impl Plain for u32 {
    open spec fn bytes(&self) -> Seq<u8> {
        le_bytes(*self as int, 4)
    }

    proof fn lemma_bytes_len(&self) {
        broadcast use vstd::layout::layout_of_primitives;
        lemma_le_bytes_len(*self as int, 4);
    }

    fn store(&self, buf: &mut [u8], at: usize) {
        broadcast use vstd::layout::layout_of_primitives;
        store_unsigned(buf, at, 4, *self as u128);
    }
}

impl Plain for i32 {
    open spec fn bytes(&self) -> Seq<u8> {
        le_bytes(*self as int, 4)
    }

    proof fn lemma_bytes_len(&self) {
        broadcast use vstd::layout::layout_of_primitives;
        lemma_le_bytes_len(*self as int, 4);
    }

    fn store(&self, buf: &mut [u8], at: usize) {
        broadcast use vstd::layout::layout_of_primitives;
        store_signed(buf, at, 4, *self as i128);
    }
}

impl Plain for u64 {
    open spec fn bytes(&self) -> Seq<u8> {
        le_bytes(*self as int, 8)
    }

    proof fn lemma_bytes_len(&self) {
        broadcast use vstd::layout::layout_of_primitives;
        lemma_le_bytes_len(*self as int, 8);
    }

    fn store(&self, buf: &mut [u8], at: usize) {
        broadcast use vstd::layout::layout_of_primitives;
        store_unsigned(buf, at, 8, *self as u128);
    }
}

impl Plain for i64 {
    open spec fn bytes(&self) -> Seq<u8> {
        le_bytes(*self as int, 8)
    }

    proof fn lemma_bytes_len(&self) {
        broadcast use vstd::layout::layout_of_primitives;
        lemma_le_bytes_len(*self as int, 8);
    }

    fn store(&self, buf: &mut [u8], at: usize) {
        broadcast use vstd::layout::layout_of_primitives;
        store_signed(buf, at, 8, *self as i128);
    }
}

impl Plain for u128 {
    open spec fn bytes(&self) -> Seq<u8> {
        le_bytes(*self as int, 16)
    }

    proof fn lemma_bytes_len(&self) {
        broadcast use vstd::layout::layout_of_primitives;
        lemma_le_bytes_len(*self as int, 16);
    }

    fn store(&self, buf: &mut [u8], at: usize) {
        broadcast use vstd::layout::layout_of_primitives;
        store_unsigned(buf, at, 16, *self);
    }
}

impl Plain for i128 {
    open spec fn bytes(&self) -> Seq<u8> {
        le_bytes(*self as int, 16)
    }

    proof fn lemma_bytes_len(&self) {
        broadcast use vstd::layout::layout_of_primitives;
        lemma_le_bytes_len(*self as int, 16);
    }

    fn store(&self, buf: &mut [u8], at: usize) {
        broadcast use vstd::layout::layout_of_primitives;
        store_signed(buf, at, 16, *self);
    }
}

impl Plain for usize {
    open spec fn bytes(&self) -> Seq<u8> {
        le_bytes(*self as int, size_of::<usize>())
    }

    proof fn lemma_bytes_len(&self) {
        lemma_le_bytes_len(*self as int, size_of::<usize>());
    }

    fn store(&self, buf: &mut [u8], at: usize) {
        store_unsigned(buf, at, core::mem::size_of::<usize>(), *self as u128);
    }
}

impl Plain for isize {
    open spec fn bytes(&self) -> Seq<u8> {
        le_bytes(*self as int, size_of::<isize>())
    }

    proof fn lemma_bytes_len(&self) {
        lemma_le_bytes_len(*self as int, size_of::<isize>());
    }

    fn store(&self, buf: &mut [u8], at: usize) {
        store_signed(buf, at, core::mem::size_of::<isize>(), *self as i128);
    }
}

} // verus!
