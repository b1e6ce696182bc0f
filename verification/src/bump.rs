//! The allocator.
use vstd::prelude::*;
use vstd::layout::{align_of, size_of};
use crate::model::{lemma_slot_aligned, Arena};
use crate::plain::{generated, lemma_packed_push, packed, Plain};

verus! {

/// The buffer has too few free bytes left for what was asked.
#[derive(Debug, PartialEq, Eq, Structural)]
pub struct OutOfMemory;

pub type AllocResult<T> = Result<T, OutOfMemory>;

/// A bump arena over a borrowed buffer.
pub struct Alloc<'mem> {
    /// The free bytes: what is left of the buffer behind the cursor.
    mem: &'mem mut [u8],
    /// Address of the buffer's first byte.
    base: usize,
    /// Number of bytes consumed so far.
    used: usize,
    /// The consumed bytes, each as the arena left it.
    taken: Ghost<Seq<u8>>,
}

/// Wraps `<[u8]>::as_ptr`, for the address of the first byte of `mem`.
/// Nothing is claimed of the address.
#[verifier::external_body]
fn address_of(mem: &[u8]) -> (addr: usize) {
    mem.as_ptr() as usize
}

impl<'mem> View for Alloc<'mem> {
    type V = Arena;

    closed spec fn view(&self) -> Arena {
        Arena { base: self.base as nat, bytes: self.taken@ + self.mem@, used: self.taken@.len() }
    }
}

impl<'mem> Alloc<'mem> {
    #[verifier::type_invariant]
    spec fn inv(&self) -> bool {
        &&& self.used == self.taken@.len()
        &&& self.used + self.mem@.len() <= usize::MAX
    }

    /// The arena's borrow of the free bytes. Its view is what they hold now;
    /// inside `final(..)` it is what they hold when the borrow ends.
    pub closed spec fn rest(&self) -> &'mem mut [u8] {
        self.mem
    }

    /// The cursor of an arena lies within its buffer, and the free bytes are
    /// the buffer from the cursor on.
    pub proof fn lemma_view_wf(&self)
        ensures
            self@.wf(),
            self.rest()@ == self@.remaining(),
    {
        assert(self.mem@ =~= self@.remaining());
    }

    /// Once an arena is no longer used, the free bytes stay as they are.
    pub proof fn lemma_rest_settles(&self)
        requires
            has_resolved(*self),
        ensures
            final(self.rest())@ == self.rest()@,
    {
    }

    /// An arena over the whole of `heap`.
    pub fn new(heap: &'mem mut [u8]) -> (arena: Self)
        ensures
            arena@.bytes == old(heap)@,
            arena@.used == 0,
            arena@.wf(),
            arena.rest()@ == old(heap)@,
            final(heap)@ == final(arena.rest())@,
    {
        broadcast use vstd::slice::axiom_spec_len;
        let base = address_of(heap);
        assert(heap.len() == heap@.len());
        let arena = Alloc { mem: heap, base, used: 0, taken: Ghost(Seq::empty()) };
        assert(arena@.bytes =~= old(heap)@);
        arena
    }

    /// Takes the first `size` free bytes and moves the cursor past them.
    fn alloc_mem<'item>(&mut self, size: usize) -> (item: &'item mut [u8])
        where 'mem: 'item
        requires
            size <= old(self)@.free(),
        ensures
            item@ == old(self)@.remaining().take(size as int),
            final(self)@ == old(self)@.advanced(size as nat),
            final(self).rest()@ == final(self)@.remaining(),
            final(old(self).rest())@ == final(item)@ + final(final(self).rest())@,
    {
        proof { use_type_invariant(&*self); }
        let mut mem: &'mem mut [u8] = &mut [];
        core::mem::swap(&mut self.mem, &mut mem);
        assert(mem@ =~= old(self)@.remaining());
        let (item_ref, remaining_ref) = mem.split_at_mut(size);
        let ghost taken = self.taken@ + item_ref@;
        *self = Alloc { mem: remaining_ref, base: self.base, used: self.used + size, taken: Ghost(taken) };
        assert(self@.bytes =~= old(self)@.bytes);
        assert(self.mem@ =~= self@.remaining());
        item_ref
    }

    /// Number of padding bytes before an item of type `T`: the address of the
    /// first free byte, modulo the alignment of `T`.
    fn calc_waste_bytes<T>(&self) -> (waste: usize)
        ensures
            waste == self@.padding(align_of::<T>()),
    {
        broadcast use vstd::layout::align_nonzero;
        proof { use_type_invariant(self); }
        let alignment = core::mem::align_of::<T>();
        let cursor: u128 = self.base as u128 + self.used as u128;
        (cursor % (alignment as u128)) as usize
    }

    /// Skips the padding for an item of type `T`, unless fewer bytes than
    /// that are free.
    fn waste_mem<T>(&mut self) -> (wasted: AllocResult<usize>)
        ensures
            wasted is Ok <==> old(self)@.can_pad(align_of::<T>()),
            wasted matches Ok(n) ==> n == old(self)@.padding(align_of::<T>()),
            final(self)@ == old(self)@.padded(align_of::<T>()),
            final(self).rest()@ == final(self)@.remaining(),
            final(old(self).rest())@ == old(self)@.remaining().take(
                old(self)@.skipped(align_of::<T>()) as int,
            ) + final(final(self).rest())@,
    {
        let waste_bytes = self.calc_waste_bytes::<T>();
        proof { use_type_invariant(&*self); }
        if self.mem.len() < waste_bytes {
            return Err(OutOfMemory);
        }
        self.alloc_mem(waste_bytes);
        Ok(waste_bytes)
    }

    /// Writes `item` into the first free bytes, which the caller has aligned
    /// for `T`, and hands them out.
    fn alloc_aligned<'item, T: Plain>(&mut self, item: T) -> (slot: AllocResult<&'item mut [u8]>)
        where 'mem: 'item
        ensures
            slot is Ok <==> size_of::<T>() <= old(self)@.free(),
            slot matches Ok(region) ==> {
                &&& region@ == item.bytes()
                &&& final(self)@ == old(self)@.written(item.bytes())
                &&& final(old(self).rest())@ == final(region)@ + final(final(self).rest())@
            },
            slot is Err ==> {
                &&& final(self)@ == old(self)@
                &&& final(old(self).rest())@ == final(final(self).rest())@
            },
            final(self).rest()@ == final(self)@.remaining(),
    {
        let required_size = core::mem::size_of::<T>();
        proof { use_type_invariant(&*self); }
        if self.mem.len() < required_size {
            return Err(OutOfMemory);
        }
        let item_ref = self.alloc_mem(required_size);
        proof { item.lemma_bytes_len(); }
        item.store(item_ref, 0);
        assert(item_ref@ =~= item.bytes());
        proof {
            use_type_invariant(&*self);
            self.taken@ = old(self).taken@ + item_ref@;
        }
        assert(self@.bytes =~= old(self)@.written(item.bytes()).bytes);
        assert(self.mem@ =~= self@.remaining());
        Ok(item_ref)
    }

    /// Stores `item` in the buffer, at the first free address behind the
    /// padding for `T`, and hands out the bytes that hold it.
    pub fn alloc_item<'item, T: Plain>(&mut self, item: T) -> (slot: AllocResult<&'item mut [u8]>)
        where 'mem: 'item
        ensures
            slot is Ok <==> old(self)@.fits(size_of::<T>(), align_of::<T>()),
            slot matches Ok(region) ==> region@ == item.bytes(),
            slot matches Err(e) ==> e == OutOfMemory && final(self)@.bytes == old(self)@.bytes,
            final(self)@ == old(self)@.served(item.bytes(), align_of::<T>()),
            slot is Ok ==> final(self)@.cursor() == old(self)@.slot(align_of::<T>()) + size_of::<T>(),
            slot is Ok && old(self)@.pads_to_aligned(align_of::<T>()) ==> old(self)@.slot(
                align_of::<T>(),
            ) % align_of::<T>() == 0,
            final(self).rest()@ == final(self)@.remaining(),
            final(old(self).rest())@ == old(self)@.remaining().take(
                old(self)@.skipped(align_of::<T>()) as int,
            ) + (match slot {
                Ok(region) => final(region)@,
                Err(_) => Seq::empty(),
            }) + final(final(self).rest())@,
    {
        proof {
            broadcast use vstd::layout::align_nonzero;
            item.lemma_bytes_len();
            if self@.pads_to_aligned(align_of::<T>()) {
                lemma_slot_aligned(self@, align_of::<T>());
            }
        }
        self.waste_mem::<T>()?;
        self.alloc_aligned(item)
    }

    /// Stores `f(0)`, `f(1)`, up to `f(size - 1)` in the buffer, one behind
    /// the other, at the first free address behind the padding for `T`, and
    /// hands out the bytes that hold them. Where they do not all fit, `f` is
    /// not called and no byte is written.
    pub fn alloc_from_fn<'item, T: Plain>(&mut self, size: usize, f: impl Fn(usize) -> T) -> (slots:
        AllocResult<&'item mut [u8]>)
        where 'mem: 'item
        requires
            forall|i: usize| i < size ==> call_requires(f, (i,)),
        ensures
            slots is Ok <==> old(self)@.fits(size as nat * size_of::<T>(), align_of::<T>()),
            slots matches Ok(region) ==> exists|items: Seq<T>| {
                &&& generated(f, size, items)
                &&& region@ == packed(items)
                &&& final(self)@ == old(self)@.served(packed(items), align_of::<T>())
            },
            slots matches Err(e) ==> e == OutOfMemory && final(self)@ == old(self)@.padded(
                align_of::<T>(),
            ),
            slots is Ok ==> final(self)@.cursor() == old(self)@.slot(align_of::<T>()) + size
                * size_of::<T>(),
            final(self).rest()@ == final(self)@.remaining(),
            final(old(self).rest())@ == old(self)@.remaining().take(
                old(self)@.skipped(align_of::<T>()) as int,
            ) + (match slots {
                Ok(region) => final(region)@,
                Err(_) => Seq::empty(),
            }) + final(final(self).rest())@,
    {
        self.waste_mem::<T>()?;
        let item_size = core::mem::size_of::<T>();
        proof { use_type_invariant(&*self); }
        let total = match size.checked_mul(item_size) {
            Some(total) => total,
            None => { return Err(OutOfMemory); },
        };
        if self.mem.len() < total {
            return Err(OutOfMemory);
        }
        let region = self.alloc_mem(total);
        let ghost mut items: Seq<T> = Seq::empty();
        let mut at: usize = 0;
        let mut i: usize = 0;
        while i < size
            invariant
                i <= size,
                item_size == size_of::<T>(),
                total == size * item_size,
                at == i * item_size,
                region@.len() == total,
                generated(f, i, items),
                region@.take(at as int) == packed(items),
                forall|j: usize| j < size ==> call_requires(f, (j,)),
            decreases size - i,
        {
            let item = f(i);
            proof {
                item.lemma_bytes_len();
                assert((i + 1) * item_size <= size * item_size) by (nonlinear_arith)
                    requires
                        i + 1 <= size,
                ;
                assert((i + 1) * item_size == i * item_size + item_size) by (nonlinear_arith);
            }
            let ghost before = region@;
            item.store(region, at);
            proof {
                lemma_packed_push(items, item);
                assert(region@.take(at + item_size) =~= before.take(at as int) + item.bytes());
                items = items.push(item);
            }
            at = at + item_size;
            i = i + 1;
        }
        assert(region@ =~= region@.take(at as int));
        proof {
            use_type_invariant(&*self);
            self.taken@ = self.taken@.take(self.taken@.len() - total) + region@;
        }
        assert(self@.bytes =~= old(self)@.served(packed(items), align_of::<T>()).bytes);
        assert(self.mem@ =~= self@.remaining());
        Ok(region)
    }
}

} // verus!
