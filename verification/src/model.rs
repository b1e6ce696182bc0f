//! The arena as contracts see it: a buffer, its address and a cursor.
use vstd::prelude::*;

verus! {

/// `target` with the bytes from offset `at` on replaced by `data`.
pub open spec fn overwritten(target: Seq<u8>, at: int, data: Seq<u8>) -> Seq<u8>
    recommends
        0 <= at,
        at + data.len() <= target.len(),
{
    target.take(at) + data + target.skip(at + data.len())
}

/// One thing asked of an arena: room for `data`, at an address that suits `align`.
pub struct Request {
    pub data: Seq<u8>,
    pub align: nat,
}

/// The state of an arena.
pub struct Arena {
    /// Address of the first byte of the buffer.
    pub base: nat,
    /// The buffer. Before the cursor stands each byte as the arena left it
    /// when it handed the byte out or skipped it; from the cursor on stand
    /// the bytes that are still free.
    pub bytes: Seq<u8>,
    /// Offset of the cursor: the number of bytes consumed so far.
    pub used: nat,
}

impl Arena {
    /// The cursor lies within the buffer.
    pub open spec fn wf(self) -> bool {
        self.used <= self.bytes.len()
    }

    /// Address of the first free byte.
    pub open spec fn cursor(self) -> nat {
        self.base + self.used
    }

    /// Number of bytes that are still free.
    pub open spec fn free(self) -> int {
        self.bytes.len() - self.used
    }

    /// The free bytes, in order.
    pub open spec fn remaining(self) -> Seq<u8> {
        self.bytes.skip(self.used as int)
    }

    /// Number of bytes skipped before an item of alignment `align`.
    pub open spec fn padding(self, align: nat) -> nat {
        self.cursor() % align
    }

    /// Address at which an item of alignment `align` is put.
    pub open spec fn slot(self, align: nat) -> nat {
        self.cursor() + self.padding(align)
    }

    /// The padding for `align` leads to a multiple of `align`: the cursor's
    /// address is one already, or lies half of `align` behind one.
    pub open spec fn pads_to_aligned(self, align: nat) -> bool {
        self.cursor() % align == 0 || 2 * (self.cursor() % align) == align
    }

    /// The padding for `align` can be skipped.
    pub open spec fn can_pad(self, align: nat) -> bool {
        self.padding(align) <= self.free()
    }

    /// An item of `size` bytes and alignment `align` fits, padding included.
    pub open spec fn fits(self, size: nat, align: nat) -> bool {
        self.padding(align) + size <= self.free()
    }

    /// The arena with the cursor moved `n` bytes on.
    pub open spec fn advanced(self, n: nat) -> Arena {
        Arena { used: self.used + n, ..self }
    }

    /// Number of bytes that the arena skips for `align`: the padding, or
    /// nothing where fewer bytes than that are free.
    pub open spec fn skipped(self, align: nat) -> nat {
        if self.can_pad(align) {
            self.padding(align)
        } else {
            0
        }
    }

    /// The arena after it skipped the padding for `align`, if it could.
    pub open spec fn padded(self, align: nat) -> Arena {
        self.advanced(self.skipped(align))
    }

    /// The arena after `data` was written at the cursor and the cursor moved
    /// past it.
    pub open spec fn written(self, data: Seq<u8>) -> Arena {
        Arena {
            bytes: overwritten(self.bytes, self.used as int, data),
            used: self.used + data.len(),
            ..self
        }
    }

    /// The arena after a request for `data` at alignment `align`: the padding
    /// is skipped where it can be, and `data` is written behind it where it
    /// fits. A request that does not fit leaves every byte as it was.
    pub open spec fn served(self, data: Seq<u8>, align: nat) -> Arena {
        if self.fits(data.len(), align) {
            self.padded(align).written(data)
        } else {
            self.padded(align)
        }
    }

    /// Number of bytes that a request for `size` bytes at alignment `align`
    /// consumes: padding and size where it fits, else the padding alone where
    /// that could be skipped.
    pub open spec fn cost(self, size: nat, align: nat) -> nat {
        if self.fits(size, align) {
            self.padding(align) + size
        } else {
            self.skipped(align)
        }
    }

    /// The arena after `requests` were served one after another.
    pub open spec fn served_all(self, requests: Seq<Request>) -> Arena
        decreases requests.len(),
    {
        if requests.len() == 0 {
            self
        } else {
            self.served_all(requests.drop_last()).served(
                requests.last().data,
                requests.last().align,
            )
        }
    }

    /// Number of bytes that `requests` consume when they are served one
    /// after another: the sum of what each costs the arena that it meets.
    pub open spec fn cost_all(self, requests: Seq<Request>) -> nat
        decreases requests.len(),
    {
        if requests.len() == 0 {
            0
        } else {
            self.cost_all(requests.drop_last()) + self.served_all(requests.drop_last()).cost(
                requests.last().data.len(),
                requests.last().align,
            )
        }
    }
}

/// A request moves the cursor on by what it costs, and the free bytes
/// shrink by as much.
pub proof fn lemma_served_moves_by_cost(arena: Arena, data: Seq<u8>, align: nat)
    requires
        arena.wf(),
    ensures
        arena.served(data, align).used == arena.used + arena.cost(data.len(), align),
        arena.served(data, align).free() == arena.free() - arena.cost(data.len(), align),
        arena.served(data, align).wf(),
{
}

/// A request leaves the buffer where and as long as it was, moves the cursor
/// forward or not at all, and changes no byte that was consumed before it.
pub proof fn lemma_served_keeps_consumed(arena: Arena, data: Seq<u8>, align: nat)
    requires
        arena.wf(),
    ensures
        arena.served(data, align).wf(),
        arena.served(data, align).base == arena.base,
        arena.served(data, align).bytes.len() == arena.bytes.len(),
        arena.served(data, align).used >= arena.used,
        arena.served(data, align).bytes.take(arena.used as int) == arena.bytes.take(
            arena.used as int,
        ),
{
    assert(arena.served(data, align).bytes.take(arena.used as int) =~= arena.bytes.take(
        arena.used as int,
    ));
}

/// A request that does not fit changes no byte of the buffer, and skips at
/// most the padding.
pub proof fn lemma_unfit_request_keeps_bytes(arena: Arena, data: Seq<u8>, align: nat)
    requires
        !arena.fits(data.len(), align),
    ensures
        arena.served(data, align).bytes == arena.bytes,
        arena.served(data, align).used == arena.used + arena.skipped(align),
{
}

/// A request that fits puts `data` at the first free address behind the
/// padding, and changes no other byte.
pub proof fn lemma_fit_request_writes(arena: Arena, data: Seq<u8>, align: nat)
    requires
        arena.wf(),
        arena.fits(data.len(), align),
    ensures
        arena.served(data, align).bytes == overwritten(
            arena.bytes,
            (arena.used + arena.padding(align)) as int,
            data,
        ),
        arena.served(data, align).used == arena.used + arena.padding(align) + data.len(),
        arena.base + arena.used + arena.padding(align) == arena.slot(align),
{
}

/// Whatever is asked of an arena, one request after another: the buffer
/// stays where and as long as it was, the cursor never moves back, and no
/// byte that was consumed before changes.
pub proof fn lemma_served_all_keeps_consumed(arena: Arena, requests: Seq<Request>)
    requires
        arena.wf(),
    ensures
        arena.served_all(requests).wf(),
        arena.served_all(requests).base == arena.base,
        arena.served_all(requests).bytes.len() == arena.bytes.len(),
        arena.served_all(requests).used >= arena.used,
        arena.served_all(requests).bytes.take(arena.used as int) == arena.bytes.take(
            arena.used as int,
        ),
    decreases requests.len(),
{
    if requests.len() > 0 {
        let before = arena.served_all(requests.drop_last());
        lemma_served_all_keeps_consumed(arena, requests.drop_last());
        lemma_served_keeps_consumed(before, requests.last().data, requests.last().align);
        assert(arena.served_all(requests).bytes.take(arena.used as int) =~= before.bytes.take(
            before.used as int,
        ).take(arena.used as int));
        assert(before.bytes.take(arena.used as int) =~= before.bytes.take(before.used as int).take(
            arena.used as int,
        ));
    }
}

/// The bytes consumed by a run of requests are the sum of what each of them
/// cost, and the free bytes are fewer by that sum.
pub proof fn lemma_used_is_sum_of_costs(arena: Arena, requests: Seq<Request>)
    requires
        arena.wf(),
    ensures
        arena.served_all(requests).used == arena.used + arena.cost_all(requests),
        arena.served_all(requests).free() == arena.free() - arena.cost_all(requests),
        arena.served_all(requests).remaining().len() == arena.remaining().len() - arena.cost_all(
            requests,
        ),
    decreases requests.len(),
{
    lemma_served_all_keeps_consumed(arena, requests);
    if requests.len() > 0 {
        let before = arena.served_all(requests.drop_last());
        lemma_used_is_sum_of_costs(arena, requests.drop_last());
        lemma_served_all_keeps_consumed(arena, requests.drop_last());
        lemma_served_moves_by_cost(before, requests.last().data, requests.last().align);
    }
}

/// The address at which an item is put is a multiple of its alignment
/// where the cursor's address is one already, or lies half an alignment
/// behind one.
pub proof fn lemma_slot_aligned(arena: Arena, align: nat)
    requires
        align > 0,
        arena.pads_to_aligned(align),
    ensures
        arena.slot(align) % align == 0,
{
    let c = arena.cursor() as int;
    let a = align as int;
    assert((c + c % a) % a == 0) by (nonlinear_arith)
        requires
            a > 0,
            c % a == 0 || 2 * (c % a) == a,
    ;
}

/// From any other address of the cursor the padding leads to an address
/// that is no multiple of the alignment.
pub proof fn lemma_slot_misaligned(arena: Arena, align: nat)
    requires
        align > 0,
        !arena.pads_to_aligned(align),
    ensures
        arena.slot(align) % align != 0,
{
    let c = arena.cursor() as int;
    let a = align as int;
    assert((c + c % a) % a != 0) by (nonlinear_arith)
        requires
            a > 0,
            c % a != 0,
            2 * (c % a) != a,
    ;
}

/// An alignment of one or two is always met.
pub proof fn lemma_slot_aligned_up_to_two(arena: Arena, align: nat)
    requires
        1 <= align <= 2,
    ensures
        arena.slot(align) % align == 0,
{
    if align == 2 {
        assert(arena.cursor() % 2 == 0 || arena.cursor() % 2 == 1);
    }
    lemma_slot_aligned(arena, align);
}

} // verus!
