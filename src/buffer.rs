use vstd::prelude::*;

verus! {

/// The element type that a buffer holds. Only the tag and the width are
/// kept: the engine moves bytes and never interprets them.
#[derive(Clone, Copy, Debug, PartialEq, Eq, Structural)]
pub enum ElemType {
    U8,
    I8,
    U16,
    I16,
    U32,
    I32,
    U64,
    I64,
    Float32,
    Float64,
}

impl ElemType {
    /// Width of one element in bytes.
    pub open spec fn width(self) -> nat {
        match self {
            ElemType::U8 | ElemType::I8 => 1,
            ElemType::U16 | ElemType::I16 => 2,
            ElemType::U32 | ElemType::I32 | ElemType::Float32 => 4,
            ElemType::U64 | ElemType::I64 | ElemType::Float64 => 8,
        }
    }

    pub fn size(&self) -> (r: usize)
        ensures
            r as nat == self.width(),
    {
        match self {
            ElemType::U8 | ElemType::I8 => 1,
            ElemType::U16 | ElemType::I16 => 2,
            ElemType::U32 | ElemType::I32 | ElemType::Float32 => 4,
            ElemType::U64 | ElemType::I64 | ElemType::Float64 => 8,
        }
    }
}

/// What an allocation request asks for: a number of elements of one type.
/// Two requests may share a cached buffer exactly when their layouts are equal.
#[derive(Clone, Copy, Debug, PartialEq, Eq, Structural)]
pub struct Layout {
    pub len: usize,
    pub elem: ElemType,
}

impl Layout {
    pub open spec fn byte_len(self) -> nat {
        self.len as nat * self.elem.width()
    }

    /// The size in bytes, or `None` where it does not fit in a `usize`.
    pub fn bytes(&self) -> (r: Option<usize>)
        ensures
            r matches Some(n) ==> n as nat == self.byte_len(),
            r is None <==> self.byte_len() > usize::MAX,
    {
        self.len.checked_mul(self.elem.size())
    }
}

/// How a handle relates to the memory it names.
#[derive(Clone, Copy, Debug, PartialEq, Eq, Structural)]
pub enum Ownership {
    /// Held by a slot of the device's cache; the slot frees it.
    Cached,
    /// Allocated outside the cache; the handle owns it.
    Owned,
    /// A non-owning second handle to memory that something else holds.
    Alias,
}

/// A handle to one allocation of a device. Copying the handle copies no
/// data: every handle with the same `device` and `handle` names the same bytes.
#[derive(Clone, Copy, Debug, PartialEq, Eq, Structural)]
pub struct Buffer {
    pub device: u64,
    pub handle: u64,
    pub layout: Layout,
    pub ownership: Ownership,
}

/// The non-owning alias of `b`: the same memory, marked as an alias.
pub open spec fn alias_of(b: Buffer) -> Buffer {
    Buffer { ownership: Ownership::Alias, ..b }
}

/// What reading `b` on the device `id` with memory `mem` shows: `None` when
/// `b` belongs to another device, or its allocation is gone or has another size.
pub open spec fn visible(id: u64, mem: Map<u64, Seq<u8>>, b: Buffer) -> Option<Seq<u8>> {
    if b.device == id && mem.contains_key(b.handle) && mem[b.handle].len() == b.layout.byte_len() {
        Some(mem[b.handle])
    } else {
        None
    }
}

/// A second handle to the memory of `b`, without copying it.
pub fn shallow_copy(b: &Buffer) -> (r: Buffer)
    ensures
        r == alias_of(*b),
{
    Buffer { ownership: Ownership::Alias, ..*b }
}

/// Writing through a buffer is seen through its shallow copy, and writing
/// through the copy is seen through the buffer, whatever the element type.
pub proof fn shallow_copy_is_transparent(id: u64, mem: Map<u64, Seq<u8>>, b: Buffer, bytes: Seq<u8>)
    requires
        visible(id, mem, b) is Some,
        bytes.len() == b.layout.byte_len(),
    ensures
        visible(id, mem, alias_of(b)) == visible(id, mem, b),
        visible(id, mem.insert(b.handle, bytes), alias_of(b)) == Some(bytes),
        visible(id, mem.insert(alias_of(b).handle, bytes), b) == Some(bytes),
{
}

} // verus!
