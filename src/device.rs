use vstd::prelude::*;

use crate::backend::{zeroed, Backend};
use crate::buffer::{alias_of, visible, Buffer, ElemType, Layout, Ownership};
use crate::replay::{is_hit, place};

verus! {

/// One entry of the slot table: the allocation that the slot holds and the
/// layout it was requested with.
#[derive(Clone, Copy, Debug, PartialEq, Eq, Structural)]
pub struct SlotEntry {
    pub handle: u64,
    pub layout: Layout,
}

/// The counter value captured at the start of a pass, to be restored at its end.
#[derive(Clone, Copy, Debug, PartialEq, Eq, Structural)]
pub struct PassToken {
    pub device: u64,
    pub start: usize,
}

#[derive(Clone, Copy, Debug, PartialEq, Eq, Structural)]
pub enum CacheError {
    /// The backend could not provide `layout` on `device`.
    AllocationFailure { device: u64, layout: Layout },
    /// A buffer or token of device `found` was handed to device `expected`.
    CrossDeviceMisuse { expected: u64, found: u64 },
    /// The allocation a handle names was replaced or freed.
    StaleBuffer { device: u64, handle: u64 },
    /// A write of `given` bytes into a buffer of another size.
    LengthMismatch { layout: Layout, given: usize },
    /// A pass token whose start lies beyond the device's slot table.
    TokenOutOfRange { device: u64, start: usize },
}

/// The state of a device that contracts speak of.
pub struct DeviceView {
    pub id: u64,
    pub counter: nat,
    pub slots: Seq<SlotEntry>,
}

/// A compute device with its counter-keyed buffer cache.
///
/// The `i`-th request of a pass is served from slot `start + i`, where
/// `start` is the counter when the pass began. A request whose layout matches
/// what the slot holds gets that slot's buffer back without touching the
/// backend; any other request allocates, and the slot's previous buffer is freed.
pub struct Device<B: Backend> {
    id: u64,
    backend: B,
    counter: usize,
    slots: Vec<SlotEntry>,
}

impl<B: Backend> View for Device<B> {
    type V = DeviceView;

    closed spec fn view(&self) -> DeviceView {
        DeviceView { id: self.id, counter: self.counter as nat, slots: self.slots@ }
    }
}

impl<B: Backend> Device<B> {
    pub closed spec fn backend_state(&self) -> B {
        self.backend
    }

    pub open spec fn memory(&self) -> Map<u64, Seq<u8>> {
        self.backend_state().mem()
    }

    pub open spec fn layouts(&self) -> Seq<Layout> {
        self@.slots.map_values(|e: SlotEntry| e.layout)
    }

    pub closed spec fn wf(&self) -> bool {
        let mem = self.backend.mem();
        &&& self.backend.wf()
        &&& self.counter <= self.slots@.len()
        &&& mem.dom().subset_of(self.backend.issued())
        &&& forall|i: int|
            0 <= i < self.slots@.len() ==> {
                &&& mem.contains_key(#[trigger] self.slots@[i].handle)
                &&& mem[self.slots@[i].handle].len() == self.slots@[i].layout.byte_len()
            }
        &&& forall|i: int, j: int|
            0 <= i < self.slots@.len() && 0 <= j < self.slots@.len() && i != j
                ==> #[trigger] self.slots@[i].handle != #[trigger] self.slots@[j].handle
    }

    /// A device with an empty cache over `backend`.
    ///
    /// Buffers and pass tokens are told apart by device id alone, so each
    /// device of a program must be given an id of its own: two devices that
    /// share an id accept each other's buffers.
    pub fn new(id: u64, backend: B) -> (r: Device<B>)
        requires
            backend.wf(),
            backend.mem().dom().subset_of(backend.issued()),
        ensures
            r.wf(),
            r@.id == id,
            r@.counter == 0,
            r@.slots == Seq::<SlotEntry>::empty(),
            r.backend_state() == backend,
    {
        Device { id, backend, counter: 0, slots: Vec::new() }
    }

    pub fn id(&self) -> (r: u64)
        ensures
            r == self@.id,
    {
        self.id
    }

    pub fn counter(&self) -> (r: usize)
        ensures
            r == self@.counter,
    {
        self.counter
    }

    pub fn slot_count(&self) -> (r: usize)
        ensures
            r == self@.slots.len(),
    {
        self.slots.len()
    }

    pub fn slot(&self, i: usize) -> (r: Option<SlotEntry>)
        ensures
            r == if i < self@.slots.len() {
                Some(self@.slots[i as int])
            } else {
                None::<SlotEntry>
            },
    {
        if i < self.slots.len() {
            Some(self.slots[i])
        } else {
            None
        }
    }

    pub fn backend(&self) -> (r: &B)
        ensures
            *r == self.backend_state(),
    {
        &self.backend
    }

    proof fn lemma_layouts_len(&self)
        ensures
            self.layouts().len() == self@.slots.len(),
            forall|i: int| 0 <= i < self@.slots.len() ==> #[trigger] self.layouts()[i] == self@.slots[i].layout,
    {
    }

    /// Serves the next request of the pass: the buffer of the slot at the
    /// counter where its layout matches, else a new allocation stored there.
    pub fn get_or_alloc(&mut self, len: usize, elem: ElemType) -> (r: Result<Buffer, CacheError>)
        requires
            old(self).wf(),
        ensures
            final(self).wf(),
            final(self)@.id == old(self)@.id,
            ({
                let c = old(self)@.counter as int;
                let l = Layout { len, elem };
                let hit = is_hit(old(self).layouts(), c, l);
                &&& r is Ok <==> c < usize::MAX && (hit || (l.byte_len() <= usize::MAX
                    && old(self).backend_state().has_room(l.byte_len())))
                &&& match r {
                    Ok(b) => {
                        &&& b == Buffer {
                            device: old(self)@.id,
                            handle: final(self)@.slots[c].handle,
                            layout: l,
                            ownership: Ownership::Cached,
                        }
                        &&& final(self)@.counter == c + 1
                        &&& c < final(self)@.slots.len()
                        &&& final(self).layouts() == place(old(self).layouts(), c, l)
                        &&& forall|i: int|
                            0 <= i < old(self)@.slots.len() && i != c ==> #[trigger] final(self)@.slots[i]
                                == old(self)@.slots[i]
                        &&& visible(final(self)@.id, final(self).memory(), b) is Some
                        &&& forall|i: int|
                            0 <= i < final(self)@.slots.len() && i != c
                                ==> #[trigger] final(self)@.slots[i].handle != b.handle
                        &&& forall|i: int|
                            0 <= i < old(self)@.slots.len() && i != c ==> {
                                let h = #[trigger] old(self)@.slots[i].handle;
                                &&& final(self).memory().contains_key(h)
                                &&& final(self).memory()[h] == old(self).memory()[h]
                            }
                        &&& if hit {
                            &&& final(self)@.slots == old(self)@.slots
                            &&& final(self).backend_state() == old(self).backend_state()
                        } else {
                            &&& !old(self).backend_state().issued().contains(b.handle)
                            &&& final(self).backend_state().allocations()
                                == old(self).backend_state().allocations() + 1
                            &&& forall|n: nat|
                                old(self).backend_state().has_room_for_two(l.byte_len(), n)
                                    ==> #[trigger] final(self).backend_state().has_room(n)
                            &&& final(self).memory() == (if c < old(self)@.slots.len() {
                                old(self).memory().remove(old(self)@.slots[c].handle)
                            } else {
                                old(self).memory()
                            }).insert(b.handle, zeroed(l.byte_len()))
                        }
                    },
                    Err(e) => {
                        &&& e == CacheError::AllocationFailure { device: old(self)@.id, layout: l }
                        &&& *final(self) == *old(self)
                    },
                }
            }),
    {
        proof {
            self.lemma_layouts_len();
        }
        let layout = Layout { len, elem };
        let c = self.counter;
        if c == usize::MAX {
            return Err(CacheError::AllocationFailure { device: self.id, layout });
        }
        if c < self.slots.len() && self.slots[c].layout == layout {
            self.counter = c + 1;
            return Ok(Buffer { device: self.id, handle: self.slots[c].handle, layout, ownership: Ownership::Cached });
        }
        let size = match layout.bytes() {
            Some(n) => n,
            None => {
                return Err(CacheError::AllocationFailure { device: self.id, layout });
            },
        };
        let ghost mem0 = self.backend.mem();
        let h = match self.backend.allocate(size) {
            Some(h) => h,
            None => {
                return Err(CacheError::AllocationFailure { device: self.id, layout });
            },
        };
        let entry = SlotEntry { handle: h, layout };
        if c < self.slots.len() {
            let previous = self.slots[c].handle;
            self.backend.free(previous);
            assert(self.backend.mem() =~= mem0.remove(previous).insert(h, zeroed(layout.byte_len())));
            self.slots.set(c, entry);
        } else {
            self.slots.push(entry);
        }
        self.counter = c + 1;
        proof {
            self.lemma_layouts_len();
            assert(self.layouts() =~= place(old(self).layouts(), c as int, layout));
        }
        Ok(Buffer { device: self.id, handle: h, layout, ownership: Ownership::Cached })
    }

    /// Whether the next request, for `len` elements of `elem`, would find its
    /// slot holding a buffer of another layout, which it then replaces. Such a
    /// size mismatch costs an allocation and is no error.
    pub fn size_mismatch(&self, len: usize, elem: ElemType) -> (r: bool)
        requires
            self.wf(),
        ensures
            r == (self@.counter < self@.slots.len() && self@.slots[self@.counter as int].layout
                != Layout { len, elem }),
    {
        self.counter < self.slots.len() && self.slots[self.counter].layout != (Layout { len, elem })
    }

    /// Captures the counter as the start of a pass. A nested loop captures
    /// whatever the enclosing loop has reached, not zero.
    pub fn begin_pass(&self) -> (r: PassToken)
        ensures
            r.device == self@.id,
            r.start == self@.counter,
    {
        PassToken { device: self.id, start: self.counter }
    }

    /// Rewinds the counter to where the pass of `token` began, so that the
    /// next run of the same requests is served by the same slots. No slot
    /// and no allocation changes.
    pub fn end_pass(&mut self, token: PassToken) -> (r: Result<(), CacheError>)
        requires
            old(self).wf(),
        ensures
            final(self).wf(),
            r is Ok <==> token.device == old(self)@.id && token.start <= old(self)@.slots.len(),
            token.device != old(self)@.id ==> r == Err::<(), CacheError>(
                CacheError::CrossDeviceMisuse { expected: old(self)@.id, found: token.device },
            ),
            token.device == old(self)@.id && token.start > old(self)@.slots.len() ==> r == Err::<
                (),
                CacheError,
            >(CacheError::TokenOutOfRange { device: old(self)@.id, start: token.start }),
            r is Ok ==> final(self)@ == (DeviceView { counter: token.start as nat, ..old(self)@ }),
            final(self).backend_state() == old(self).backend_state(),
            r is Err ==> *final(self) == *old(self),
    {
        if token.device != self.id {
            return Err(CacheError::CrossDeviceMisuse { expected: self.id, found: token.device });
        }
        if token.start > self.slots.len() {
            return Err(CacheError::TokenOutOfRange { device: self.id, start: token.start });
        }
        self.counter = token.start;
        Ok(())
    }

    /// Rewinds the counter to the first slot.
    pub fn reset(&mut self)
        requires
            old(self).wf(),
        ensures
            final(self).wf(),
            final(self)@ == (DeviceView { counter: 0, ..old(self)@ }),
            final(self).backend_state() == old(self).backend_state(),
    {
        self.counter = 0;
    }

    /// The current bytes of `b`, through whichever handle of its memory.
    pub fn read(&self, b: &Buffer) -> (r: Result<Vec<u8>, CacheError>)
        requires
            self.wf(),
        ensures
            match r {
                Ok(v) => visible(self@.id, self.memory(), *b) == Some(v@),
                Err(e) => {
                    &&& visible(self@.id, self.memory(), *b) is None
                    &&& e == if b.device != self@.id {
                        CacheError::CrossDeviceMisuse { expected: self@.id, found: b.device }
                    } else {
                        CacheError::StaleBuffer { device: self@.id, handle: b.handle }
                    }
                },
            },
    {
        if b.device != self.id {
            return Err(CacheError::CrossDeviceMisuse { expected: self.id, found: b.device });
        }
        match self.backend.read(b.handle) {
            Some(v) => {
                let size = v.len();
                let fits = match b.layout.bytes() {
                    Some(n) => n == size,
                    None => false,
                };
                if fits {
                    Ok(v)
                } else {
                    Err(CacheError::StaleBuffer { device: self.id, handle: b.handle })
                }
            },
            None => Err(CacheError::StaleBuffer { device: self.id, handle: b.handle }),
        }
    }

    /// Replaces the bytes of `b`; every handle of the same memory sees them.
    pub fn write(&mut self, b: &Buffer, bytes: &[u8]) -> (r: Result<(), CacheError>)
        requires
            old(self).wf(),
        ensures
            final(self).wf(),
            final(self)@ == old(self)@,
            r is Ok <==> visible(old(self)@.id, old(self).memory(), *b) is Some && bytes@.len()
                == b.layout.byte_len(),
            b.device != old(self)@.id ==> r == Err::<(), CacheError>(
                CacheError::CrossDeviceMisuse { expected: old(self)@.id, found: b.device },
            ),
            b.device == old(self)@.id && bytes@.len() != b.layout.byte_len() ==> r == Err::<
                (),
                CacheError,
            >(CacheError::LengthMismatch { layout: b.layout, given: bytes@.len() as usize }),
            b.device == old(self)@.id && bytes@.len() == b.layout.byte_len() && visible(
                old(self)@.id,
                old(self).memory(),
                *b,
            ) is None ==> r == Err::<(), CacheError>(
                CacheError::StaleBuffer { device: old(self)@.id, handle: b.handle },
            ),
            r is Ok ==> final(self).memory() == old(self).memory().insert(b.handle, bytes@),
            r is Ok ==> final(self).backend_state().allocations() == old(self).backend_state().allocations(),
            r is Ok ==> forall|n: nat| #[trigger] final(self).backend_state().has_room(n)
                == old(self).backend_state().has_room(n),
            r is Err ==> *final(self) == *old(self),
    {
        if b.device != self.id {
            return Err(CacheError::CrossDeviceMisuse { expected: self.id, found: b.device });
        }
        let fits = match b.layout.bytes() {
            Some(n) => n == bytes.len(),
            None => false,
        };
        if !fits {
            return Err(CacheError::LengthMismatch { layout: b.layout, given: bytes.len() });
        }
        if self.backend.write(b.handle, bytes) {
            Ok(())
        } else {
            Err(CacheError::StaleBuffer { device: self.id, handle: b.handle })
        }
    }

    /// A buffer outside the cache: the counter and the slots do not change,
    /// and the buffer owns its allocation.
    pub fn alloc_owned(&mut self, len: usize, elem: ElemType) -> (r: Result<Buffer, CacheError>)
        requires
            old(self).wf(),
        ensures
            final(self).wf(),
            final(self)@ == old(self)@,
            ({
                let l = Layout { len, elem };
                &&& r is Ok <==> l.byte_len() <= usize::MAX && old(self).backend_state().has_room(
                    l.byte_len(),
                )
                &&& match r {
                    Ok(b) => {
                        &&& b.device == old(self)@.id
                        &&& b.layout == l
                        &&& b.ownership == Ownership::Owned
                        &&& !old(self).backend_state().issued().contains(b.handle)
                        &&& final(self).memory() == old(self).memory().insert(
                            b.handle,
                            zeroed(l.byte_len()),
                        )
                        &&& final(self).backend_state().allocations()
                            == old(self).backend_state().allocations() + 1
                    },
                    Err(e) => {
                        &&& e == CacheError::AllocationFailure { device: old(self)@.id, layout: l }
                        &&& *final(self) == *old(self)
                    },
                }
            }),
    {
        let layout = Layout { len, elem };
        let size = match layout.bytes() {
            Some(n) => n,
            None => {
                return Err(CacheError::AllocationFailure { device: self.id, layout });
            },
        };
        match self.backend.allocate(size) {
            Some(h) => Ok(Buffer { device: self.id, handle: h, layout, ownership: Ownership::Owned }),
            None => Err(CacheError::AllocationFailure { device: self.id, layout }),
        }
    }

    /// A handle to the data of `b` for later use in the same pass: an alias
    /// where a cache slot keeps the memory alive until the next pass, a copy
    /// of the bytes in a buffer of its own otherwise.
    pub fn shallow_or_clone(&mut self, b: &Buffer) -> (r: Result<Buffer, CacheError>)
        requires
            old(self).wf(),
        ensures
            final(self).wf(),
            final(self)@ == old(self)@,
            b.device != old(self)@.id ==> r == Err::<Buffer, CacheError>(
                CacheError::CrossDeviceMisuse { expected: old(self)@.id, found: b.device },
            ),
            b.device == old(self)@.id && visible(old(self)@.id, old(self).memory(), *b) is None
                ==> r == Err::<Buffer, CacheError>(
                CacheError::StaleBuffer { device: old(self)@.id, handle: b.handle },
            ),
            visible(old(self)@.id, old(self).memory(), *b) is Some && b.ownership
                == Ownership::Cached ==> r == Ok::<Buffer, CacheError>(alias_of(*b)),
            visible(old(self)@.id, old(self).memory(), *b) is Some && b.ownership
                != Ownership::Cached ==> {
                &&& r is Ok <==> old(self).backend_state().has_room(b.layout.byte_len())
                &&& match r {
                    Ok(c) => {
                        &&& c.device == old(self)@.id
                        &&& c.layout == b.layout
                        &&& c.ownership == Ownership::Owned
                        &&& !old(self).backend_state().issued().contains(c.handle)
                        &&& final(self).memory() == old(self).memory().insert(
                            c.handle,
                            old(self).memory()[b.handle],
                        )
                        &&& final(self).backend_state().allocations()
                            == old(self).backend_state().allocations() + 1
                    },
                    Err(e) => e == CacheError::AllocationFailure {
                        device: old(self)@.id,
                        layout: b.layout,
                    },
                }
            },
            r is Err ==> *final(self) == *old(self),
            b.ownership == Ownership::Cached ==> *final(self) == *old(self),
    {
        let data = match self.read(b) {
            Ok(v) => v,
            Err(e) => {
                return Err(e);
            },
        };
        if b.ownership == Ownership::Cached {
            return Ok(Buffer { ownership: Ownership::Alias, ..*b });
        }
        let ghost mem0 = self.backend.mem();
        let h = match self.backend.allocate(data.len()) {
            Some(h) => h,
            None => {
                return Err(CacheError::AllocationFailure { device: self.id, layout: b.layout });
            },
        };
        let copied = self.backend.write(h, data.as_slice());
        assert(copied);
        assert(self.backend.mem() =~= mem0.insert(h, mem0[b.handle]));
        Ok(Buffer { device: self.id, handle: h, layout: b.layout, ownership: Ownership::Owned })
    }
}

} // verus!
