use vstd::prelude::*;

use crate::backend::Backend;
use crate::buffer::{visible, Buffer, ElemType, Layout};
use crate::device::{CacheError, Device, DeviceView, PassToken};
use crate::replay::{changed_requests_allocate, differing, is_hit, misses, place, replay};
use vstd::arithmetic::div_mod::lemma_fundamental_div_mod;
use vstd::slice::slice_subrange;

verus! {

/// A buffer read as a matrix of `rows` by `cols` elements.
#[derive(Clone, Copy, Debug, PartialEq, Eq, Structural)]
pub struct Matrix {
    pub buf: Buffer,
    pub rows: usize,
    pub cols: usize,
}

#[derive(Clone, Copy, Debug, PartialEq, Eq, Structural)]
pub enum BatchError {
    /// The batch size is zero or larger than the number of samples.
    InvalidBatchSize { batch_size: usize, samples: usize },
    /// The inputs or the targets hold fewer bytes than the samples need.
    ShortData,
    /// The device is not the one the batches were made for.
    WrongDevice { expected: u64, found: u64 },
}

/// A data set, split into batches of `batch_size` samples that are handed
/// out in the cache of one device. Each sample has `features` input elements
/// of type `x_elem` and `out_size` target elements of type `y_elem`, stored
/// row after row as bytes.
pub struct Batch {
    x: Vec<u8>,
    y: Vec<u8>,
    batch_size: usize,
    samples: usize,
    features: usize,
    out_size: usize,
    x_elem: ElemType,
    y_elem: ElemType,
    device: u64,
}

pub struct BatchView {
    pub x: Seq<u8>,
    pub y: Seq<u8>,
    pub batch_size: nat,
    pub samples: nat,
    pub features: nat,
    pub out_size: nat,
    pub x_elem: ElemType,
    pub y_elem: ElemType,
    pub device: u64,
}

impl View for Batch {
    type V = BatchView;

    closed spec fn view(&self) -> BatchView {
        BatchView {
            x: self.x@,
            y: self.y@,
            batch_size: self.batch_size as nat,
            samples: self.samples as nat,
            features: self.features as nat,
            out_size: self.out_size as nat,
            x_elem: self.x_elem,
            y_elem: self.y_elem,
            device: self.device,
        }
    }
}

/// Bytes of one sample's inputs, and of its targets.
pub open spec fn x_stride(v: BatchView) -> nat {
    v.features * v.x_elem.width()
}

pub open spec fn y_stride(v: BatchView) -> nat {
    v.out_size * v.y_elem.width()
}

/// The number of samples in batch `k`: full batches first, then the
/// remainder, if any; `None` past the last batch.
pub open spec fn batch_rows(v: BatchView, k: nat) -> Option<nat> {
    let full = v.samples / v.batch_size;
    let rem = v.samples % v.batch_size;
    if k < full {
        Some(v.batch_size)
    } else if k == full && rem > 0 {
        Some(rem)
    } else {
        None
    }
}

/// The layouts of the input buffer and of the target buffer of a batch of `rows` samples.
pub open spec fn x_layout(v: BatchView, rows: nat) -> Layout {
    Layout { len: (rows * v.features) as usize, elem: v.x_elem }
}

pub open spec fn y_layout(v: BatchView, rows: nat) -> Layout {
    Layout { len: (rows * v.out_size) as usize, elem: v.y_elem }
}

/// What a batch set accepts before it is iterated over.
pub open spec fn batch_ok(v: BatchView) -> bool {
    &&& 0 < v.batch_size <= v.samples
    &&& v.samples * x_stride(v) <= v.x.len()
    &&& v.samples * y_stride(v) <= v.y.len()
}

/// The input bytes and the target bytes of batch `k` with `rows` samples.
pub open spec fn batch_x(v: BatchView, k: nat, rows: nat) -> Seq<u8> {
    v.x.subrange((k * v.batch_size * x_stride(v)) as int, ((k * v.batch_size + rows) * x_stride(v)) as int)
}

pub open spec fn batch_y(v: BatchView, k: nat, rows: nat) -> Seq<u8> {
    v.y.subrange((k * v.batch_size * y_stride(v)) as int, ((k * v.batch_size + rows) * y_stride(v)) as int)
}

impl Batch {
    pub fn new<B: Backend>(
        device: &Device<B>,
        batch_size: usize,
        samples: usize,
        features: usize,
        out_size: usize,
        x: Vec<u8>,
        y: Vec<u8>,
        x_elem: ElemType,
        y_elem: ElemType,
    ) -> (r: Batch)
        ensures
            r@ == (BatchView {
                x: x@,
                y: y@,
                batch_size: batch_size as nat,
                samples: samples as nat,
                features: features as nat,
                out_size: out_size as nat,
                x_elem,
                y_elem,
                device: device@.id,
            }),
    {
        Batch { x, y, batch_size, samples, features, out_size, x_elem, y_elem, device: device.id() }
    }
}

/// Hands out the batches of a `Batch` one by one. Each batch reuses the
/// slots of the one before: the counter is rewound to where it stood when
/// the iterator was made before each batch is taken from the cache.
pub struct Iter<'a> {
    batch: &'a Batch,
    token: PassToken,
    x_stride: usize,
    y_stride: usize,
    full: usize,
    rem: usize,
    current: usize,
}

pub struct IterView {
    pub batch: BatchView,
    pub device: u64,
    pub start: nat,
    pub current: nat,
}

impl<'a> View for Iter<'a> {
    type V = IterView;

    closed spec fn view(&self) -> IterView {
        IterView {
            batch: self.batch@,
            device: self.token.device,
            start: self.token.start as nat,
            current: self.current as nat,
        }
    }
}

proof fn lemma_mul_le(a: nat, b: nat, c: nat)
    requires
        a <= b,
    ensures
        a * c <= b * c,
{
    assert(a * c <= b * c) by (nonlinear_arith)
        requires
            a <= b,
    ;
}

/// After a batch has taken its buffers from slots `s` and `s + 1`, the next
/// batch (of the same epoch, or the first of the next one, both anchored at
/// `s`) allocates once for each of its two buffers whose layout differs from
/// the earlier batch's: never when both match, as between full batches.
pub proof fn next_batch_allocations(ls: Seq<Layout>, s: int, lx: Layout, ly: Layout, nx: Layout, ny: Layout)
    requires
        0 <= s <= ls.len(),
    ensures
        misses(place(place(ls, s, lx), s + 1, ly), s, seq![nx, ny]) == (if nx == lx {
            0nat
        } else {
            1nat
        }) + (if ny == ly {
            0nat
        } else {
            1nat
        }),
{
    let first = seq![lx, ly];
    let second = seq![nx, ny];
    changed_requests_allocate(ls, s, first, second);
    assert(first.drop_first() =~= seq![ly]);
    assert(seq![ly].drop_first() =~= Seq::<Layout>::empty());
    assert(replay(ls, s, first) == replay(place(ls, s, lx), s + 1, seq![ly]));
    assert(replay(place(ls, s, lx), s + 1, seq![ly]) == replay(
        place(place(ls, s, lx), s + 1, ly),
        s + 2,
        Seq::<Layout>::empty(),
    ));
    assert(second.drop_first() =~= seq![ny]);
    assert(seq![ny].drop_first() =~= Seq::<Layout>::empty());
    assert(differing(first, second) == (if lx == nx {
        0nat
    } else {
        1nat
    }) + differing(seq![ly], seq![ny]));
    assert(differing(seq![ly], seq![ny]) == (if ly == ny {
        0nat
    } else {
        1nat
    }) + differing(Seq::<Layout>::empty(), Seq::<Layout>::empty()));
}

impl Batch {
    /// An iterator over the batches, anchored at the device's counter now.
    pub fn iter<B: Backend>(&self, device: &Device<B>) -> (r: Result<Iter<'_>, BatchError>)
        ensures
            r is Ok <==> device@.id == self@.device && batch_ok(self@),
            device@.id != self@.device ==> r == Err::<Iter<'_>, BatchError>(
                BatchError::WrongDevice { expected: device@.id, found: self@.device },
            ),
            device@.id == self@.device && !(0 < self@.batch_size <= self@.samples) ==> r == Err::<
                Iter<'_>,
                BatchError,
            >(BatchError::InvalidBatchSize { batch_size: self@.batch_size as usize, samples: self@.samples as usize }),
            device@.id == self@.device && 0 < self@.batch_size <= self@.samples && !batch_ok(self@)
                ==> r == Err::<Iter<'_>, BatchError>(BatchError::ShortData),
            r matches Ok(it) ==> {
                &&& it.wf()
                &&& it@ == (IterView {
                    batch: self@,
                    device: device@.id,
                    start: device@.counter,
                    current: 0,
                })
            },
    {
        let id = device.id();
        let x_total = self.x.len();
        let y_total = self.y.len();
        if id != self.device {
            return Err(BatchError::WrongDevice { expected: id, found: self.device });
        }
        if self.batch_size == 0 || self.batch_size > self.samples {
            return Err(BatchError::InvalidBatchSize { batch_size: self.batch_size, samples: self.samples });
        }
        let xs = match self.features.checked_mul(self.x_elem.size()) {
            Some(n) => n,
            None => {
                proof {
                    lemma_mul_le(1, self.samples as nat, x_stride(self@));
                }
                return Err(BatchError::ShortData);
            },
        };
        let ys = match self.out_size.checked_mul(self.y_elem.size()) {
            Some(n) => n,
            None => {
                proof {
                    lemma_mul_le(1, self.samples as nat, y_stride(self@));
                }
                return Err(BatchError::ShortData);
            },
        };
        let x_fits = match self.samples.checked_mul(xs) {
            Some(n) => n <= x_total,
            None => false,
        };
        let y_fits = match self.samples.checked_mul(ys) {
            Some(n) => n <= y_total,
            None => false,
        };
        if !x_fits || !y_fits {
            return Err(BatchError::ShortData);
        }
        let token = device.begin_pass();
        Ok(
            Iter {
                batch: self,
                token,
                x_stride: xs,
                y_stride: ys,
                full: self.samples / self.batch_size,
                rem: self.samples % self.batch_size,
                current: 0,
            },
        )
    }
}

impl<'a> Iter<'a> {
    pub closed spec fn wf(&self) -> bool {
        let v = self.batch@;
        &&& self.token.device == v.device
        &&& batch_ok(v)
        &&& self.x_stride == x_stride(v)
        &&& self.y_stride == y_stride(v)
        &&& self.full == v.samples / v.batch_size
        &&& self.rem == v.samples % v.batch_size
        &&& self.current <= self.full + 1
        &&& v.x.len() <= usize::MAX
        &&& v.y.len() <= usize::MAX
    }

    /// Rewinds the device's counter to the iterator's start, then takes the
    /// next batch's input and target buffers from the cache and fills them.
    pub fn next<B: Backend>(&mut self, device: &mut Device<B>) -> (r: Result<Option<(Matrix, Matrix)>, CacheError>)
        requires
            old(self).wf(),
            old(device).wf(),
        ensures
            final(self).wf(),
            final(device).wf(),
            final(self)@.batch == old(self)@.batch,
            final(self)@.device == old(self)@.device,
            final(self)@.start == old(self)@.start,
            final(device)@.id == old(device)@.id,
            old(self)@.device != old(device)@.id ==> {
                &&& r == Err::<Option<(Matrix, Matrix)>, CacheError>(
                    CacheError::CrossDeviceMisuse { expected: old(device)@.id, found: old(self)@.device },
                )
                &&& *final(device) == *old(device)
            },
            ({
                let v = old(self)@.batch;
                let k = old(self)@.current;
                let s = old(self)@.start as int;
                let ours = old(self)@.device == old(device)@.id;
                let anchored = ours && s <= old(device)@.slots.len();
                let rows = batch_rows(v, k)->0;
                let lx = x_layout(v, rows);
                let ly = y_layout(v, rows);
                let ls = old(device).layouts();
                let room = old(device).backend_state();
                let x_hit = is_hit(ls, s, lx);
                let x_ok = s < usize::MAX && (x_hit || (lx.byte_len() <= usize::MAX && room.has_room(
                    lx.byte_len(),
                )));
                let y_hit = is_hit(place(ls, s, lx), s + 1, ly);
                let y_ok = s + 1 < usize::MAX && (y_hit || (ly.byte_len() <= usize::MAX && room.has_room(
                    ly.byte_len(),
                )));
                &&& ours && s > old(device)@.slots.len() ==> {
                    &&& r == Err::<Option<(Matrix, Matrix)>, CacheError>(
                        CacheError::TokenOutOfRange { device: old(device)@.id, start: s as usize },
                    )
                    &&& *final(device) == *old(device)
                }
                &&& anchored && batch_rows(v, k) is None ==> r == Ok::<
                    Option<(Matrix, Matrix)>,
                    CacheError,
                >(None)
                &&& anchored && batch_rows(v, k) is Some && !x_ok ==> r == Err::<
                    Option<(Matrix, Matrix)>,
                    CacheError,
                >(CacheError::AllocationFailure { device: old(device)@.id, layout: lx })
                &&& anchored && batch_rows(v, k) is Some && x_ok && s + 1 < usize::MAX && y_hit ==> r is Ok
                &&& anchored && batch_rows(v, k) is Some && x_ok && x_hit ==> (r is Ok <==> y_ok)
                &&& anchored && batch_rows(v, k) is Some && s + 1 < usize::MAX && lx.byte_len() <= usize::MAX
                    && ly.byte_len() <= usize::MAX && room.has_room_for_two(lx.byte_len(), ly.byte_len())
                    ==> r is Ok
                &&& anchored && batch_rows(v, k) is Some && r is Err ==> {
                    ||| !x_ok && r == Err::<Option<(Matrix, Matrix)>, CacheError>(
                        CacheError::AllocationFailure { device: old(device)@.id, layout: lx },
                    )
                    ||| x_ok && !y_ok && r == Err::<Option<(Matrix, Matrix)>, CacheError>(
                        CacheError::AllocationFailure { device: old(device)@.id, layout: ly },
                    )
                    ||| x_ok && !x_hit && !y_hit && r == Err::<Option<(Matrix, Matrix)>, CacheError>(
                        CacheError::AllocationFailure { device: old(device)@.id, layout: ly },
                    )
                }
                &&& r is Err ==> final(self)@.current == k
                &&& match r {
                    Ok(None) => {
                        &&& batch_rows(v, k) is None
                        &&& final(self)@.current == k
                        &&& final(device)@ == (DeviceView { counter: old(self)@.start, ..old(device)@ })
                        &&& final(device).backend_state() == old(device).backend_state()
                    },
                    Ok(Some((mx, my))) => {
                        &&& anchored
                        &&& batch_rows(v, k) is Some
                        &&& mx.rows == rows && mx.cols == v.features
                        &&& my.rows == rows && my.cols == v.out_size
                        &&& mx.buf.layout == lx
                        &&& my.buf.layout == ly
                        &&& mx.buf.handle == final(device)@.slots[s].handle
                        &&& my.buf.handle == final(device)@.slots[s + 1].handle
                        &&& final(device).layouts() == place(place(ls, s, lx), s + 1, ly)
                        &&& final(device).backend_state().allocations() == room.allocations() + misses(
                            ls,
                            s,
                            seq![lx, ly],
                        )
                        &&& forall|i: int|
                            0 <= i < old(device)@.slots.len() && i != s && i != s + 1 ==> {
                                let h = #[trigger] old(device)@.slots[i].handle;
                                &&& final(device)@.slots[i] == old(device)@.slots[i]
                                &&& final(device).memory().contains_key(h)
                                &&& final(device).memory()[h] == old(device).memory()[h]
                            }
                        &&& visible(final(device)@.id, final(device).memory(), mx.buf) == Some(batch_x(v, k, rows))
                        &&& visible(final(device)@.id, final(device).memory(), my.buf) == Some(batch_y(v, k, rows))
                        &&& final(device)@.counter == old(self)@.start + 2
                        &&& final(self)@.current == k + 1
                    },
                    Err(e) => {
                        ||| e is CrossDeviceMisuse
                        ||| e is TokenOutOfRange
                        ||| e is AllocationFailure
                    },
                }
            }),
    {
        match device.end_pass(self.token) {
            Ok(()) => {},
            Err(e) => {
                return Err(e);
            },
        }
        let ghost v = self.batch@;
        let k = self.current;
        let bs = self.batch.batch_size;
        proof {
            lemma_fundamental_div_mod(v.samples as int, v.batch_size as int);
        }
        let rows = if k < self.full {
            bs
        } else if k == self.full && self.rem > 0 {
            self.rem
        } else {
            return Ok(None);
        };
        proof {
            assert(k * bs + rows <= v.samples && k < v.samples) by (nonlinear_arith)
                requires
                    bs >= 1,
                    rows >= 1,
                    k <= self.full,
                    k < self.full ==> rows == bs,
                    k == self.full ==> rows == self.rem,
                    v.samples == bs * self.full + self.rem,
            ;
            lemma_mul_le((k * bs + rows) as nat, v.samples, x_stride(v));
            lemma_mul_le((k * bs + rows) as nat, v.samples, y_stride(v));
            lemma_mul_le(k as nat * bs as nat, (k * bs + rows) as nat, x_stride(v));
            lemma_mul_le(k as nat * bs as nat, (k * bs + rows) as nat, y_stride(v));
            assert(rows * v.features <= (k * bs + rows) * x_stride(v)) by (nonlinear_arith)
                requires
                    x_stride(v) == v.features * v.x_elem.width(),
                    v.x_elem.width() >= 1,
            ;
            assert(rows * v.out_size <= (k * bs + rows) * y_stride(v)) by (nonlinear_arith)
                requires
                    y_stride(v) == v.out_size * v.y_elem.width(),
                    v.y_elem.width() >= 1,
            ;
            assert((k * bs + rows) * x_stride(v) - k * bs * x_stride(v) == rows * v.features * v.x_elem.width())
                by (nonlinear_arith)
                requires
                    x_stride(v) == v.features * v.x_elem.width(),
            ;
            assert((k * bs + rows) * y_stride(v) - k * bs * y_stride(v) == rows * v.out_size * v.y_elem.width())
                by (nonlinear_arith)
                requires
                    y_stride(v) == v.out_size * v.y_elem.width(),
            ;
        }
        let sample = k * bs;
        let x_lo = sample * self.x_stride;
        let x_hi = (sample + rows) * self.x_stride;
        let y_lo = sample * self.y_stride;
        let y_hi = (sample + rows) * self.y_stride;
        let x_len = rows * self.batch.features;
        let y_len = rows * self.batch.out_size;
        let ghost c = device@.counter;
        let ghost d0 = *device;
        proof {
            if d0.backend_state().has_room_for_two(
                Layout { len: x_len, elem: v.x_elem }.byte_len(),
                Layout { len: y_len, elem: v.y_elem }.byte_len(),
            ) {
                d0.backend_state().lemma_room_for_two(
                    Layout { len: x_len, elem: v.x_elem }.byte_len(),
                    Layout { len: y_len, elem: v.y_elem }.byte_len(),
                );
            }
        }
        let bx = match device.get_or_alloc(x_len, self.batch.x_elem) {
            Ok(b) => b,
            Err(e) => {
                return Err(e);
            },
        };
        let ghost d1 = *device;
        let x_bytes = slice_subrange(self.batch.x.as_slice(), x_lo, x_hi);
        assert(x_bytes@ == batch_x(v, k as nat, rows as nat));
        match device.write(&bx, x_bytes) {
            Ok(()) => {},
            Err(e) => {
                return Err(e);
            },
        }
        let ghost mid = *device;
        let by = match device.get_or_alloc(y_len, self.batch.y_elem) {
            Ok(b) => b,
            Err(e) => {
                return Err(e);
            },
        };
        let ghost after_y = *device;
        proof {
            assert(mid@.slots[c as int].handle == bx.handle);
            assert(device@.slots[c as int].handle == bx.handle);
            assert(by.handle != bx.handle);
            assert(device.memory()[bx.handle] == x_bytes@);
        }
        let y_bytes = slice_subrange(self.batch.y.as_slice(), y_lo, y_hi);
        assert(y_bytes@ == batch_y(v, k as nat, rows as nat));
        match device.write(&by, y_bytes) {
            Ok(()) => {},
            Err(e) => {
                return Err(e);
            },
        }
        assert(device.memory() == after_y.memory().insert(by.handle, y_bytes@));
        assert(device.memory()[bx.handle] == x_bytes@);
        assert forall|i: int|
            0 <= i < old(device)@.slots.len() && i != c && i != c + 1 implies {
                let h = #[trigger] old(device)@.slots[i].handle;
                &&& device@.slots[i] == old(device)@.slots[i]
                &&& device.memory().contains_key(h)
                &&& device.memory()[h] == old(device).memory()[h]
            } by {
            let h = old(device)@.slots[i].handle;
            assert(d0@.slots[i].handle == h);
            assert(d1@.slots[i] == d0@.slots[i]);
            assert(d1@.slots[i].handle != bx.handle);
            assert(mid@.slots[i].handle == h);
            assert(mid.layouts().len() == mid@.slots.len());
            assert(d0.layouts().len() == d0@.slots.len());
            assert(mid@.slots.len() >= d0@.slots.len());
            assert(0 <= i < mid@.slots.len());
            assert(after_y@.slots[i] == mid@.slots[i]);
            assert(after_y.layouts().len() == after_y@.slots.len());
            assert(0 <= i < after_y@.slots.len());
            assert(after_y@.slots[i].handle != by.handle);
        }
        proof {
            let ls = old(device).layouts();
            let ci = c as int;
            let reqs = seq![bx.layout, by.layout];
            assert(reqs.drop_first() =~= seq![by.layout]);
            assert(seq![by.layout].drop_first() =~= Seq::<Layout>::empty());
            assert(misses(ls, ci, reqs) == (if is_hit(ls, ci, bx.layout) {
                0nat
            } else {
                1nat
            }) + misses(place(ls, ci, bx.layout), ci + 1, seq![by.layout]));
            assert(misses(place(ls, ci, bx.layout), ci + 1, seq![by.layout]) == (if is_hit(
                place(ls, ci, bx.layout),
                ci + 1,
                by.layout,
            ) {
                0nat
            } else {
                1nat
            }) + misses(
                place(place(ls, ci, bx.layout), ci + 1, by.layout),
                ci + 2,
                Seq::<Layout>::empty(),
            ));
        }
        self.current = k + 1;
        Ok(
            Some(
                (
                    Matrix { buf: bx, rows, cols: self.batch.features },
                    Matrix { buf: by, rows, cols: self.batch.out_size },
                ),
            ),
        )
    }
}

} // verus!
