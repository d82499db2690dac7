use vstd::prelude::*;

use crate::backend::{zeroed, Backend};
use crate::batch::Matrix;
use crate::buffer::{visible, ElemType, Layout};
use crate::device::{CacheError, Device};
use crate::replay::{is_hit, place};
use vstd::arithmetic::div_mod::{lemma_fundamental_div_mod, lemma_fundamental_div_mod_converse};

verus! {

/// The largest class of `s`, and 0 for no class.
pub open spec fn seq_max(s: Seq<usize>) -> nat
    decreases s.len(),
{
    if s.len() == 0 {
        0
    } else {
        let m = seq_max(s.drop_last());
        if s.last() as nat > m {
            s.last() as nat
        } else {
            m
        }
    }
}

/// `bytes` with a one at column `input[r]` of each row `r` of `width` columns.
pub open spec fn mark_ones(bytes: Seq<u8>, input: Seq<usize>, width: nat, rows: int) -> Seq<u8> {
    Seq::new(
        bytes.len(),
        |k: int|
            if width > 0 && k / (width as int) < rows && k % (width as int) == input[k / (width as int)] as int {
                1u8
            } else {
                bytes[k]
            },
    )
}

/// The one-hot rows of `classes`, `width` columns each.
pub open spec fn onehot_of(classes: Seq<usize>, width: nat) -> Seq<u8> {
    mark_ones(zeroed(classes.len() * width), classes, width, classes.len() as int)
}

fn max_class(classes: &[usize]) -> (r: usize)
    ensures
        r == seq_max(classes@),
{
    let mut m: usize = 0;
    let mut i: usize = 0;
    while i < classes.len()
        invariant
            i <= classes@.len(),
            m == seq_max(classes@.subrange(0, i as int)),
        decreases classes@.len() - i,
    {
        assert(classes@.subrange(0, i + 1).drop_last() =~= classes@.subrange(0, i as int));
        if classes[i] > m {
            m = classes[i];
        }
        i = i + 1;
    }
    assert(classes@.subrange(0, i as int) =~= classes@);
    m
}

/// Sets, in each row `r` of `max` columns, the column `input[r]` to one.
pub fn encode_onehot(max: usize, input: &[usize], onehot: &mut Vec<u8>)
    requires
        forall|r: int| 0 <= r < input@.len() ==> input@[r] < max,
        old(onehot)@.len() >= input@.len() * max,
    ensures
        final(onehot)@ == mark_ones(old(onehot)@, input@, max as nat, input@.len() as int),
{
    let rows = input.len();
    let total = onehot.len();
    let ghost start = onehot@;
    let mut r: usize = 0;
    assert forall|k: int| 0 <= k < start.len() implies #[trigger] mark_ones(start, input@, max as nat, 0)[k] == start[k] by {
        if max > 0 {
            assert(k / (max as int) >= 0) by (nonlinear_arith)
                requires
                    k >= 0,
                    max > 0,
            ;
        }
    }
    assert(onehot@ =~= mark_ones(start, input@, max as nat, 0));
    while r < rows
        invariant
            rows == input@.len(),
            total == start.len(),
            r <= rows,
            forall|q: int| 0 <= q < input@.len() ==> input@[q] < max,
            start.len() >= input@.len() * max,
            onehot@ == mark_ones(start, input@, max as nat, r as int),
        decreases rows - r,
    {
        let c = input[r];
        proof {
            assert(r * max + c < rows * max) by (nonlinear_arith)
                requires
                    r < rows,
                    c < max,
            ;
            lemma_fundamental_div_mod_converse((r * max + c) as int, max as int, r as int, c as int);
        }
        let p = r * max + c;
        onehot.set(p, 1u8);
        proof {
            let next = mark_ones(start, input@, max as nat, r + 1);
            assert forall|k: int| 0 <= k < onehot@.len() implies #[trigger] onehot@[k] == next[k] by {
                lemma_fundamental_div_mod(k, max as int);
                if k != p {
                    if k / (max as int) == r && k % (max as int) == c as int {
                        assert(k == max * (k / (max as int)) + k % (max as int));
                        assert(k == r * max + c) by (nonlinear_arith)
                            requires
                                k == max * r + c,
                        ;
                    }
                }
            }
            assert(onehot@ =~= next);
        }
        r = r + 1;
    }
}

/// One-hot encodes `classes` into a buffer of the device's cache: one row
/// per class, with as many columns as the largest class plus one.
pub fn onehot<B: Backend>(device: &mut Device<B>, classes: &[usize]) -> (r: Result<Matrix, CacheError>)
    requires
        old(device).wf(),
        classes@.len() * (seq_max(classes@) + 1) <= usize::MAX,
    ensures
        final(device).wf(),
        final(device)@.id == old(device)@.id,
        ({
            let c = old(device)@.counter as int;
            let l = Layout { len: (classes@.len() * (seq_max(classes@) + 1)) as usize, elem: ElemType::U8 };
            &&& r is Ok <==> c < usize::MAX && (is_hit(old(device).layouts(), c, l) || (l.byte_len()
                <= usize::MAX && old(device).backend_state().has_room(l.byte_len())))
            &&& r matches Ok(m) ==> {
                &&& m.buf.handle == final(device)@.slots[c].handle
                &&& final(device).layouts() == place(old(device).layouts(), c, l)
                &&& final(device).backend_state().allocations() == old(device).backend_state().allocations()
                    + if is_hit(old(device).layouts(), c, l) {
                    0nat
                } else {
                    1nat
                }
            }
            &&& r is Err ==> r == Err::<Matrix, CacheError>(
                CacheError::AllocationFailure { device: old(device)@.id, layout: l },
            )
        }),
        match r {
            Ok(m) => {
                let width = seq_max(classes@) + 1;
                &&& m.rows == classes@.len()
                &&& m.cols == width
                &&& m.buf.layout == Layout { len: (classes@.len() * width) as usize, elem: ElemType::U8 }
                &&& final(device)@.counter == old(device)@.counter + 1
                &&& visible(final(device)@.id, final(device).memory(), m.buf) == Some(
                    onehot_of(classes@, width),
                )
            },
            Err(e) => {
                &&& e is AllocationFailure
                &&& *final(device) == *old(device)
            },
        },
{
    let rows = classes.len();
    let top = max_class(classes);
    proof {
        if rows > 0 {
            assert(rows * (top + 1) >= top + 1) by (nonlinear_arith)
                requires
                    rows >= 1,
            ;
        }
        assert(rows * (top + 1) == rows * top + rows) by (nonlinear_arith);
    }
    let width: usize = if rows == 0 {
        1
    } else {
        top + 1
    };
    let n = rows * width;
    let buf = match device.get_or_alloc(n, ElemType::U8) {
        Ok(b) => b,
        Err(e) => {
            return Err(e);
        },
    };
    let mut bytes: Vec<u8> = Vec::new();
    let mut i: usize = 0;
    while i < n
        invariant
            i <= n,
            bytes@ == zeroed(i as nat),
        decreases n - i,
    {
        bytes.push(0u8);
        i = i + 1;
        assert(bytes@ =~= zeroed(i as nat));
    }
    proof {
        assert forall|q: int| 0 <= q < classes@.len() implies classes@[q] < width by {
            lemma_seq_max_bounds(classes@, q);
        }
    }
    encode_onehot(width, classes, &mut bytes);
    match device.write(&buf, bytes.as_slice()) {
        Ok(()) => {},
        Err(e) => {
            return Err(e);
        },
    }
    Ok(Matrix { buf, rows, cols: width })
}

proof fn lemma_seq_max_bounds(s: Seq<usize>, q: int)
    requires
        0 <= q < s.len(),
    ensures
        s[q] <= seq_max(s),
    decreases s.len(),
{
    if q < s.len() - 1 {
        lemma_seq_max_bounds(s.drop_last(), q);
    }
}

} // verus!
