//! A counter-keyed buffer cache for devices that run the same sequence of
//! operations pass after pass, with the pass protocol that rewinds it, a
//! dependency graph that finds buffers that could be merged, and the batch
//! iterator and layer settings that drive it in training.
use vstd::prelude::*;

pub mod accuracy;
pub mod backend;
pub mod batch;
pub mod buffer;
pub mod device;
pub mod graph;
pub mod host;
pub mod linear;
pub mod onehot;
pub mod replay;

pub use accuracy::correct_classes;
pub use backend::Backend;
pub use batch::{Batch, BatchError, Iter, Matrix};
pub use buffer::{shallow_copy, Buffer, ElemType, Layout, Ownership};
pub use device::{CacheError, Device, PassToken, SlotEntry};
pub use graph::{record_op, Graph, GraphError, Node, OpError};
pub use host::HostBackend;
pub use linear::{Bias, Glorot, L2Reg, RandomUniform, L2};
pub use onehot::{encode_onehot, onehot};

verus! {

} // verus!
