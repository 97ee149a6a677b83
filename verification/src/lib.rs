//! A packed vector of fixed-width integers.
//!
//! Elements of 1 to 64 bits are stored back to back in 64-bit words, so that
//! a vector of 3-bit codes takes three bits per element and an element may
//! lie across the border of two words. The modules, leaves first:
//!
//! - [`bits`]: facts about single words, and the bit helpers;
//! - [`proto`]: the bit-width prototype and the addressing of elements;
//! - [`storage`]: the model of the word storage as a row of bits and of
//!   elements;
//! - [`shift`]: moving a run of bits up or down the storage;
//! - [`capacity`]: the policies for growing and shrinking;
//! - [`error`]: the errors of the checked operations;
//! - [`raw_bitvec`], [`raw_bitvec_iter`]: the vector, which is told its
//!   prototype with every call, and its cursors;
//! - [`const_proto_bitvec`], [`local_proto_bitvec`],
//!   [`static_proto_bitvec`]: vectors that know their prototype from their
//!   type, from a field, or from a reference;
//! - [`bitvec_elem`], [`typed_bitvec`]: kinds of values, and the vector
//!   that converts values to bits and back;
//! - [`index_proxy`], [`utils`]: runs of indices and bounds of ranges;
//! - [`laws`]: what holds of the operations taken together.

pub mod bits;
pub mod bitvec_elem;
pub mod capacity;
pub mod const_proto_bitvec;
pub mod const_proto_bitvec_iter;
pub mod error;
pub mod index_proxy;
pub mod laws;
pub mod local_proto_bitvec;
pub mod local_proto_bitvec_iter;
pub mod proto;
pub mod raw_bitvec;
pub mod raw_bitvec_iter;
pub mod shift;
pub mod static_proto_bitvec;
pub mod static_proto_bitvec_iter;
pub mod storage;
pub mod typed_bitvec;
pub mod typed_bitvec_iter;
pub mod utils;

pub use crate::bitvec_elem::{BitElem, SignedBits, UnsignedBits};
pub use crate::capacity::{ElementCount, Grow, Shrink};
pub use crate::const_proto_bitvec::CProtoBitVec;
pub use crate::const_proto_bitvec_iter::{CProtoBitVecDrain, CProtoBitVecIter};
pub use crate::error::BitVecError;
pub use crate::index_proxy::IdxProxyRange;
pub use crate::local_proto_bitvec::LProtoBitVec;
pub use crate::local_proto_bitvec_iter::{LProtoBitVecDrain, LProtoBitVecIter};
pub use crate::proto::{BitProto, IdxProxy};
pub use crate::raw_bitvec::RawBitVec;
pub use crate::raw_bitvec_iter::{RawBitVecDrain, RawBitVecIter};
pub use crate::static_proto_bitvec::SProtoBitVec;
pub use crate::static_proto_bitvec_iter::{SProtoBitVecDrain, SProtoBitVecIter};
pub use crate::typed_bitvec::TypedBitVec;
pub use crate::typed_bitvec_iter::{TypedBitVecDrain, TypedBitVecIter};
