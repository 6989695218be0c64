//! Static analysis of virtual-machine byte-code, and a bounded cache of its results.
//!
//! A program is scanned once, from its first byte to its last, skipping the
//! immediate data of push instructions. The scan yields the offsets that a jump may
//! target, the offsets at which a subroutine begins, and a bitmap in which the
//! length of every subroutine is packed. A cache keyed by the hash of the code keeps
//! these results within a budget of bytes, dropping the least recently used first.

pub mod analysis;
pub mod args;
pub mod binary;
pub mod bits;
pub mod code_hash;
pub mod instructions;
pub mod lru;
pub mod shared_cache;
pub mod sub_lengths;
