//! Symbol mangling for a JavaScript toolchain, with the contracts proved by Verus.

pub mod ast;
pub mod base54;
pub mod candidate;
pub mod frequency;
pub mod keyword;
pub mod mangler;
pub mod minsize;
pub mod ranking;
pub mod rules;
pub mod slot;
