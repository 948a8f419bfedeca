//! Arithmetization of FENCE instruction events into padded trace tables,
//! together with the shard shaping rules that decide how large each table is.

pub mod air;
pub mod catalog;
pub mod constraint;
pub mod event;
pub mod fence;
pub mod field;
pub mod interaction;
pub mod matrix;
pub mod opcode;
pub mod record;
pub mod shape;
pub mod signature;
pub mod sizing;
pub mod text;
pub mod timing;
