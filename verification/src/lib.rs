//! A PLONKish arithmetization core: columns, polynomial expressions, gates and
//! lookup arguments, a layouter that places regions into a witness table, and a
//! checker that reports every violated constraint with its location.

pub mod checker;
pub mod circuit;
pub mod column;
pub mod constraint_system;
pub mod custom_gates;
pub mod error;
pub mod expression;
pub mod field;
pub mod layouter;
pub mod poseidon;
pub mod poseidon_lookup;
pub mod region;
pub mod witness;

pub use field::Felt;
