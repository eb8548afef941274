//! Intersection of any number of sets at once.
//!
//! Folding `a & b & c & ...` by hand takes a little ceremony as soon as there
//! are more than two operands. This crate does the fold, for two kinds of set:
//!
//! * [`hash_set::intersection`] gives a `HashSet`, whose order is unspecified;
//! * [`btree_set::intersection`] gives a `BTreeSet`, which iterates in
//!   ascending order.
//!
//! Both take the operands as groups of elements, `Vec<Vec<T>>`. A group may
//! repeat an element; it counts once. What the result holds is defined in
//! [`model`], together with the laws that follow from the definition.

pub mod btree_set;
pub mod hash_set;
pub mod model;
