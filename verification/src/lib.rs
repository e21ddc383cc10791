//! A behavior-tree decision engine over a per-entity blackboard.
//!
//! A tree is built once for a kind of entity and evaluated once per tick
//! against the blackboard of one entity. The tree is only read by an
//! evaluation; whatever has to last from one tick to the next is kept on
//! the blackboard, under keys that the evaluator derives from node
//! identifiers.
//!
//! Quantities are fixed-point numbers, see [`scalar`]. What an evaluation
//! yields is defined in [`semantics`], as a function of tree and
//! blackboard, and [`evaluate`] holds the code that is proved to compute
//! it. [`laws`] states what follows for every tree.

pub mod context;
pub mod enemy_types;
pub mod evaluate;
pub mod frame;
pub mod keys;
pub mod laws;
pub mod node;
pub mod scalar;
pub mod semantics;
pub mod status;
pub mod structure;
pub mod tree;

pub use crate::context::BehaviorContext;
pub use crate::enemy_types::{EnemyFactory, EnemyType};
pub use crate::node::NodeType;
pub use crate::status::NodeStatus;
pub use crate::structure::TreeError;
pub use crate::tree::BehaviorTree;
