pub mod node;
pub mod ordering;
