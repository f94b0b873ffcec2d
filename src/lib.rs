pub mod attributes;
pub mod error;
pub mod expand;
pub mod extend;
pub mod extract;
pub mod fixtures;
pub mod laws;
pub mod lookup;
pub mod model;
pub mod plan;
pub mod resolve;
pub mod validate;
