//! Reconstruction of structured control flow from basic-block graphs,
//! together with the value and declaration model that surrounds it.

pub mod analysis;
pub mod comments;
pub mod common;
pub mod cycles;
pub mod driver;
pub mod expressions;
pub mod formatter;
pub mod gast;
pub mod krate;
pub mod llbc;
pub mod lower;
pub mod lower_body;
pub mod lowered_locals;
pub mod mir;
pub mod pipeline;
pub mod reach;
pub mod scoping;
pub mod semantics;
pub mod shapes;
pub mod soundness;
pub mod strings;
pub mod structure;
pub mod symbolic;
pub mod traits;
pub mod translate;
pub mod types;
pub mod ullbc;
pub mod validate;
pub mod values;
