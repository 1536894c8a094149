use vstd::prelude::*;

pub mod text;
pub mod values;
pub mod ast;
pub mod types;
pub mod layout;
pub mod environment;
pub mod cache;
pub mod labels;
pub mod debug;
pub mod diagnostics;
pub mod ops;
pub mod symbols;
pub mod eval;
pub mod lookup;
pub mod intrinsics;
pub mod interp;
pub mod quote;
pub mod render;
pub mod captures;
pub mod initializer;
pub mod laws;
pub mod lowering;
pub mod constructors;
pub mod foreach;
pub mod guards;
pub mod reflection;
pub mod operator_laws;

verus! {
}
