//! Static-value analysis for module-loading expressions: a symbolic value
//! model, the builtin rewrite rules that simplify it, and the mapping of a
//! resolved import target to the expression emitted into bundled code.
use vstd::prelude::*;

pub mod builtin;
pub mod pattern_mapping;
pub mod value;

verus! {

} // verus!
