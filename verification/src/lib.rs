use vstd::prelude::*;

pub mod edit;
pub mod matchers;
pub mod error;
pub mod executor;
pub mod fs;
pub mod fspath;
pub mod plan;
pub mod program;
pub mod outline;
pub mod outline_common;
pub mod outline_generic;
pub mod outline_go;
pub mod outline_js;
pub mod outline_python;
pub mod outline_rust;
pub mod paths;
pub mod syntax;
pub mod text;
pub mod textedit;
pub mod tokens;

verus! {

} // verus!
