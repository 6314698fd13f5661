//! Closure conversion for a small Scheme-like language, with the type checker it
//! relies on and the counter that names closure environments.
pub mod common;
pub mod gensym;
pub mod type_checker;
pub mod closure_convert;
pub mod substitution;
pub mod properties;
pub mod env_names;
pub mod typing_laws;

pub use common::{BinOp, Expr, Type, TypeEnv};
pub use gensym::{GensymCount, dangerously_reset_gensym_count, generate_env_name};
pub use type_checker::{TypeError, type_check, tc_with_env};
pub use closure_convert::{CExpr, ClosureConvertError, closure_convert};
