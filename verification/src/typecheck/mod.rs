//! Type checking.

pub mod capture;
pub mod capture_laws;
pub mod completeness;
pub mod coverage;
pub mod env;
pub mod env_laws;
pub mod exhaustiveness;
pub mod helpers;
pub mod infer;
pub mod infer_laws;
pub mod lint;
pub mod lint_laws;
pub mod module_laws;
pub mod modules;
pub mod needs_laws;
pub mod pattern;
pub mod pattern_laws;
pub mod program;
pub mod program_laws;
pub mod render;
pub mod rules;
pub mod state;
pub mod steps;
pub mod subst;
pub mod subst_laws;
pub mod type_laws;
pub mod unify;
pub mod unify_laws;
