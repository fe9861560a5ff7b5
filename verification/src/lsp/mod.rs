//! What an editor asks about a program.

pub mod analysis;
pub mod completion;
pub mod completion_laws;
pub mod definition_laws;
pub mod hover;
pub mod position;
pub mod project;
pub mod references;
pub mod server;
pub mod symbols;
pub mod uri;
