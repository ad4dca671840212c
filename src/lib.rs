//! Persistence logic of a language-construction tool: a lexicon sharded over bucket
//! files by head-word, a bounded log of checkpoints for undoing bulk operations, the
//! rules for forking a language, and the small records around them (workspace,
//! registry, corpus index).
pub mod corpus;
pub mod fork;
pub mod lexicon;
pub mod lexicon_laws;
pub mod models;
pub mod oplog;
pub mod oplog_laws;
pub mod registry;
pub mod text;
pub mod workspace;
