//! A transactional scripting server core: a key-value store guarded by a
//! delegation-based access-control policy, the grammar of its small command
//! language, and the all-or-nothing interpreter that runs parsed programs.
//!
//! - [`value`], [`policy`], [`transitions`], [`database`]: the store, its
//!   model, and what each of its operations does.
//! - [`types`], [`grammar`], [`parser`]: the syntax tree, the grammar as a
//!   function on characters, and the parser that is proved to read it.
//! - [`semantics`], [`status`], [`runtime`]: what a program means, the log
//!   it leaves, and the interpreter and dispatcher that are proved to do so.
//! - [`laws`], [`strictness`], [`shape`]: what holds of all stores, texts
//!   and programs.
//! - [`cli`], [`framing`], [`util`]: the rules on the command line, the end
//!   of a program on the wire, and the password digest.

pub mod cli;
pub mod database;
pub mod framing;
pub mod grammar;
pub mod laws;
pub mod parser;
pub mod policy;
pub mod runtime;
pub mod semantics;
pub mod shape;
pub mod status;
pub mod strictness;
pub mod transitions;
pub mod types;
pub mod util;
pub mod value;
