//! Interactive REPL bridge: the pieces of a terminal front end for a
//! line-oriented interpreter process (a Haskell, ML, Scheme, or JavaScript
//! REPL) that admit exact specification.
//!
//! The library owns the protocol logic of such a session: scanning the
//! child's output stream for its prompt marker, shaping requests per
//! backend, extracting the answer from the scanned bytes, merging the
//! error stream into the response, and the cosmetic highlighting of input
//! lines.  The process plumbing itself (spawning, pipes, signals, the
//! line editor) lives outside, handing this crate plain bytes and strings.

pub mod bridge;
pub mod editor;
pub mod ghci;
pub mod gjs;
pub mod racket;
pub mod scanner;
pub mod smlnj;
pub mod text;
pub mod utils;
