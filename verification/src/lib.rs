//! A verified model of the core data structures and algorithms of an
//! Emacs Lisp runtime: tagged Lisp words, cons-cell lists with cycle
//! detection, char tables, case tables, keyboard macros, secure hashes
//! and the argument handling of the `lisp_fn` attribute.

pub mod tag;
pub mod error;
pub mod heap;
pub mod tails;
pub mod lists;
pub mod equal;
pub mod chartab;
pub mod casetab;
pub mod crypto;
pub mod kbd_macros;
pub mod lisp_fn;
pub mod external_ptr;
pub mod frames;
pub mod fonts;
pub mod unexec_alloc;
pub mod fns;
pub mod editfns;
pub mod cmds;
pub mod symbols;
pub mod numbers;
pub mod multibyte;
pub mod marker;
pub mod buffers;
pub mod windows;
pub mod process;
pub mod strings;
pub mod math;
pub mod undo;
pub mod plist;
