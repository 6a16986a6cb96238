//! The core of the Katsu JavaScript runtime.
//!
//! `ir` is the bytecode and the blueprints of functions, `gc` is the heap cage and everything laid
//! out inside it, `builtins` is the standard library a program sees, and the small modules beside
//! them hold what the tiers, the event loop, the Node layer and an embedder agree on.

pub mod aot;
pub mod api;
pub mod builtins;
pub mod event_loop;
pub mod gc;
pub mod ir;
pub mod jit;
pub mod node;
pub mod text;
