//! Intermediate representation of compute kernels, with machine-checked
//! contracts.
//!
//! A kernel is a tree of basic blocks of nodes.  Nodes live in the pools of
//! their module and are named by handles; the blocks are doubly linked
//! lists threaded through the nodes.  The library builds such kernels,
//! walks them, finds out how they use their resources and renders constant
//! data for the generated source.
//!
//! * [`types`], [`registry`], [`display`]: the type system and its interner.
//! * [`node`], [`pool`], [`inspect`], [`userdata`]: nodes and their handles.
//! * [`block`], [`builder`], [`module`]: blocks, their construction, and
//!   the traversal of modules.
//! * [`usage`]: the usage of resources.
//! * [`decode`], [`text`]: constant data as literal text.
//! * [`hash`], [`toolchain`]: names and command lines for the compiler of
//!   the generated source.
//! * [`validate`]: run-time checks of what the operations ask of their
//!   callers.
//! * [`boundary`]: the operations under the names the host runtime uses.

pub mod block;
pub mod boundary;
pub mod builder;
pub mod decode;
pub mod display;
pub mod hash;
pub mod inspect;
pub mod module;
pub mod node;
pub mod pool;
pub mod registry;
pub mod text;
pub mod toolchain;
pub mod types;
pub mod usage;
pub mod userdata;
pub mod validate;
