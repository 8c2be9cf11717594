//! The core of a bundler for browser applications: the module graph with
//! its traversals, the analyzer that reads imports and exports, the
//! transforms that lower and shake a module, the liveness closure, the
//! chunk partitioner, and the text of what is emitted. Reading files,
//! serving requests and watching the disk are left to the caller.

pub mod text;
pub mod paths;
pub mod names;
pub mod graph;
pub mod reach;
pub mod traverse;
pub mod laws;
pub mod rewrite;
pub mod syntax;
pub mod analyze;
pub mod cjs;
pub mod shake;
pub mod liveness;
pub mod partition;
pub mod linked;
pub mod compiler;
pub mod emit;
pub mod bundler;
pub mod crawl;
pub mod hmr;
pub mod request;
pub mod resolver;
pub mod runtime;
pub mod chunker;
pub mod kernel;
