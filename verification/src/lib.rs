//! Model-based test generation for stream X-machines: finite-state machines
//! whose transitions are guarded partial functions over an explicit memory
//! store. Given a machine definition, the engine synthesizes conformance
//! ("logic"), input-completeness ("robustness") and data-path ("phi-coverage")
//! test vectors by graph search over the machine's states, combined with a
//! guard-aware, memory-tracking bounded search for data-dependent paths.

pub mod machines;
pub mod mbt;
pub mod runner;
pub mod traits;

pub use mbt::SxMTester;
pub use mbt::TestCase;
pub use runner::MachineRunner;
pub use traits::XMachine;
