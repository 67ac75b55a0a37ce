//! Invertible coupling-flow engine: channel masks, coupling steps, engine
//! layout and lifecycle, traversal order, and a lossless byte coder interface.

pub mod error;
pub mod coupling;
pub mod mask;
pub mod shape;
pub mod block;
pub mod engine;
pub mod alpha_flow;

pub use block::CouplingBlock;
pub use coupling::CouplingType;
pub use engine::FlowNet;
pub use error::FlowNetError;
