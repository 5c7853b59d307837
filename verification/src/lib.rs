//! A tabular Q-learning agent with a grid-world environment and training
//! driver. Value estimates, learning parameters and exploration rates are
//! held in fixed-point arithmetic (millionths), so every update the agent
//! makes is stated and proved exactly.

pub mod driver;
pub mod fixed;
pub mod learner;
pub mod rng;
pub mod table;
pub mod world;

pub use fixed::SCALE;
pub use learner::QLearner;
pub use table::ValueTable;
