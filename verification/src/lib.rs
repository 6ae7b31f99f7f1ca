//! A risk-analytics engine for trading track records, verified with Verus.
//!
//! The engine takes a sequence of closed trades and gives descriptive
//! statistics ([`performance`]), two position-sizing recommendations
//! ([`kelly`], [`optimal_f`]) and a bootstrap forecast of a funded-account
//! challenge ([`simulation`]). Inputs are fixed-point decimals ([`fixed`]);
//! closed-form results are exact fractions ([`ratio`]).

pub mod fixed;
pub mod ratio;
pub mod decimal;
pub mod model;
pub mod sorting;
pub mod performance;
pub mod kelly;
pub mod optimal_f;
pub mod simulation;
pub mod ingest;

pub use crate::fixed::Fixed;
pub use crate::kelly::calculate_kelly_criterion;
pub use crate::model::ChallengeParams;
pub use crate::model::Direction;
pub use crate::model::PerformanceMetrics;
pub use crate::model::RiskError;
pub use crate::model::Trade;
pub use crate::optimal_f::calculate_optimal_f;
pub use crate::performance::calculate_performance_metrics;
pub use crate::ratio::Ratio;
pub use crate::simulation::run_monte_carlo_simulation;
pub use crate::simulation::SimulationResult;
