//! Bridges span enter/exit notifications to an external sampling profiler
//! by writing timed marker lines into per-thread files.

pub mod clock;
pub mod decimal;
pub mod layer;
pub mod marker;
pub mod stack;
pub mod tracker;
