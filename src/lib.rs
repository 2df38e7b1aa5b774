pub mod alert;
pub mod amount;
pub mod calendar;
pub mod orchestrator;
pub mod ranking;
pub mod text;
