//! AIRAC cycles: the 28-day periods in which aeronautical information
//! becomes effective.

pub mod calendar;
pub mod decimal;
pub mod cycle;

pub use calendar::Date;
pub use cycle::AIRAC;
