//! Fixed-point core of a Monte Carlo Value-at-Risk engine.
//!
//! Every quantity is an integer count of millionths: a return of one percent
//! is `10_000`, an amount of one currency unit is `1_000_000`.  The library
//! keeps the rolling return history, estimates means and covariances, turns
//! standard normal draws into simulated portfolio values and reads the
//! Value-at-Risk off the sorted sample.  Drawing the random numbers and
//! factorising the covariance matrix are left to the caller, who works in
//! floating point.

pub mod covariance;
pub mod decimal;
pub mod fixed;
pub mod matrix;
pub mod moments;
pub mod positions;
pub mod quantile;
pub mod return_store;
pub mod risk_calculator;
pub mod simulator;
