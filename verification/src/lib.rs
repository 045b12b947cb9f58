//! Descriptive statistics over game reviews: average positive rating per tag
//! and per description word, and the recommendation rate per hour of playtime.
//!
//! Averages and rates are kept exact, as a pair of integers (a sum or a count
//! over a count); turning them into decimal numbers is left to the caller.

pub mod model;
pub mod playtime;
pub mod rank;
pub mod text;
pub mod aggregate;
pub mod chart;
