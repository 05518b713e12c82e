//! What the results of the library are, in terms of what they are made of.

pub mod calls;
pub mod counting;
pub mod database;
pub mod listing;
pub mod loading;
pub mod numbers;
pub mod reporting;
pub mod running;
pub mod selection;
