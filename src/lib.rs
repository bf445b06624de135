pub mod catalog;
pub mod listing;
pub mod model;
pub mod order;
pub mod provision;
pub mod runner;
pub mod text;
pub mod transfer;
