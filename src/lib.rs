pub mod text;
pub mod classify;
pub mod dataset;
pub mod bot;
