pub mod domain;
pub mod text;
pub mod config;
pub mod order;
pub mod api;
pub mod docker;
pub mod clock;
pub mod collector;
pub mod storage;
pub mod sampler;
pub mod terminal;
