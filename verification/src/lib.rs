pub mod board;
pub mod search;
pub mod text;
pub mod generator;
pub mod app;
pub mod keys;
pub mod layout;
pub mod base64;
