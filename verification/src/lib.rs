pub mod app;
pub mod clock;
pub mod config;
pub mod data;
pub mod persist;
pub mod text;
pub mod theme;
pub mod typing;
pub mod view;
pub mod word;
pub mod words;
