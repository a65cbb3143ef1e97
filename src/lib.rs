pub mod auth;
pub mod conf;
pub mod game;
pub mod models;
pub mod text;
