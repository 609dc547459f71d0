pub mod cli;
pub mod logger;
pub mod recipe;
pub mod repository;
pub mod secret;
pub mod settings;
pub mod strmap;
pub mod template;
pub mod text;
pub mod utils;
