pub mod affected;
pub mod config;
pub mod json;
pub mod listing;
pub mod loader;
pub mod matcher;
pub mod model;
pub mod mutator;
pub mod schema;
pub mod session;
pub mod text;
pub mod validator;
