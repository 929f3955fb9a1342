pub mod apply;
pub mod config;
pub mod model;
pub mod store;

pub use config::AppConfig;
pub use store::ProfileStore;
