pub mod text;
pub mod kdl;
pub mod kdl_laws;
pub mod kdl_parsed;
pub mod model;
pub mod model_laws;
pub mod catalog;
pub mod export;
pub mod niri;
pub mod apps;
pub mod discovery;
pub mod store;
pub mod editing;
