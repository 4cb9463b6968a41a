pub mod version;
pub mod diff;
pub mod text;
pub mod table;
pub mod index;
pub mod store;
