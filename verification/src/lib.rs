pub mod equations;
pub mod format;
pub mod helpers;
pub mod models;
pub mod options;
pub mod tables;
pub mod text;
