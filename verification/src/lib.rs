pub mod text;
pub mod paths;
pub mod loadorder;
pub mod config;
pub mod files;
pub mod modinstall;
pub mod ui;
