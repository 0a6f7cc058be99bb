pub mod utils;
pub mod menu;
