pub mod backend;
pub mod cli;
pub mod gui;
pub mod message;
pub mod text;
pub mod time;
pub mod transport;
pub mod utils;
