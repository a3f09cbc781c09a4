pub mod app;
pub mod backend;
pub mod panels;
pub mod save;
pub mod widgets;
