pub mod app_state;
pub mod bubble;
pub mod bubble_list;
pub mod codeblock;
pub mod command;
pub mod events;
pub mod line;
pub mod model;
pub mod point;
pub mod ui;
