pub mod command;
pub mod entity_component;
pub mod game1;
pub mod game2;
pub mod message;
mod random;
pub mod server_loop;
pub mod text;
