pub mod display;
pub mod events;
pub mod window;
pub mod composer;
pub mod input;
pub mod area;
