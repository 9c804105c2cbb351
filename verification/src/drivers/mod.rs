pub mod keyboard;
pub mod rtc;
