pub mod bus;
pub mod hex;
pub mod ini;
pub mod packet;
pub mod protocol;
pub mod stats;
pub mod text;
