//! Verified core of a command-line client for the Wi-MESH captive portal and
//! its companion shop/usage services.

pub mod text;
pub mod urlencoded;
pub mod portal;
pub mod json;
pub mod usage;
pub mod reward;
pub mod credentials;
