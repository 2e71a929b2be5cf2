pub mod text;
pub mod protocol;
pub mod howdy;
pub mod hardware;
pub mod daemon;
pub mod pam;
pub mod setup;
pub mod passkey;
