pub mod date;
pub mod events;
pub mod hints;
pub mod input;
pub mod keys;
pub mod laws;
pub mod layout;
pub mod mouse;
pub mod overlays;
pub mod review;
pub mod session_laws;
pub mod state;
pub mod walk;
