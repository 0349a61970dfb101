//! State of the terminal client.
pub mod user_input;
