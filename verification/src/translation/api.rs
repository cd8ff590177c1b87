//! What goes to the translation services: the system prompt, their language
//! codes, and the Minecraft versions and resource-pack formats.
pub mod client;
pub mod models;
pub mod batch_reply;
pub mod gui_models;
