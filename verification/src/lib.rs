//! The logic of an S3 browser: what its window holds, how requests and replies change it, and
//! what it shows. Talking to the store and drawing the window are left to the application.

pub mod browser;
pub mod entry;
pub mod history;
pub mod laws;
pub mod number;
pub mod order;
pub mod path;
pub mod pick;
pub mod request;
pub mod screen;
pub mod size;
pub mod text;
