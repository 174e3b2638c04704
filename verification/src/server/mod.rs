//! What the server does with a message once it is decoded.

pub mod message_processing;
