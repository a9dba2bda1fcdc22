//! Task queue, line fitting and request state logic of the handwriting service.

pub mod text;
pub mod task;
pub mod queue;
pub mod ident;
pub mod dispatch;
pub mod home;
pub mod wrimage;
pub mod generator;
