//! Requests, responses, and the guard on what a request may reach.

pub mod guard;
pub mod request;
pub mod response;
