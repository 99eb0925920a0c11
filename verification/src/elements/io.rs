//! Redirections and the plans of what is to be done with file descriptors.

pub mod redirect;
