pub mod cache;
pub mod clock;
pub mod domain;
pub mod error;
pub mod net;
pub mod restore;
pub mod route_op;
pub mod service;
pub mod source;
pub mod state;
pub mod text;
pub mod update;
