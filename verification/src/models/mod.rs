pub mod event;

pub mod user;
