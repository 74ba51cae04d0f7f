pub mod events;

pub mod users;

pub mod users_events;
