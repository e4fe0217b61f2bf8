//! Relays the news of one game into chat channels: which entries of the feed
//! are new, when a start is silent, and where the result goes.
//!
//! Two ways of telling what is new stand side by side and are never mixed.
//! [`handler::Handler`] asks each channel's own history and so serves
//! channels that join late; [`poll::Scheduler`] compares each snapshot with
//! the one before it.

pub mod clock;
pub mod handler;
pub mod history;
pub mod item;
pub mod news;
pub mod platforms;
pub mod poll;
pub mod registry;
pub mod text;
