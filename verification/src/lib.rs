pub mod access;
pub mod catalog;
pub mod claims;
pub mod encode;
pub mod error;
pub mod key;
pub mod listing;
pub mod order;
pub mod text;
pub mod time;
pub mod token;
