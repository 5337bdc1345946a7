//! Lineup cards: the verified core of a web application that keeps baseball
//! rosters and lineups and prints them as lineup cards.

pub mod auth;
pub mod card;
pub mod error;
pub mod handlers;
pub mod layout;
pub mod models;
pub mod text;
