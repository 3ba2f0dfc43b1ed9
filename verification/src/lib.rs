//! A Discord bot for learning Japanese vocabulary: multiple choice games
//! over a JLPT-annotated dictionary, a verb transitivity game, and the
//! combination of JMdict with the JLPT lists that the games draw from.
//!
//! The logic here is verified against its contracts; the calls into
//! `rand`, `regex`, `uuid` and `urlencoding` are trusted to do what their
//! contracts say. Talking to Discord, reading files and drawing images are
//! left to the program around the library.

use vstd::prelude::*;

pub mod catalog;
pub mod combine;
pub mod config;
pub mod dictionary;
pub mod game_loop;
pub mod interaction;
pub mod jlpt;
pub mod modes;
pub mod multi_choice;
pub mod prompts;
pub mod question;
pub mod random;
pub mod reply;
pub mod scoreboard;
pub mod session;
pub mod setup;
pub mod text;
pub mod transitivity;
pub mod tverbs;
pub mod util;
