//! Finds the games that the members of a voice call all own, and serves the
//! result page by page.
//!
//! The library holds the data reduction, the paging, the cursor codec and the
//! decisions of the command handlers. Talking to the chat gateway, to the game
//! catalog and to durable storage is left to the program that links it: the
//! library hands it requests and replies as plain values and takes plain
//! values back.
//!
//! - [`intersection`] says which games a batch of libraries has in common.
//! - [`paging`] says how a result falls into pages.
//! - [`common_games`] holds the result, the page cursor and the page reply.
//! - [`token`] writes and reads the text of a cursor.
//! - [`steam`] and [`user`] hold the catalog's and the registry's data.
//! - [`commands`] holds what each slash command asks for and answers.
//! - [`decimal`] and [`text`] write and read numbers and strings.

pub mod commands;
pub mod common_games;
pub mod decimal;
pub mod intersection;
pub mod paging;
pub mod steam;
pub mod text;
pub mod token;
pub mod user;
