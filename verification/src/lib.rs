//! Binary formats, value types and query logic of an opening explorer for
//! chess games: packed statistics per position, game references, dates,
//! database keys and the preparation of explorer responses.

pub mod buf;
pub mod uint;
pub mod chess;
pub mod uci;
pub mod speed;
pub mod mode;
pub mod rating;
pub mod decimal;
pub mod stats;
pub mod text;
pub mod game_id;
pub mod lichess;
pub mod date;
pub mod year;
pub mod user;
pub mod key;
pub mod query;
pub mod util;
pub mod response;
pub mod masters;
pub mod personal;
pub mod pgn_import;
pub mod pgn_index;
pub mod history;
pub mod game;
pub mod game_info;
pub mod replay;
pub mod indexer;
pub mod importer;
pub mod db;
pub mod metrics;
pub mod queue;
pub mod opening;
