use vstd::prelude::*;

pub mod tones;
pub mod calendar;
pub mod text;
pub mod utils;
pub mod order;
pub mod models;
pub mod routes;
pub mod tally;
pub mod overview;
pub mod ranking;
pub mod shell;
pub mod panes;
pub mod pagination;
pub mod json;
pub mod paste;
pub mod keyset;
pub mod data_rows;
pub mod data_state;
pub mod data_view;
pub mod dialogs;
pub mod data_page;
pub mod snapshots;
pub mod snapshots_view;
pub mod settings;
pub mod connections;
pub mod home;
pub mod export;
pub mod time_order;
