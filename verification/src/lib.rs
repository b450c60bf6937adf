//! A terminal HTTP client: requests kept in files, run by name, and browsed, edited
//! and load tested in a terminal interface.
//!
//! The library decides; what reads, sends and draws is around it. Each public function
//! says in its contract what it returns, over the text that its arguments stand for.
pub mod answer_laws;
pub mod answers;
pub mod app;
pub mod app_keys;
pub mod app_laws;
pub mod app_outcomes;
pub mod base64_laws;
pub mod caret;
pub mod clipboard;
pub mod commands;
pub mod config;
pub mod copy_laws;
pub mod curl;
pub mod curl_error;
pub mod curl_laws;
pub mod curl_parse;
pub mod curl_render;
pub mod drawing_laws;
pub mod edit;
pub mod edit_laws;
pub mod entries;
pub mod file_laws;
pub mod flag_laws;
pub mod form;
pub mod form_laws;
pub mod keys;
pub mod list_laws;
pub mod media;
pub mod order;
pub mod outcome_laws;
pub mod pane_laws;
pub mod panes;
pub mod report_laws;
pub mod request;
pub mod response;
pub mod response_laws;
pub mod runner;
pub mod shell;
pub mod shell_laws;
pub mod strmap;
pub mod strset;
pub mod sub_panes;
pub mod tester;
pub mod text;
pub mod text_laws;
pub mod theme;
pub mod theme_curve;
pub mod theme_laws;
pub mod tree;
pub mod unicode;
pub mod utils;
pub mod vars;
pub mod view;
pub mod view_app;
pub mod view_areas;
pub mod view_browse;
pub mod view_field;
pub mod view_forms;
pub mod view_help;
pub mod view_laws;
pub mod view_panes;
pub mod view_response;
pub mod view_text;
pub mod vim_laws;
pub mod weburl;
