//! Verified text-processing core of a Markdown view: stream pacing,
//! display repair of incomplete Markdown, and canonical source mapping.

pub mod graphemes;
pub mod pacer;
pub mod unicode;
pub mod mender;
pub mod source_map;
pub mod search;
pub mod renderer;
pub mod node;
pub mod inline_flow;
pub mod links;
pub mod rendered;
pub mod events;
pub mod document;
pub mod parse;
mod parser;
pub mod table;
pub mod outline;
pub mod theme;
pub mod block;
pub mod html_convert;
pub mod builder;
pub mod display;
pub mod writer;
pub mod worker;
pub mod session;
pub mod markdown_doc;
pub mod inline_state;
