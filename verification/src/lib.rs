//! Verified core of the Jaringan terminal-native document web.

pub mod text;
pub mod utf8;
pub mod document;
pub mod forms;
pub mod signature;
pub mod parser;
pub mod search;
pub mod index_text;
pub mod ranking;
pub mod formatter;
pub mod lint;
pub mod converter;
pub mod protocol;
pub mod codec;
pub mod encryption;
pub mod request_wire;
pub mod jrg_url;
pub mod wire;
pub mod browser;
pub mod navigation;
pub mod tabs;
pub mod paths;
pub mod local_resolver;
pub mod config;
pub mod keys;
pub mod script;
pub mod plugins;
pub mod session;
pub mod proxy;
pub mod gateway;
pub mod jrg_to_http;
pub mod render;
pub mod page;
pub mod cache;
pub mod keymap;
pub mod screen;
pub mod auth;
pub mod frames;
pub mod page_actions;

pub use document::{ActionMethod, Block, Button, Document, Image, Input, Link, Table};
pub use parser::{parse_document, ParseError};
