//! Conversion of Telegram documentation sources into Obsidian-style Markdown.
pub mod text;
pub mod anchor_index;
pub mod html;
pub mod convert;
pub mod pattern;
pub mod pages;
pub mod groups;
pub mod ptb;
pub mod changelog;
pub mod config;
pub mod ptb_site;
pub mod dispatch;
