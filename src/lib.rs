//! A polite breadth-first web crawler: the decisions of a crawl session, the
//! extraction of text and links from fetched pages, and the storage upsert rule.

pub mod text;
pub mod lexer;
pub mod links;
pub mod page;
pub mod robots;
pub mod crawler;
pub mod storage;
