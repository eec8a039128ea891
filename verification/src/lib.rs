pub mod ast;
pub mod context;
pub mod convert;
pub mod driver;
pub mod error;
pub mod expr;
pub mod outside;
pub mod parser;
pub mod registry;
pub mod render;
pub mod session;
pub mod textutil;
pub mod value;
pub mod xml;
