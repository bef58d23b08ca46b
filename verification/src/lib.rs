pub mod annotation;
pub mod assoc;
pub mod chars;
pub mod errors;
pub mod generator;
pub mod info;
pub mod jsontext;
pub mod models;
pub mod opbuild;
pub mod operation;
pub mod parser;
pub mod resolve;
pub mod schema;
pub mod security;
