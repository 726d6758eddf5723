pub mod archive;
pub mod catalog;
pub mod metadata;
pub mod opds;
pub mod pages;
pub mod query;
pub mod request;
pub mod scan;
pub mod text;
