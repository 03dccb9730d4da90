//! Configuration and documentation generator for the Darkone NixOS Framework.
pub mod error;
pub mod schema;
pub mod strmap;
pub mod text;
pub mod validation;
pub mod zone;
pub mod files;
pub mod service;
pub mod host;
pub mod user;
pub mod network;
pub mod token;
pub mod configuration;
pub mod mdx_writer;
pub mod nix_parser;
pub mod nix_syntax;
pub mod module;
pub mod mdx_parser;
pub mod yaml;
