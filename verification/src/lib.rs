//! A read-only Git browser: object reading, request routing and page rendering.

pub mod app;
pub mod config;
pub mod error;
pub mod git;
pub mod html;
pub mod http;
pub mod laws;
pub mod numbers;
pub mod porcelain;
pub mod repo;
pub mod security;
pub mod sorted;
pub mod text;
