//! A verified core for a model-catalog service and its documentation scraper.
pub mod catalog;
pub mod scope;
pub mod text;
pub mod config;
pub mod scraped;
pub mod drift;
pub mod model_ids;
pub mod spiders;
pub mod stats;
pub mod digest;
pub mod state;
pub mod sorting;
pub mod fuzzy;
pub mod rounding;
pub mod filter;
pub mod queries;
pub mod validate;
pub mod error;
pub mod compare;
pub mod health;
pub mod cache;
pub mod ratelimit;
pub mod pricing;
pub mod crawl;
pub mod cards;
pub mod anthropic;
pub mod deepgram;
pub mod deepseek;
pub mod engine;
pub mod writer;
pub mod request;
pub mod routes;
pub mod conditional;
pub mod plan;
pub mod html;
