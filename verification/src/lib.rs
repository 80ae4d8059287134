//! Verified core of a video-reasoning API server.

pub mod address;
pub mod analyze;
pub mod audio;
pub mod auth;
pub mod bench;
pub mod calendar;
pub mod catalog;
pub mod chunk_infer;
pub mod chunk_result;
pub mod chunk_run;
pub mod chunks;
pub mod codec;
pub mod config;
pub mod delivery_metrics;
pub mod digits;
pub mod event_stream;
pub mod files;
pub mod frame_rows;
pub mod h3;
pub mod hook_worker;
pub mod ids;
pub mod ieee;
pub mod infer_batch;
pub mod inference;
pub mod inference_metrics;
pub mod ingest;
pub mod json;
pub mod live_audio;
pub mod models;
pub mod ogg;
pub mod overlay;
pub mod percentile;
pub mod places;
pub mod policies;
pub mod policy_flow;
pub mod queries;
pub mod rate_limit;
pub mod reason;
pub mod response;
pub mod run_list;
pub mod runs;
pub mod search;
pub mod security;
pub mod semantic;
pub mod semantic_dispatch;
pub mod signals;
pub mod sort;
pub mod text;
pub mod text_map;
pub mod timeline;
pub mod webhook_delivery;
pub mod webhooks;
