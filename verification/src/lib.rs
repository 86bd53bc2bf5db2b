//! The verified core of a local model server: the block-quantized weight
//! layouts its kernels read, and the rules its request paths follow.
pub mod answer;
pub mod anthropic;
pub mod api;
pub mod batch;
pub mod budget;
pub mod chat;
pub mod chat_template;
pub mod generate;
pub mod generation;
pub mod glob;
pub mod grammar_request;
pub mod hub;
pub mod json;
pub mod limits;
pub mod model;
pub mod openai_extra;
pub mod quant;
pub mod response_cache;
pub mod sample_step;
pub mod sampling;
pub mod sse;
pub mod stats;
pub mod stop;
pub mod text;
