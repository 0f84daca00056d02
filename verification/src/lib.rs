//! Predictive error correction for shells driven by language models.
pub mod compressors;
pub mod confidence;
pub mod consent;
pub mod context;
pub mod db;
pub mod embedded_skills;
pub mod gdb;
pub mod hooks;
pub mod json;
pub mod metrics;
pub mod mining;
pub mod numerals;
pub mod paths;
pub mod patterns;
pub mod pipeline;
pub mod promote;
pub mod report;
pub mod rewrites;
pub mod skills;
pub mod telemetry;
pub mod text;
