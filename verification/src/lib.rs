//! Integrity audits of Fluent translation files, and generation of
//! `dioxus_i18n` configuration code.
pub mod text;
pub mod sorting;
pub mod error;
pub mod identifier;
pub mod walk;
pub mod assoc;
pub mod definitions;
pub mod paths;
pub mod order;
pub mod locale;
pub mod document;
pub mod issue;
pub mod rules;
pub mod pipeline;
pub mod workspace;
pub mod result;
pub mod config;
pub mod engine;
pub mod integrity;
pub mod usage;
pub mod laws;
pub mod report;
pub mod dioxus;
pub mod settings;
pub mod analysis;
pub mod reference_config;
