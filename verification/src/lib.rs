//! Slide shows out of photos.

pub mod action_laws;
pub mod actions;
pub mod adjust;
pub mod adjust_laws;
pub mod answer_laws;
pub mod base_cache;
pub mod canvas;
pub mod caption;
pub mod captions;
pub mod cli;
pub mod command;
pub mod command_laws;
pub mod config;
pub mod conversion;
pub mod dehaze;
pub mod drawtext;
pub mod editor;
pub mod editor_laws;
pub mod file_laws;
pub mod files;
pub mod fonts;
pub mod graph;
pub mod graph_laws;
pub mod install;
pub mod job;
pub mod labels;
pub mod list_laws;
pub mod looks;
pub mod looks_laws;
pub mod options;
pub mod order;
pub mod picture_laws;
pub mod planes;
pub mod preview;
pub mod project;
pub mod project_laws;
pub mod promise_laws;
pub mod release;
pub mod report;
pub mod run;
pub mod saving;
pub mod scalar;
pub mod settings;
pub mod sizes;
pub mod smoke_tool;
pub mod style;
pub mod temp;
pub mod text;
pub mod thumbs;
pub mod timers;
pub mod timing;
pub mod update;
pub mod work_laws;
