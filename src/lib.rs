pub mod annotation;
pub mod codec_laws;
pub mod commands;
pub mod config;
pub mod dates;
pub mod events;
pub mod files;
pub mod report;
pub mod scan;
pub mod text;
pub mod timestamp;
pub mod uid;
pub mod work;
pub mod work_laws;
