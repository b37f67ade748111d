//! Verified core of the SceneWeaver media workspace: media classification,
//! search-condition planning and ranking, selects export formats, job state
//! transitions, video-derivative arithmetic and path/text helpers.

pub mod text;
pub mod models;
pub mod search;
pub mod ranking;
pub mod order;
pub mod errors;
pub mod jobs;
pub mod export;
pub mod cache;
pub mod video;
pub mod semantic;
pub mod scan;
pub mod requests;
pub mod collections;
pub mod probe;
pub mod entities;
