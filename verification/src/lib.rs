//! Verified core of the WeFlow service layer: calendar arithmetic, text
//! encodings, the JSON model that the native database answers in, and the
//! decisions that the service hub and the native connection make around it.

pub mod calendar;
pub mod error;
pub mod text;
pub mod base64;
pub mod normalize;
pub mod json;
pub mod sessions;
pub mod export;
pub mod paths;
pub mod wcdb;
pub mod process;
pub mod services;
pub mod answers;
pub mod images;
