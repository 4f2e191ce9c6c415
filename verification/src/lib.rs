//! Locating AWS Lambda functions and their CloudWatch log groups in SAM
//! templates, and driving a branch pull across a fixed set of repositories.
pub mod text;
pub mod pattern;
pub mod repos;
pub mod template;
pub mod finder;
pub mod config;
pub mod pull;
pub mod search;
