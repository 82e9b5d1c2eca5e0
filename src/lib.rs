//! Asset resolution for administrative regions: which entities still need an
//! emblem and a background image, where those images can be found, and how a
//! bounded, chunked batch of downloads is planned and tallied. Also the
//! reading of the regional dataset and of the line-oriented content language.

pub mod batch;
pub mod candidates;
pub mod dataset;
pub mod download;
pub mod editing;
pub mod entity;
pub mod fields;
pub mod lexer;
pub mod logger;
pub mod order;
pub mod paths;
pub mod pattern;
pub mod report;
pub mod resolver;
pub mod scan;
pub mod text;
