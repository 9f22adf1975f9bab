//! A price gateway core: it builds the upstream market-chart query for a
//! token, reduces the returned price series to the sample closest to the
//! requested time, and collapses the upstream's error envelopes into one
//! canonical error.
pub mod decimal;
pub mod error;
pub mod json;
pub mod normalize;
pub mod series;
pub mod text;
pub mod query;
pub mod upstream;
pub mod response;
pub mod url;
