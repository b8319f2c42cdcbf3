//! Logic of three French manga sources for Aidoku: URL building, page and
//! chapter parsing, metadata classification and date arithmetic.
pub mod text;
pub mod civil;
pub mod model;
pub mod query;
pub mod lists;
pub mod lelmanga;
pub mod lelscanfr;
pub mod mangadex;
