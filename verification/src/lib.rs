//! A canonicalizer for structured configuration documents: access-policy
//! documents and flat configuration objects in JSON, plus the plain data
//! model of a Maven POM. Policy documents are decoded strictly into a typed
//! model, their statements and set-valued fields are put into a canonical
//! total order, and the document is written back with single-element
//! collections collapsed to scalars — so that re-running the pass changes
//! nothing and version-control diffs stay minimal.

pub mod cmp3;
pub mod seqcmp;
pub mod strutil;
pub mod jsonval;
pub mod arn;
pub mod idents;
pub mod ordset;
pub mod model;
pub mod invariable;
pub mod textfield;
pub mod decode;
pub mod encode;
pub mod sortstmt;
pub mod jsonio;
pub mod canon;
pub mod config;
pub mod pom;
pub mod roundtrip;
