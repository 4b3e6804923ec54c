//! Verified core of a JSON-LD 1.1 processor: container mappings, term
//! selection in the inverse context, IRI expansion and compaction, the
//! remote-context stack, unordered multisets and the `Link` header parser.
#![allow(unused_imports)]

pub mod container;
pub mod multiset;
pub mod hash;
pub mod stack;
pub mod text;
pub mod syntax;
pub mod iri;
pub mod id;
pub mod typ;
pub mod value;
pub mod context;
pub mod order;
pub mod inverse;
pub mod compact;
pub mod warning;
pub mod expand;
pub mod link;
pub mod mount;
pub mod vocabulary;
pub mod rdf;
pub mod loader;
pub mod local;
pub mod process;
pub mod cache;
pub mod json;
pub mod compaction;
pub mod preference;
pub mod merged;
