//! A model of an OpenStreetMap extract (nodes, ways and tags), a verified
//! parser that builds it from the document's XML text, and a resolver that
//! turns a way's node references into the nodes themselves.

pub mod coordinate;
pub mod lexer;
pub mod osm;
pub mod text;
