pub mod buffer;
pub mod cluster;
pub mod microagg_anonymizer;
