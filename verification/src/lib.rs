//! Routing, planning and replication logic of a sharded PostgreSQL deployment.
pub mod apply;
pub mod ast;
pub mod backend;
pub mod bytes;
pub mod catalog;
pub mod client;
pub mod copy;
pub mod epoch;
pub mod extract;
pub mod filter;
pub mod gate;
pub mod instance;
pub mod keyspace;
pub mod lsn;
pub mod merge;
pub mod pg;
pub mod pgoutput;
pub mod plan;
pub mod preflight;
pub mod proto;
pub mod quote;
pub mod reserve;
pub mod results;
pub mod router;
pub mod schema;
pub mod seeding;
pub mod sequence;
pub mod service;
pub mod shardfn;
pub mod slots;
pub mod status;
pub mod stream;
pub mod text;
pub mod topology;
pub mod vschema;
pub mod wire;
pub mod workflow;
