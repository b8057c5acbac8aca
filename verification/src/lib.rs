//! Wire-protocol engine of a beanstalkd client: byte matchers, the reply
//! grammar, the command encoder and a decoder for the restricted YAML that
//! statistics replies carry.

pub mod client;
pub mod exhaustion;
pub mod framing;
pub mod integer;
pub mod laws;
pub mod name;
pub mod parser;
pub mod protocol;
pub mod response;
pub mod types;
pub mod utils;
pub mod yaml;
