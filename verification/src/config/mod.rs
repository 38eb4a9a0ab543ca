//! Configuration vocabulary shared by the layers: the enumerated settings a
//! configuration file and the command line choose between.
pub mod schema;
