//! Core of a service that runs caller-supplied commands inside an isolation
//! sandbox and reports their merged output and exit status.
pub mod launch;
pub mod multiplex;
pub mod names;
pub mod protocol;
pub mod server;
pub mod supervisor;
