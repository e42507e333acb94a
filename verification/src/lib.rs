//! Message-passing links, a coordinator of worker threads, the Paxos
//! protocol's actor and a command-line option parser, as verified state
//! machines and functions. Threads, channels, files and the terminal are
//! driven by the application around this library.

pub mod text;
pub mod console;
pub mod links;
pub mod coordination;
pub mod protocol;
pub mod queues;
pub mod models;
pub mod services;
