//! A single-decree-per-key Paxos node: proposals, the acceptor state
//! machine (kept per key), the learner over a durable store, the proposer,
//! cluster membership, the round decisions of the consensus service, an
//! in-process cluster that runs whole rounds, and the node's settings.
pub mod proposal;
pub mod acceptor;
pub mod learner;
pub mod proposer;
pub mod round;
pub mod cluster;
pub mod paxos;
pub mod local;
pub mod config;
