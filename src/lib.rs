//! A debug bridge between an instruction-accurate ARM simulator, reached over
//! a framed JSON-RPC channel, and a GDB client.
//!
//! The library holds the decisions of the bridge: the wire framing, the
//! bookkeeping of the RPC client, the register and memory layouts of the two
//! supported architectures, and the breakpoint, watchpoint and resume logic
//! of the debug stub. Transport, JSON decoding and the GDB packet layer are
//! driven from outside and hand plain values in.
pub mod breakpoint;
pub mod cli;
pub mod event;
pub mod gdb;
pub mod instance_registry;
pub mod iris_client;
pub mod memory;
pub mod resource;
pub mod simulation_time;
pub mod step;
pub mod wire;
