//! A locally-served JSON-RPC layer over a persisted note store.
//!
//! The crate holds the parts with real invariants: the bounded audit log,
//! the note store keyed by unique identifiers together with its JSON
//! persistence image, the RPC parameter decoding and method handlers, and
//! the server lifecycle state machine. The host process supplies the HTTP
//! transport, the backing file and the change-event delivery around these.

mod clock;

pub mod audit;
pub mod json;
pub mod notes;
pub mod parse;
pub mod rpc;
pub mod server;

pub use audit::LogEntry;
pub use audit::Logger;
pub use json::Json;
pub use notes::Note;
pub use notes::NoteStore;
pub use rpc::RpcError;
pub use rpc::SystemInfo;
pub use server::JsonRpcServer;
pub use server::LifecycleError;
