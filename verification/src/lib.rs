//! Client side of the binary remote-control protocol of a family of digital
//! mixing consoles: the byte codec, the frame interpreter, the parser of node
//! definitions, the command encoder and the session's rules, all free of I/O.
pub mod args;
pub mod buffer;
pub mod codec;
pub mod command;
pub mod console;
pub mod describe;
pub mod discovery;
pub mod error;
pub mod frame;
pub mod json;
pub mod names;
pub mod node;
pub mod response;
pub mod schema;
pub mod serial;
pub mod text;
pub mod wire;

pub use args::Args;
pub use console::{Poll, Resume, Transport, WingConsole};
pub use discovery::{DiscoveryInfo, Scan, WingDiscoveryInfoHandle};
pub use error::Error;
pub use node::{FloatEnumItem, NodeType, NodeUnit, StringEnumItem, WingNodeData, WingNodeDef};
pub use response::{ResponseType, WingResponse};
pub use schema::Schema;
