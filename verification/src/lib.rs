//! A bridge between JSON text, a closed tree of dynamic values and the looser
//! object graphs of a host program, with the rules for storing such values in
//! configuration files and for shaping them into HTTP requests.
//!
//! The library computes; it touches neither the file system nor the network.
//! A caller reads and writes files and performs requests, and hands the
//! library what came back.
//!
//! - `value`: the dynamic value tree and its model.
//! - `json`: JSON text to values and back, through `serde_json`.
//! - `host`: host objects, with sharing and cycles, to values and back.
//! - `config`: listing, reading and saving configuration files.
//! - `http`: from a method and a payload to a request, and from what the
//!   transport reports to the result of the call.
//! - `text`: the order of paths.
//! - `error`: the failures.

pub mod config;
pub mod error;
pub mod host;
pub mod http;
pub mod json;
pub mod text;
pub mod value;

pub use error::BridgeError;
pub use error::ConversionFault;
pub use error::ErrorKind;
pub use host::HostHeap;
pub use host::HostObject;
pub use http::HttpRequestSpec;
pub use http::HttpResult;
pub use value::DynamicValue;
pub use value::Json;
pub use value::Member;
