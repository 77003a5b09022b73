//! Topic-based publish/subscribe messaging: the broker's routing rules, the
//! client's subscription bookkeeping, the wire framing and the supervision
//! rules, each stated and proved with Verus.
use vstd::prelude::*;

pub mod contract;
pub mod error;
pub mod dedup;
pub mod topics;
pub mod bridge;
pub mod client;
pub mod broker;
pub mod routing_laws;
pub mod wire;
pub mod batch;
pub mod lifecycle;
pub mod spawn;
pub mod registry;
pub mod window;
pub mod shell;
pub mod settings;
pub mod files;
pub mod keyed;
pub mod modals;
pub mod project;
pub mod chrome;
pub mod themes;
pub mod web_shell;
pub mod widget_rpc;
pub mod template;
pub mod page;

pub use contract::{BrokerContract, Message, PeerEvent, Route};
pub use error::{Error, Result};
