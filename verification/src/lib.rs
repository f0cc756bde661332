//! Branchable rooms: a shared state that every replica folds from one linearized
//! log, and the decisions of a node that serves such rooms.
//!
//! The log is opaque: an entry has a writer and a payload. [`op`] and [`envelope`]
//! say what a payload means, and [`fold`] what it does to a room. [`engine`],
//! [`bus`], [`presence`], [`http`], [`session`], [`signal`] and [`materialise`] are
//! the node, [`client`] is the replica in a browser; they decide, and leave
//! sockets, clocks and databases to their callers. What holds of all this
//! together is proved in [`path_laws`], [`tree_laws`], [`fold_laws`] and
//! [`materialise_laws`], and next to the functions. What each op does is stated in
//! [`op_laws`], what payloads are written and read as in [`codec_laws`], what requests
//! and frames ask for in [`request_laws`], what documents show in [`document_laws`],
//! what a node decides in [`node_laws`], and what values show in [`view_laws`].

pub mod bus;
pub mod client;
pub mod codec_laws;
pub mod document_laws;
pub mod engine;
pub mod envelope;
pub mod fold;
pub mod fold_laws;
pub mod http;
pub mod json;
pub mod keys;
pub mod materialise;
pub mod materialise_laws;
pub mod node_laws;
pub mod op;
pub mod op_laws;
pub mod path;
pub mod path_laws;
pub mod presence;
pub mod projection;
pub mod request_laws;
pub mod room_sync;
pub mod session;
pub mod signal;
pub mod state;
pub mod table;
pub mod text;
pub mod text_map;
pub mod tree;
pub mod tree_laws;
pub mod view_laws;

pub use envelope::{decode_envelope, encode_envelope};
pub use fold::valid_branch_name;
pub use op::{OpEnvelope, RoomOp, ENVELOPE_VERSION, MAIN_BRANCH};
pub use projection::RoomProjection;
pub use state::{BranchState, ChatMessage, FsNode, NodeId, RoomState, TodoItem};
