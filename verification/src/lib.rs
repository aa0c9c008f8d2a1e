//! A board of requests: a party drafts a request and publishes it, another
//! claims it, and the claim is either completed, which releases the reward, or
//! abandoned, which puts the request back on the board.
//!
//! Each stage of a request is a type of its own, and each step takes the stage
//! before it by value, so that a step out of order does not type-check. The
//! board keeps an open request as one parent record with a record per label and
//! per tag, and writes or deletes them as one unit.

pub mod board;
pub mod guarantees;
pub mod identity;
pub mod metadata;
pub mod model;
pub mod record;
pub mod request;
pub mod reward;
pub mod selection;

pub use board::{delist_request, get_all_requests, publish, publish_encoded, Board, BoardError};
pub use identity::Identifier;
pub use metadata::{Metadata, MetadataView, Text};
pub use record::{LabelRow, RequestRow, StoredRequest, TagRow};
pub use request::{AcceptedRequest, DraftedRequest, Request};
pub use reward::Rewardable;
