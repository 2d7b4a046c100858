//! Client-side logic of the MUXI SDK: request signing, error mapping,
//! server-sent-event parsing, webhook verification and SDK version bookkeeping.

pub mod auth;
pub mod crypto;
pub mod errors;
pub mod formation_client;
pub mod http;
pub mod json;
pub mod response;
pub mod server_client;
pub mod sys;
pub mod text;
pub mod version_check;
pub mod webhook;

pub use auth::Auth;
pub use errors::{MuxiError, Result};
pub use formation_client::{FormationClient, FormationConfig};
pub use server_client::{ServerClient, ServerConfig};
pub use webhook::Webhook;

use vstd::prelude::*;

verus! {

/// The version of this SDK.
pub const VERSION: &'static str = "0.1.0";

/// One server-sent event: its type and its data.
#[derive(Debug, Clone)]
pub struct SseEvent {
    pub event: String,
    pub data: String,
}

impl View for SseEvent {
    type V = (Seq<char>, Seq<char>);

    open spec fn view(&self) -> (Seq<char>, Seq<char>) {
        (self.event@, self.data@)
    }
}

} // verus!
