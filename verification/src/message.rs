//! The records the remote chat API hands back: messages with snowflake
//! identifiers, and the channel and guild metadata around them.

use vstd::prelude::*;
use crate::digits::{dec_val, parses_as_u64};
use crate::errors::FetchError;
use crate::snowflake::{snowflake_to_unix_secs, spec_snowflake_unix_ms, SnowflakeError};

verus! {

/// The author of a message.
#[derive(Clone, Debug)]
pub struct User {
    pub id: String,
    pub username: String,
}

/// One timestamped item: its snowflake identifier string, its text content
/// and its author.
#[derive(Clone, Debug)]
pub struct Message {
    pub id: String,
    pub content: String,
    pub author: User,
}

/// Channel metadata: name plus the owning guild, when the API reports one.
#[derive(Clone, Debug)]
pub struct Channel {
    pub id: String,
    pub name: String,
    pub guild_id: Option<String>,
}

/// Guild metadata.
#[derive(Clone, Debug)]
pub struct Guild {
    pub id: String,
    pub name: String,
}

/// The numeric identifier of a message, when its id string is a decimal
/// `u64`.
pub open spec fn spec_msg_id(m: Message) -> Option<u64> {
    if parses_as_u64(m.id@) {
        Some(dec_val(m.id@) as u64)
    } else {
        None
    }
}

/// The creation instant of a message in unix seconds, derived from its
/// identifier; `None` when the identifier is malformed.
pub open spec fn spec_msg_ts_secs(m: Message) -> Option<int> {
    match spec_msg_id(m) {
        Some(id) => Some(spec_snowflake_unix_ms(id) / 1000),
        None => None,
    }
}

impl Message {
    /// An equal copy of the message.
    pub fn duplicate(&self) -> (r: Message)
        ensures
            r == *self,
    {
        Message {
            id: self.id.clone(),
            content: self.content.clone(),
            author: User { id: self.author.id.clone(), username: self.author.username.clone() },
        }
    }

    /// The creation instant of the message in unix seconds, read out of its
    /// snowflake identifier.
    pub fn timestamp(&self) -> (r: Result<i64, SnowflakeError>)
        ensures
            r is Ok <==> spec_msg_ts_secs(*self) is Some,
            r matches Ok(t) ==> spec_msg_ts_secs(*self) == Some(t as int),
    {
        snowflake_to_unix_secs(self.id.as_str())
    }
}

/// The guild id a channel must carry before its source can be processed;
/// a channel without one fails with `SourceMetadataMissing`.
pub fn require_guild_id(ch: &Channel) -> (r: Result<String, FetchError>)
    ensures
        r is Ok <==> ch.guild_id is Some,
        r matches Ok(g) ==> (ch.guild_id matches Some(h) && g@ == h@),
        r is Err ==> (r matches Err(e) && e is SourceMetadataMissing),
{
    match &ch.guild_id {
        Some(g) => Ok(g.clone()),
        None => Err(FetchError::SourceMetadataMissing),
    }
}

} // verus!
