use vstd::prelude::*;
use vstd::string::StringSliceAdditionalSpecFns;

verus! {

/// A forum post row, one thread listing entry. Timestamps are seconds since
/// the Unix epoch.
#[allow(non_snake_case)]
#[derive(Debug)]
pub struct Post {
    pub id: i64,
    pub author: String,
    pub title: String,
    pub time: u64,
    pub replies: i64,
    pub views: i64,
    pub lastReply: u64,
}

/// A forum thread row of the second site. Timestamps are seconds since the
/// Unix epoch.
#[allow(non_snake_case)]
#[derive(Debug)]
pub struct Thread {
    pub tid: i64,
    pub title: String,
    pub replies: i64,
    pub views: i64,
    pub lastPost: u64,
}

/// A channel as persisted: identity, name, access hash and the application
/// identity it was found under.
#[derive(Debug)]
pub struct Channel {
    pub id: i64,
    pub name: String,
    pub access_hash: i64,
    pub app_id: i32,
}

/// A user as persisted: its peer data and the handle it was searched under.
#[derive(Debug)]
pub struct User {
    pub peer: Channel,
    pub hash_name: String,
}

/// `b` lowered to its ASCII lowercase.
pub open spec fn ascii_lower(b: u8) -> u8 {
    if 65 <= b <= 90 {
        (b + 32) as u8
    } else {
        b
    }
}

/// The byte string ends in `bot`, ignoring ASCII case.
pub open spec fn spec_is_bot_suffix(s: Seq<u8>) -> bool {
    s.len() >= 3 && ascii_lower(s[s.len() - 3]) == 98 && ascii_lower(s[s.len() - 2]) == 111
        && ascii_lower(s[s.len() - 1]) == 116
}

impl User {
    /// Whether a name's last three bytes spell `bot`, ignoring ASCII case.
    pub fn str_is_bot(x: &[u8]) -> (r: bool)
        ensures
            r == spec_is_bot_suffix(x@),
    {
        if x.len() < 3 {
            return false;
        }
        let n = x.len();
        let a = x[n - 3];
        let b = x[n - 2];
        let c = x[n - 1];
        let la = if 65 <= a && a <= 90 {
            a + 32
        } else {
            a
        };
        let lb = if 65 <= b && b <= 90 {
            b + 32
        } else {
            b
        };
        let lc = if 65 <= c && c <= 90 {
            c + 32
        } else {
            c
        };
        la == 98 && lb == 111 && lc == 116
    }

    /// Whether this user looks like a bot: its name or the handle it was
    /// searched under ends in `bot`, ignoring ASCII case.
    pub fn maybe_bot(&self) -> (r: bool)
        ensures
            r == (spec_is_bot_suffix(vstd::utf8::encode_utf8(self.peer.name@))
                || spec_is_bot_suffix(vstd::utf8::encode_utf8(self.hash_name@))),
    {
        Self::str_is_bot(self.peer.name.as_str().as_bytes()) || Self::str_is_bot(
            self.hash_name.as_str().as_bytes(),
        )
    }
}

/// One client's startup configuration.
#[derive(Debug)]
pub struct InitConfig {
    pub id: i32,
    pub hash: String,
    pub proxy: Option<String>,
    pub session_file: Option<i32>,
}

/// One button of a message's reply keyboard.
#[derive(Debug)]
pub struct Button {
    pub text: String,
    pub url: Option<String>,
}

/// A message's reply keyboard, flattened to what is persisted.
#[derive(Debug)]
pub struct ReplyMarkup {
    pub single_use: Option<bool>,
    pub selective: Option<bool>,
    pub placeholder: Option<String>,
    pub resize: Option<bool>,
    pub persistent: Option<bool>,
    pub rows: Vec<Vec<Button>>,
}

/// The bare identity of a chat, group or user a message refers to.
#[derive(Debug)]
pub struct Peer(pub i64);

/// A fetched message, flattened to the fields that are persisted; parts that
/// are only carried through are reduced to presence flags.
#[derive(Debug)]
pub struct Message {
    pub out: bool,
    pub mentioned: bool,
    pub media_unread: bool,
    pub silent: bool,
    pub post: bool,
    pub from_scheduled: bool,
    pub legacy: bool,
    pub edit_hide: bool,
    pub pinned: bool,
    pub noforwards: bool,
    pub invert_media: bool,
    pub offline: bool,
    pub id: i32,
    pub from_id: Option<Peer>,
    pub from_boosts_applied: Option<i32>,
    pub peer_id: Peer,
    pub saved_peer_id: Option<Peer>,
    pub fwd_from: Option<()>,
    pub via_bot_id: Option<i64>,
    pub via_business_bot_id: Option<i64>,
    pub reply_to: Option<()>,
    pub date: i32,
    pub message: String,
    pub media: Option<()>,
    pub reply_markup: Option<ReplyMarkup>,
    pub entities: Option<Vec<()>>,
    pub views: Option<i32>,
    pub forwards: Option<i32>,
    pub replies: Option<()>,
    pub edit_date: Option<i32>,
    pub post_author: Option<String>,
    pub grouped_id: Option<i64>,
    pub reactions: Option<()>,
    pub restriction_reason: Option<Vec<()>>,
    pub ttl_period: Option<i32>,
    pub quick_reply_shortcut_id: Option<i32>,
}

/// A bot command as listed by its bot.
#[derive(Debug)]
pub struct BotCommand {
    pub command: String,
    pub description: String,
}

/// A JSONB wire value: a version byte `1` followed by the JSON text.
pub struct JsonChecked<'a>(pub &'a [u8]);

impl<'a> JsonChecked<'a> {
    /// Check and strip the version byte of a JSONB wire value.
    pub fn from_sql_bytes(raw: &'a [u8]) -> (r: Option<JsonChecked<'a>>)
        ensures
            match r {
                Some(j) => raw@.len() >= 1 && raw@[0] == 1 && j.0@ == raw@.skip(1),
                None => !(raw@.len() >= 1 && raw@[0] == 1),
            },
    {
        if raw.len() >= 1 && raw[0] == 1 {
            let rest = vstd::slice::slice_subrange(raw, 1, raw.len());
            proof {
                assert(rest@ =~= raw@.skip(1));
            }
            Some(JsonChecked(rest))
        } else {
            None
        }
    }
}

} // verus!
