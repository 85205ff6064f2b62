//! Links to chat messages found in a message's text.
use crate::identity::{dec_value, parse_u64, reads_as_u64};
use crate::text::unsigned_digits;
use regex::Regex;
use vstd::prelude::*;

verus! {

/// The channel id and message id texts of the first link to a chat message
/// (`https://discord.com/channels/<server>/<channel>/<message>`, each id a
/// run of digits) in a text; `None` where the text holds no such link.
pub uninterp spec fn message_link_ids(content: Seq<char>) -> Option<(Seq<char>, Seq<char>)>;

/// Relies on regex's `Regex::new` and `Regex::captures` with the pattern
/// `https://discord\.com/channels/(\d+)/(\d+)/(\d+)`: the second and third
/// groups of the leftmost match, which depend on the text alone.
#[verifier::external_body]
fn link_captures(content: &str) -> (r: Option<(String, String)>)
    ensures
        match r {
            Some((c, m)) => message_link_ids(content@) == Some((c@, m@)),
            None => message_link_ids(content@).is_none(),
        },
{
    let re = Regex::new(r"https://discord\.com/channels/(\d+)/(\d+)/(\d+)").ok()?;
    let caps = re.captures(content)?;
    Some((caps[2].to_string(), caps[3].to_string()))
}

/// The ids that two id texts give, where both read as `u64`.
pub open spec fn ids_of_texts(channel: Seq<char>, message: Seq<char>) -> Option<(u64, u64)> {
    if reads_as_u64(channel) && reads_as_u64(message) {
        Some((dec_value(unsigned_digits(channel)) as u64, dec_value(unsigned_digits(message)) as u64))
    } else {
        None
    }
}

/// Reads the channel id and message id texts of a message link.
pub fn link_ids(channel: &str, message: &str) -> (r: Option<(u64, u64)>)
    ensures
        r == ids_of_texts(channel@, message@),
{
    match (parse_u64(channel), parse_u64(message)) {
        (Some(c), Some(m)) => Some((c, m)),
        _ => None,
    }
}

/// The channel and message of the first message link in a text, where the
/// text has one whose ids read as `u64`.
pub fn message_link(content: &str) -> (r: Option<(u64, u64)>)
    ensures
        r == match message_link_ids(content@) {
            Some((c, m)) => ids_of_texts(c, m),
            None => None,
        },
{
    match link_captures(content) {
        Some((c, m)) => link_ids(c.as_str(), m.as_str()),
        None => None,
    }
}

} // verus!
