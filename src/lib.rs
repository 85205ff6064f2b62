//! Guild experience uptime tracking for a chat bot.
//!
//! - `store`: the uptime store, one row per (player, day), with upserts of
//!   whole guild snapshots and most-recent-first range queries.
//! - `snapshot`: what one fetch of a guild gives, read from the upstream answer.
//! - `report`: a report request over a window of days, stepped from query to
//!   at most one backfill to a complete, gap-free report.
//! - `sweep`: the periodic refresh pass over every tracked player.
//! - `day`, `text`: day numbers and their dates, and the texts shown to users.
//! - `identity`, `links`, `links_preview`, `tags`, `contests`: the smaller
//!   rules of the bot's other commands.

pub mod contests;
pub mod day;
pub mod identity;
pub mod links;
pub mod links_preview;
pub mod report;
pub mod snapshot;
pub mod store;
pub mod sweep;
pub mod tags;
pub mod text;

pub use contests::{best_contests, contest_line, crop_emoji, BestContest, Contest};
pub use day::{day_text, parse_day};
pub use identity::{account_lookup, parse_u64, remove_mention_marks, trim_white_space, AccountLookup};
pub use links::{socials_from_response, LinkCheckError, Links, SocialsError};
pub use links_preview::{link_ids, message_link};
pub use report::{fill_missing_days, Experience, ReportEntry, ReportError, ReportPhase, ReportSession, ReportStep};
pub use snapshot::{snapshot_from_response, FetchError, GuildPayload, GuildSnapshot, MemberHistory, MemberPayload};
pub use store::{UptimeRecord, UptimeStore};
pub use sweep::Sweep;
pub use tags::{escape_markdown, missing_tag_message, tag_list_text, CtxError, Data, TagDb};
pub use text::{
    gexp_to_uptime_as_string, get_color, parse_color_code, parse_hex_u32, report_description, short_date,
    uptime_summary, DEFAULT_COLOR,
};
