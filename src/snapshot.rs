//! One fetch of a guild's experience history, before it is stored.
use crate::day::{day_of_text, parse_day};
use vstd::prelude::*;

verus! {

/// What a member's experience history holds for one player: day numbers and
/// the experience gained on each.
pub struct MemberHistory {
    pub player_id: String,
    pub days: Vec<(i32, i64)>,
}

/// The output of one fetch: the guild that answered and, for each of its
/// members, the experience gained per day.
pub struct GuildSnapshot {
    pub guild_id: String,
    pub members: Vec<MemberHistory>,
}

/// Why a fetch gave no snapshot.
#[derive(Debug)]
pub enum FetchError {
    /// The player belongs to no guild: expected, and not a fault.
    NoGuild,
    /// The upstream service could not be reached or answered with a fault.
    Transport(String),
    /// The upstream answer could not be read.
    Parse(String),
}

/// A guild member as the upstream answer gives it: the member's id and, where
/// the answer holds an experience-history object, its entries in order, each
/// date text with its value read as a 64-bit integer (`None` where the value
/// is not one).
pub struct MemberPayload {
    pub uuid: String,
    pub exp_history: Option<Vec<(String, Option<i64>)>>,
}

/// The guild of an upstream answer: its id and its members.
pub struct GuildPayload {
    pub id: String,
    pub members: Vec<MemberPayload>,
}

/// The days of a history: each entry whose date text names a day and whose
/// value is an integer, in order; the others are skipped.
pub open spec fn history_days(entries: Seq<(String, Option<i64>)>) -> Seq<(i32, i64)>
    decreases entries.len(),
{
    if entries.len() == 0 {
        seq![]
    } else {
        let rest = history_days(entries.drop_last());
        match (entries.last().1, day_of_text(entries.last().0@)) {
            (Some(e), Some(d)) => rest.push((d, e)),
            _ => rest,
        }
    }
}

/// The days of a member's history; none where the member has no history.
pub open spec fn member_days(m: MemberPayload) -> Seq<(i32, i64)> {
    match m.exp_history {
        Some(entries) => history_days(entries@),
        None => seq![],
    }
}

/// The snapshot of a guild: its id, and each member in order with its days.
pub open spec fn snapshot_of(g: GuildPayload, s: GuildSnapshot) -> bool {
    &&& s.guild_id@ == g.id@
    &&& s.members@.len() == g.members@.len()
    &&& forall|i: int| 0 <= i < g.members@.len() ==> {
        &&& (#[trigger] s.members@[i]).player_id@ == g.members@[i].uuid@
        &&& s.members@[i].days@ == member_days(g.members@[i])
    }
}

fn history_of(entries: &Vec<(String, Option<i64>)>) -> (r: Vec<(i32, i64)>)
    ensures
        r@ == history_days(entries@),
{
    let mut out: Vec<(i32, i64)> = Vec::new();
    let mut i: usize = 0;
    while i < entries.len()
        invariant
            i <= entries@.len(),
            out@ == history_days(entries@.take(i as int)),
        decreases entries@.len() - i,
    {
        let (date, value) = &entries[i];
        assert(entries@.take(i + 1).drop_last() =~= entries@.take(i as int));
        match value {
            Some(e) => match parse_day(date.as_str()) {
                Some(d) => out.push((d, *e)),
                None => {},
            },
            None => {},
        }
        i += 1;
    }
    assert(entries@.take(i as int) =~= entries@);
    out
}

/// Turns an upstream guild answer into a snapshot. An answer that did not
/// succeed, or holds no guild, means the player is in no guild. Otherwise
/// every member is kept, with the days of its history whose date reads as a
/// day and whose value is an integer; a member without history keeps no days.
pub fn snapshot_from_response(success: bool, guild: Option<GuildPayload>) -> (r: Result<GuildSnapshot, FetchError>)
    ensures
        match r {
            Ok(s) => success && guild.is_some() && snapshot_of(guild.unwrap(), s),
            Err(e) => (!success || guild.is_none()) && e == FetchError::NoGuild,
        },
{
    if !success {
        return Err(FetchError::NoGuild);
    }
    let g = match guild {
        Some(g) => g,
        None => return Err(FetchError::NoGuild),
    };
    let mut members: Vec<MemberHistory> = Vec::new();
    let mut i: usize = 0;
    while i < g.members.len()
        invariant
            i <= g.members@.len(),
            members@.len() == i,
            forall|j: int| 0 <= j < i ==> {
                &&& (#[trigger] members@[j]).player_id@ == g.members@[j].uuid@
                &&& members@[j].days@ == member_days(g.members@[j])
            },
        decreases g.members@.len() - i,
    {
        let m = &g.members[i];
        let days = match &m.exp_history {
            Some(entries) => history_of(entries),
            None => Vec::new(),
        };
        members.push(MemberHistory { player_id: m.uuid.clone(), days });
        i += 1;
    }
    Ok(GuildSnapshot { guild_id: g.id.clone(), members })
}

} // verus!
