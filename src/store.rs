//! The uptime store: one row of experience per player and calendar day.
use crate::snapshot::{GuildSnapshot, MemberHistory};
use vstd::prelude::*;

verus! {

/// The store as a mathematical map: (player id, day) to (experience, guild id).
pub type StoreView = Map<(Seq<char>, int), (i64, Seq<char>)>;

/// One stored row.
pub struct UptimeRecord {
    pub player_id: String,
    pub day: i32,
    pub experience: i64,
    pub guild_id: String,
}

/// The key of a row: its player and its day.
pub open spec fn record_key(r: UptimeRecord) -> (Seq<char>, int) {
    (r.player_id@, r.day as int)
}

/// What a row holds under its key: the experience and the guild.
pub open spec fn record_value(r: UptimeRecord) -> (i64, Seq<char>) {
    (r.experience, r.guild_id@)
}

/// The store after writing the days of one player's history in order, each
/// day's experience under the given guild; a later write to a key wins.
pub open spec fn apply_days(m: StoreView, player: Seq<char>, days: Seq<(i32, i64)>, guild: Seq<char>) -> StoreView
    decreases days.len(),
{
    if days.len() == 0 {
        m
    } else {
        apply_days(m, player, days.drop_last(), guild).insert(
            (player, days.last().0 as int),
            (days.last().1, guild),
        )
    }
}

/// The store after writing the members' histories in order.
pub open spec fn apply_members(m: StoreView, members: Seq<MemberHistory>, guild: Seq<char>) -> StoreView
    decreases members.len(),
{
    if members.len() == 0 {
        m
    } else {
        let last = members.last();
        apply_days(apply_members(m, members.drop_last(), guild), last.player_id@, last.days@, guild)
    }
}

/// The store after upserting a snapshot.
pub open spec fn apply_snapshot(m: StoreView, s: GuildSnapshot) -> StoreView {
    apply_members(m, s.members@, s.guild_id@)
}

/// What the store holds of a player on a day.
pub open spec fn stored_experience(m: StoreView, player: Seq<char>, day: int) -> Option<i64> {
    if m.contains_key((player, day)) {
        Some(m[(player, day)].0)
    } else {
        None
    }
}

/// The rows of a player from day `end` down to day `start`, most recent
/// first, skipping the days that have no row.
pub open spec fn range_rows(m: StoreView, player: Seq<char>, start: int, end: int) -> Seq<(i32, i64)>
    decreases end - start + 1,
{
    if start > end {
        seq![]
    } else {
        let rest = range_rows(m, player, start + 1, end);
        match stored_experience(m, player, start) {
            Some(e) => rest.push((start as i32, e)),
            None => rest,
        }
    }
}

/// The players that have at least one row.
pub open spec fn players_of(m: StoreView) -> Set<Seq<char>> {
    Set::new(|p: Seq<char>| exists|d: int| m.contains_key((p, d)))
}

/// The persistent table of uptime rows, kept in memory, with at most one row
/// for each (player, day).
pub struct UptimeStore {
    rows: Vec<UptimeRecord>,
    model: Ghost<StoreView>,
}

impl View for UptimeStore {
    type V = StoreView;

    closed spec fn view(&self) -> StoreView {
        self.model@
    }
}

impl UptimeStore {
    /// The rows as they are held.
    pub closed spec fn records(&self) -> Seq<UptimeRecord> {
        self.rows@
    }

    /// The rows have distinct keys, and the map names exactly the rows.
    pub closed spec fn wf(&self) -> bool {
        &&& forall|i: int, j: int|
            0 <= i < self.rows@.len() && 0 <= j < self.rows@.len() && i != j
                ==> #[trigger] record_key(self.rows@[i]) != #[trigger] record_key(self.rows@[j])
        &&& forall|i: int|
            0 <= i < self.rows@.len() ==> self.model@.contains_key(#[trigger] record_key(self.rows@[i]))
                && self.model@[record_key(self.rows@[i])] == record_value(self.rows@[i])
        &&& forall|k: (Seq<char>, int)|
            #[trigger] self.model@.contains_key(k) ==> exists|i: int|
                0 <= i < self.rows@.len() && record_key(self.rows@[i]) == k
    }

    /// An empty store.
    pub fn new() -> (s: UptimeStore)
        ensures
            s.wf(),
            s@ == StoreView::empty(),
            s.records().len() == 0,
    {
        UptimeStore { rows: Vec::new(), model: Ghost(Map::empty()) }
    }

    /// The number of rows.
    pub fn len(&self) -> (n: usize)
        requires
            self.wf(),
        ensures
            n == self.records().len(),
            n == self@.len(),
    {
        proof { self.lemma_len(); }
        self.rows.len()
    }

    proof fn lemma_len(&self)
        requires
            self.wf(),
        ensures
            self.rows@.len() == self@.len(),
            self@.dom().finite(),
    {
        let keys = self.rows@.map_values(|r: UptimeRecord| record_key(r));
        assert(keys.no_duplicates()) by {
            assert forall|i: int, j: int| 0 <= i < keys.len() && 0 <= j < keys.len() && i != j implies keys[i] != keys[j] by {
                assert(record_key(self.rows@[i]) != record_key(self.rows@[j]));
            }
        }
        assert(keys.to_set() =~= self@.dom()) by {
            assert forall|k| keys.to_set().contains(k) implies self@.dom().contains(k) by {
                let i = choose|i: int| 0 <= i < keys.len() && keys[i] == k;
                assert(record_key(self.rows@[i]) == k);
            }
            assert forall|k| self@.dom().contains(k) implies keys.to_set().contains(k) by {
                let i = choose|i: int| 0 <= i < self.rows@.len() && record_key(self.rows@[i]) == k;
                assert(keys[i] == k);
            }
        }
        keys.unique_seq_to_set();
    }

    /// The index of the row of a player on a day.
    fn find(&self, player: &String, day: i32) -> (r: Option<usize>)
        requires
            self.wf(),
        ensures
            match r {
                Some(i) => i < self.rows@.len() && record_key(self.rows@[i as int]) == (player@, day as int),
                None => !self@.contains_key((player@, day as int)),
            },
    {
        let mut i: usize = 0;
        while i < self.rows.len()
            invariant
                self.wf(),
                i <= self.rows@.len(),
                forall|j: int| 0 <= j < i ==> record_key(#[trigger] self.rows@[j]) != (player@, day as int),
            decreases self.rows@.len() - i,
        {
            let row = &self.rows[i];
            if row.day == day && row.player_id == *player {
                return Some(i);
            }
            i += 1;
        }
        None
    }

    /// The experience stored for a player on a day.
    pub fn get(&self, player: &String, day: i32) -> (r: Option<i64>)
        requires
            self.wf(),
        ensures
            r == stored_experience(self@, player@, day as int),
    {
        match self.find(player, day) {
            Some(i) => Some(self.rows[i].experience),
            None => None,
        }
    }

    /// Writes one row: where the player has a row on that day, its experience
    /// and guild are replaced; otherwise the row is added.
    pub fn upsert_record(&mut self, player: &String, day: i32, experience: i64, guild: &String)
        requires
            old(self).wf(),
        ensures
            final(self).wf(),
            final(self)@ == old(self)@.insert((player@, day as int), (experience, guild@)),
    {
        let ghost k = (player@, day as int);
        let record = UptimeRecord {
            player_id: player.clone(),
            day,
            experience,
            guild_id: guild.clone(),
        };
        let idx: usize = match self.find(player, day) {
            Some(i) => {
                self.rows.set(i, record);
                i
            },
            None => {
                self.rows.push(record);
                self.rows.len() - 1
            },
        };
        self.model = Ghost(self.model@.insert(k, (experience, guild@)));
        assert(record_key(self.rows@[idx as int]) == k);
        assert forall|k2: (Seq<char>, int)| #[trigger] self.model@.contains_key(k2) implies exists|j: int|
            0 <= j < self.rows@.len() && record_key(self.rows@[j]) == k2 by {
            if k2 != k {
                assert(old(self).model@.contains_key(k2));
                let j = choose|j: int| 0 <= j < old(self).rows@.len() && record_key(old(self).rows@[j]) == k2;
                assert(record_key(self.rows@[j]) == k2);
            }
        }
    }

    /// Upserts every (player, day, experience) of a snapshot, in order, each
    /// under the snapshot's guild.
    pub fn upsert_snapshot(&mut self, snapshot: &GuildSnapshot)
        requires
            old(self).wf(),
        ensures
            final(self).wf(),
            final(self)@ == apply_snapshot(old(self)@, *snapshot),
    {
        let members = &snapshot.members;
        let mut i: usize = 0;
        while i < members.len()
            invariant
                self.wf(),
                i <= members@.len(),
                self@ == apply_members(old(self)@, members@.take(i as int), snapshot.guild_id@),
            decreases members@.len() - i,
        {
            let member = &members[i];
            let ghost before = self@;
            let mut j: usize = 0;
            while j < member.days.len()
                invariant
                    self.wf(),
                    j <= member.days@.len(),
                    self@ == apply_days(before, member.player_id@, member.days@.take(j as int), snapshot.guild_id@),
                decreases member.days@.len() - j,
            {
                let (day, experience) = member.days[j];
                self.upsert_record(&member.player_id, day, experience, &snapshot.guild_id);
                assert(member.days@.take(j + 1).drop_last() =~= member.days@.take(j as int));
                j += 1;
            }
            assert(member.days@.take(j as int) =~= member.days@);
            assert(members@.take(i + 1).drop_last() =~= members@.take(i as int));
            i += 1;
        }
        assert(members@.take(i as int) =~= members@);
    }

    /// The rows of a player from day `end` down to day `start`, most recent
    /// first; days without a row are left out.
    pub fn get_range(&self, player: &String, start: i32, end: i32) -> (r: Vec<(i32, i64)>)
        requires
            self.wf(),
        ensures
            r@ == range_rows(self@, player@, start as int, end as int),
    {
        let mut out: Vec<(i32, i64)> = Vec::new();
        if start > end {
            return out;
        }
        let mut d: i64 = end as i64;
        while d >= start as i64
            invariant
                self.wf(),
                start as int - 1 <= d <= end as int,
                out@ == range_rows(self@, player@, d + 1, end as int),
            decreases d - start as int + 1,
        {
            let day = d as i32;
            match self.get(player, day) {
                Some(e) => out.push((day, e)),
                None => {},
            }
            d -= 1;
        }
        out
    }
}


/// Whether a list of ids holds `p`.
pub fn contains_id(ids: &Vec<String>, p: &String) -> (r: bool)
    ensures
        r == exists|i: int| 0 <= i < ids@.len() && (#[trigger] ids@[i])@ == p@,
{
    let mut i: usize = 0;
    while i < ids.len()
        invariant
            i <= ids@.len(),
            forall|j: int| 0 <= j < i ==> (#[trigger] ids@[j])@ != p@,
        decreases ids@.len() - i,
    {
        if ids[i] == *p {
            return true;
        }
        i += 1;
    }
    false
}

impl UptimeStore {
    /// Every player that has a row, each once, in the order of their first row.
    pub fn tracked_players(&self) -> (r: Vec<String>)
        requires
            self.wf(),
        ensures
            forall|i: int, j: int| 0 <= i < j < r@.len() ==> r@[i]@ != r@[j]@,
            forall|i: int| 0 <= i < r@.len() ==> players_of(self@).contains(#[trigger] r@[i]@),
            forall|p: Seq<char>| players_of(self@).contains(p) ==> exists|i: int|
                0 <= i < r@.len() && (#[trigger] r@[i])@ == p,
    {
        let mut out: Vec<String> = Vec::new();
        let mut i: usize = 0;
        while i < self.rows.len()
            invariant
                self.wf(),
                i <= self.rows@.len(),
                forall|a: int, b: int| 0 <= a < b < out@.len() ==> out@[a]@ != out@[b]@,
                forall|a: int| 0 <= a < out@.len() ==> players_of(self@).contains(#[trigger] out@[a]@),
                forall|j: int| 0 <= j < i ==> exists|a: int|
                    0 <= a < out@.len() && (#[trigger] out@[a])@ == (#[trigger] self.rows@[j]).player_id@,
            decreases self.rows@.len() - i,
        {
            let p = &self.rows[i].player_id;
            proof {
                let k = record_key(self.rows@[i as int]);
                assert(self@.contains_key(k));
                assert(players_of(self@).contains(p@));
            }
            let ghost before = out@;
            if !contains_id(&out, p) {
                out.push(p.clone());
                assert(out@[out@.len() - 1]@ == p@);
            }
            proof {
                assert forall|j: int| 0 <= j < i + 1 implies exists|a: int|
                    0 <= a < out@.len() && (#[trigger] out@[a])@ == (#[trigger] self.rows@[j]).player_id@ by {
                    if j < i {
                        let a = choose|a: int| 0 <= a < before.len() && (#[trigger] before[a])@ == self.rows@[j].player_id@;
                        assert(out@[a] == before[a]);
                    } else if out@.len() == before.len() {
                        let a = choose|a: int| 0 <= a < before.len() && (#[trigger] before[a])@ == p@;
                        assert(out@[a] == before[a]);
                    } else {
                        assert(out@[out@.len() - 1]@ == p@);
                    }
                }
            }
            i += 1;
        }
        proof {
            assert forall|p: Seq<char>| players_of(self@).contains(p) implies exists|a: int|
                0 <= a < out@.len() && (#[trigger] out@[a])@ == p by {
                let d = choose|d: int| self@.contains_key((p, d));
                let j = choose|j: int| 0 <= j < self.rows@.len() && record_key(self.rows@[j]) == (p, d);
                assert(self.rows@[j].player_id@ == p);
            }
        }
        out
    }
}

/// No two rows of a store share a (player, day): whatever upserts it has
/// seen, each key has at most one row.
pub proof fn lemma_one_row_per_key(s: &UptimeStore)
    requires
        s.wf(),
    ensures
        forall|i: int, j: int|
            0 <= i < s.records().len() && 0 <= j < s.records().len() && i != j
                ==> record_key(#[trigger] s.records()[i]) != record_key(#[trigger] s.records()[j]),
{
}

proof fn lemma_days_overlay(m: StoreView, player: Seq<char>, days: Seq<(i32, i64)>, guild: Seq<char>)
    ensures
        apply_days(m, player, days, guild) == m.union_prefer_right(
            apply_days(StoreView::empty(), player, days, guild),
        ),
    decreases days.len(),
{
    if days.len() == 0 {
        assert(m.union_prefer_right(StoreView::empty()) =~= m);
    } else {
        lemma_days_overlay(m, player, days.drop_last(), guild);
        let k = (player, days.last().0 as int);
        let v = (days.last().1, guild);
        let d = apply_days(StoreView::empty(), player, days.drop_last(), guild);
        assert(m.union_prefer_right(d).insert(k, v) =~= m.union_prefer_right(d.insert(k, v)));
    }
}

proof fn lemma_members_overlay(m: StoreView, members: Seq<MemberHistory>, guild: Seq<char>)
    ensures
        apply_members(m, members, guild) == m.union_prefer_right(
            apply_members(StoreView::empty(), members, guild),
        ),
    decreases members.len(),
{
    if members.len() == 0 {
        assert(m.union_prefer_right(StoreView::empty()) =~= m);
    } else {
        let rest = members.drop_last();
        let last = members.last();
        lemma_members_overlay(m, rest, guild);
        let a = apply_members(StoreView::empty(), rest, guild);
        let d = apply_days(StoreView::empty(), last.player_id@, last.days@, guild);
        lemma_days_overlay(m.union_prefer_right(a), last.player_id@, last.days@, guild);
        lemma_days_overlay(a, last.player_id@, last.days@, guild);
        assert(m.union_prefer_right(a).union_prefer_right(d) =~= m.union_prefer_right(a.union_prefer_right(d)));
    }
}

/// Upserting the same snapshot twice leaves the store as upserting it once.
pub proof fn lemma_upsert_idempotent(m: StoreView, s: GuildSnapshot)
    ensures
        apply_snapshot(apply_snapshot(m, s), s) == apply_snapshot(m, s),
{
    let r = apply_members(StoreView::empty(), s.members@, s.guild_id@);
    lemma_members_overlay(m, s.members@, s.guild_id@);
    lemma_members_overlay(m.union_prefer_right(r), s.members@, s.guild_id@);
    assert(m.union_prefer_right(r).union_prefer_right(r) =~= m.union_prefer_right(r));
}

} // verus!
