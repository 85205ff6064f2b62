//! Reconciliation of a report window: query the store, backfill at most once
//! when days are missing, and fill what is still missing with `Unknown`.
use crate::snapshot::{FetchError, GuildSnapshot};
use crate::store::{apply_snapshot, range_rows, stored_experience, StoreView, UptimeStore};
use vstd::prelude::*;

verus! {

/// The experience of one day of a report.
#[derive(Clone, Copy, Debug, PartialEq, Eq, Structural)]
pub enum Experience {
    /// The store has a row for the day.
    Known(i64),
    /// No row could be found or fetched for the day.
    Unknown,
}

/// One day of a report.
#[derive(Clone, Copy, Debug, PartialEq, Eq, Structural)]
pub struct ReportEntry {
    pub day: i32,
    pub experience: Experience,
}

/// Why a report cannot be made.
#[derive(Clone, Copy, Debug, PartialEq, Eq, Structural)]
pub enum ReportError {
    /// The window is not a positive number of days, or reaches back before
    /// the first day that a day number can hold.
    InvalidWindow,
}

/// Where a report request stands.
#[derive(Clone, Copy, Debug, PartialEq, Eq, Structural)]
pub enum ReportPhase {
    Querying,
    Backfilling,
    Done,
}

/// What a report request asks of its caller next.
pub enum ReportStep {
    /// Fetch the guild snapshot of this player and hand it to `on_fetched`.
    Fetch(String),
    /// The report, complete.
    Finished(Vec<ReportEntry>),
}

/// A window of `window_days` days ending today: at least one day, and its
/// first day a day number can hold.
pub open spec fn valid_window(today: int, window_days: int) -> bool {
    window_days >= 1 && today - window_days + 1 >= i32::MIN && today <= i32::MAX
}

/// The first day of a window.
pub open spec fn window_start(today: int, window_days: int) -> int {
    today - window_days + 1
}

/// The report entry of a day, given what is known of it.
pub open spec fn entry_of(day: int, known: Option<i64>) -> ReportEntry {
    ReportEntry {
        day: day as i32,
        experience: match known {
            Some(e) => Experience::Known(e),
            None => Experience::Unknown,
        },
    }
}

/// The report of a window over the store: one entry per day, from today back
/// `window_days - 1` days, each with the stored experience or `Unknown`.
pub open spec fn window_report(m: StoreView, player: Seq<char>, today: int, window_days: int) -> Seq<ReportEntry> {
    Seq::new(window_days as nat, |k: int| entry_of(today - k, stored_experience(m, player, today - k)))
}

/// The experience that a list of (day, experience) rows gives a day: that of
/// its last row for the day.
pub open spec fn row_for_day(rows: Seq<(i32, i64)>, day: int) -> Option<i64>
    decreases rows.len(),
{
    if rows.len() == 0 {
        None
    } else if rows.last().0 as int == day {
        Some(rows.last().1)
    } else {
        row_for_day(rows.drop_last(), day)
    }
}

/// The window filled from rows: one entry per day, most recent first.
pub open spec fn filled_window(rows: Seq<(i32, i64)>, today: int, window_days: int) -> Seq<ReportEntry> {
    Seq::new(window_days as nat, |k: int| entry_of(today - k, row_for_day(rows, today - k)))
}

proof fn lemma_range_lookup(m: StoreView, player: Seq<char>, start: int, end: int, day: int)
    requires
        i32::MIN <= start,
        end <= i32::MAX,
    ensures
        row_for_day(range_rows(m, player, start, end), day) == if start <= day <= end {
            stored_experience(m, player, day)
        } else {
            None
        },
    decreases end - start + 1,
{
    if start <= end {
        lemma_range_lookup(m, player, start + 1, end, day);
        let rest = range_rows(m, player, start + 1, end);
        match stored_experience(m, player, start) {
            Some(e) => {
                assert(rest.push((start as i32, e)).drop_last() =~= rest);
            },
            None => {},
        }
    }
}

/// The experience of a day among rows, searched from the last row.
fn find_day(rows: &Vec<(i32, i64)>, day: i32) -> (r: Option<i64>)
    ensures
        r == row_for_day(rows@, day as int),
{
    let mut j: usize = rows.len();
    assert(rows@.take(j as int) =~= rows@);
    while j > 0
        invariant
            j <= rows@.len(),
            row_for_day(rows@, day as int) == row_for_day(rows@.take(j as int), day as int),
        decreases j,
    {
        let (d, e) = rows[j - 1];
        assert(rows@.take(j as int).drop_last() =~= rows@.take(j - 1));
        if d == day {
            return Some(e);
        }
        j -= 1;
    }
    None
}

/// Fills a window from the rows found for it: for every day from `today`
/// back `window_days - 1` days, most recent first, the row's experience, or
/// `Unknown` where no row is for that day.
pub fn fill_missing_days(rows: &Vec<(i32, i64)>, today: i32, window_days: i64) -> (r: Vec<ReportEntry>)
    requires
        valid_window(today as int, window_days as int),
    ensures
        r@ == filled_window(rows@, today as int, window_days as int),
{
    let mut out: Vec<ReportEntry> = Vec::new();
    let mut k: i64 = 0;
    while k < window_days
        invariant
            valid_window(today as int, window_days as int),
            0 <= k <= window_days,
            out@ =~= filled_window(rows@, today as int, window_days as int).take(k as int),
        decreases window_days - k,
    {
        let day = (today as i64 - k) as i32;
        let experience = match find_day(rows, day) {
            Some(e) => Experience::Known(e),
            None => Experience::Unknown,
        };
        out.push(ReportEntry { day, experience });
        k += 1;
    }
    out
}

/// One report request for a player over a window, stepped from querying to done.
pub struct ReportSession {
    player_id: String,
    window_days: i64,
    today: i32,
    phase: ReportPhase,
    fetches: u8,
}

impl ReportSession {
    /// The player the report is for.
    pub closed spec fn player(&self) -> Seq<char> {
        self.player_id@
    }

    /// The number of days of the window.
    pub closed spec fn window(&self) -> int {
        self.window_days as int
    }

    /// The last day of the window.
    pub closed spec fn last_day(&self) -> int {
        self.today as int
    }

    /// Where the request stands.
    pub closed spec fn phase(&self) -> ReportPhase {
        self.phase
    }

    /// How many fetches the request has asked for.
    pub closed spec fn fetch_count(&self) -> nat {
        self.fetches as nat
    }

    /// The window is valid; a fetch is asked for on leaving `Querying` for
    /// `Backfilling`, and at no other step.
    pub closed spec fn wf(&self) -> bool {
        &&& valid_window(self.today as int, self.window_days as int)
        &&& self.fetches <= 1
        &&& self.phase == ReportPhase::Querying ==> self.fetches == 0
        &&& self.phase == ReportPhase::Backfilling ==> self.fetches == 1
    }

    /// Opens a request for `window_days` days ending on day `today`.
    pub fn new(player_id: String, window_days: i64, today: i32) -> (r: Result<ReportSession, ReportError>)
        ensures
            match r {
                Ok(s) => {
                    &&& valid_window(today as int, window_days as int)
                    &&& s.wf()
                    &&& s.player() == player_id@
                    &&& s.window() == window_days as int
                    &&& s.last_day() == today as int
                    &&& s.phase() == ReportPhase::Querying
                    &&& s.fetch_count() == 0
                },
                Err(e) => !valid_window(today as int, window_days as int) && e == ReportError::InvalidWindow,
            },
    {
        if window_days < 1 || window_days > (today as i64) - (i32::MIN as i64) + 1 {
            return Err(ReportError::InvalidWindow);
        }
        Ok(ReportSession { player_id, window_days, today, phase: ReportPhase::Querying, fetches: 0 })
    }

    fn query(&self, store: &UptimeStore) -> (r: (Vec<(i32, i64)>, Vec<ReportEntry>))
        requires
            self.wf(),
            store.wf(),
        ensures
            r.0@ == range_rows(store@, self.player(), window_start(self.today as int, self.window_days as int), self.today as int),
            r.1@ == window_report(store@, self.player(), self.today as int, self.window_days as int),
    {
        let start = (self.today as i64 - self.window_days + 1) as i32;
        let rows = store.get_range(&self.player_id, start, self.today);
        let report = fill_missing_days(&rows, self.today, self.window_days);
        proof {
            let w = self.window_days as int;
            let t = self.today as int;
            assert forall|k: int| 0 <= k < w implies #[trigger] row_for_day(rows@, t - k) == stored_experience(store@, self.player(), t - k) by {
                lemma_range_lookup(store@, self.player(), start as int, t, t - k);
            }
            assert(report@ =~= window_report(store@, self.player(), t, w));
        }
        (rows, report)
    }

    /// Runs the query: where the store has a row for every day of the window
    /// the report is finished; otherwise one fetch of the player's guild is
    /// asked for.
    pub fn start(&mut self, store: &UptimeStore) -> (step: ReportStep)
        requires
            old(self).wf(),
            old(self).phase() == ReportPhase::Querying,
            store.wf(),
        ensures
            final(self).wf(),
            final(self).player() == old(self).player(),
            final(self).window() == old(self).window(),
            final(self).last_day() == old(self).last_day(),
            ({
                let rows = range_rows(store@, old(self).player(), window_start(old(self).last_day(), old(self).window()), old(self).last_day());
                if rows.len() == old(self).window() {
                    &&& final(self).phase() == ReportPhase::Done
                    &&& final(self).fetch_count() == 0
                    &&& step matches ReportStep::Finished(report)
                    &&& report@ == window_report(store@, old(self).player(), old(self).last_day(), old(self).window())
                } else {
                    &&& final(self).phase() == ReportPhase::Backfilling
                    &&& final(self).fetch_count() == 1
                    &&& step matches ReportStep::Fetch(p)
                    &&& p@ == old(self).player()
                }
            }),
    {
        let (rows, report) = self.query(store);
        if rows.len() as u64 == self.window_days as u64 {
            self.phase = ReportPhase::Done;
            ReportStep::Finished(report)
        } else {
            self.phase = ReportPhase::Backfilling;
            self.fetches = 1;
            ReportStep::Fetch(self.player_id.clone())
        }
    }

    /// Takes the outcome of the one fetch: a snapshot is upserted into the
    /// store, a failure of any kind is absorbed; then the window is read again
    /// and filled. No further fetch is ever asked for.
    pub fn on_fetched(&mut self, store: &mut UptimeStore, fetched: Result<GuildSnapshot, FetchError>) -> (report: Vec<ReportEntry>)
        requires
            old(self).wf(),
            old(self).phase() == ReportPhase::Backfilling,
            old(store).wf(),
        ensures
            final(self).wf(),
            final(self).phase() == ReportPhase::Done,
            final(self).fetch_count() == old(self).fetch_count(),
            final(self).player() == old(self).player(),
            final(self).window() == old(self).window(),
            final(self).last_day() == old(self).last_day(),
            final(store).wf(),
            final(store)@ == match fetched {
                Ok(s) => apply_snapshot(old(store)@, s),
                Err(_) => old(store)@,
            },
            report@ == window_report(final(store)@, old(self).player(), old(self).last_day(), old(self).window()),
    {
        match &fetched {
            Ok(s) => store.upsert_snapshot(s),
            Err(_) => {},
        }
        let (_rows, report) = self.query(store);
        self.phase = ReportPhase::Done;
        report
    }
}

/// A report covers its whole window: exactly `window_days` entries, for the
/// consecutive days from `today` back, most recent first, each the stored
/// experience where a row exists and `Unknown` where none does.
pub proof fn lemma_window_complete(m: StoreView, player: Seq<char>, today: int, window_days: int)
    requires
        valid_window(today, window_days),
    ensures
        window_report(m, player, today, window_days).len() == window_days,
        forall|k: int| 0 <= k < window_days ==> (#[trigger] window_report(m, player, today, window_days)[k]).day == today - k,
        forall|k: int| 0 <= k < window_days ==> (#[trigger] window_report(m, player, today, window_days)[k]).experience == match stored_experience(m, player, today - k) {
            Some(e) => Experience::Known(e),
            None => Experience::Unknown,
        },
        forall|k: int| 0 < k < window_days ==> (#[trigger] window_report(m, player, today, window_days)[k]).day < window_report(m, player, today, window_days)[k - 1].day,
{
}

/// A report request asks for at most one fetch, however many days are missing.
pub proof fn lemma_backfill_at_most_once(s: &ReportSession)
    requires
        s.wf(),
    ensures
        s.fetch_count() <= 1,
        s.phase() == ReportPhase::Querying ==> s.fetch_count() == 0,
{
}

/// For a player without rows the report is entirely `Unknown`; a failed fetch,
/// `NoGuild` among them, leaves the store as it was, so the report of such a
/// request is all `Unknown` and no error.
pub proof fn lemma_guildless_all_unknown(m: StoreView, player: Seq<char>, today: int, window_days: int)
    requires
        valid_window(today, window_days),
        forall|d: int| !m.contains_key((player, d)),
    ensures
        window_report(m, player, today, window_days).len() == window_days,
        forall|k: int| 0 <= k < window_days ==> (#[trigger] window_report(m, player, today, window_days)[k]).experience == Experience::Unknown,
{
}

proof fn lemma_range_full(m: StoreView, player: Seq<char>, start: int, end: int)
    requires
        forall|d: int| start <= d <= end ==> #[trigger] m.contains_key((player, d)),
    ensures
        range_rows(m, player, start, end).len() == if start <= end { end - start + 1 } else { 0 },
    decreases end - start + 1,
{
    if start <= end {
        lemma_range_full(m, player, start + 1, end);
        assert(m.contains_key((player, start)));
    }
}

/// Where the store has a row for every day of the window, the query finds
/// as many rows as the window has days, so the request finishes without a
/// fetch.
pub proof fn lemma_full_window_needs_no_fetch(m: StoreView, player: Seq<char>, today: int, window_days: int)
    requires
        valid_window(today, window_days),
        forall|d: int| window_start(today, window_days) <= d <= today ==> #[trigger] m.contains_key((player, d)),
    ensures
        range_rows(m, player, window_start(today, window_days), today).len() == window_days,
{
    lemma_range_full(m, player, window_start(today, window_days), today);
}

} // verus!
