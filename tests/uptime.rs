use guild_uptime::{
    snapshot_from_response, Experience, FetchError, GuildPayload, GuildSnapshot, MemberHistory,
    MemberPayload, ReportError, ReportSession, ReportStep, Sweep, UptimeStore,
};

const TODAY: i32 = 738_900;

fn s(text: &str) -> String {
    text.to_string()
}

fn snapshot(guild: &str, members: Vec<(&str, Vec<(i32, i64)>)>) -> GuildSnapshot {
    GuildSnapshot {
        guild_id: s(guild),
        members: members
            .into_iter()
            .map(|(p, days)| MemberHistory { player_id: s(p), days })
            .collect(),
    }
}

fn experiences(report: &[guild_uptime::ReportEntry]) -> Vec<Experience> {
    report.iter().map(|e| e.experience).collect()
}

fn days(report: &[guild_uptime::ReportEntry]) -> Vec<i32> {
    report.iter().map(|e| e.day).collect()
}

#[test]
fn scenario_a_full_window_needs_no_fetch() {
    let mut store = UptimeStore::new();
    let values = [100i64, 150, 0, 200, 50, 0, 300];
    for (k, v) in values.iter().enumerate() {
        store.upsert_record(&s("P1"), TODAY - k as i32, *v, &s("G"));
    }
    let mut session = ReportSession::new(s("P1"), 7, TODAY).unwrap();
    match session.start(&store) {
        ReportStep::Finished(report) => {
            assert_eq!(report.len(), 7);
            assert_eq!(
                experiences(&report),
                values.iter().map(|v| Experience::Known(*v)).collect::<Vec<_>>()
            );
            assert_eq!(days(&report), (0..7).map(|k| TODAY - k).collect::<Vec<_>>());
        },
        ReportStep::Fetch(_) => panic!("a complete window must not fetch"),
    }
}

#[test]
fn scenario_b_backfill_fills_three_days() {
    let mut store = UptimeStore::new();
    let mut session = ReportSession::new(s("P2"), 7, TODAY).unwrap();
    let fetch = match session.start(&store) {
        ReportStep::Fetch(p) => p,
        ReportStep::Finished(_) => panic!("an empty store must fetch"),
    };
    assert_eq!(fetch, "P2");
    let snap = snapshot("G", vec![("P2", vec![(TODAY, 10), (TODAY - 2, 20), (TODAY - 5, 30)])]);
    let report = session.on_fetched(&mut store, Ok(snap));
    assert_eq!(store.len(), 3);
    assert_eq!(report.len(), 7);
    assert_eq!(
        experiences(&report),
        vec![
            Experience::Known(10),
            Experience::Unknown,
            Experience::Known(20),
            Experience::Unknown,
            Experience::Unknown,
            Experience::Known(30),
            Experience::Unknown,
        ]
    );
}

#[test]
fn scenario_c_no_guild_gives_all_unknown() {
    let mut store = UptimeStore::new();
    let mut session = ReportSession::new(s("P3"), 7, TODAY).unwrap();
    assert!(matches!(session.start(&store), ReportStep::Fetch(_)));
    let report = session.on_fetched(&mut store, Err(FetchError::NoGuild));
    assert_eq!(report.len(), 7);
    assert!(report.iter().all(|e| e.experience == Experience::Unknown));
    assert_eq!(store.len(), 0);
}

#[test]
fn scenario_d_two_backfills_leave_one_row() {
    let mut store = UptimeStore::new();
    let mut first = ReportSession::new(s("P4"), 7, TODAY).unwrap();
    let mut second = ReportSession::new(s("P4"), 7, TODAY).unwrap();
    assert!(matches!(first.start(&store), ReportStep::Fetch(_)));
    assert!(matches!(second.start(&store), ReportStep::Fetch(_)));
    let r1 = first.on_fetched(&mut store, Ok(snapshot("G", vec![("P4", vec![(TODAY - 1, 40)])])));
    let r2 = second.on_fetched(&mut store, Ok(snapshot("G", vec![("P4", vec![(TODAY - 1, 45)])])));
    assert_eq!(store.len(), 1);
    assert_eq!(store.get(&s("P4"), TODAY - 1), Some(45));
    assert_eq!(r1[1].experience, Experience::Known(40));
    assert_eq!(r2[1].experience, Experience::Known(45));
}

#[test]
fn upserts_keep_one_row_per_key() {
    let mut store = UptimeStore::new();
    for v in 0..5 {
        store.upsert_record(&s("A"), TODAY, v, &s("G1"));
    }
    store.upsert_record(&s("A"), TODAY, 99, &s("G2"));
    store.upsert_record(&s("B"), TODAY, 1, &s("G2"));
    assert_eq!(store.len(), 2);
    assert_eq!(store.get(&s("A"), TODAY), Some(99));
    assert_eq!(store.get(&s("B"), TODAY), Some(1));
    assert_eq!(store.get(&s("B"), TODAY - 1), None);
}

#[test]
fn upserting_a_snapshot_twice_equals_once() {
    let snap = snapshot(
        "G",
        vec![("A", vec![(TODAY, 5), (TODAY - 1, 6), (TODAY, 7)]), ("B", vec![(TODAY, 8)])],
    );
    let mut once = UptimeStore::new();
    once.upsert_snapshot(&snap);
    let mut twice = UptimeStore::new();
    twice.upsert_snapshot(&snap);
    twice.upsert_snapshot(&snap);
    assert_eq!(once.len(), 3);
    assert_eq!(twice.len(), 3);
    for p in ["A", "B"] {
        assert_eq!(once.get_range(&s(p), TODAY - 3, TODAY), twice.get_range(&s(p), TODAY - 3, TODAY));
    }
    assert_eq!(once.get(&s("A"), TODAY), Some(7));
}

#[test]
fn get_range_is_most_recent_first_and_skips_gaps() {
    let mut store = UptimeStore::new();
    store.upsert_record(&s("A"), TODAY - 4, 1, &s("G"));
    store.upsert_record(&s("A"), TODAY, 2, &s("G"));
    store.upsert_record(&s("A"), TODAY - 2, 3, &s("G"));
    store.upsert_record(&s("B"), TODAY - 1, 4, &s("G"));
    assert_eq!(
        store.get_range(&s("A"), TODAY - 3, TODAY),
        vec![(TODAY, 2), (TODAY - 2, 3)]
    );
    assert_eq!(store.get_range(&s("A"), TODAY, TODAY - 1), vec![]);
}

#[test]
fn window_of_one_and_of_thirty_days() {
    let store = UptimeStore::new();
    for w in [1i64, 30] {
        let mut session = ReportSession::new(s("X"), w, TODAY).unwrap();
        assert!(matches!(session.start(&store), ReportStep::Fetch(_)));
        let mut store2 = UptimeStore::new();
        let report = session.on_fetched(&mut store2, Err(FetchError::Transport(s("down"))));
        assert_eq!(report.len() as i64, w);
        assert_eq!(days(&report), (0..w as i32).map(|k| TODAY - k).collect::<Vec<_>>());
    }
}

#[test]
fn window_must_be_positive() {
    assert!(matches!(ReportSession::new(s("X"), 0, TODAY), Err(ReportError::InvalidWindow)));
    assert!(matches!(ReportSession::new(s("X"), -3, TODAY), Err(ReportError::InvalidWindow)));
    assert!(matches!(ReportSession::new(s("X"), i64::MAX, TODAY), Err(ReportError::InvalidWindow)));
    assert!(ReportSession::new(s("X"), 7, TODAY).is_ok());
}

#[test]
fn partial_store_fetches_once_then_finishes() {
    let mut store = UptimeStore::new();
    store.upsert_record(&s("P"), TODAY, 5, &s("G"));
    let mut session = ReportSession::new(s("P"), 3, TODAY).unwrap();
    assert!(matches!(session.start(&store), ReportStep::Fetch(_)));
    let report = session.on_fetched(&mut store, Err(FetchError::Parse(s("bad"))));
    assert_eq!(
        experiences(&report),
        vec![Experience::Known(5), Experience::Unknown, Experience::Unknown]
    );
}

#[test]
fn response_without_guild_is_no_guild() {
    assert!(matches!(snapshot_from_response(true, None), Err(FetchError::NoGuild)));
    let g = GuildPayload { id: s("G"), members: vec![] };
    assert!(matches!(snapshot_from_response(false, Some(g)), Err(FetchError::NoGuild)));
}

#[test]
fn response_skips_malformed_entries() {
    let g = GuildPayload {
        id: s("G"),
        members: vec![
            MemberPayload {
                uuid: s("A"),
                exp_history: Some(vec![
                    (s("1970-01-01"), Some(100)),
                    (s("1970-01-02"), None),
                    (s("garbage"), Some(5)),
                    (s("1970-01-03"), Some(7)),
                ]),
            },
            MemberPayload { uuid: s("B"), exp_history: None },
        ],
    };
    let snap = snapshot_from_response(true, Some(g)).unwrap();
    assert_eq!(snap.guild_id, "G");
    assert_eq!(snap.members.len(), 2);
    assert_eq!(snap.members[0].player_id, "A");
    assert_eq!(snap.members[0].days, vec![(719_163, 100), (719_165, 7)]);
    assert_eq!(snap.members[1].player_id, "B");
    assert!(snap.members[1].days.is_empty());
}

#[test]
fn sweep_fetches_each_guild_once() {
    let mut store = UptimeStore::new();
    for p in ["A", "B", "C"] {
        store.upsert_record(&s(p), TODAY - 1, 1, &s("G"));
    }
    store.upsert_record(&s("A"), TODAY - 2, 1, &s("G"));
    let mut sweep = Sweep::begin(&store);
    assert_eq!(sweep.player_count(), 3);
    assert_eq!(sweep.next_fetch(), Some(s("A")));
    sweep.on_fetched(
        &mut store,
        Ok(snapshot("G", vec![("A", vec![(TODAY, 3)]), ("B", vec![(TODAY, 4)])])),
    );
    assert_eq!(sweep.next_fetch(), Some(s("C")));
    sweep.on_fetched(&mut store, Err(FetchError::NoGuild));
    assert_eq!(sweep.next_fetch(), None);
    assert_eq!(sweep.no_guild(), 1);
    assert_eq!(sweep.failed(), 0);
    assert_eq!(store.get(&s("B"), TODAY), Some(4));
    assert_eq!(store.get(&s("C"), TODAY - 1), Some(1));
}

#[test]
fn sweep_counts_failures_and_goes_on() {
    let mut store = UptimeStore::new();
    store.upsert_record(&s("A"), TODAY, 1, &s("G"));
    store.upsert_record(&s("B"), TODAY, 1, &s("H"));
    let mut sweep = Sweep::begin(&store);
    assert_eq!(sweep.next_fetch(), Some(s("A")));
    sweep.on_fetched(&mut store, Err(FetchError::Transport(s("timeout"))));
    assert_eq!(sweep.next_fetch(), Some(s("B")));
    sweep.on_fetched(&mut store, Err(FetchError::Parse(s("bad"))));
    assert_eq!(sweep.next_fetch(), None);
    assert_eq!(sweep.failed(), 2);
    assert_eq!(sweep.no_guild(), 0);
}

#[test]
fn empty_store_sweep_is_complete_at_once() {
    let store = UptimeStore::new();
    let mut sweep = Sweep::begin(&store);
    assert_eq!(sweep.next_fetch(), None);
}
