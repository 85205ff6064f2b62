//! The periodic refresh sweep over every tracked player, one fetch at a time.
use crate::snapshot::{FetchError, GuildSnapshot, MemberHistory};
use crate::store::{apply_snapshot, contains_id, players_of, UptimeStore};
use vstd::prelude::*;

verus! {

/// The ids of a list of strings.
pub open spec fn ids_of(v: Seq<String>) -> Seq<Seq<char>> {
    v.map_values(|s: String| s@)
}

/// The player ids of a snapshot's members.
pub open spec fn member_ids(members: Seq<MemberHistory>) -> Seq<Seq<char>> {
    members.map_values(|m: MemberHistory| m.player_id@)
}

/// One pass over the players that the store tracked when it began. Each is
/// fetched once, unless an earlier fetch of the pass already brought its
/// guild's data.
pub struct Sweep {
    players: Vec<String>,
    next: usize,
    processed: Vec<String>,
    fetched: Ghost<Seq<Seq<char>>>,
    pending: bool,
    no_guild: usize,
    failed: usize,
}

impl Sweep {
    /// The players of the pass, in order.
    pub closed spec fn players(&self) -> Seq<Seq<char>> {
        ids_of(self.players@)
    }

    /// The players fetched so far, in order.
    pub closed spec fn fetched(&self) -> Seq<Seq<char>> {
        self.fetched@
    }

    /// The players fetched or covered by a fetched snapshot so far.
    pub closed spec fn processed(&self) -> Seq<Seq<char>> {
        ids_of(self.processed@)
    }

    /// Whether a fetch was handed out and its outcome is awaited.
    pub closed spec fn is_pending(&self) -> bool {
        self.pending
    }

    /// How many fetches answered that the player is in no guild.
    pub closed spec fn no_guild_count(&self) -> nat {
        self.no_guild as nat
    }

    /// How many fetches failed otherwise.
    pub closed spec fn failed_count(&self) -> nat {
        self.failed as nat
    }

    /// Every player of the pass has been fetched or covered.
    pub open spec fn complete(&self) -> bool {
        forall|i: int| 0 <= i < self.players().len() ==> self.processed().contains(#[trigger] self.players()[i])
    }

    /// The fetched players are distinct, players of the pass, and processed;
    /// the players before the cursor are processed; the counts stay within
    /// the fetches.
    pub closed spec fn wf(&self) -> bool {
        &&& self.next <= self.players@.len()
        &&& self.fetched@.no_duplicates()
        &&& forall|i: int| 0 <= i < self.fetched@.len() ==> self.players().contains(#[trigger] self.fetched@[i])
        &&& forall|i: int| 0 <= i < self.fetched@.len() ==> self.processed().contains(#[trigger] self.fetched@[i])
        &&& forall|i: int| 0 <= i < self.next ==> self.processed().contains(#[trigger] self.players()[i])
        &&& self.no_guild + self.failed + (if self.pending { 1int } else { 0int }) <= self.fetched@.len()
        &&& self.fetched@.len() <= self.next
    }

    /// Begins a pass over every player that has a row in the store.
    pub fn begin(store: &UptimeStore) -> (s: Sweep)
        requires
            store.wf(),
        ensures
            s.wf(),
            !s.is_pending(),
            s.players().no_duplicates(),
            s.players().to_set() == players_of(store@),
            s.fetched().len() == 0,
            s.processed().len() == 0,
            s.no_guild_count() == 0,
            s.failed_count() == 0,
    {
        let players = store.tracked_players();
        let s = Sweep {
            players,
            next: 0,
            processed: Vec::new(),
            fetched: Ghost(Seq::empty()),
            pending: false,
            no_guild: 0,
            failed: 0,
        };
        proof {
            let ids = s.players();
            assert(ids.no_duplicates()) by {
                assert forall|i: int, j: int| 0 <= i < ids.len() && 0 <= j < ids.len() && i != j implies ids[i] != ids[j] by {
                    if i < j {
                        assert(s.players@[i]@ != s.players@[j]@);
                    } else {
                        assert(s.players@[j]@ != s.players@[i]@);
                    }
                }
            }
            assert forall|p: Seq<char>| ids.to_set().contains(p) <==> players_of(store@).contains(p) by {
                if players_of(store@).contains(p) {
                    let i = choose|i: int| 0 <= i < s.players@.len() && (#[trigger] s.players@[i])@ == p;
                    assert(ids[i] == p);
                }
                if ids.to_set().contains(p) {
                    let i = choose|i: int| 0 <= i < ids.len() && ids[i] == p;
                    assert(s.players@[i]@ == p);
                }
            }
            assert(ids.to_set() =~= players_of(store@));
            assert(s.processed() =~= Seq::<Seq<char>>::empty());
        }
        s
    }

    /// The next player to fetch: the first player after the cursor that is not
    /// processed yet, marked processed and fetched. `None` once every player of
    /// the pass is processed.
    pub fn next_fetch(&mut self) -> (r: Option<String>)
        requires
            old(self).wf(),
            !old(self).is_pending(),
        ensures
            final(self).wf(),
            final(self).players() == old(self).players(),
            final(self).no_guild_count() == old(self).no_guild_count(),
            final(self).failed_count() == old(self).failed_count(),
            match r {
                Some(p) => {
                    &&& final(self).is_pending()
                    &&& old(self).players().contains(p@)
                    &&& !old(self).processed().contains(p@)
                    &&& final(self).fetched() == old(self).fetched().push(p@)
                    &&& final(self).processed() == old(self).processed().push(p@)
                },
                None => {
                    &&& !final(self).is_pending()
                    &&& final(self).complete()
                    &&& final(self).fetched() == old(self).fetched()
                    &&& final(self).processed() == old(self).processed()
                },
            },
    {
        let ghost ids = self.players();
        while self.next < self.players.len()
            invariant
                self.wf(),
                !self.pending,
                self.players() == ids,
                ids == old(self).players(),
                self.players@ == old(self).players@,
                self.fetched() == old(self).fetched(),
                self.processed() == old(self).processed(),
                self.no_guild == old(self).no_guild,
                self.failed == old(self).failed,
            decreases self.players@.len() - self.next,
        {
            let i = self.next;
            self.next = i + 1;
            assert(self.players()[i as int] == self.players@[i as int]@);
            if !contains_id(&self.processed, &self.players[i]) {
                let p = self.players[i].clone();
                let ghost before = self.processed();
                self.processed.push(p.clone());
                self.fetched = Ghost(self.fetched@.push(p@));
                self.pending = true;
                proof {
                    assert(self.processed() =~= before.push(p@));
                    assert(!before.contains(p@)) by {
                        if before.contains(p@) {
                            let j = choose|j: int| 0 <= j < before.len() && before[j] == p@;
                            assert(old(self).processed@[j]@ == p@);
                        }
                    }
                    assert forall|j: int| 0 <= j < self.fetched@.len() implies self.processed().contains(#[trigger] self.fetched@[j]) by {
                        if j < self.fetched@.len() - 1 {
                            assert(before.contains(self.fetched@[j]));
                            let a = choose|a: int| 0 <= a < before.len() && before[a] == self.fetched@[j];
                            assert(self.processed()[a] == before[a]);
                        } else {
                            assert(self.processed()[self.processed().len() - 1] == p@);
                        }
                    }
                    assert forall|j: int| 0 <= j < self.next implies self.processed().contains(#[trigger] self.players()[j]) by {
                        if j < i {
                            let a = choose|a: int| 0 <= a < before.len() && before[a] == self.players()[j];
                            assert(self.processed()[a] == before[a]);
                        } else {
                            assert(self.processed()[self.processed().len() - 1] == p@);
                        }
                    }
                    assert(self.fetched@.no_duplicates()) by {
                        assert(!old(self).fetched@.contains(p@)) by {
                            if old(self).fetched@.contains(p@) {
                                let j = choose|j: int| 0 <= j < old(self).fetched@.len() && old(self).fetched@[j] == p@;
                                assert(before.contains(old(self).fetched@[j]));
                            }
                        }
                    }
                    assert(ids.contains(p@)) by {
                        assert(ids[i as int] == p@);
                    }
                }
                return Some(p);
            } else {
                proof {
                    let a = choose|a: int| 0 <= a < self.processed@.len() && (#[trigger] self.processed@[a])@ == self.players@[i as int]@;
                    assert(self.processed()[a] == self.players()[i as int]);
                }
            }
        }
        None
    }

    /// Takes the outcome of the fetch handed out last. A snapshot is upserted
    /// and its members are marked processed; `NoGuild` is counted and the
    /// player stays tracked; another failure is counted as failed. The pass
    /// goes on in every case.
    pub fn on_fetched(&mut self, store: &mut UptimeStore, result: Result<GuildSnapshot, FetchError>)
        requires
            old(self).wf(),
            old(self).is_pending(),
            old(store).wf(),
        ensures
            final(self).wf(),
            !final(self).is_pending(),
            final(self).players() == old(self).players(),
            final(self).fetched() == old(self).fetched(),
            final(store).wf(),
            match result {
                Ok(s) => {
                    &&& final(store)@ == apply_snapshot(old(store)@, s)
                    &&& final(self).processed() == old(self).processed() + member_ids(s.members@)
                    &&& final(self).no_guild_count() == old(self).no_guild_count()
                    &&& final(self).failed_count() == old(self).failed_count()
                },
                Err(FetchError::NoGuild) => {
                    &&& final(store)@ == old(store)@
                    &&& final(self).processed() == old(self).processed()
                    &&& final(self).no_guild_count() == old(self).no_guild_count() + 1
                    &&& final(self).failed_count() == old(self).failed_count()
                },
                Err(_) => {
                    &&& final(store)@ == old(store)@
                    &&& final(self).processed() == old(self).processed()
                    &&& final(self).no_guild_count() == old(self).no_guild_count()
                    &&& final(self).failed_count() == old(self).failed_count() + 1
                },
            },
    {
        self.pending = false;
        match result {
            Ok(s) => {
                store.upsert_snapshot(&s);
                let ghost before = self.processed();
                let mut i: usize = 0;
                while i < s.members.len()
                    invariant
                        i <= s.members@.len(),
                        self.processed() == before + member_ids(s.members@).take(i as int),
                        self.players == old(self).players,
                        self.next == old(self).next,
                        self.fetched == old(self).fetched,
                        self.pending == false,
                        self.no_guild == old(self).no_guild,
                        self.failed == old(self).failed,
                    decreases s.members@.len() - i,
                {
                    let ghost prev = self.processed@;
                    let id = s.members[i].player_id.clone();
                    self.processed.push(id);
                    assert(self.processed@ == prev.push(id));
                    assert(ids_of(prev.push(id)) =~= ids_of(prev).push(id@));
                    assert(member_ids(s.members@).take(i + 1) =~= member_ids(s.members@).take(i as int).push(id@));
                    assert(self.processed() =~= before + member_ids(s.members@).take(i + 1));
                    i += 1;
                }
                proof {
                    assert(member_ids(s.members@).take(i as int) =~= member_ids(s.members@));
                    assert forall|x: Seq<char>| before.contains(x) implies self.processed().contains(x) by {
                        let a = choose|a: int| 0 <= a < before.len() && before[a] == x;
                        assert(self.processed()[a] == before[a]);
                    }
                    assert forall|j: int| 0 <= j < self.fetched@.len() implies self.processed().contains(#[trigger] self.fetched@[j]) by {
                        assert(before.contains(self.fetched@[j]));
                    }
                    assert(self.players() == old(self).players());
                    assert forall|j: int| 0 <= j < self.next implies self.processed().contains(#[trigger] self.players()[j]) by {
                        assert(old(self).processed().contains(old(self).players()[j]));
                        assert(before.contains(self.players()[j]));
                    }
                    assert(self.wf());
                }
            },
            Err(FetchError::NoGuild) => {
                self.no_guild = self.no_guild + 1;
                assert(self.players() == old(self).players());
                assert(self.processed() == old(self).processed());
            },
            Err(_) => {
                self.failed = self.failed + 1;
                assert(self.players() == old(self).players());
                assert(self.processed() == old(self).processed());
            },
        }
    }

    /// How many fetches of the pass answered that the player is in no guild.
    pub fn no_guild(&self) -> (n: usize)
        ensures
            n == self.no_guild_count(),
    {
        self.no_guild
    }

    /// How many fetches of the pass failed otherwise.
    pub fn failed(&self) -> (n: usize)
        ensures
            n == self.failed_count(),
    {
        self.failed
    }

    /// How many players the pass covers.
    pub fn player_count(&self) -> (n: usize)
        ensures
            n == self.players().len(),
    {
        self.players.len()
    }
}

/// Within one pass no player is fetched twice, and only players of the pass
/// are fetched.
pub proof fn lemma_fetched_once(s: &Sweep)
    requires
        s.wf(),
    ensures
        s.fetched().no_duplicates(),
        forall|i: int| 0 <= i < s.fetched().len() ==> s.players().contains(#[trigger] s.fetched()[i]),
{
}

} // verus!
