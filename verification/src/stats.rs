//! The statistics aggregator: immutable per-session records and a
//! per-game rolling daily histogram with lifetime totals.
//!
//! The store models the two relational tables as value-level rows with
//! the same upsert/replace semantics the repository exposes: recording a
//! session appends one immutable row, `update_statistics` replaces a
//! game's rollup wholesale, and reads parse the persisted JSON payload,
//! failing loudly on corruption. The merge arithmetic the caller
//! composes is provided as `merged_daily_stats`, with the invariant —
//! the lifetime total equals the sum of the daily entries, one entry
//! per day, never decreasing — proved of it.

use vstd::prelude::*;
use crate::errors::BackupError;
use crate::stats_json::{json_of_list, serialize_daily_stats, sp_list, parse_daily_stats};
use crate::textutil::str_eq;

verus! {

/// One day's playtime: the calendar day key and the seconds played.
#[derive(Debug)]
pub struct DailyStats {
    pub date: String,
    pub playtime: i32,
}

impl View for DailyStats {
    type V = (Seq<char>, int);

    open spec fn view(&self) -> (Seq<char>, int) {
        (self.date@, self.playtime as int)
    }
}

/// The views of a run of daily entries.
pub open spec fn daily_views(l: Seq<DailyStats>) -> Seq<(Seq<char>, int)> {
    l.map_values(|d: DailyStats| d@)
}

/// One completed play session; immutable once recorded.
#[derive(Debug)]
pub struct SessionRecord {
    pub session_id: i32,
    pub game_id: i32,
    pub start_time: i32,
    pub end_time: i32,
    pub duration: i32,
    pub date: String,
    pub created_at: Option<i32>,
}

/// The mathematical image of a session row.
pub struct SessionView {
    pub session_id: int,
    pub game_id: int,
    pub start_time: int,
    pub end_time: int,
    pub duration: int,
    pub date: Seq<char>,
    pub created_at: Option<int>,
}

impl View for SessionRecord {
    type V = SessionView;

    open spec fn view(&self) -> SessionView {
        SessionView {
            session_id: self.session_id as int,
            game_id: self.game_id as int,
            start_time: self.start_time as int,
            end_time: self.end_time as int,
            duration: self.duration as int,
            date: self.date@,
            created_at: match self.created_at {
                Some(t) => Some(t as int),
                None => None,
            },
        }
    }
}

/// A game's statistics rollup, one row per game: lifetime totals and the
/// daily histogram as its persisted JSON payload.
#[derive(Debug)]
pub struct GameStatistics {
    pub game_id: i32,
    pub total_time: Option<i32>,
    pub session_count: Option<i32>,
    pub last_played: Option<i32>,
    pub daily_stats: Option<String>,
}

/// The mathematical image of a statistics row.
pub struct StatsRowView {
    pub game_id: int,
    pub total_time: Option<int>,
    pub session_count: Option<int>,
    pub last_played: Option<int>,
    pub daily_stats: Option<Seq<char>>,
}

impl View for GameStatistics {
    type V = StatsRowView;

    open spec fn view(&self) -> StatsRowView {
        StatsRowView {
            game_id: self.game_id as int,
            total_time: match self.total_time {
                Some(t) => Some(t as int),
                None => None,
            },
            session_count: match self.session_count {
                Some(t) => Some(t as int),
                None => None,
            },
            last_played: match self.last_played {
                Some(t) => Some(t as int),
                None => None,
            },
            daily_stats: match self.daily_stats {
                Some(ref s) => Some(s@),
                None => None,
            },
        }
    }
}

/// Whether some row carries this game's statistics.
pub open spec fn has_game(rows: Seq<StatsRowView>, game_id: int) -> bool {
    exists|k: int| 0 <= k < rows.len() && rows[k].game_id == game_id
}

/// The index of this game's row.
pub open spec fn idx_of(rows: Seq<StatsRowView>, game_id: int) -> int {
    choose|k: int| 0 <= k < rows.len() && rows[k].game_id == game_id
}

/// One row per game: no two rows share a game id.
pub open spec fn unique_games(rows: Seq<StatsRowView>) -> bool {
    forall|i: int, j: int|
        0 <= i < j < rows.len() ==> (#[trigger] rows[i]).game_id != (#[trigger] rows[j]).game_id
}

/// Whether some session row carries this id.
pub open spec fn has_session(rows: Seq<SessionView>, session_id: int) -> bool {
    exists|k: int| 0 <= k < rows.len() && rows[k].session_id == session_id
}

/// The index of this session's row.
pub open spec fn session_idx_of(rows: Seq<SessionView>, session_id: int) -> int {
    choose|k: int| 0 <= k < rows.len() && rows[k].session_id == session_id
}

/// The views of a run of session records.
pub open spec fn session_views(l: Seq<SessionRecord>) -> Seq<SessionView> {
    l.map_values(|r: SessionRecord| r@)
}

/// A game's sessions, in recording order.
pub open spec fn game_sessions(rows: Seq<SessionView>, game_id: int) -> Seq<SessionView> {
    rows.filter(|r: SessionView| r.game_id == game_id)
}

/// Descending insertion of a session into a run sorted by start time:
/// it lands after every session that starts no earlier, the stable
/// position.
pub open spec fn insert_desc(x: SessionView, l: Seq<SessionView>) -> Seq<SessionView>
    decreases l.len(),
{
    if l.len() == 0 {
        seq![x]
    } else if l[0].start_time >= x.start_time {
        seq![l[0]] + insert_desc(x, l.drop_first())
    } else {
        seq![x] + l
    }
}

/// The run sorted by start time, newest first, ties keeping their
/// relative order.
pub open spec fn sort_desc(l: Seq<SessionView>) -> Seq<SessionView>
    decreases l.len(),
{
    if l.len() == 0 {
        Seq::<SessionView>::empty()
    } else {
        insert_desc(l.last(), sort_desc(l.drop_last()))
    }
}

/// The in-memory statistics store, standing for the two tables.
#[derive(Debug)]
pub struct GameStatsRepository {
    stats: Vec<GameStatistics>,
    sessions: Vec<SessionRecord>,
    next_session_id: i32,
}

impl GameStatsRepository {
    /// The statistics rows.
    pub closed spec fn rows(self) -> Seq<StatsRowView> {
        self.stats@.map_values(|r: GameStatistics| r@)
    }

    /// The session rows, in recording order.
    pub closed spec fn session_rows(self) -> Seq<SessionView> {
        self.sessions@.map_values(|r: SessionRecord| r@)
    }

    /// The id the next recorded session receives.
    pub closed spec fn next_id(self) -> int {
        self.next_session_id as int
    }

    /// The store's invariant: one statistics row per game, and session
    /// ids assigned in increasing order, so all distinct.
    pub closed spec fn wf(self) -> bool {
        &&& unique_games(self.rows())
        &&& forall|k: int|
            0 <= k < self.session_rows().len() ==> (#[trigger] self.session_rows()[k]).session_id
                < self.next_id()
        &&& forall|i: int, j: int|
            0 <= i < j < self.session_rows().len() ==> (#[trigger] self.session_rows()[i]).session_id
                != (#[trigger] self.session_rows()[j]).session_id
    }

    /// An empty store; session ids start at 1.
    pub fn new() -> (r: Self)
        ensures
            r.wf(),
            r.rows() == Seq::<StatsRowView>::empty(),
            r.session_rows() == Seq::<SessionView>::empty(),
    {
        let r = GameStatsRepository { stats: Vec::new(), sessions: Vec::new(), next_session_id: 1 };
        proof {
            assert(r.rows() =~= Seq::<StatsRowView>::empty());
            assert(r.session_rows() =~= Seq::<SessionView>::empty());
        }
        r
    }

    /// The index of this game's row, if any.
    fn find_row(&self, game_id: i32) -> (r: Option<usize>)
        requires
            self.wf(),
        ensures
            r matches Some(k) ==> k < self.rows().len() && self.rows()[k as int].game_id == game_id
                && k as int == idx_of(self.rows(), game_id as int),
            r is None ==> !has_game(self.rows(), game_id as int),
    {
        let mut i: usize = 0;
        while i < self.stats.len()
            invariant
                self.wf(),
                i <= self.rows().len(),
                self.rows().len() == self.stats@.len(),
                forall|k: int| 0 <= k < i ==> (#[trigger] self.rows()[k]).game_id != game_id,
            decreases self.stats@.len() - i,
        {
            if self.stats[i].game_id == game_id {
                proof {
                    assert(self.rows()[i as int].game_id == game_id);
                    let w = idx_of(self.rows(), game_id as int);
                    assert(0 <= w < self.rows().len() && self.rows()[w].game_id == game_id);
                    if w != i as int {
                        assert(false);
                    }
                }
                return Some(i);
            }
            i = i + 1;
        }
        None
    }

    /// Records one completed session: an immutable row with a fresh id
    /// and `created_at` stamped from the session end. Statistics rows
    /// are untouched; the caller follows up with a statistics merge.
    pub fn record_session(
        &mut self,
        game_id: i32,
        start_time: i32,
        end_time: i32,
        duration: i32,
        date: String,
    ) -> (sid: i32)
        requires
            old(self).wf(),
            old(self).next_id() < i32::MAX,
        ensures
            final(self).wf(),
            sid as int == old(self).next_id(),
            final(self).next_id() == old(self).next_id() + 1,
            final(self).rows() == old(self).rows(),
            final(self).session_rows() == old(self).session_rows().push(
                SessionView {
                    session_id: sid as int,
                    game_id: game_id as int,
                    start_time: start_time as int,
                    end_time: end_time as int,
                    duration: duration as int,
                    date: date@,
                    created_at: Some(end_time as int),
                },
            ),
    {
        let sid = self.next_session_id;
        let row = SessionRecord {
            session_id: sid,
            game_id,
            start_time,
            end_time,
            duration,
            date,
            created_at: Some(end_time),
        };
        let ghost prev = self.sessions@;
        self.sessions.push(row);
        self.next_session_id = sid + 1;
        proof {
            assert(self.session_rows() =~= prev.map_values(|r: SessionRecord| r@).push(
                self.sessions@.last()@,
            ));
            assert(self.rows() =~= old(self).rows());
        }
        sid
    }

    /// Replaces a game's rollup wholesale — an upsert, not a merge: the
    /// row gains exactly the given totals and the serialized payload of
    /// exactly the given daily list; every other row is untouched. The
    /// caller computes the merged daily list beforehand (see
    /// `merged_daily_stats`).
    pub fn update_statistics(
        &mut self,
        game_id: i32,
        total_time: i32,
        session_count: i32,
        last_played: Option<i32>,
        daily_stats: Vec<DailyStats>,
    )
        requires
            old(self).wf(),
        ensures
            final(self).wf(),
            final(self).session_rows() == old(self).session_rows(),
            final(self).next_id() == old(self).next_id(),
            ({
                let newrow = StatsRowView {
                    game_id: game_id as int,
                    total_time: Some(total_time as int),
                    session_count: Some(session_count as int),
                    last_played: match last_played {
                        Some(t) => Some(t as int),
                        None => None,
                    },
                    daily_stats: Some(json_of_list(daily_views(daily_stats@))),
                };
                if has_game(old(self).rows(), game_id as int) {
                    final(self).rows() == old(self).rows().update(
                        idx_of(old(self).rows(), game_id as int),
                        newrow,
                    )
                } else {
                    final(self).rows() == old(self).rows().push(newrow)
                }
            }),
    {
        let payload = serialize_daily_stats(&daily_stats);
        let row = GameStatistics {
            game_id,
            total_time: Some(total_time),
            session_count: Some(session_count),
            last_played,
            daily_stats: Some(payload),
        };
        let found = self.find_row(game_id);
        let ghost prev = self.stats@;
        match found {
            Some(k) => {
                self.stats.set(k, row);
                proof {
                    assert(self.rows() =~= prev.map_values(|r: GameStatistics| r@).update(
                        k as int,
                        self.stats@[k as int]@,
                    ));
                    assert(self.session_rows() =~= old(self).session_rows());
                    assert forall|i: int, j: int|
                        0 <= i < j < self.rows().len() implies (#[trigger] self.rows()[i]).game_id
                        != (#[trigger] self.rows()[j]).game_id by {
                        assert(old(self).rows()[i].game_id != old(self).rows()[j].game_id);
                    }
                }
            },
            None => {
                self.stats.push(row);
                proof {
                    assert(self.rows() =~= prev.map_values(|r: GameStatistics| r@).push(
                        self.stats@.last()@,
                    ));
                    assert(self.session_rows() =~= old(self).session_rows());
                    assert forall|i: int, j: int|
                        0 <= i < j < self.rows().len() implies (#[trigger] self.rows()[i]).game_id
                        != (#[trigger] self.rows()[j]).game_id by {
                        if j < self.rows().len() - 1 {
                            assert(old(self).rows()[i].game_id != old(self).rows()[j].game_id);
                        } else {
                            assert(self.rows()[j].game_id == game_id as int);
                            assert(!has_game(old(self).rows(), game_id as int));
                            assert(self.rows()[i] == old(self).rows()[i]);
                        }
                    }
                }
            },
        }
    }

    /// A copy of this game's row, if one exists.
    pub fn get_statistics(&self, game_id: i32) -> (r: Option<GameStatistics>)
        requires
            self.wf(),
        ensures
            r matches Some(row) ==> has_game(self.rows(), game_id as int) && row@ == self.rows()[
                idx_of(self.rows(), game_id as int)],
            r is None ==> !has_game(self.rows(), game_id as int),
    {
        match self.find_row(game_id) {
            Some(k) => Some(clone_stats_row(&self.stats[k])),
            None => None,
        }
    }

    /// Idempotent creation of a zeroed rollup: a fresh game gains a row
    /// with zero totals, no last-played stamp and an empty payload; an
    /// existing row is left exactly as it is.
    pub fn init_statistics_if_not_exists(&mut self, game_id: i32)
        requires
            old(self).wf(),
        ensures
            final(self).wf(),
            final(self).session_rows() == old(self).session_rows(),
            final(self).next_id() == old(self).next_id(),
            has_game(old(self).rows(), game_id as int) ==> final(self).rows() == old(self).rows(),
            !has_game(old(self).rows(), game_id as int) ==> final(self).rows() == old(
                self,
            ).rows().push(
                StatsRowView {
                    game_id: game_id as int,
                    total_time: Some(0),
                    session_count: Some(0),
                    last_played: None,
                    daily_stats: Some("[]"@),
                },
            ),
    {
        let found = self.find_row(game_id);
        let ghost prev = self.stats@;
        match found {
            Some(_) => {},
            None => {
                let row = GameStatistics {
                    game_id,
                    total_time: Some(0),
                    session_count: Some(0),
                    last_played: None,
                    daily_stats: Some("[]".to_owned()),
                };
                self.stats.push(row);
                proof {
                    assert(self.rows() =~= prev.map_values(|r: GameStatistics| r@).push(
                        self.stats@.last()@,
                    ));
                    assert(self.session_rows() =~= old(self).session_rows());
                    assert forall|i: int, j: int|
                        0 <= i < j < self.rows().len() implies (#[trigger] self.rows()[i]).game_id
                        != (#[trigger] self.rows()[j]).game_id by {
                        if j < self.rows().len() - 1 {
                            assert(old(self).rows()[i].game_id != old(self).rows()[j].game_id);
                        } else {
                            assert(self.rows()[i] == old(self).rows()[i]);
                        }
                    }
                }
            },
        }
    }

    /// Removes a game's rollup, if present.
    pub fn delete_statistics(&mut self, game_id: i32)
        requires
            old(self).wf(),
        ensures
            final(self).wf(),
            final(self).session_rows() == old(self).session_rows(),
            final(self).next_id() == old(self).next_id(),
            has_game(old(self).rows(), game_id as int) ==> final(self).rows() == old(
                self,
            ).rows().remove(idx_of(old(self).rows(), game_id as int)),
            !has_game(old(self).rows(), game_id as int) ==> final(self).rows() == old(self).rows(),
    {
        let found = self.find_row(game_id);
        let ghost prev = self.stats@;
        match found {
            Some(k) => {
                self.stats.remove(k);
                proof {
                    assert(self.rows() =~= prev.map_values(|r: GameStatistics| r@).remove(
                        k as int,
                    ));
                    assert(self.session_rows() =~= old(self).session_rows());
                    let removed = old(self).rows().remove(k as int);
                    assert forall|i: int, j: int|
                        0 <= i < j < removed.len() implies (#[trigger] removed[i]).game_id != (
                    #[trigger] removed[j]).game_id by {
                        let oi = if i < k as int {
                            i
                        } else {
                            i + 1
                        };
                        let oj = if j < k as int {
                            j
                        } else {
                            j + 1
                        };
                        assert(removed[i] == old(self).rows()[oi]);
                        assert(removed[j] == old(self).rows()[oj]);
                        assert(old(self).rows()[oi].game_id != old(self).rows()[oj].game_id);
                    }
                }
            },
            None => {},
        }
    }

    /// The index of this session's row, if any.
    fn find_session(&self, session_id: i32) -> (r: Option<usize>)
        requires
            self.wf(),
        ensures
            r matches Some(k) ==> k < self.session_rows().len() && self.session_rows()[
                k as int
            ].session_id == session_id && k as int == session_idx_of(
                self.session_rows(),
                session_id as int,
            ),
            r is None ==> !has_session(self.session_rows(), session_id as int),
    {
        let mut i: usize = 0;
        while i < self.sessions.len()
            invariant
                self.wf(),
                i <= self.session_rows().len(),
                self.session_rows().len() == self.sessions@.len(),
                forall|k: int|
                    0 <= k < i ==> (#[trigger] self.session_rows()[k]).session_id != session_id,
            decreases self.sessions@.len() - i,
        {
            if self.sessions[i].session_id == session_id {
                proof {
                    assert(self.session_rows()[i as int].session_id == session_id);
                    let w = session_idx_of(self.session_rows(), session_id as int);
                    assert(0 <= w < self.session_rows().len() && self.session_rows()[w].session_id
                        == session_id);
                    if w != i as int {
                        assert(false);
                    }
                }
                return Some(i);
            }
            i = i + 1;
        }
        None
    }

    /// Removes one recorded session, if present; every other session
    /// row keeps its place.
    pub fn delete_session(&mut self, session_id: i32)
        requires
            old(self).wf(),
        ensures
            final(self).wf(),
            final(self).rows() == old(self).rows(),
            final(self).next_id() == old(self).next_id(),
            has_session(old(self).session_rows(), session_id as int) ==> final(self).session_rows()
                == old(self).session_rows().remove(
                session_idx_of(old(self).session_rows(), session_id as int),
            ),
            !has_session(old(self).session_rows(), session_id as int) ==> final(self).session_rows()
                == old(self).session_rows(),
    {
        let found = self.find_session(session_id);
        let ghost prev = self.sessions@;
        match found {
            Some(k) => {
                self.sessions.remove(k);
                proof {
                    assert(self.session_rows() =~= prev.map_values(|r: SessionRecord| r@).remove(
                        k as int,
                    ));
                    assert(self.rows() =~= old(self).rows());
                    let removed = old(self).session_rows().remove(k as int);
                    assert forall|m: int, j: int|
                        0 <= m < j < removed.len() implies (#[trigger] removed[m]).session_id != (
                    #[trigger] removed[j]).session_id by {
                        let om = if m < k as int {
                            m
                        } else {
                            m + 1
                        };
                        let oj = if j < k as int {
                            j
                        } else {
                            j + 1
                        };
                        assert(removed[m] == old(self).session_rows()[om]);
                        assert(removed[j] == old(self).session_rows()[oj]);
                    }
                    assert forall|m: int|
                        0 <= m < removed.len() implies (#[trigger] removed[m]).session_id
                        < self.next_id() by {
                        let om = if m < k as int {
                            m
                        } else {
                            m + 1
                        };
                        assert(removed[m] == old(self).session_rows()[om]);
                    }
                }
            },
            None => {},
        }
    }

    /// Copies of all statistics rows, in storage order.
    pub fn get_all_statistics(&self) -> (r: Vec<GameStatistics>)
        ensures
            r@.map_values(|row: GameStatistics| row@) == self.rows(),
    {
        let mut out: Vec<GameStatistics> = Vec::new();
        let mut i: usize = 0;
        while i < self.stats.len()
            invariant
                i <= self.stats@.len(),
                out@.map_values(|row: GameStatistics| row@) =~= self.stats@.map_values(
                    |row: GameStatistics| row@,
                ).take(i as int),
            decreases self.stats@.len() - i,
        {
            let ghost prev = out@;
            out.push(clone_stats_row(&self.stats[i]));
            i = i + 1;
            proof {
                assert(out@.last()@ == self.stats@[i - 1]@);
                assert(out@.map_values(|row: GameStatistics| row@) =~= prev.map_values(
                    |row: GameStatistics| row@,
                ).push(out@.last()@));
                assert(out@.map_values(|row: GameStatistics| row@) =~= self.stats@.map_values(
                    |row: GameStatistics| row@,
                ).take(i as int));
            }
        }
        proof {
            assert(self.stats@.map_values(|row: GameStatistics| row@).take(
                self.stats@.len() as int,
            ) =~= self.rows());
        }
        out
    }

    /// Copies of the rows whose games are among `game_ids`, in storage
    /// order.
    pub fn get_statistics_batch(&self, game_ids: &Vec<i32>) -> (r: Vec<GameStatistics>)
        ensures
            r@.map_values(|row: GameStatistics| row@) == self.rows().filter(
                |row: StatsRowView| game_ids@.map_values(|g: i32| g as int).contains(row.game_id),
            ),
    {
        let ghost wanted = game_ids@.map_values(|g: i32| g as int);
        let mut out: Vec<GameStatistics> = Vec::new();
        let mut i: usize = 0;
        while i < self.stats.len()
            invariant
                i <= self.stats@.len(),
                wanted == game_ids@.map_values(|g: i32| g as int),
                out@.map_values(|row: GameStatistics| row@) == self.rows().take(i as int).filter(
                    |row: StatsRowView| wanted.contains(row.game_id),
                ),
                self.rows().len() == self.stats@.len(),
            decreases self.stats@.len() - i,
        {
            let ghost prev = out@;
            let keep = contains_id(game_ids, self.stats[i].game_id);
            if keep {
                out.push(clone_stats_row(&self.stats[i]));
            }
            i = i + 1;
            proof {
                reveal_with_fuel(Seq::<_>::filter, 2);
                let k = (i - 1) as int;
                assert(self.rows().take(i as int).drop_last() =~= self.rows().take(k));
                assert(self.rows().take(i as int).last() == self.rows()[k]);
                assert(self.rows()[k] == self.stats@[k]@);
                if keep {
                    assert(out@.last()@ == self.rows()[k]);
                    assert(out@.map_values(|row: GameStatistics| row@) =~= prev.map_values(
                        |row: GameStatistics| row@,
                    ).push(self.rows()[k]));
                }
                assert(out@.map_values(|row: GameStatistics| row@) == self.rows().take(
                    i as int,
                ).filter(|row: StatsRowView| wanted.contains(row.game_id)));
            }
        }
        proof {
            assert(self.rows().take(self.rows().len() as int) =~= self.rows());
        }
        out
    }

    /// The game's session history: its sessions sorted by start time,
    /// newest first (ties keeping recording order), with the page
    /// `offset..offset+limit` of that ordering returned.
    pub fn get_sessions(&self, game_id: i32, limit: u64, offset: u64) -> (r: Vec<SessionRecord>)
        ensures
            ({
                let sorted = sort_desc(game_sessions(self.session_rows(), game_id as int));
                let lo = if offset as int <= sorted.len() {
                    offset as int
                } else {
                    sorted.len() as int
                };
                let hi = if offset + limit <= sorted.len() {
                    offset + limit
                } else {
                    sorted.len() as int
                };
                session_views(r@) == sorted.subrange(lo, hi)
            }),
    {
        let ghost rows = self.session_rows();
        // Collect the game's sessions in recording order.
        let mut filtered: Vec<SessionRecord> = Vec::new();
        let mut i: usize = 0;
        while i < self.sessions.len()
            invariant
                i <= self.sessions@.len(),
                rows == self.session_rows(),
                rows.len() == self.sessions@.len(),
                session_views(filtered@) == rows.take(i as int).filter(
                    |r: SessionView| r.game_id == game_id as int,
                ),
            decreases self.sessions@.len() - i,
        {
            let ghost prev = filtered@;
            let keep = self.sessions[i].game_id == game_id;
            if keep {
                filtered.push(clone_session(&self.sessions[i]));
            }
            i = i + 1;
            proof {
                reveal_with_fuel(Seq::<_>::filter, 2);
                let k = (i - 1) as int;
                assert(rows.take(i as int).drop_last() =~= rows.take(k));
                assert(rows.take(i as int).last() == rows[k]);
                assert(rows[k] == self.sessions@[k]@);
                if keep {
                    assert(filtered@.last()@ == rows[k]);
                    assert(session_views(filtered@) =~= session_views(prev).push(rows[k]));
                }
                assert(session_views(filtered@) == rows.take(i as int).filter(
                    |r: SessionView| r.game_id == game_id as int,
                ));
            }
        }
        proof {
            assert(rows.take(rows.len() as int) =~= rows);
        }
        let ghost gs = game_sessions(rows, game_id as int);
        // Stable insertion sort, newest first.
        let mut sorted_v: Vec<SessionRecord> = Vec::new();
        let mut i: usize = 0;
        while i < filtered.len()
            invariant
                i <= filtered@.len(),
                gs == session_views(filtered@),
                session_views(sorted_v@) == sort_desc(gs.take(i as int)),
            decreases filtered@.len() - i,
        {
            let x = clone_session(&filtered[i]);
            let mut k: usize = 0;
            while k < sorted_v.len() && sorted_v[k].start_time >= x.start_time
                invariant
                    k <= sorted_v@.len(),
                    x@ == filtered@[i as int]@,
                    i < filtered@.len(),
                    forall|j: int|
                        0 <= j < k ==> (#[trigger] session_views(sorted_v@)[j]).start_time
                            >= x@.start_time,
                decreases sorted_v@.len() - k,
            {
                proof {
                    assert(session_views(sorted_v@)[k as int] == sorted_v@[k as int]@);
                }
                k = k + 1;
            }
            let ghost prev = session_views(sorted_v@);
            sorted_v.insert(k, x);
            i = i + 1;
            proof {
                let kk = k as int;
                let m = (i - 1) as int;
                assert(kk == prev.len() || prev[kk].start_time < gs[m].start_time) by {
                    if kk < prev.len() {
                        assert(prev[kk] == sorted_v@[kk + 1]@);
                    }
                }
                lemma_insert_desc_at(gs[m], prev, kk);
                assert(session_views(sorted_v@) =~= prev.take(kk) + seq![gs[m]] + prev.skip(kk));
                assert(gs.take(i as int).drop_last() =~= gs.take(m));
                assert(gs.take(i as int).last() == gs[m]);
                assert(session_views(sorted_v@) == sort_desc(gs.take(i as int)));
            }
        }
        proof {
            assert(gs.take(gs.len() as int) =~= gs);
        }
        let ghost sorted = sort_desc(gs);
        // The requested page of the ordering.
        let n = sorted_v.len();
        let lo: usize = if offset >= n as u64 {
            n
        } else {
            offset as usize
        };
        let take_n: usize = if limit >= (n - lo) as u64 {
            n - lo
        } else {
            limit as usize
        };
        let mut out: Vec<SessionRecord> = Vec::new();
        let mut i: usize = 0;
        while i < take_n
            invariant
                i <= take_n,
                n == sorted_v@.len(),
                lo + take_n <= n,
                session_views(sorted_v@) == sorted,
                session_views(out@) == sorted.subrange(lo as int, lo + i),
            decreases take_n - i,
        {
            let ghost prev = out@;
            out.push(clone_session(&sorted_v[lo + i]));
            i = i + 1;
            proof {
                let m = lo + (i - 1);
                assert(out@.last()@ == sorted_v@[m as int]@);
                assert(sorted_v@[m as int]@ == session_views(sorted_v@)[m as int]);
                assert(session_views(out@) =~= session_views(prev).push(sorted[m as int]));
                assert(session_views(out@) =~= sorted.subrange(lo as int, lo + i));
            }
        }
        out
    }

    /// The most recent sessions across a set of games: the named games'
    /// sessions sorted by start time, newest first (ties keeping
    /// recording order), capped at ten times the per-game page size —
    /// the prefetch the caller groups per game.
    pub fn get_recent_sessions_for_all(&self, game_ids: &Vec<i32>, limit: u64) -> (r: Vec<
        SessionRecord,
    >)
        ensures
            ({
                let sorted = sort_desc(
                    self.session_rows().filter(
                        |x: SessionView|
                            game_ids@.map_values(|g: i32| g as int).contains(x.game_id),
                    ),
                );
                let hi = if 10 * limit <= sorted.len() {
                    10 * limit
                } else {
                    sorted.len() as int
                };
                session_views(r@) == sorted.subrange(0, hi)
            }),
    {
        let ghost rows = self.session_rows();
        let ghost wanted = game_ids@.map_values(|g: i32| g as int);
        let mut filtered: Vec<SessionRecord> = Vec::new();
        let mut i: usize = 0;
        while i < self.sessions.len()
            invariant
                i <= self.sessions@.len(),
                rows == self.session_rows(),
                rows.len() == self.sessions@.len(),
                wanted == game_ids@.map_values(|g: i32| g as int),
                session_views(filtered@) == rows.take(i as int).filter(
                    |x: SessionView| wanted.contains(x.game_id),
                ),
            decreases self.sessions@.len() - i,
        {
            let ghost prev = filtered@;
            let keep = contains_id(game_ids, self.sessions[i].game_id);
            if keep {
                filtered.push(clone_session(&self.sessions[i]));
            }
            i = i + 1;
            proof {
                reveal_with_fuel(Seq::<_>::filter, 2);
                let k = (i - 1) as int;
                assert(rows.take(i as int).drop_last() =~= rows.take(k));
                assert(rows.take(i as int).last() == rows[k]);
                assert(rows[k] == self.sessions@[k]@);
                if keep {
                    assert(filtered@.last()@ == rows[k]);
                    assert(session_views(filtered@) =~= session_views(prev).push(rows[k]));
                }
                assert(session_views(filtered@) == rows.take(i as int).filter(
                    |x: SessionView| wanted.contains(x.game_id),
                ));
            }
        }
        proof {
            assert(rows.take(rows.len() as int) =~= rows);
        }
        let ghost gs = rows.filter(|x: SessionView| wanted.contains(x.game_id));
        // Stable insertion sort, newest first.
        let mut sorted_v: Vec<SessionRecord> = Vec::new();
        let mut i: usize = 0;
        while i < filtered.len()
            invariant
                i <= filtered@.len(),
                gs == session_views(filtered@),
                session_views(sorted_v@) == sort_desc(gs.take(i as int)),
            decreases filtered@.len() - i,
        {
            let x = clone_session(&filtered[i]);
            let mut k: usize = 0;
            while k < sorted_v.len() && sorted_v[k].start_time >= x.start_time
                invariant
                    k <= sorted_v@.len(),
                    x@ == filtered@[i as int]@,
                    i < filtered@.len(),
                    forall|j: int|
                        0 <= j < k ==> (#[trigger] session_views(sorted_v@)[j]).start_time
                            >= x@.start_time,
                decreases sorted_v@.len() - k,
            {
                proof {
                    assert(session_views(sorted_v@)[k as int] == sorted_v@[k as int]@);
                }
                k = k + 1;
            }
            let ghost prev = session_views(sorted_v@);
            sorted_v.insert(k, x);
            i = i + 1;
            proof {
                let kk = k as int;
                let m = (i - 1) as int;
                assert(kk == prev.len() || prev[kk].start_time < gs[m].start_time) by {
                    if kk < prev.len() {
                        assert(prev[kk] == sorted_v@[kk + 1]@);
                    }
                }
                lemma_insert_desc_at(gs[m], prev, kk);
                assert(session_views(sorted_v@) =~= prev.take(kk) + seq![gs[m]] + prev.skip(kk));
                assert(gs.take(i as int).drop_last() =~= gs.take(m));
                assert(gs.take(i as int).last() == gs[m]);
                assert(session_views(sorted_v@) == sort_desc(gs.take(i as int)));
            }
        }
        proof {
            assert(gs.take(gs.len() as int) =~= gs);
        }
        let ghost sorted = sort_desc(gs);
        // The capped prefix, avoiding overflow in the tenfold cap.
        let n = sorted_v.len();
        let take_n: usize = if limit >= n as u64 {
            n
        } else if limit as usize > n / 10 {
            n
        } else {
            10 * (limit as usize)
        };
        proof {
            assert(take_n as int == if 10 * limit <= sorted.len() {
                10 * (limit as int)
            } else {
                sorted.len() as int
            });
        }
        let mut out: Vec<SessionRecord> = Vec::new();
        let mut i: usize = 0;
        while i < take_n
            invariant
                i <= take_n,
                n == sorted_v@.len(),
                take_n <= n,
                session_views(sorted_v@) == sorted,
                session_views(out@) == sorted.subrange(0, i as int),
            decreases take_n - i,
        {
            let ghost prev = out@;
            out.push(clone_session(&sorted_v[i]));
            i = i + 1;
            proof {
                let m = (i - 1) as int;
                assert(out@.last()@ == sorted_v@[m]@);
                assert(sorted_v@[m]@ == session_views(sorted_v@)[m]);
                assert(session_views(out@) =~= session_views(prev).push(sorted[m]));
                assert(session_views(out@) =~= sorted.subrange(0, i as int));
            }
        }
        out
    }

    /// Today's playtime for a game: the first histogram entry carrying
    /// `today`, or zero when the game has no row, no payload, or no
    /// entry for the day. Only a malformed payload errs, with
    /// `StatsCorrupt`.
    pub fn get_today_playtime(&self, game_id: i32, today: &str) -> (r: Result<i32, BackupError>)
        requires
            self.wf(),
        ensures
            !has_game(self.rows(), game_id as int) ==> r == Result::<i32, BackupError>::Ok(0i32),
            has_game(self.rows(), game_id as int) ==> ({
                let row = self.rows()[idx_of(self.rows(), game_id as int)];
                match row.daily_stats {
                    None => r == Result::<i32, BackupError>::Ok(0i32),
                    Some(js) => match sp_list(js) {
                        Some(l) => r matches Ok(v) && v as int == first_playtime(l, today@),
                        None => r matches Err(e) && e is StatsCorrupt,
                    },
                }
            }),
    {
        let found = self.find_row(game_id);
        let k = match found {
            Some(k) => k,
            None => {
                return Ok(0);
            },
        };
        proof {
            assert(self.rows()[k as int] == self.stats@[k as int]@);
        }
        let ghost row = self.rows()[idx_of(self.rows(), game_id as int)];
        let js = match &self.stats[k].daily_stats {
            Some(js) => js,
            None => {
                return Ok(0);
            },
        };
        proof {
            assert(row.daily_stats == Some(js@));
        }
        let parsed = match parse_daily_stats(js.as_str()) {
            Ok(l) => l,
            Err(_) => {
                return Err(BackupError::StatsCorrupt);
            },
        };
        let ghost l = daily_views(parsed@);
        proof {
            assert(sp_list(js@) == Some(l));
            assert(l.skip(0) =~= l);
        }
        let mut i: usize = 0;
        while i < parsed.len()
            invariant
                i <= parsed@.len(),
                l == daily_views(parsed@),
                first_playtime(l, today@) == first_playtime(l.skip(i as int), today@),
                has_game(self.rows(), game_id as int),
                ({
                    let row = self.rows()[idx_of(self.rows(), game_id as int)];
                    row.daily_stats is Some && sp_list(row.daily_stats->Some_0) == Some(l)
                }),
            decreases parsed@.len() - i,
        {
            proof {
                assert(l.skip(i as int)[0] == l[i as int]);
                assert(l[i as int] == parsed@[i as int]@);
            }
            if str_eq(parsed[i].date.as_str(), today) {
                proof {
                    assert(l.skip(i as int)[0].0 == today@);
                    assert(first_playtime(l.skip(i as int), today@) == l[i as int].1);
                }
                return Ok(parsed[i].playtime);
            }
            i = i + 1;
            proof {
                assert(l.skip(i - 1 as int).drop_first() =~= l.skip(i as int));
            }
        }
        proof {
            assert(l.skip(l.len() as int) =~= Seq::<(Seq<char>, int)>::empty());
        }
        Ok(0)
    }
}


/// The lifetime total a daily histogram carries: the sum of its
/// entries' seconds.
pub open spec fn daily_sum(l: Seq<(Seq<char>, int)>) -> int
    decreases l.len(),
{
    if l.len() == 0 {
        0
    } else {
        daily_sum(l.drop_last()) + l.last().1
    }
}

/// At most one histogram entry per distinct date key.
pub open spec fn unique_dates(l: Seq<(Seq<char>, int)>) -> bool {
    forall|i: int, j: int|
        0 <= i < j < l.len() ==> (#[trigger] l[i]).0 != (#[trigger] l[j]).0
}

/// Whether the histogram carries an entry for this day.
pub open spec fn has_date(l: Seq<(Seq<char>, int)>, day: Seq<char>) -> bool {
    exists|k: int| 0 <= k < l.len() && l[k].0 == day
}

/// The index of this day's entry.
pub open spec fn date_idx(l: Seq<(Seq<char>, int)>, day: Seq<char>) -> int {
    choose|k: int| 0 <= k < l.len() && l[k].0 == day
}

/// The merge a session composes onto the histogram: the day's entry
/// gains the session's seconds, or a fresh entry is appended.
pub open spec fn merged_spec(l: Seq<(Seq<char>, int)>, day: Seq<char>, s: int) -> Seq<
    (Seq<char>, int),
> {
    if has_date(l, day) {
        l.update(date_idx(l, day), (day, l[date_idx(l, day)].1 + s))
    } else {
        l.push((day, s))
    }
}

/// Updating one entry moves the sum by the difference.
proof fn lemma_sum_update(l: Seq<(Seq<char>, int)>, k: int, e: (Seq<char>, int))
    requires
        0 <= k < l.len(),
    ensures
        daily_sum(l.update(k, e)) == daily_sum(l) - l[k].1 + e.1,
    decreases l.len(),
{
    let u = l.update(k, e);
    if k == l.len() - 1 {
        assert(u.drop_last() =~= l.drop_last());
        assert(u.last() == e);
    } else {
        assert(u.drop_last() =~= l.drop_last().update(k, e));
        assert(u.last() == l.last());
        lemma_sum_update(l.drop_last(), k, e);
    }
}

/// The invariant the merge maintains: afterwards the histogram's sum has
/// grown by exactly the session's seconds — so a total kept equal to the
/// sum stays equal and never decreases — and the histogram still holds
/// at most one entry per date, the merged day among them.
pub proof fn lemma_merge_preserves_invariant(l: Seq<(Seq<char>, int)>, day: Seq<char>, s: int)
    requires
        unique_dates(l),
        s >= 0,
    ensures
        daily_sum(merged_spec(l, day, s)) == daily_sum(l) + s,
        daily_sum(merged_spec(l, day, s)) >= daily_sum(l),
        unique_dates(merged_spec(l, day, s)),
        has_date(merged_spec(l, day, s), day),
{
    let m = merged_spec(l, day, s);
    if has_date(l, day) {
        let k = date_idx(l, day);
        assert(0 <= k < l.len() && l[k].0 == day);
        lemma_sum_update(l, k, (day, l[k].1 + s));
        assert forall|i: int, j: int| 0 <= i < j < m.len() implies (#[trigger] m[i]).0 != (
        #[trigger] m[j]).0 by {
            assert(m[i].0 == l[i].0);
            assert(m[j].0 == l[j].0);
        }
        assert(m[k].0 == day);
    } else {
        assert(m.drop_last() =~= l);
        assert(m.last() == (day, s));
        assert forall|i: int, j: int| 0 <= i < j < m.len() implies (#[trigger] m[i]).0 != (
        #[trigger] m[j]).0 by {
            if j == m.len() - 1 {
                assert(m[i] == l[i]);
                if m[i].0 == day {
                    assert(has_date(l, day));
                }
            } else {
                assert(m[i] == l[i]);
                assert(m[j] == l[j]);
            }
        }
        assert(m[m.len() - 1].0 == day);
    }
}

/// Computes the merged histogram for one completed session: the entry
/// for `today` gains `seconds`, or a fresh `(today, seconds)` entry is
/// appended; every other entry is carried over unchanged, in order.
pub fn merged_daily_stats(daily: &Vec<DailyStats>, today: &str, seconds: i32) -> (r: Vec<
    DailyStats,
>)
    requires
        unique_dates(daily_views(daily@)),
        seconds >= 0,
        forall|k: int|
            0 <= k < daily_views(daily@).len() && (#[trigger] daily_views(daily@)[k]).0 == today@
                ==> daily_views(daily@)[k].1 + seconds <= i32::MAX,
    ensures
        daily_views(r@) == merged_spec(daily_views(daily@), today@, seconds as int),
{
    let ghost l = daily_views(daily@);
    let mut out: Vec<DailyStats> = Vec::new();
    let mut found = false;
    let ghost mut kk: int = 0;
    let mut i: usize = 0;
    while i < daily.len()
        invariant
            i <= daily@.len(),
            l == daily_views(daily@),
            unique_dates(l),
            seconds >= 0,
            forall|k: int|
                0 <= k < l.len() && (#[trigger] l[k]).0 == today@ ==> l[k].1 + seconds
                    <= i32::MAX,
            found == has_date(l.take(i as int), today@),
            !found ==> daily_views(out@) == l.take(i as int),
            found ==> 0 <= kk < i && l[kk].0 == today@ && daily_views(out@) == l.take(
                i as int,
            ).update(kk, (today@, l[kk].1 + seconds as int)),
        decreases daily@.len() - i,
    {
        proof {
            assert(l[i as int] == daily@[i as int]@);
        }
        let ghost prev = out@;
        let matches_today = str_eq(daily[i].date.as_str(), today);
        if matches_today && !found {
            proof {
                assert(l[i as int].0 == today@);
                assert(l[i as int].1 + seconds <= i32::MAX);
            }
            let entry = DailyStats {
                date: daily[i].date.clone(),
                playtime: daily[i].playtime + seconds,
            };
            out.push(entry);
            found = true;
            proof {
                kk = i as int;
            }
        } else {
            let entry = DailyStats { date: daily[i].date.clone(), playtime: daily[i].playtime };
            out.push(entry);
            proof {
                if matches_today {
                    assert(l[kk].0 == today@ && l[i as int].0 == today@ && kk < i);
                    assert(false);
                }
            }
        }
        i = i + 1;
        proof {
            assert(l.take(i as int).drop_last() =~= l.take(i - 1 as int));
            if found {
                assert(l.take(i as int)[kk].0 == today@);
                assert(has_date(l.take(i as int), today@));
            }
            assert(daily_views(out@) =~= daily_views(prev).push(out@.last()@));
            if found {
                assert(daily_views(out@) =~= l.take(i as int).update(
                    kk,
                    (today@, l[kk].1 + seconds as int),
                ));
            } else {
                assert(daily_views(out@) =~= l.take(i as int));
            }
            if has_date(l.take(i as int), today@) && !found {
                let w = date_idx(l.take(i as int), today@);
                assert(0 <= w < i && l.take(i as int)[w].0 == today@);
                if w < i - 1 {
                    assert(has_date(l.take(i - 1 as int), today@));
                }
                assert(false);
            }
        }
    }
    proof {
        assert(l.take(l.len() as int) =~= l);
    }
    if !found {
        let entry = DailyStats { date: today.to_owned(), playtime: seconds };
        let ghost prev = out@;
        out.push(entry);
        proof {
            assert(daily_views(out@) =~= daily_views(prev).push(out@.last()@));
            assert(!has_date(l, today@));
            assert(daily_views(out@) =~= merged_spec(l, today@, seconds as int));
        }
    } else {
        proof {
            assert(has_date(l, today@));
            let w = date_idx(l, today@);
            assert(0 <= w < l.len() && l[w].0 == today@);
            if w != kk {
                assert(false);
            }
            assert(daily_views(out@) =~= merged_spec(l, today@, seconds as int));
        }
    }
    out
}


/// Inserting before the first later-starting session is the stable
/// descending insertion.
proof fn lemma_insert_desc_at(x: SessionView, l: Seq<SessionView>, k: int)
    requires
        0 <= k <= l.len(),
        forall|j: int| 0 <= j < k ==> (#[trigger] l[j]).start_time >= x.start_time,
        k == l.len() || l[k].start_time < x.start_time,
    ensures
        insert_desc(x, l) == l.take(k) + seq![x] + l.skip(k),
    decreases k,
{
    if k == 0 {
        if l.len() == 0 {
            assert(insert_desc(x, l) =~= l.take(0) + seq![x] + l.skip(0));
        } else {
            assert(l[0].start_time < x.start_time);
            assert(insert_desc(x, l) =~= l.take(0) + seq![x] + l.skip(0));
        }
    } else {
        assert(l[0].start_time >= x.start_time);
        let rest = l.drop_first();
        assert forall|j: int| 0 <= j < k - 1 implies (#[trigger] rest[j]).start_time
            >= x.start_time by {
            assert(rest[j] == l[j + 1]);
        }
        assert(k - 1 == rest.len() || rest[k - 1].start_time < x.start_time) by {
            if k < l.len() {
                assert(rest[k - 1] == l[k]);
            }
        }
        lemma_insert_desc_at(x, rest, k - 1);
        assert(rest.take(k - 1) =~= l.take(k).drop_first());
        assert(rest.skip(k - 1) =~= l.skip(k));
        assert(insert_desc(x, l) =~= l.take(k) + seq![x] + l.skip(k));
    }
}

/// A field-by-field copy of a session row.
fn clone_session(r: &SessionRecord) -> (c: SessionRecord)
    ensures
        c@ == r@,
{
    SessionRecord {
        session_id: r.session_id,
        game_id: r.game_id,
        start_time: r.start_time,
        end_time: r.end_time,
        duration: r.duration,
        date: r.date.clone(),
        created_at: r.created_at,
    }
}

/// The playtime of the first entry for a day, or zero without one.
pub open spec fn first_playtime(l: Seq<(Seq<char>, int)>, day: Seq<char>) -> int
    decreases l.len(),
{
    if l.len() == 0 {
        0
    } else if l[0].0 == day {
        l[0].1
    } else {
        first_playtime(l.drop_first(), day)
    }
}

/// Whether `ids` holds `id`.
fn contains_id(ids: &Vec<i32>, id: i32) -> (r: bool)
    ensures
        r == ids@.map_values(|g: i32| g as int).contains(id as int),
{
    let ghost wanted = ids@.map_values(|g: i32| g as int);
    let mut i: usize = 0;
    while i < ids.len()
        invariant
            i <= ids@.len(),
            wanted == ids@.map_values(|g: i32| g as int),
            forall|k: int| 0 <= k < i ==> wanted[k] != id as int,
        decreases ids@.len() - i,
    {
        if ids[i] == id {
            proof {
                assert(wanted[i as int] == id as int);
            }
            return true;
        }
        i = i + 1;
    }
    proof {
        if wanted.contains(id as int) {
            let w = choose|k: int| 0 <= k < wanted.len() && wanted[k] == id as int;
            assert(wanted[w] != id as int);
        }
    }
    false
}


/// With unique dates, the first entry for a present day is the day's
/// only entry.
proof fn lemma_first_playtime_unique(l: Seq<(Seq<char>, int)>, day: Seq<char>)
    requires
        unique_dates(l),
        has_date(l, day),
    ensures
        first_playtime(l, day) == l[date_idx(l, day)].1,
    decreases l.len(),
{
    let k = date_idx(l, day);
    assert(0 <= k < l.len() && l[k].0 == day);
    if l[0].0 == day {
        if k != 0 {
            assert(false);
        }
    } else {
        let rest = l.drop_first();
        assert(rest[k - 1] == l[k]);
        assert(has_date(rest, day));
        assert forall|i: int, j: int| 0 <= i < j < rest.len() implies (
        #[trigger] rest[i]).0 != (#[trigger] rest[j]).0 by {
            assert(rest[i] == l[i + 1]);
            assert(rest[j] == l[j + 1]);
        }
        lemma_first_playtime_unique(rest, day);
        let w = date_idx(rest, day);
        assert(0 <= w < rest.len() && rest[w].0 == day);
        if w != k - 1 {
            assert(false);
        }
    }
}

/// Updating an entry of another day leaves a day's first playtime as it
/// was.
proof fn lemma_first_playtime_update_other(
    l: Seq<(Seq<char>, int)>,
    k: int,
    e: (Seq<char>, int),
    d2: Seq<char>,
)
    requires
        0 <= k < l.len(),
        l[k].0 != d2,
        e.0 != d2,
    ensures
        first_playtime(l.update(k, e), d2) == first_playtime(l, d2),
    decreases l.len(),
{
    let u = l.update(k, e);
    if k == 0 {
        assert(u[0].0 != d2 && l[0].0 != d2);
        assert(u.drop_first() =~= l.drop_first());
    } else {
        assert(u[0] == l[0]);
        assert(u.drop_first() =~= l.drop_first().update(k - 1, e));
        lemma_first_playtime_update_other(l.drop_first(), k - 1, e, d2);
    }
}

/// Appending an entry of another day leaves a day's first playtime as
/// it was.
proof fn lemma_first_playtime_push_other(l: Seq<(Seq<char>, int)>, e: (Seq<char>, int), d2: Seq<char>)
    requires
        e.0 != d2,
    ensures
        first_playtime(l.push(e), d2) == first_playtime(l, d2),
    decreases l.len(),
{
    let u = l.push(e);
    if l.len() == 0 {
        assert(u[0] == e);
        assert(u.drop_first() =~= Seq::<(Seq<char>, int)>::empty());
        assert(first_playtime(u, d2) == first_playtime(u.drop_first(), d2));
        assert(first_playtime(u.drop_first(), d2) == 0);
        assert(first_playtime(l, d2) == 0);
    } else {
        assert(u[0] == l[0]);
        assert(u.drop_first() =~= l.drop_first().push(e));
        lemma_first_playtime_push_other(l.drop_first(), e, d2);
        if l[0].0 == d2 {
            assert(first_playtime(u, d2) == u[0].1);
        } else {
            assert(first_playtime(u, d2) == first_playtime(u.drop_first(), d2));
        }
    }
}

/// What the merge does to the queried histogram: the merged day's
/// playtime grows by exactly the session's seconds, and every other
/// day reads as before. This is the agreement between the caller-side
/// merge and the store's day lookup.
pub proof fn lemma_merge_playtime(l: Seq<(Seq<char>, int)>, day: Seq<char>, s: int)
    requires
        unique_dates(l),
    ensures
        first_playtime(merged_spec(l, day, s), day) == first_playtime(l, day) + s,
        forall|d2: Seq<char>|
            d2 != day ==> #[trigger] first_playtime(merged_spec(l, day, s), d2)
                == first_playtime(l, d2),
{
    let m = merged_spec(l, day, s);
    if has_date(l, day) {
        let k = date_idx(l, day);
        assert(0 <= k < l.len() && l[k].0 == day);
        lemma_first_playtime_unique(l, day);
        assert(m == l.update(k, (day, l[k].1 + s)));
        assert forall|i: int, j: int| 0 <= i < j < m.len() implies (#[trigger] m[i]).0 != (
        #[trigger] m[j]).0 by {
            assert(m[i].0 == l[i].0);
            assert(m[j].0 == l[j].0);
        }
        assert(m[k].0 == day);
        assert(has_date(m, day));
        lemma_first_playtime_unique(m, day);
        let w = date_idx(m, day);
        if w != k {
            assert(m[w].0 == l[w].0);
            assert(false);
        }
        assert(first_playtime(m, day) == l[k].1 + s);
        assert forall|d2: Seq<char>| d2 != day implies #[trigger] first_playtime(m, d2)
            == first_playtime(l, d2) by {
            lemma_first_playtime_update_other(l, k, (day, l[k].1 + s), d2);
        }
    } else {
        assert(m == l.push((day, s)));
        assert(m[m.len() - 1].0 == day);
        assert(has_date(m, day));
        assert forall|i: int, j: int| 0 <= i < j < m.len() implies (#[trigger] m[i]).0 != (
        #[trigger] m[j]).0 by {
            if j == m.len() - 1 {
                assert(m[i] == l[i]);
                if m[i].0 == day {
                    assert(has_date(l, day));
                }
            } else {
                assert(m[i] == l[i]);
                assert(m[j] == l[j]);
            }
        }
        lemma_first_playtime_unique(m, day);
        let w = date_idx(m, day);
        if w != m.len() - 1 {
            assert(m[w] == l[w]);
            assert(has_date(l, day));
            assert(false);
        }
        assert(first_playtime(m, day) == s);
        lemma_first_playtime_absent(l, day);
        assert forall|d2: Seq<char>| d2 != day implies #[trigger] first_playtime(m, d2)
            == first_playtime(l, d2) by {
            lemma_first_playtime_push_other(l, (day, s), d2);
        }
    }
}

/// A day with no entry reads as zero.
proof fn lemma_first_playtime_absent(l: Seq<(Seq<char>, int)>, day: Seq<char>)
    requires
        !has_date(l, day),
    ensures
        first_playtime(l, day) == 0,
    decreases l.len(),
{
    if l.len() > 0 {
        assert(l[0].0 != day);
        let rest = l.drop_first();
        assert forall|k: int| 0 <= k < rest.len() implies (#[trigger] rest[k]).0 != day by {
            assert(rest[k] == l[k + 1]);
        }
        lemma_first_playtime_absent(rest, day);
    }
}

/// A field-by-field copy of a statistics row.
fn clone_stats_row(r: &GameStatistics) -> (c: GameStatistics)
    ensures
        c@ == r@,
{
    GameStatistics {
        game_id: r.game_id,
        total_time: r.total_time,
        session_count: r.session_count,
        last_played: r.last_played,
        daily_stats: match &r.daily_stats {
            Some(s) => Some(s.clone()),
            None => None,
        },
    }
}

} // verus!
