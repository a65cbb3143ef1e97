use std::sync::Arc;
use vstd::prelude::*;
use crate::models::{
    emit, emit_log, extends, toasted, updated, GamePhase, InternalMsg, RoomSummary, RoomType, ToastKind,
};
use crate::game::chain::{self, ChainGame};
use crate::game::pinyin::{self, PinyinGame};
use crate::game::pinyin_utils::PinyinTable;
use crate::text::join;

verus! {

/// A member of a room's roster.
#[derive(Clone, Debug)]
pub struct RoomPlayer {
    pub id: i64,
    pub name: String,
    pub is_online: bool,
    pub is_spectator: bool,
    pub is_admin: bool,
    pub last_seen: u64,
}

/// The game a room is playing, if any.
pub enum GameSession {
    Idle,
    Chain(ChainGame),
    Pinyin(PinyinGame),
}

impl GameSession {
    pub open spec fn wf(&self) -> bool {
        match self {
            GameSession::Idle => true,
            GameSession::Chain(g) => g.wf(),
            GameSession::Pinyin(g) => g.wf(),
        }
    }

    /// The phase the room shows: Waiting without a session.
    pub open spec fn spec_phase(&self) -> GamePhase {
        match self {
            GameSession::Idle => GamePhase::Waiting,
            GameSession::Chain(g) => g.phase,
            GameSession::Pinyin(g) => g.phase,
        }
    }

    /// A game is running and has not reached Settlement.
    pub open spec fn in_progress(&self) -> bool {
        !(self is Idle) && self.spec_phase() != GamePhase::Settlement
    }

    /// The phase the room shows.
    pub fn phase(&self) -> (r: GamePhase)
        ensures
            r == self.spec_phase(),
    {
        match self {
            GameSession::Idle => GamePhase::Waiting,
            GameSession::Chain(g) => g.phase,
            GameSession::Pinyin(g) => g.phase,
        }
    }
}

/// Why a player could not join.
#[derive(Clone, Copy, Debug, PartialEq, Eq, Structural)]
pub enum JoinError {
    /// A game is running and the player is not a spectator.
    GameInProgress,
    /// Every player's place is taken.
    RoomFull,
}

impl JoinError {
    /// A sentence for the player.
    pub fn message(&self) -> (r: String)
        ensures
            r@ == (match self {
                JoinError::GameInProgress => "Game is in progress"@,
                JoinError::RoomFull => "Room is full"@,
            }),
    {
        match self {
            JoinError::GameInProgress => String::from_str("Game is in progress"),
            JoinError::RoomFull => String::from_str("Room is full"),
        }
    }
}

/// The roster's identities increase strictly, so each appears once.
pub open spec fn roster_sorted(s: Seq<RoomPlayer>) -> bool {
    forall|i: int, j: int| 0 <= i < j < s.len() ==> #[trigger] s[i].id < #[trigger] s[j].id
}

/// How many members of `s` are players rather than spectators.
pub open spec fn player_count(s: Seq<RoomPlayer>) -> nat
    decreases s.len(),
{
    if s.len() == 0 {
        0
    } else {
        player_count(s.drop_last()) + if s.last().is_spectator {
            0nat
        } else {
            1nat
        }
    }
}

/// The identities of the online players (not spectators) of `s`, in order.
pub open spec fn active_ids(s: Seq<RoomPlayer>) -> Seq<i64>
    decreases s.len(),
{
    if s.len() == 0 {
        Seq::empty()
    } else if s.last().is_online && !s.last().is_spectator {
        active_ids(s.drop_last()).push(s.last().id)
    } else {
        active_ids(s.drop_last())
    }
}

proof fn lemma_active_ids_increase(s: Seq<RoomPlayer>)
    requires
        roster_sorted(s),
    ensures
        forall|k: int| #![trigger active_ids(s)[k]] 0 <= k < active_ids(s).len() ==> exists|j: int| 0 <= j < s.len() && #[trigger] s[j].id == active_ids(s)[k],
        forall|a: int, b: int| 0 <= a < b < active_ids(s).len() ==> active_ids(s)[a] < active_ids(s)[b],
        active_ids(s).no_duplicates(),
    decreases s.len(),
{
    if s.len() > 0 {
        let t = s.drop_last();
        assert(roster_sorted(t)) by {
            assert forall|i: int, j: int| 0 <= i < j < t.len() implies #[trigger] t[i].id < #[trigger] t[j].id by {
                assert(t[i] == s[i]);
                assert(t[j] == s[j]);
            }
        }
        lemma_active_ids_increase(t);
        let a_t = active_ids(t);
        assert forall|k: int| 0 <= k < a_t.len() implies a_t[k] < s.last().id by {
            let j = choose|j: int| 0 <= j < t.len() && #[trigger] t[j].id == a_t[k];
            assert(t[j] == s[j]);
            assert(s[j].id < s[s.len() - 1].id);
        }
        assert forall|k: int| #![trigger active_ids(s)[k]] 0 <= k < active_ids(s).len() implies exists|j: int| 0 <= j < s.len() && #[trigger] s[j].id == active_ids(s)[k] by {
            if k < a_t.len() {
                let j = choose|j: int| 0 <= j < t.len() && #[trigger] t[j].id == a_t[k];
                assert(t[j] == s[j]);
                assert(s[j].id == active_ids(s)[k]);
            } else {
                assert(s[s.len() - 1].id == active_ids(s)[k]);
            }
        }
    }
    let v = active_ids(s);
    assert forall|i: int, j: int| 0 <= i < v.len() && 0 <= j < v.len() && i != j implies v[i] != v[j] by {
        if i < j {
            assert(v[i] < v[j]);
        } else {
            assert(v[j] < v[i]);
        }
    }
}

/// A room: its roster, its admins, its event outbox and at most one session.
pub struct Room {
    pub id: String,
    pub name: String,
    pub room_type: RoomType,
    pub max_players: usize,
    pub admin_ids: Vec<i64>,
    pub players: Vec<RoomPlayer>,
    pub session: GameSession,
    pub events: Vec<InternalMsg>,
}

impl Room {
    pub open spec fn wf(&self) -> bool {
        &&& roster_sorted(self.players@)
        &&& self.session.wf()
    }

    pub open spec fn has(&self, id: i64) -> bool {
        exists|i: int| 0 <= i < self.players@.len() && #[trigger] self.players@[i].id == id
    }

    pub open spec fn entry(&self, id: i64) -> RoomPlayer {
        self.players@[choose|i: int| 0 <= i < self.players@.len() && #[trigger] self.players@[i].id == id]
    }

    /// The roster, keyed by identity.
    pub open spec fn roster(&self) -> Map<i64, RoomPlayer> {
        Map::new(|id: i64| self.has(id), |id: i64| self.entry(id))
    }

    /// Whether `id` is an admin of this room.
    pub open spec fn is_room_admin(&self, id: i64) -> bool {
        self.admin_ids@.contains(id)
    }

    /// A new room of type `rtype` whose creator is its admin.
    pub fn new(id: String, name: String, rtype: RoomType, max_players: usize, creator_id: i64) -> (r: Self)
        ensures
            r.wf(),
            r.id == id,
            r.name == name,
            r.room_type == rtype,
            r.max_players == max_players,
            r.admin_ids@ == seq![creator_id],
            r.players@.len() == 0,
            r.session is Idle,
            r.events@.len() == 0,
    {
        let mut admin_ids: Vec<i64> = Vec::new();
        admin_ids.push(creator_id);
        Room {
            id,
            name,
            room_type: rtype,
            max_players,
            admin_ids,
            players: Vec::new(),
            session: GameSession::Idle,
            events: Vec::new(),
        }
    }

    /// The position of `id` in the roster, if it is there.
    pub fn find_player(&self, id: i64) -> (r: Option<usize>)
        requires
            self.wf(),
        ensures
            r is None <==> !self.has(id),
            r matches Some(i) ==> i < self.players@.len() && self.players@[i as int].id == id
                && self.entry(id) == self.players@[i as int],
    {
        let mut i: usize = 0;
        while i < self.players.len()
            invariant
                self.wf(),
                i <= self.players@.len(),
                forall|j: int| 0 <= j < i ==> #[trigger] self.players@[j].id != id,
            decreases self.players@.len() - i,
        {
            if self.players[i].id == id {
                proof {
                    let k = choose|k: int| 0 <= k < self.players@.len() && #[trigger] self.players@[k].id == id;
                    if k != i {
                        assert(self.players@[k].id != self.players@[i as int].id);
                    }
                }
                return Some(i);
            }
            i += 1;
        }
        None
    }

    /// Whether `id` is an admin of this room.
    pub fn admin_contains(&self, id: i64) -> (r: bool)
        ensures
            r == self.is_room_admin(id),
    {
        let mut i: usize = 0;
        while i < self.admin_ids.len()
            invariant
                i <= self.admin_ids@.len(),
                forall|j: int| 0 <= j < i ==> #[trigger] self.admin_ids@[j] != id,
            decreases self.admin_ids@.len() - i,
        {
            if self.admin_ids[i] == id {
                assert(self.admin_ids@[i as int] == id);
                return true;
            }
            i += 1;
        }
        false
    }

    /// How many roster members are players rather than spectators.
    pub fn count_players(&self) -> (r: usize)
        ensures
            r == player_count(self.players@),
    {
        let mut n: usize = 0;
        let mut i: usize = 0;
        while i < self.players.len()
            invariant
                i <= self.players@.len(),
                n == player_count(self.players@.subrange(0, i as int)),
                n <= i,
            decreases self.players@.len() - i,
        {
            assert(self.players@.subrange(0, i + 1).drop_last() =~= self.players@.subrange(0, i as int));
            if !self.players[i].is_spectator {
                n += 1;
            }
            i += 1;
        }
        assert(self.players@.subrange(0, self.players@.len() as int) =~= self.players@);
        n
    }

    /// The online players, not spectators, in roster order.
    pub fn active_players(&self) -> (r: Vec<i64>)
        ensures
            r@ == active_ids(self.players@),
    {
        let mut r: Vec<i64> = Vec::new();
        let mut i: usize = 0;
        while i < self.players.len()
            invariant
                i <= self.players@.len(),
                r@ == active_ids(self.players@.subrange(0, i as int)),
            decreases self.players@.len() - i,
        {
            assert(self.players@.subrange(0, i + 1).drop_last() =~= self.players@.subrange(0, i as int));
            if self.players[i].is_online && !self.players[i].is_spectator {
                r.push(self.players[i].id);
            }
            i += 1;
        }
        assert(self.players@.subrange(0, self.players@.len() as int) =~= self.players@);
        r
    }

    /// Puts `p` into the roster at its place by identity; `p.id` is new.
    fn insert_player(&mut self, p: RoomPlayer)
        requires
            old(self).wf(),
            !old(self).has(p.id),
        ensures
            final(self).wf(),
            final(self).roster() == old(self).roster().insert(p.id, p),
            *final(self) == (Room { players: final(self).players, ..*old(self) }),
    {
        let ghost s = self.players@;
        let mut k: usize = 0;
        while k < self.players.len() && self.players[k].id < p.id
            invariant
                k <= self.players@.len(),
                forall|j: int| 0 <= j < k ==> #[trigger] self.players@[j].id < p.id,
            decreases self.players@.len() - k,
        {
            k += 1;
        }
        let ghost pid = p.id;
        self.players.insert(k, p);
        proof {
            let t = self.players@;
            assert(t == s.insert(k as int, p));
            assert forall|i: int, j: int| 0 <= i < j < t.len() implies #[trigger] t[i].id < #[trigger] t[j].id by {
                if j < k {
                } else if j == k {
                } else if i < k {
                    assert(t[j] == s[j - 1]);
                    if k < s.len() {
                        assert(s[k as int].id >= p.id);
                        assert(s[k as int].id != p.id);
                    }
                } else if i == k {
                    assert(t[j] == s[j - 1]);
                    assert(s[k as int].id >= p.id);
                    assert(s[k as int].id != p.id);
                    if j - 1 > k {
                        assert(s[k as int].id < s[j - 1].id);
                    }
                } else {
                    assert(t[i] == s[i - 1]);
                    assert(t[j] == s[j - 1]);
                }
            }
            assert forall|id: i64| #[trigger] self.has(id) == (id == pid || exists|i: int| 0 <= i < s.len() && #[trigger] s[i].id == id) by {
                if self.has(id) {
                    let i = choose|i: int| 0 <= i < t.len() && #[trigger] t[i].id == id;
                    if i < k {
                        assert(s[i].id == id);
                    } else if i > k {
                        assert(s[i - 1].id == id);
                    }
                }
                if exists|i: int| 0 <= i < s.len() && #[trigger] s[i].id == id {
                    let i = choose|i: int| 0 <= i < s.len() && #[trigger] s[i].id == id;
                    if i < k {
                        assert(t[i].id == id);
                    } else {
                        assert(t[i + 1].id == id);
                    }
                }
                if id == pid {
                    assert(t[k as int].id == id);
                }
            }
        }
        assert(self.roster() =~= old(self).roster().insert(pid, p)) by {
            let t = self.players@;
            assert forall|id: i64| #[trigger] self.has(id) implies self.entry(id) == old(self).roster().insert(pid, p)[id] by {
                let i = choose|i: int| 0 <= i < t.len() && #[trigger] t[i].id == id;
                if id == pid {
                    if i != k {
                        assert(t[k as int].id == id);
                    }
                } else {
                    let oi = if i < k { i } else { i - 1 };
                    assert(s[oi].id == id);
                    assert(old(self).has(id));
                    let oc = choose|j: int| 0 <= j < s.len() && #[trigger] s[j].id == id;
                    if oc != oi {
                        assert(s[oc].id != s[oi].id);
                    }
                }
            }
        }
    }

    /// Takes the member at position `i` out of the roster.
    fn remove_player_at(&mut self, i: usize)
        requires
            old(self).wf(),
            i < old(self).players@.len(),
        ensures
            final(self).wf(),
            final(self).roster() == old(self).roster().remove(old(self).players@[i as int].id),
            final(self).players@.len() == old(self).players@.len() - 1,
            *final(self) == (Room { players: final(self).players, ..*old(self) }),
    {
        let ghost s = self.players@;
        let ghost pid = s[i as int].id;
        self.players.remove(i);
        proof {
            let t = self.players@;
            assert(t == s.remove(i as int));
            assert forall|a: int, b: int| 0 <= a < b < t.len() implies #[trigger] t[a].id < #[trigger] t[b].id by {
                let oa = if a < i { a } else { a + 1 };
                let ob = if b < i { b } else { b + 1 };
                assert(t[a] == s[oa]);
                assert(t[b] == s[ob]);
            }
        }
        assert(self.roster() =~= old(self).roster().remove(pid)) by {
            let t = self.players@;
            assert forall|id: i64| #[trigger] self.has(id) == (old(self).has(id) && id != pid) by {
                if self.has(id) {
                    let a = choose|a: int| 0 <= a < t.len() && #[trigger] t[a].id == id;
                    let oa = if a < i { a } else { a + 1 };
                    assert(s[oa].id == id);
                    if id == pid {
                        assert(oa != i);
                    }
                }
                if old(self).has(id) && id != pid {
                    let a = choose|a: int| 0 <= a < s.len() && #[trigger] s[a].id == id;
                    assert(a != i);
                    if a < i {
                        assert(t[a].id == id);
                    } else {
                        assert(t[a - 1].id == id);
                    }
                }
            }
            assert forall|id: i64| #[trigger] self.has(id) implies self.entry(id) == old(self).entry(id) by {
                let a = choose|a: int| 0 <= a < t.len() && #[trigger] t[a].id == id;
                let oa = if a < i { a } else { a + 1 };
                assert(s[oa].id == id);
                let oc = choose|j: int| 0 <= j < s.len() && #[trigger] s[j].id == id;
                if oc != oa {
                    assert(s[oc].id != s[oa].id);
                }
            }
        }
    }

    /// Replaces the member at position `i` with `p`, which has the same identity.
    fn set_player_at(&mut self, i: usize, p: RoomPlayer)
        requires
            old(self).wf(),
            i < old(self).players@.len(),
            p.id == old(self).players@[i as int].id,
        ensures
            final(self).wf(),
            final(self).roster() == old(self).roster().insert(p.id, p),
            final(self).players@.len() == old(self).players@.len(),
            *final(self) == (Room { players: final(self).players, ..*old(self) }),
    {
        let ghost s = self.players@;
        let ghost pp = p;
        self.players.set(i, p);
        proof {
            let t = self.players@;
            assert forall|a: int, b: int| 0 <= a < b < t.len() implies #[trigger] t[a].id < #[trigger] t[b].id by {
                assert(t[a].id == s[a].id);
                assert(t[b].id == s[b].id);
            }
            assert forall|id: i64| #[trigger] self.has(id) == old(self).has(id) by {
                if self.has(id) {
                    let a = choose|a: int| 0 <= a < t.len() && #[trigger] t[a].id == id;
                    assert(s[a].id == id);
                }
                if old(self).has(id) {
                    let a = choose|a: int| 0 <= a < s.len() && #[trigger] s[a].id == id;
                    assert(t[a].id == id);
                }
            }
        }
        assert(self.roster() =~= old(self).roster().insert(pp.id, pp)) by {
            let t = self.players@;
            assert forall|id: i64| #[trigger] self.has(id) implies self.entry(id) == old(self).roster().insert(pp.id, pp)[id] by {
                let a = choose|a: int| 0 <= a < t.len() && #[trigger] t[a].id == id;
                if a == i {
                } else {
                    assert(s[a].id == id);
                    let oc = choose|j: int| 0 <= j < s.len() && #[trigger] s[j].id == id;
                    if oc != a {
                        assert(s[oc].id != s[a].id);
                    }
                    assert(t[i as int].id == pp.id);
                    if id == pp.id {
                        assert(t[i as int].id != t[a].id);
                    }
                }
            }
            assert(self.has(pp.id)) by {
                assert(t[i as int].id == pp.id);
            }
        }
    }
}

/// The session after `pid` connected to it.
pub open spec fn session_joined(a: GameSession, b: GameSession, pid: i64) -> bool {
    match a {
        GameSession::Idle => b is Idle,
        GameSession::Chain(g) => b matches GameSession::Chain(h) && chain::join_post(g, h, pid),
        GameSession::Pinyin(g) => b matches GameSession::Pinyin(h) && pinyin::join_post(g, h, pid),
    }
}

/// The session after `pid` disconnected from it.
pub open spec fn session_left(a: GameSession, b: GameSession, pid: i64) -> bool {
    match a {
        GameSession::Idle => b is Idle,
        GameSession::Chain(g) => b matches GameSession::Chain(h) && chain::leave_post(g, h, pid),
        GameSession::Pinyin(g) => b matches GameSession::Pinyin(h) && pinyin::leave_post(g, h, pid),
    }
}

/// The session after the verb `act` from `pid` at `now`. Pinyin has no verbs.
pub open spec fn session_acted(a: GameSession, b: GameSession, pid: i64, act: Seq<char>, now: u64) -> bool {
    match a {
        GameSession::Chain(g) => b matches GameSession::Chain(h) && chain::action_post(g, h, pid, act, now),
        _ => b == a,
    }
}

/// The session after the answer `content` from `pid` at `now`.
pub open spec fn session_answered(a: GameSession, b: GameSession, pid: i64, content: String, now: u64) -> bool {
    match a {
        GameSession::Idle => b is Idle,
        GameSession::Chain(g) => b matches GameSession::Chain(h) && chain::answer_post(g, h, pid, content),
        GameSession::Pinyin(g) => b matches GameSession::Pinyin(h) && pinyin::answer_post(g, h, pid, content, now),
    }
}

/// The session after one beat of the clock at `now`.
pub open spec fn session_ticked(a: GameSession, b: GameSession, now: u64) -> bool {
    match a {
        GameSession::Idle => b is Idle,
        GameSession::Chain(g) => b matches GameSession::Chain(h) && chain::tick_post(g, h, now),
        GameSession::Pinyin(g) => b matches GameSession::Pinyin(h) && pinyin::tick_post(g, h, now),
    }
}

/// What `join` answers: a known member always gets in; a new player (not a
/// spectator) is refused while a game runs, or when the room is full.
pub open spec fn join_outcome(r: Room, pid: i64, is_spectator: bool) -> Result<(), JoinError> {
    if r.has(pid) {
        Ok(())
    } else if !is_spectator && r.session.in_progress() {
        Err(JoinError::GameInProgress)
    } else if !is_spectator && player_count(r.players@) >= r.max_players {
        Err(JoinError::RoomFull)
    } else {
        Ok(())
    }
}

/// The roster entry of `pid` after joining at `now`.
pub open spec fn joined_entry(
    r: Room,
    pid: i64,
    name: String,
    is_spectator: bool,
    is_site_admin: bool,
    now: u64,
) -> RoomPlayer {
    let admin = r.is_room_admin(pid) || is_site_admin;
    if r.has(pid) {
        RoomPlayer {
            is_online: true,
            last_seen: now,
            is_spectator,
            is_admin: admin,
            ..r.entry(pid)
        }
    } else {
        RoomPlayer { id: pid, name, is_online: true, is_spectator, is_admin: admin, last_seen: now }
    }
}

/// The roster after `pid` left at `now`: without a game, or for a spectator,
/// the entry goes; during a game the seat is kept and goes offline.
pub open spec fn roster_after_leave(r: Room, pid: i64, now: u64) -> Map<i64, RoomPlayer> {
    if !r.has(pid) {
        r.roster()
    } else if r.session is Idle || r.entry(pid).is_spectator {
        r.roster().remove(pid)
    } else {
        r.roster().insert(pid, RoomPlayer { is_online: false, last_seen: now, ..r.entry(pid) })
    }
}

/// The roster of `r` without its offline members.
pub open spec fn online_roster(r: Room) -> Map<i64, RoomPlayer> {
    r.roster().restrict(Set::new(|id: i64| r.has(id) && r.entry(id).is_online))
}

impl Room {
    /// `user_id` connects. A known member comes back with new flags; a new
    /// member is added unless refused (see `join_outcome`). The session hears
    /// of it.
    pub fn join(&mut self, user_id: i64, username: String, is_spectator: bool, is_site_admin: bool, now: u64) -> (r: Result<(), JoinError>)
        requires
            old(self).wf(),
        ensures
            final(self).wf(),
            extends(old(self).events@, final(self).events@),
            r == join_outcome(*old(self), user_id, is_spectator),
            r is Err ==> *final(self) == *old(self),
            r is Ok ==> {
                &&& final(self).roster() == old(self).roster().insert(
                    user_id,
                    joined_entry(*old(self), user_id, username, is_spectator, is_site_admin, now),
                )
                &&& session_joined(old(self).session, final(self).session, user_id)
                &&& *final(self) == (Room {
                    players: final(self).players,
                    session: final(self).session,
                    events: final(self).events,
                    ..*old(self)
                })
            },
    {
        let ghost r0 = *self;
        let is_room_admin = self.admin_contains(user_id) || is_site_admin;
        match self.find_player(user_id) {
            Some(i) => {
                let p = &self.players[i];
                let np = RoomPlayer {
                    id: p.id,
                    name: p.name.clone(),
                    is_online: true,
                    is_spectator,
                    is_admin: is_room_admin,
                    last_seen: now,
                };
                self.set_player_at(i, np);
                if !is_spectator {
                    emit_log(&mut self.events, "System", join(username.as_str(), " reconnected"));
                }
            },
            None => {
                let in_progress = match &self.session {
                    GameSession::Idle => false,
                    GameSession::Chain(g) => g.phase != GamePhase::Settlement,
                    GameSession::Pinyin(g) => g.phase != GamePhase::Settlement,
                };
                if !is_spectator && in_progress {
                    return Err(JoinError::GameInProgress);
                }
                if !is_spectator && self.count_players() >= self.max_players {
                    return Err(JoinError::RoomFull);
                }
                let text = join(username.as_str(), " joined");
                self.insert_player(RoomPlayer {
                    id: user_id,
                    name: username,
                    is_online: true,
                    is_spectator,
                    is_admin: is_room_admin,
                    last_seen: now,
                });
                if !is_spectator {
                    emit_log(&mut self.events, "System", text);
                }
            },
        }
        let ghost r1 = *self;
        match &mut self.session {
            GameSession::Chain(g) => g.handle_join(user_id, &mut self.events),
            GameSession::Pinyin(g) => g.handle_join(user_id, &mut self.events),
            GameSession::Idle => {},
        }
        emit(&mut self.events, InternalMsg::StateUpdated);
        proof {
            assert(self.roster() =~= r1.roster()) by {
                assert forall|id: i64| #[trigger] self.has(id) == r1.has(id) by {}
            }
        }
        Ok(())
    }

    /// `user_id` disconnects at `now` (see `roster_after_leave`); the session
    /// hears of it.
    pub fn leave(&mut self, user_id: i64, now: u64)
        requires
            old(self).wf(),
        ensures
            final(self).wf(),
            extends(old(self).events@, final(self).events@),
            final(self).roster() == roster_after_leave(*old(self), user_id, now),
            final(self).players@.len() + (if final(self).has(user_id) { 0int } else { 1int })
                == old(self).players@.len() + (if old(self).has(user_id) { 0int } else { 1int }),
            session_left(old(self).session, final(self).session, user_id),
            *final(self) == (Room {
                players: final(self).players,
                session: final(self).session,
                events: final(self).events,
                ..*old(self)
            }),
    {
        let is_idle = match &self.session {
            GameSession::Idle => true,
            _ => false,
        };
        match self.find_player(user_id) {
            Some(i) => {
                if is_idle || self.players[i].is_spectator {
                    self.remove_player_at(i);
                    proof {
                        assert(!self.roster().dom().contains(user_id));
                        assert(!self.has(user_id));
                    }
                } else {
                    let p = &self.players[i];
                    let text = join(p.name.as_str(), " left room");
                    let np = RoomPlayer {
                        id: p.id,
                        name: p.name.clone(),
                        is_online: false,
                        is_spectator: p.is_spectator,
                        is_admin: p.is_admin,
                        last_seen: now,
                    };
                    self.set_player_at(i, np);
                    proof {
                        assert(self.roster().dom().contains(user_id));
                        assert(self.has(user_id));
                    }
                    emit_log(&mut self.events, "System", text);
                }
            },
            None => {},
        }
        let ghost r1 = *self;
        let ghost had = self.has(user_id);
        match &mut self.session {
            GameSession::Chain(g) => g.handle_leave(user_id, &mut self.events),
            GameSession::Pinyin(g) => g.handle_leave(user_id, &mut self.events),
            GameSession::Idle => {},
        }
        emit(&mut self.events, InternalMsg::StateUpdated);
        proof {
            assert(self.roster() =~= r1.roster()) by {
                assert forall|id: i64| #[trigger] self.has(id) == r1.has(id) by {}
            }
            assert(self.players@ == r1.players@);
            assert(self.has(user_id) == had);
        }
    }

    /// Removes `user_id` for good at `now`: the leave takes effect, the entry
    /// goes, and a kick tells their connection to close.
    pub fn kick(&mut self, user_id: i64, now: u64)
        requires
            old(self).wf(),
        ensures
            final(self).wf(),
            extends(old(self).events@, final(self).events@),
            final(self).roster() == old(self).roster().remove(user_id),
            old(self).has(user_id) ==> final(self).players@.len() < old(self).players@.len(),
            final(self).players@.len() <= old(self).players@.len(),
            session_left(old(self).session, final(self).session, user_id),
            final(self).events@.contains(InternalMsg::Kick { target: user_id }),
            *final(self) == (Room {
                players: final(self).players,
                session: final(self).session,
                events: final(self).events,
                ..*old(self)
            }),
    {
        self.leave(user_id, now);
        proof {
            assert(self.has(user_id) == self.roster().dom().contains(user_id));
        }
        match self.find_player(user_id) {
            Some(i) => {
                self.remove_player_at(i);
            },
            None => {},
        }
        let ghost r1 = *self;
        emit(&mut self.events, InternalMsg::Kick { target: user_id });
        let ghost k = self.events@.len() - 1;
        emit(&mut self.events, InternalMsg::StateUpdated);
        proof {
            assert(self.events@[k] == InternalMsg::Kick { target: user_id });
            assert(self.roster() =~= r1.roster()) by {
                assert forall|id: i64| #[trigger] self.has(id) == r1.has(id) by {}
            }
            assert(r1.roster() =~= old(self).roster().remove(user_id));
        }
    }

    /// The position of the first offline member, if any.
    fn first_offline(&self) -> (r: Option<usize>)
        ensures
            r matches Some(i) ==> i < self.players@.len() && !self.players@[i as int].is_online,
            r is None ==> forall|i: int| 0 <= i < self.players@.len() ==> #[trigger] self.players@[i].is_online,
    {
        let mut i: usize = 0;
        while i < self.players.len()
            invariant
                i <= self.players@.len(),
                forall|j: int| 0 <= j < i ==> #[trigger] self.players@[j].is_online,
            decreases self.players@.len() - i,
        {
            if !self.players[i].is_online {
                return Some(i);
            }
            i += 1;
        }
        None
    }

    /// Kicks every offline member at `now`.
    pub fn kick_offline_players(&mut self, now: u64)
        requires
            old(self).wf(),
        ensures
            final(self).wf(),
            extends(old(self).events@, final(self).events@),
            final(self).roster() == online_roster(*old(self)),
            final(self).session.spec_phase() == old(self).session.spec_phase(),
            final(self).session is Idle <==> old(self).session is Idle,
            *final(self) == (Room {
                players: final(self).players,
                session: final(self).session,
                events: final(self).events,
                ..*old(self)
            }),
    {
        let ghost r0 = *self;
        loop
            invariant_except_break
                self.wf(),
                extends(r0.events@, self.events@),
                forall|id: i64| #[trigger] self.has(id) ==> r0.has(id) && self.entry(id) == r0.entry(id),
                forall|id: i64| r0.has(id) && r0.entry(id).is_online ==> #[trigger] self.has(id),
                self.session.spec_phase() == r0.session.spec_phase(),
                self.session is Idle <==> r0.session is Idle,
                *self == (Room { players: self.players, session: self.session, events: self.events, ..r0 }),
            ensures
                self.wf(),
                extends(r0.events@, self.events@),
                forall|id: i64| #[trigger] self.has(id) ==> r0.has(id) && self.entry(id) == r0.entry(id),
                forall|id: i64| r0.has(id) && r0.entry(id).is_online ==> #[trigger] self.has(id),
                self.session.spec_phase() == r0.session.spec_phase(),
                self.session is Idle <==> r0.session is Idle,
                *self == (Room { players: self.players, session: self.session, events: self.events, ..r0 }),
                forall|i: int| 0 <= i < self.players@.len() ==> #[trigger] self.players@[i].is_online,
            decreases self.players@.len(),
        {
            let i = match self.first_offline() {
                Some(i) => i,
                None => {
                    break;
                },
            };
            let ghost before = *self;
            let id = self.players[i].id;
            proof {
                assert(before.has(id));
                let c = choose|j: int| 0 <= j < before.players@.len() && #[trigger] before.players@[j].id == id;
                if c != i {
                    assert(before.players@[c].id != before.players@[i as int].id);
                }
                assert(!before.entry(id).is_online);
            }
            self.kick(id, now);
            proof {
                assert(self.roster().dom() =~= before.roster().dom().remove(id));
                assert forall|x: i64| #[trigger] self.has(x) implies r0.has(x) && self.entry(x) == r0.entry(x) by {
                    assert(self.roster().dom().contains(x));
                    assert(before.has(x));
                    assert(self.roster()[x] == before.roster()[x]);
                }
                assert forall|x: i64| r0.has(x) && r0.entry(x).is_online implies #[trigger] self.has(x) by {
                    assert(before.has(x));
                    assert(before.entry(x) == r0.entry(x));
                    assert(x != id);
                    assert(self.roster().dom().contains(x));
                }
                match before.session {
                    GameSession::Chain(g) => {
                        if g.seated(id) {
                            let k = choose|k: int| 0 <= k < g.n() && #[trigger] g.players@[k].id == id;
                            let mut m = k;
                            assert(exists|m: int| #[trigger] g.holds_seat(id, m)) by {
                                lemma_chain_first_seat(g, id, k);
                            }
                        }
                    },
                    GameSession::Pinyin(g) => {
                        if g.seated(id) {
                            let k = choose|k: int| 0 <= k < g.n() && #[trigger] g.players@[k].id == id;
                            assert(exists|m: int| #[trigger] g.holds_seat(id, m)) by {
                                lemma_pinyin_first_seat(g, id, k);
                            }
                        }
                    },
                    GameSession::Idle => {},
                }
            }
        }
        proof {
            assert(self.roster() =~= online_roster(r0)) by {
                assert forall|x: i64| #[trigger] self.has(x) implies self.entry(x).is_online by {
                    let c = choose|j: int| 0 <= j < self.players@.len() && #[trigger] self.players@[j].id == x;
                    assert(self.players@[c].is_online);
                }
            }
        }
    }
}

impl Room {
    /// Whether `id` is a spectator of this room.
    pub open spec fn is_spectator(&self, id: i64) -> bool {
        self.has(id) && self.entry(id).is_spectator
    }

    fn spectator(&self, id: i64) -> (r: bool)
        requires
            self.wf(),
        ensures
            r == self.is_spectator(id),
    {
        match self.find_player(id) {
            Some(i) => self.players[i].is_spectator,
            None => false,
        }
    }

    /// A verb from `user_id` at `now`, passed to the session unless they are a spectator.
    pub fn handle_action(&mut self, user_id: i64, action: &str, now: u64)
        requires
            old(self).wf(),
        ensures
            final(self).wf(),
            extends(old(self).events@, final(self).events@),
            old(self).is_spectator(user_id) ==> *final(self) == *old(self),
            !old(self).is_spectator(user_id) ==> session_acted(old(self).session, final(self).session, user_id, action@, now),
            *final(self) == (Room { session: final(self).session, events: final(self).events, ..*old(self) }),
    {
        if self.spectator(user_id) {
            return;
        }
        match &mut self.session {
            GameSession::Chain(g) => g.handle_action(user_id, action, now, &mut self.events),
            _ => {},
        }
    }

    /// An answer from `user_id` at `now`, passed to the session unless they are a spectator.
    pub fn handle_answer(&mut self, user_id: i64, content: String, now: u64)
        requires
            old(self).wf(),
        ensures
            final(self).wf(),
            extends(old(self).events@, final(self).events@),
            old(self).is_spectator(user_id) ==> *final(self) == *old(self),
            !old(self).is_spectator(user_id) ==> session_answered(old(self).session, final(self).session, user_id, content, now),
            *final(self) == (Room { session: final(self).session, events: final(self).events, ..*old(self) }),
    {
        if self.spectator(user_id) {
            return;
        }
        match &mut self.session {
            GameSession::Chain(g) => g.handle_answer(user_id, content, &mut self.events),
            GameSession::Pinyin(g) => g.handle_answer(user_id, content, now, &mut self.events),
            GameSession::Idle => {},
        }
    }

    /// One beat of the clock at `now`: the session ticks, and once it has
    /// settled the offline members are kicked.
    pub fn tick(&mut self, now: u64)
        requires
            old(self).wf(),
        ensures
            final(self).wf(),
            extends(old(self).events@, final(self).events@),
            final(self).session.spec_phase() != GamePhase::Settlement ==> {
                &&& session_ticked(old(self).session, final(self).session, now)
                &&& final(self).players == old(self).players
            },
            final(self).session.spec_phase() == GamePhase::Settlement ==> {
                &&& final(self).roster() == online_roster(*old(self))
                &&& exists|mid: GameSession| #[trigger] session_ticked(old(self).session, mid, now)
                    && mid.spec_phase() == GamePhase::Settlement
            },
            *final(self) == (Room {
                players: final(self).players,
                session: final(self).session,
                events: final(self).events,
                ..*old(self)
            }),
    {
        match &mut self.session {
            GameSession::Chain(g) => g.tick(now, &mut self.events),
            GameSession::Pinyin(g) => g.tick(now, &mut self.events),
            GameSession::Idle => {},
        }
        if self.session.phase() == GamePhase::Settlement {
            let ghost r1 = *self;
            self.kick_offline_players(now);
            proof {
                assert(r1.players == old(self).players);
                assert(r1.roster() =~= old(self).roster()) by {
                    assert forall|id: i64| #[trigger] r1.has(id) == old(self).has(id) by {}
                }
                assert(online_roster(r1) =~= online_roster(*old(self)));
                assert(session_ticked(old(self).session, r1.session, now));
            }
        }
    }

    /// Starts a game of the room's type with the online players at `now`.
    /// With none, a toast says so to everyone and nothing else changes.
    pub fn start_game(&mut self, problem: String, answer: String, hint: String, pinyin_table: Arc<PinyinTable>, now: u64)
        requires
            old(self).wf(),
            pinyin_table.wf(),
        ensures
            final(self).wf(),
            extends(old(self).events@, final(self).events@),
            *final(self) == (Room { session: final(self).session, events: final(self).events, ..*old(self) }),
            active_ids(old(self).players@).len() == 0 ==> final(self).session == old(self).session
                && toasted(old(self).events@, final(self).events@, 0),
            active_ids(old(self).players@).len() > 0 ==> updated(old(self).events@, final(self).events@),
            active_ids(old(self).players@).len() > 0 && old(self).room_type == RoomType::Chain ==> (final(self).session matches GameSession::Chain(g) && {
                &&& g.seated_from(g.seat_ids(), now)
                &&& g.seat_ids().to_multiset() == active_ids(old(self).players@).to_multiset()
                &&& g.problem_text@ == problem@
                &&& g.answer_text == answer
                &&& g.hint_text == hint
            }),
            active_ids(old(self).players@).len() > 0 && old(self).room_type == RoomType::Pinyin ==> (final(self).session matches GameSession::Pinyin(g) && {
                &&& g.seated_from(g.seat_ids(), now)
                &&& g.seat_ids().to_multiset() == active_ids(old(self).players@).to_multiset()
                &&& g.answer_text == answer
                &&& g.hint_text == hint
                &&& g.pinyin_table == pinyin_table
            }),
    {
        let active = self.active_players();
        proof {
            lemma_active_ids_increase(self.players@);
        }
        if active.len() == 0 {
            emit(&mut self.events, InternalMsg::Toast {
                to_user: 0,
                msg: String::from_str("Cannot start: No active players."),
                kind: ToastKind::Error,
            });
            return;
        }
        match self.room_type {
            RoomType::Chain => {
                let mut game = ChainGame::new(problem, answer, hint);
                game.start(active, now, &mut self.events);
                self.session = GameSession::Chain(game);
            },
            RoomType::Pinyin => {
                let mut game = PinyinGame::new(answer, hint, pinyin_table);
                game.start(active, now, &mut self.events);
                self.session = GameSession::Pinyin(game);
            },
        }
        emit(&mut self.events, InternalMsg::StateUpdated);
    }

    /// Ends the session, if any, and kicks the offline members.
    pub fn stop_game(&mut self, now: u64)
        requires
            old(self).wf(),
        ensures
            final(self).wf(),
            extends(old(self).events@, final(self).events@),
            final(self).session is Idle,
            final(self).roster() == online_roster(*old(self)),
            *final(self) == (Room {
                players: final(self).players,
                session: final(self).session,
                events: final(self).events,
                ..*old(self)
            }),
    {
        let ghost r0 = *self;
        self.session = GameSession::Idle;
        let ghost r1 = *self;
        self.kick_offline_players(now);
        emit(&mut self.events, InternalMsg::StateUpdated);
        proof {
            assert(r1.players == r0.players);
            assert(r1.roster() =~= r0.roster()) by {
                assert forall|id: i64| #[trigger] r1.has(id) == r0.has(id) by {}
            }
            assert(online_roster(r1) =~= online_roster(r0));
        }
    }

    /// The events published since the last call, oldest first.
    pub fn take_events(&mut self) -> (r: Vec<InternalMsg>)
        ensures
            r@ == old(self).events@,
            final(self).events@.len() == 0,
            *final(self) == (Room { events: final(self).events, ..*old(self) }),
    {
        let mut taken: Vec<InternalMsg> = Vec::new();
        std::mem::swap(&mut taken, &mut self.events);
        taken
    }

    /// What a room list shows of this room.
    pub fn summary(&self) -> (r: RoomSummary)
        ensures
            r.id == self.id,
            r.name == self.name,
            r.room_type == self.room_type,
            r.phase == self.session.spec_phase(),
            r.player_count == player_count(self.players@),
            r.max_players == self.max_players,
    {
        RoomSummary {
            id: self.id.clone(),
            name: self.name.clone(),
            room_type: self.room_type,
            phase: self.session.phase(),
            player_count: self.count_players(),
            max_players: self.max_players,
        }
    }
}

pub proof fn lemma_chain_first_seat(g: ChainGame, id: i64, k: int)
    requires
        0 <= k < g.n(),
        g.players@[k].id == id,
    ensures
        exists|m: int| #[trigger] g.holds_seat(id, m),
    decreases k,
{
    if forall|j: int| 0 <= j < k ==> #[trigger] g.players@[j].id != id {
        assert(g.holds_seat(id, k));
    } else {
        let j = choose|j: int| 0 <= j < k && #[trigger] g.players@[j].id == id;
        lemma_chain_first_seat(g, id, j);
    }
}

pub proof fn lemma_pinyin_first_seat(g: PinyinGame, id: i64, k: int)
    requires
        0 <= k < g.n(),
        g.players@[k].id == id,
    ensures
        exists|m: int| #[trigger] g.holds_seat(id, m),
    decreases k,
{
    if forall|j: int| 0 <= j < k ==> #[trigger] g.players@[j].id != id {
        assert(g.holds_seat(id, k));
    } else {
        let j = choose|j: int| 0 <= j < k && #[trigger] g.players@[j].id == id;
        lemma_pinyin_first_seat(g, id, j);
    }
}

} // verus!
