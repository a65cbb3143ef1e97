use vstd::prelude::*;
use crate::models::{
    emit, emit_log, extends, quiet, updated, GamePhase, GridCell, InternalMsg, PlayerStatus, SeatState,
    SessionViewData,
};
use crate::text::{chars_of, decimal, player_text, str_eq, usize_string};
use crate::game::seats::{
    deadline_after, hue_for_seat, later, ms_left, remaining, shuffle_ids, spec_hue, time_left,
};

verus! {

/// How long a picker may idle before a character is taken for them.
pub const TURN_MS: u64 = 3000;

/// How long the answering phase lasts.
pub const ANSWER_MS: u64 = 60000;

/// One seat of a Chain session.
#[derive(Clone, Debug)]
pub struct ChainPlayer {
    pub id: i64,
    pub color_hue: u16,
    pub status: PlayerStatus,
    pub obtained_indices: Vec<usize>,
    pub answer: Option<String>,
    pub is_online: bool,
}

/// The claim-then-guess game: players in a fixed order take the characters of
/// the problem one at a time from a shared cursor, then everyone answers.
pub struct ChainGame {
    pub phase: GamePhase,
    pub players: Vec<ChainPlayer>,
    pub problem_text: Vec<char>,
    pub answer_text: String,
    pub hint_text: String,
    pub cursor: usize,
    pub current_turn_idx: usize,
    pub turn_deadline: Option<u64>,
    pub answer_deadline: Option<u64>,
}

impl ChainGame {
    pub open spec fn n(&self) -> int {
        self.players@.len() as int
    }

    pub open spec fn len(&self) -> int {
        self.problem_text@.len() as int
    }

    pub open spec fn obt(&self, p: int) -> Seq<usize> {
        self.players@[p].obtained_indices@
    }

    /// Seat `p` has claimed the character at `idx`.
    pub open spec fn owns(&self, p: int, idx: int) -> bool {
        0 <= p < self.n() && exists|k: int|
            0 <= k < self.obt(p).len() && #[trigger] self.obt(p)[k] as int == idx
    }

    /// Exactly the characters before the cursor are claimed, each by one seat,
    /// and no seat holds an index twice.
    pub open spec fn claims_ok(&self) -> bool {
        &&& forall|p: int, k: int|
            0 <= p < self.n() && 0 <= k < self.obt(p).len() ==> #[trigger] self.obt(p)[k]
                < self.cursor
        &&& forall|p1: int, k1: int, p2: int, k2: int|
            0 <= p1 < self.n() && 0 <= k1 < self.obt(p1).len() && 0 <= p2 < self.n() && 0 <= k2
                < self.obt(p2).len() && (p1 != p2 || k1 != k2) ==> #[trigger] self.obt(p1)[k1]
                != #[trigger] self.obt(p2)[k2]
        &&& forall|idx: int| 0 <= idx < self.cursor ==> #[trigger] self.claimed(idx)
    }

    /// Some seat has claimed the character at `idx`.
    pub open spec fn claimed(&self, idx: int) -> bool {
        exists|p: int| #[trigger] self.owns(p, idx)
    }

    /// At most one seat is active: in Picking exactly the current one, else none.
    pub open spec fn turn_ok(&self) -> bool {
        &&& self.phase == GamePhase::Picking ==> {
            &&& self.current_turn_idx < self.n()
            &&& self.players@[self.current_turn_idx as int].status == PlayerStatus::Picking
            &&& forall|i: int|
                0 <= i < self.n() && i != self.current_turn_idx ==> #[trigger] self.players@[i].status
                    != PlayerStatus::Picking
            &&& self.turn_deadline.is_some()
        }
        &&& self.phase != GamePhase::Picking ==> forall|i: int|
            0 <= i < self.n() ==> #[trigger] self.players@[i].status != PlayerStatus::Picking
    }

    pub open spec fn wf(&self) -> bool {
        &&& self.len() <= usize::MAX
        &&& self.n() <= usize::MAX
        &&& self.seat_ids().no_duplicates()
        &&& self.cursor <= self.len()
        &&& self.claims_ok()
        &&& self.turn_ok()
        &&& self.phase == GamePhase::Gaming ==> false
        &&& self.phase != GamePhase::Waiting ==> self.n() > 0
        &&& self.phase == GamePhase::Waiting ==> self.cursor == 0
    }

    /// The status that seat `i` has once the current seat is stopped.
    pub open spec fn stopped_status(&self, i: int) -> PlayerStatus {
        if i == self.current_turn_idx {
            PlayerStatus::Stopped
        } else {
            self.players@[i].status
        }
    }

    /// Seat `j` is the first one after the current seat, going round, that is
    /// still waiting once the current seat is stopped.
    pub open spec fn is_next_waiting(&self, j: int) -> bool {
        &&& 0 <= j < self.n()
        &&& self.stopped_status(j) == PlayerStatus::Waiting
        &&& forall|d: int|
            1 <= d < circ_dist(self.current_turn_idx as int, j, self.n()) ==> self.stopped_status(
                #[trigger] seat_after(self.current_turn_idx as int, d, self.n()),
            ) != PlayerStatus::Waiting
    }

    /// No seat is waiting once the current seat is stopped.
    pub open spec fn none_waiting(&self) -> bool {
        forall|i: int| 0 <= i < self.n() ==> #[trigger] self.stopped_status(i) != PlayerStatus::Waiting
    }

    /// Seat `j` is the only one waiting once the current seat is stopped.
    pub open spec fn sole_waiting(&self, j: int) -> bool {
        &&& 0 <= j < self.n()
        &&& self.stopped_status(j) == PlayerStatus::Waiting
        &&& forall|i: int|
            0 <= i < self.n() && i != j ==> #[trigger] self.stopped_status(i) != PlayerStatus::Waiting
    }

    /// Every seat has submitted or is offline.
    pub open spec fn all_done(&self) -> bool {
        forall|i: int|
            0 <= i < self.n() ==> #[trigger] self.players@[i].status == PlayerStatus::Submitted
                || !self.players@[i].is_online
    }

    /// Seat `i` is the first seat of player `pid`.
    pub open spec fn holds_seat(&self, pid: i64, i: int) -> bool {
        &&& 0 <= i < self.n()
        &&& self.players@[i].id == pid
        &&& forall|j: int| 0 <= j < i ==> #[trigger] self.players@[j].id != pid
    }

    pub open spec fn seated(&self, pid: i64) -> bool {
        exists|i: int| 0 <= i < self.n() && #[trigger] self.players@[i].id == pid
    }

    /// A new session, waiting for players.
    pub fn new(problem: String, answer: String, hint: String) -> (g: Self)
        ensures
            g.wf(),
            g.phase == GamePhase::Waiting,
            g.players@.len() == 0,
            g.problem_text@ == problem@,
            g.answer_text == answer,
            g.hint_text == hint,
            g.cursor == 0,
    {
        let problem_text = chars_of(problem.as_str());
        let _len = problem_text.len();
        ChainGame {
            phase: GamePhase::Waiting,
            players: Vec::new(),
            problem_text,
            answer_text: answer,
            hint_text: hint,
            cursor: 0,
            current_turn_idx: 0,
            turn_deadline: None,
            answer_deadline: None,
        }
    }

    /// The first seat of `pid`, if it has one.
    pub fn find_seat(&self, pid: i64) -> (r: Option<usize>)
        ensures
            r matches Some(i) ==> self.holds_seat(pid, i as int),
            r is None <==> !self.seated(pid),
    {
        let mut i: usize = 0;
        while i < self.players.len()
            invariant
                i <= self.players@.len(),
                forall|j: int| 0 <= j < i ==> #[trigger] self.players@[j].id != pid,
            decreases self.players@.len() - i,
        {
            if self.players[i].id == pid {
                return Some(i);
            }
            i += 1;
        }
        None
    }

    /// Seats the players of `order`, in that order, and opens picking: the
    /// first seat is active, the cursor is at the start.
    pub fn seat_players(&mut self, order: Vec<i64>, now: u64, out: &mut Vec<InternalMsg>)
        requires
            old(self).wf(),
            old(self).phase == GamePhase::Waiting,
            order@.len() > 0,
            order@.no_duplicates(),
        ensures
            final(self).wf(),
            final(self).seated_from(order@, now),
            final(self).problem_text == old(self).problem_text,
            final(self).answer_text == old(self).answer_text,
            final(self).hint_text == old(self).hint_text,
            extends(old(out)@, final(out)@),
    {
        let n = order.len();
        let mut players: Vec<ChainPlayer> = Vec::new();
        let mut i: usize = 0;
        while i < n
            invariant
                n == order@.len(),
                n > 0,
                i <= n,
                players@.len() == i,
                forall|j: int|
                    0 <= j < i ==> {
                        let p = #[trigger] players@[j];
                        &&& p.id == order@[j]
                        &&& p.color_hue as int == spec_hue(j, n as int)
                        &&& p.status == (if j == 0 {
                            PlayerStatus::Picking
                        } else {
                            PlayerStatus::Waiting
                        })
                        &&& p.obtained_indices@.len() == 0
                        &&& p.answer is None
                        &&& p.is_online
                    },
            decreases n - i,
        {
            let status = if i == 0 {
                PlayerStatus::Picking
            } else {
                PlayerStatus::Waiting
            };
            players.push(
                ChainPlayer {
                    id: order[i],
                    color_hue: hue_for_seat(i, n),
                    status,
                    obtained_indices: Vec::new(),
                    answer: None,
                    is_online: true,
                },
            );
            i += 1;
        }
        let _n = players.len();
        self.players = players;
        self.phase = GamePhase::Picking;
        self.cursor = 0;
        self.current_turn_idx = 0;
        self.turn_deadline = Some(later(now, TURN_MS));
        self.answer_deadline = None;
        emit_log(out, "System", String::from_str("Game Started."));
        emit(out, InternalMsg::StateUpdated);
    }

    /// The state right after seating `order`.
    pub open spec fn seated_from(&self, order: Seq<i64>, now: u64) -> bool {
        &&& self.phase == GamePhase::Picking
        &&& self.n() == order.len()
        &&& forall|j: int|
            0 <= j < self.n() ==> {
                let p = #[trigger] self.players@[j];
                &&& p.id == order[j]
                &&& p.color_hue as int == spec_hue(j, self.n())
                &&& p.status == (if j == 0 {
                    PlayerStatus::Picking
                } else {
                    PlayerStatus::Waiting
                })
                &&& p.obtained_indices@.len() == 0
                &&& p.answer is None
                &&& p.is_online
            }
        &&& self.cursor == 0
        &&& self.current_turn_idx == 0
        &&& self.turn_deadline == Some(deadline_after(now, TURN_MS))
        &&& self.answer_deadline is None
    }

    /// Starts the session with the players of `ids` in a random order. Does
    /// nothing unless the session is waiting and `ids` is not empty.
    pub fn start(&mut self, ids: Vec<i64>, now: u64, out: &mut Vec<InternalMsg>)
        requires
            old(self).wf(),
            ids@.no_duplicates(),
        ensures
            final(self).wf(),
            extends(old(out)@, final(out)@),
            old(self).phase != GamePhase::Waiting || ids@.len() == 0 ==> *final(self) == *old(self),
            old(self).phase == GamePhase::Waiting && ids@.len() > 0 ==> {
                &&& final(self).seated_from(final(self).seat_ids(), now)
                &&& final(self).seat_ids().to_multiset() == ids@.to_multiset()
                &&& final(self).problem_text == old(self).problem_text
                &&& final(self).answer_text == old(self).answer_text
                &&& final(self).hint_text == old(self).hint_text
            },
    {
        if self.phase != GamePhase::Waiting || ids.len() == 0 {
            return;
        }
        let mut order = ids;
        let ghost before = order@;
        shuffle_ids(&mut order);
        proof {
            vstd::seq_lib::to_multiset_len(before);
            vstd::seq_lib::to_multiset_len(order@);
            crate::game::seats::lemma_permutation_no_duplicates(before, order@);
        }
        self.seat_players(order, now, out);
        assert(self.seat_ids() =~= order@);
    }

    /// Gives seat `j` the character under the cursor and moves the cursor on.
    fn claim_next(&mut self, j: usize)
        requires
            old(self).claims_ok(),
            old(self).cursor < old(self).len(),
            j < old(self).n(),
        ensures
            final(self).claims_ok(),
            final(self).n() == old(self).n(),
            forall|i: int|
                0 <= i < old(self).n() && i != j ==> #[trigger] final(self).players@[i]
                    == old(self).players@[i],
            final(self).players@[j as int] == (ChainPlayer {
                obtained_indices: final(self).players@[j as int].obtained_indices,
                ..old(self).players@[j as int]
            }),
            final(self).obt(j as int) == old(self).obt(j as int).push(old(self).cursor),
            *final(self) == (ChainGame {
                players: final(self).players,
                cursor: (old(self).cursor + 1) as usize,
                ..*old(self)
            }),
    {
        let ghost g = *self;
        let c = self.cursor;
        let _len = self.problem_text.len();
        self.players[j].obtained_indices.push(c);
        self.cursor = c + 1;
        proof {
            assert(self.obt(j as int) == g.obt(j as int).push(c));
            assert forall|p: int| 0 <= p < self.n() && p != j implies #[trigger] self.obt(p)
                == g.obt(p) by {}
            assert forall|p: int, k: int|
                0 <= p < self.n() && 0 <= k < self.obt(p).len() implies #[trigger] self.obt(p)[k]
                < self.cursor by {
                if p == j && k == g.obt(p).len() {
                } else {
                    assert(self.obt(p)[k] == g.obt(p)[k]);
                }
            }
            assert forall|p1: int, k1: int, p2: int, k2: int|
                0 <= p1 < self.n() && 0 <= k1 < self.obt(p1).len() && 0 <= p2 < self.n() && 0
                    <= k2 < self.obt(p2).len() && (p1 != p2 || k1 != k2) implies #[trigger] self.obt(
                p1,
            )[k1] != #[trigger] self.obt(p2)[k2] by {
                let new1 = p1 == j && k1 == g.obt(p1).len();
                let new2 = p2 == j && k2 == g.obt(p2).len();
                if !new1 {
                    assert(self.obt(p1)[k1] == g.obt(p1)[k1]);
                }
                if !new2 {
                    assert(self.obt(p2)[k2] == g.obt(p2)[k2]);
                }
            }
            assert forall|idx: int| 0 <= idx < self.cursor implies #[trigger] self.claimed(idx) by {
                if idx == c {
                    assert(self.obt(j as int)[g.obt(j as int).len() as int] == c);
                    assert(self.owns(j as int, idx));
                } else {
                    assert(g.claimed(idx));
                    let p = choose|p: int| #[trigger] g.owns(p, idx);
                    let k = choose|k: int| 0 <= k < g.obt(p).len() && #[trigger] g.obt(p)[k] as int == idx;
                    assert(self.obt(p)[k] == g.obt(p)[k]);
                    assert(self.owns(p, idx));
                }
            }
        }
    }

    /// Ends the session: Settlement, no deadline. A second call changes nothing.
    pub fn finish_game(&mut self, out: &mut Vec<InternalMsg>)
        ensures
            *final(self) == finished(*old(self)),
            extends(old(out)@, final(out)@),
            old(self).phase == GamePhase::Settlement ==> quiet(old(out)@, final(out)@),
            old(self).phase != GamePhase::Settlement ==> updated(old(out)@, final(out)@),
    {
        if self.phase == GamePhase::Settlement {
            return;
        }
        self.phase = GamePhase::Settlement;
        self.turn_deadline = None;
        self.answer_deadline = None;
        emit_log(out, "System", String::from_str("Game finished."));
        emit(out, InternalMsg::StateUpdated);
    }

    /// Whether every seat has submitted or is offline.
    pub fn everyone_done(&self) -> (r: bool)
        ensures
            r == self.all_done(),
    {
        let mut i: usize = 0;
        while i < self.players.len()
            invariant
                i <= self.players@.len(),
                forall|j: int|
                    0 <= j < i ==> #[trigger] self.players@[j].status == PlayerStatus::Submitted
                        || !self.players@[j].is_online,
            decreases self.players@.len() - i,
        {
            if self.players[i].status != PlayerStatus::Submitted && self.players[i].is_online {
                return false;
            }
            i += 1;
        }
        true
    }

    /// Finishes the session when it is answering and everyone is done.
    pub fn check_all_submitted(&mut self, out: &mut Vec<InternalMsg>)
        ensures
            *final(self) == settled_if_done(*old(self)),
            extends(old(out)@, final(out)@),
            old(self).phase == GamePhase::Answering && old(self).all_done() ==> updated(old(out)@, final(out)@),
            !(old(self).phase == GamePhase::Answering && old(self).all_done()) ==> quiet(old(out)@, final(out)@),
    {
        if self.phase != GamePhase::Answering {
            return;
        }
        if self.everyone_done() {
            self.finish_game(out);
        }
    }

    /// Ends picking at `now`: every seat that has not submitted is answering
    /// and the answer clock runs; settles at once if everyone is done.
    fn enter_answering_phase(&mut self, now: u64, out: &mut Vec<InternalMsg>)
        ensures
            final(self).n() == old(self).n(),
            forall|i: int|
                0 <= i < old(self).n() ==> #[trigger] final(self).players@[i] == (ChainPlayer {
                    status: if old(self).players@[i].status == PlayerStatus::Submitted {
                        PlayerStatus::Submitted
                    } else {
                        PlayerStatus::Answering
                    },
                    ..old(self).players@[i]
                }),
            *final(self) == (ChainGame {
                phase: final(self).phase,
                players: final(self).players,
                turn_deadline: None,
                answer_deadline: final(self).answer_deadline,
                ..*old(self)
            }),
            final(self).all_done() ==> final(self).phase == GamePhase::Settlement
                && final(self).answer_deadline is None,
            !final(self).all_done() ==> final(self).phase == GamePhase::Answering
                && final(self).answer_deadline == Some(deadline_after(now, ANSWER_MS)),
            extends(old(out)@, final(out)@),
            updated(old(out)@, final(out)@),
    {
        let ghost g = *self;
        self.phase = GamePhase::Answering;
        self.turn_deadline = None;
        self.answer_deadline = Some(later(now, ANSWER_MS));
        let mut i: usize = 0;
        while i < self.players.len()
            invariant
                i <= self.players@.len(),
                self.players@.len() == g.players@.len(),
                forall|k: int|
                    0 <= k < i ==> #[trigger] self.players@[k] == (ChainPlayer {
                        status: if g.players@[k].status == PlayerStatus::Submitted {
                            PlayerStatus::Submitted
                        } else {
                            PlayerStatus::Answering
                        },
                        ..g.players@[k]
                    }),
                forall|k: int| i <= k < self.players@.len() ==> #[trigger] self.players@[k] == g.players@[k],
                *self == (ChainGame {
                    phase: GamePhase::Answering,
                    players: self.players,
                    turn_deadline: None,
                    answer_deadline: Some(deadline_after(now, ANSWER_MS)),
                    ..g
                }),
            decreases self.players@.len() - i,
        {
            if self.players[i].status != PlayerStatus::Submitted {
                self.players[i].status = PlayerStatus::Answering;
            }
            i += 1;
        }
        emit_log(out, "System", String::from_str("Picking ended, 60s to answer."));
        emit(out, InternalMsg::StateUpdated);
        self.check_all_submitted(out);
    }

    /// The first waiting seat after the current one, going round.
    fn next_waiting_seat(&self) -> (r: Option<usize>)
        requires
            self.current_turn_idx < self.n(),
            self.players@[self.current_turn_idx as int].status == PlayerStatus::Stopped,
        ensures
            r matches Some(j) ==> self.is_next_waiting(j as int),
            r is None ==> self.none_waiting(),
    {
        let n = self.players.len();
        let cur = self.current_turn_idx;
        let mut e: usize = 0;
        while e < n
            invariant
                n == self.n(),
                cur == self.current_turn_idx,
                cur < n,
                0 <= e <= n,
                self.players@[cur as int].status == PlayerStatus::Stopped,
                forall|x: int|
                    1 <= x <= e ==> self.stopped_status(#[trigger] seat_after(cur as int, x, n as int))
                        != PlayerStatus::Waiting,
            decreases n - e,
        {
            let d = e + 1;
            let s = if d >= n - cur {
                d - (n - cur)
            } else {
                cur + d
            };
            assert(s == seat_after(cur as int, d as int, n as int));
            if self.players[s].status == PlayerStatus::Waiting {
                assert(circ_dist(cur as int, s as int, n as int) == d);
                return Some(s);
            }
            e += 1;
        }
        assert forall|i: int| 0 <= i < self.n() implies #[trigger] self.stopped_status(i)
            != PlayerStatus::Waiting by {
            lemma_seat_after_dist(cur as int, i, n as int);
            assert(self.stopped_status(seat_after(cur as int, circ_dist(cur as int, i, n as int), n as int))
                != PlayerStatus::Waiting);
        }
        None
    }

    /// Whether a seat other than `j` is waiting.
    fn others_waiting(&self, j: usize) -> (r: bool)
        ensures
            r == exists|i: int|
                0 <= i < self.n() && i != j && #[trigger] self.players@[i].status
                    == PlayerStatus::Waiting,
    {
        let mut i: usize = 0;
        while i < self.players.len()
            invariant
                i <= self.players@.len(),
                forall|k: int|
                    0 <= k < i && k != j ==> #[trigger] self.players@[k].status != PlayerStatus::Waiting,
            decreases self.players@.len() - i,
        {
            if i != j && self.players[i].status == PlayerStatus::Waiting {
                return true;
            }
            i += 1;
        }
        false
    }

    /// Stops the current seat and passes the turn on at `now` (see `advance_post`).
    fn stop_and_advance(&mut self, now: u64, out: &mut Vec<InternalMsg>)
        requires
            old(self).wf(),
            old(self).phase == GamePhase::Picking,
        ensures
            final(self).wf(),
            advance_post(*old(self), *final(self), now),
            extends(old(out)@, final(out)@),
            updated(old(out)@, final(out)@),
    {
        let ghost ids0 = self.seat_ids();
        let ghost g = *self;
        let cur = self.current_turn_idx;
        self.players[cur].status = PlayerStatus::Stopped;
        proof {
            assert forall|i: int| 0 <= i < self.n() implies #[trigger] self.stopped_status(i)
                == g.stopped_status(i) by {}
            assert forall|p: int| 0 <= p < self.n() implies #[trigger] self.obt(p) == g.obt(p) by {}
            lemma_claims_same(g, *self);
        }
        match self.next_waiting_seat() {
            None => {
                proof {
                    assert forall|i: int| 0 <= i < g.n() implies #[trigger] g.stopped_status(i)
                        != PlayerStatus::Waiting by {
                        assert(self.stopped_status(i) == g.stopped_status(i));
                    }
                }
                self.enter_answering_phase(now, out);
                proof {
                    assert forall|j: int| #[trigger] g.sole_waiting(j) implies answering_post(g, *self, now, Some(j)) by {
                        assert(g.stopped_status(j) != PlayerStatus::Waiting);
                    }
                    assert forall|j: int| #[trigger] g.is_next_waiting(j) && !g.sole_waiting(j) implies picking_post(g, *self, now, j) by {
                        assert(g.stopped_status(j) != PlayerStatus::Waiting);
                    }
                    assert forall|p: int| 0 <= p < self.n() implies #[trigger] self.obt(p) == g.obt(p) by {}
                    lemma_claims_same(g, *self);
                }
            },
            Some(j) => {
                proof {
                    assert(g.is_next_waiting(j as int));
                }
                if !self.others_waiting(j) {
                    proof {
                        assert forall|i: int| 0 <= i < g.n() && i != j implies #[trigger] g.stopped_status(i)
                            != PlayerStatus::Waiting by {
                            assert(self.stopped_status(i) == g.stopped_status(i));
                        }
                        assert(g.sole_waiting(j as int));
                    }
                    let ghost m = *self;
                    let len = self.problem_text.len();
                    while self.cursor < len
                        invariant
                            len == self.len(),
                            self.claims_ok(),
                            self.cursor <= len,
                            j < self.n(),
                            self.n() == m.n(),
                            forall|i: int|
                                0 <= i < m.n() && i != j ==> #[trigger] self.players@[i] == m.players@[i],
                            self.players@[j as int] == (ChainPlayer {
                                obtained_indices: self.players@[j as int].obtained_indices,
                                ..m.players@[j as int]
                            }),
                            self.obt(j as int) == m.obt(j as int) + remaining(m.cursor as int, self.cursor as int),
                            *self == (ChainGame { players: self.players, cursor: self.cursor, ..m }),
                            m.cursor <= self.cursor,
                        decreases len - self.cursor,
                    {
                        let ghost before = *self;
                        self.claim_next(j);
                        assert(remaining(m.cursor as int, self.cursor as int) =~= remaining(
                            m.cursor as int,
                            before.cursor as int,
                        ).push(before.cursor));
                        assert(self.obt(j as int) =~= m.obt(j as int) + remaining(m.cursor as int, self.cursor as int));
                    }
                    let ghost z = *self;
                    self.players[j].status = PlayerStatus::Stopped;
                    emit_log(out, "System", player_text("Player ", self.players[j].id, " auto-received remaining chars."));
                    let ghost w = *self;
                    proof {
                        assert forall|p: int| 0 <= p < w.n() implies #[trigger] w.obt(p) == z.obt(p) by {}
                        lemma_claims_same(z, w);
                    }
                    self.enter_answering_phase(now, out);
                    proof {
                        assert forall|p: int| 0 <= p < self.n() implies #[trigger] self.obt(p) == w.obt(p) by {}
                        lemma_claims_same(w, *self);
                        assert forall|k: int| #[trigger] g.sole_waiting(k) implies answering_post(g, *self, now, Some(k)) by {
                            assert(g.stopped_status(j as int) == PlayerStatus::Waiting);
                            assert(k == j);
                            assert forall|i: int| 0 <= i < g.n() implies {
                                &&& same_seat_but(g, *self, i)
                                &&& #[trigger] self.players@[i].status == (if g.stopped_status(i) == PlayerStatus::Submitted {
                                    PlayerStatus::Submitted
                                } else {
                                    PlayerStatus::Answering
                                })
                                &&& self.obt(i) == (if Some(k) == Some(i) {
                                    g.obt(i) + remaining(g.cursor as int, g.len())
                                } else {
                                    g.obt(i)
                                })
                            } by {
                                assert(self.players@[i] == (ChainPlayer {
                                    status: if w.players@[i].status == PlayerStatus::Submitted {
                                        PlayerStatus::Submitted
                                    } else {
                                        PlayerStatus::Answering
                                    },
                                    ..w.players@[i]
                                }));
                            }
                        }
                        assert forall|k: int| #[trigger] g.is_next_waiting(k) && !g.sole_waiting(k) implies picking_post(g, *self, now, k) by {
                            lemma_next_unique(g, j as int, k);
                        }
                    }
                } else {
                    proof {
                        let i = choose|i: int|
                            0 <= i < self.n() && i != j && #[trigger] self.players@[i].status
                                == PlayerStatus::Waiting;
                        assert(self.stopped_status(i) == g.stopped_status(i));
                        assert(g.stopped_status(i) == PlayerStatus::Waiting);
                    }
                    self.current_turn_idx = j;
                    self.players[j].status = PlayerStatus::Picking;
                    self.turn_deadline = Some(later(now, TURN_MS));
                    emit(out, InternalMsg::StateUpdated);
                    proof {
                        assert forall|p: int| 0 <= p < self.n() implies #[trigger] self.obt(p) == g.obt(p) by {}
                        lemma_claims_same(g, *self);
                        assert(!g.sole_waiting(j as int));
                        assert forall|k: int| #[trigger] g.sole_waiting(k) implies answering_post(g, *self, now, Some(k)) by {
                            assert(k == j);
                        }
                        assert forall|k: int| #[trigger] g.is_next_waiting(k) && !g.sole_waiting(k) implies picking_post(g, *self, now, k) by {
                            lemma_next_unique(g, j as int, k);
                        }
                    }
                }
            },
        }
        proof {
            assert(self.seat_ids() =~= ids0);
        }
    }

    /// The active seat takes the character under the cursor; once the text is
    /// used up, it stops instead and the turn moves on.
    pub fn perform_take(&mut self, now: u64, out: &mut Vec<InternalMsg>)
        requires
            old(self).wf(),
            old(self).phase == GamePhase::Picking,
        ensures
            final(self).wf(),
            take_post(*old(self), *final(self), now),
            extends(old(out)@, final(out)@),
            updated(old(out)@, final(out)@),
    {
        let ghost ids0 = self.seat_ids();
        if self.cursor >= self.problem_text.len() {
            self.stop_and_advance(now, out);
            return;
        }
        let ghost g = *self;
        let cur = self.current_turn_idx;
        self.claim_next(cur);
        let ghost c1 = *self;
        self.turn_deadline = Some(later(now, TURN_MS));
        emit(out, InternalMsg::StateUpdated);
        proof {
            assert forall|i: int| 0 <= i < self.n() implies #[trigger] self.players@[i].status
                == g.players@[i].status by {}
            assert forall|p: int| 0 <= p < self.n() implies #[trigger] self.obt(p) == c1.obt(p) by {}
            lemma_claims_same(c1, *self);
        }
        proof {
            assert(self.seat_ids() =~= ids0);
        }
    }

    /// A verb from `pid`: "take" or "stop", honoured only from the active seat
    /// while picking; anything else changes nothing.
    pub fn handle_action(&mut self, pid: i64, act: &str, now: u64, out: &mut Vec<InternalMsg>)
        requires
            old(self).wf(),
        ensures
            final(self).wf(),
            extends(old(out)@, final(out)@),
            ({
                let g = *old(self);
                let active = g.phase == GamePhase::Picking && g.players@[g.current_turn_idx as int].id == pid;
                &&& active && (act@ == "take"@ || act@ == "stop"@) ==> updated(old(out)@, final(out)@)
                &&& !(active && (act@ == "take"@ || act@ == "stop"@)) ==> quiet(old(out)@, final(out)@)
            }),
            action_post(*old(self), *final(self), pid, act@, now),
    {
        let ghost ids0 = self.seat_ids();
        if self.phase != GamePhase::Picking || self.players[self.current_turn_idx].id != pid {
            return;
        }
        proof {
            reveal_strlit("take");
            reveal_strlit("stop");
            assert("take"@[0] != "stop"@[0]);
        }
        if str_eq(act, "take") {
            self.perform_take(now, out);
        } else if str_eq(act, "stop") {
            emit_log(out, "Action", player_text("", pid, " stopped."));
            self.stop_and_advance(now, out);
        }

    }

    /// Whether `pid` may answer now: while answering, or while picking once
    /// their own seat has stopped.
    pub open spec fn may_answer(&self, i: int) -> bool {
        self.phase == GamePhase::Answering || (self.phase == GamePhase::Picking
            && self.players@[i].status == PlayerStatus::Stopped)
    }

    /// An answer from `pid`. The first one counts; a later one, or one out of
    /// turn, changes nothing.
    pub fn handle_answer(&mut self, pid: i64, content: String, out: &mut Vec<InternalMsg>)
        requires
            old(self).wf(),
        ensures
            final(self).wf(),
            extends(old(out)@, final(out)@),
            (exists|i: int| #[trigger] old(self).holds_seat(pid, i) && old(self).may_answer(i)
                && old(self).players@[i].status != PlayerStatus::Submitted) ==> updated(old(out)@, final(out)@),
            !(exists|i: int| #[trigger] old(self).holds_seat(pid, i) && old(self).may_answer(i)
                && old(self).players@[i].status != PlayerStatus::Submitted) ==> quiet(old(out)@, final(out)@),
            answer_post(*old(self), *final(self), pid, content),
    {
        let ghost ids0 = self.seat_ids();
        let ghost g = *self;
        let i = match self.find_seat(pid) {
            Some(i) => i,
            None => {
                return;
            },
        };
        let can = self.phase == GamePhase::Answering || (self.phase == GamePhase::Picking
            && self.players[i].status == PlayerStatus::Stopped);
        if !can || self.players[i].status == PlayerStatus::Submitted {
            proof {
                assert forall|k: int| #[trigger] g.holds_seat(pid, k) implies k == i by {}
            }
            return;
        }
        self.players[i].answer = Some(content);
        self.players[i].status = PlayerStatus::Submitted;
        proof {
            assert forall|p: int| 0 <= p < self.n() implies #[trigger] self.obt(p) == g.obt(p) by {}
            lemma_claims_same(g, *self);
        }
        let ghost m = *self;
        emit_log(out, "System", player_text("", pid, " submitted."));
        self.check_all_submitted(out);
        emit(out, InternalMsg::StateUpdated);
        proof {
            assert forall|p: int| 0 <= p < self.n() implies #[trigger] self.obt(p) == m.obt(p) by {}
            lemma_claims_same(m, *self);
            assert forall|k: int| #[trigger] g.holds_seat(pid, k) implies k == i by {}
        }
        proof {
            assert(self.seat_ids() =~= ids0);
        }
    }

    /// One beat of the clock at `now`: an offline active seat is stopped and
    /// the turn moves on; an expired turn takes a character for the active
    /// seat; answering ends when everyone is done or its time is up.
    pub fn tick(&mut self, now: u64, out: &mut Vec<InternalMsg>)
        requires
            old(self).wf(),
        ensures
            final(self).wf(),
            extends(old(out)@, final(out)@),
            ({
                let g = *old(self);
                let cur = g.players@[g.current_turn_idx as int];
                let acts = (g.phase == GamePhase::Picking && (!cur.is_online || now > g.turn_deadline->Some_0))
                    || (g.phase == GamePhase::Answering && (g.all_done() || (g.answer_deadline is Some
                    && now > g.answer_deadline->Some_0)));
                &&& acts ==> updated(old(out)@, final(out)@)
                &&& !acts ==> quiet(old(out)@, final(out)@)
            }),
            tick_post(*old(self), *final(self), now),
    {
        let ghost ids0 = self.seat_ids();
        let ghost g0 = *self;
        if self.phase == GamePhase::Picking {
            if !self.players[self.current_turn_idx].is_online {
                emit_log(out, "System", player_text("Player ", self.players[self.current_turn_idx].id, " offline. Skipping."));
                self.stop_and_advance(now, out);
                return;
            }
            let d = match self.turn_deadline {
                Some(d) => d,
                None => {
                    return;
                },
            };
            if now > d {
                self.perform_take(now, out);
            }
            return;
        }
        if self.phase == GamePhase::Answering {
            self.check_all_submitted(out);
            if self.phase == GamePhase::Answering {
                if let Some(d) = self.answer_deadline {
                    if now > d {
                        self.finish_game(out);
                    }
                }
            }
            proof {
                assert forall|p: int| 0 <= p < self.n() implies #[trigger] self.obt(p) == g0.obt(p) by {}
                lemma_claims_same(g0, *self);
            }
        }
        proof {
            assert(self.seat_ids() =~= ids0);
        }
    }

    /// `pid` connects: an existing seat comes back online; a new player gets
    /// a seat only while the session is waiting.
    pub fn handle_join(&mut self, pid: i64, out: &mut Vec<InternalMsg>)
        requires
            old(self).wf(),
        ensures
            final(self).wf(),
            extends(old(out)@, final(out)@),
            forall|i: int| #[trigger] old(self).holds_seat(pid, i) ==> (if old(self).players@[i].is_online {
                quiet(old(out)@, final(out)@)
            } else {
                updated(old(out)@, final(out)@)
            }),
            !old(self).seated(pid) && old(self).phase != GamePhase::Waiting ==> quiet(old(out)@, final(out)@),
            !old(self).seated(pid) && old(self).phase == GamePhase::Waiting ==> updated(old(out)@, final(out)@),
            join_post(*old(self), *final(self), pid),
    {
        let ghost ids0 = self.seat_ids();
        let ghost g = *self;
        match self.find_seat(pid) {
            Some(i) => {
                if !self.players[i].is_online {
                    self.players[i].is_online = true;
                    emit_log(out, "System", player_text("", pid, " reconnected."));
                    emit(out, InternalMsg::StateUpdated);
                }
                proof {
                    assert(self.seat_ids() =~= ids0);
                    assert(self.players@[i as int] == (ChainPlayer { is_online: true, ..g.players@[i as int] }));
                    assert forall|p: int| 0 <= p < self.n() implies #[trigger] self.obt(p) == g.obt(p) by {}
                    lemma_claims_same(g, *self);
                    assert forall|k: int| #[trigger] g.holds_seat(pid, k) implies k == i by {}
                }
            },
            None => {
                if self.phase != GamePhase::Waiting {
                    return;
                }
                self.players.push(
                    ChainPlayer {
                        id: pid,
                        color_hue: 0,
                        status: PlayerStatus::Waiting,
                        obtained_indices: Vec::new(),
                        answer: None,
                        is_online: true,
                    },
                );
                let _n = self.players.len();
                proof {
                    assert(self.seat_ids() =~= ids0.push(pid));
                    assert(!ids0.contains(pid)) by {
                        if ids0.contains(pid) {
                            let x = choose|x: int| 0 <= x < ids0.len() && ids0[x] == pid;
                            assert(g.players@[x].id == pid);
                        }
                    }
                    crate::game::seats::lemma_push_distinct(ids0, pid);
                }
                emit_log(out, "System", player_text("", pid, " joined."));
                emit(out, InternalMsg::StateUpdated);
                proof {
                    assert forall|p: int| 0 <= p < g.n() implies #[trigger] g.obt(p).len() == 0 by {
                        if g.obt(p).len() > 0 {
                            assert(g.obt(p)[0] < g.cursor);
                        }
                    }
                    assert forall|p: int| 0 <= p < self.n() implies #[trigger] self.obt(p).len() == 0 by {
                        if p < g.n() {
                            assert(self.players@[p] == g.players@[p]);
                            assert(g.obt(p).len() == 0);
                        }
                    }
                }
            },
        }
    }

    /// `pid` disconnects: their seat goes offline, and while the session is
    /// waiting the seat is given up.
    pub fn handle_leave(&mut self, pid: i64, out: &mut Vec<InternalMsg>)
        requires
            old(self).wf(),
        ensures
            final(self).wf(),
            extends(old(out)@, final(out)@),
            old(self).seated(pid) ==> updated(old(out)@, final(out)@),
            !old(self).seated(pid) ==> quiet(old(out)@, final(out)@),
            leave_post(*old(self), *final(self), pid),
    {
        let ghost ids0 = self.seat_ids();
        let ghost g = *self;
        let i = match self.find_seat(pid) {
            Some(i) => i,
            None => {
                return;
            },
        };
        if self.phase == GamePhase::Waiting {
            self.players.remove(i);
            proof {
                assert(self.seat_ids() =~= ids0.remove(i as int));
                crate::game::seats::lemma_remove_distinct(ids0, i as int);
            }
            emit_log(out, "System", player_text("", pid, " left."));
            proof {
                assert forall|p: int| 0 <= p < g.n() implies #[trigger] g.obt(p).len() == 0 by {
                    if g.obt(p).len() > 0 {
                        assert(g.obt(p)[0] < g.cursor);
                    }
                }
                assert forall|p: int| 0 <= p < self.n() implies #[trigger] self.obt(p).len() == 0 by {
                    if p < i {
                        assert(self.players@[p] == g.players@[p]);
                        assert(g.obt(p).len() == 0);
                    } else {
                        assert(self.players@[p] == g.players@[p + 1]);
                        assert(g.obt(p + 1).len() == 0);
                    }
                }
            }
        } else {
            self.players[i].is_online = false;
            proof {
                assert(self.seat_ids() =~= ids0);
            }
            emit_log(out, "System", player_text("", pid, " disconnected."));
            proof {
                assert forall|p: int| 0 <= p < self.n() implies #[trigger] self.obt(p) == g.obt(p) by {}
                lemma_claims_same(g, *self);
            }
        }
        emit(out, InternalMsg::StateUpdated);
        proof {
            assert forall|k: int| #[trigger] g.holds_seat(pid, k) implies k == i by {}
        }
    }

    /// The seat that claimed the character at `idx`, if one did.
    pub fn owner_of(&self, idx: usize) -> (r: Option<usize>)
        ensures
            r matches Some(p) ==> self.owns(p as int, idx as int),
            r is None ==> !self.claimed(idx as int),
    {
        let mut p: usize = 0;
        while p < self.players.len()
            invariant
                p <= self.n(),
                forall|q: int| 0 <= q < p ==> !#[trigger] self.owns(q, idx as int),
            decreases self.n() - p,
        {
            let list = &self.players[p].obtained_indices;
            let mut k: usize = 0;
            while k < list.len()
                invariant
                    p < self.n(),
                    list@ == self.obt(p as int),
                    k <= list@.len(),
                    forall|x: int| 0 <= x < k ==> #[trigger] list@[x] != idx,
                decreases list@.len() - k,
            {
                if list[k] == idx {
                    assert(self.obt(p as int)[k as int] as int == idx as int);
                    return Some(p);
                }
                k += 1;
            }
            p += 1;
        }
        None
    }

    /// Whether `viewer` may see the characters claimed by seat `p`: a
    /// privileged viewer, anyone once settled, and the claimer.
    pub open spec fn sees_claims_of(&self, p: int, viewer: Option<i64>, privileged: bool) -> bool {
        privileged || self.phase == GamePhase::Settlement || viewer == Some(self.players@[p].id)
    }

    /// `grid` is the problem as `viewer` sees it: each claimed cell in its
    /// claimer's colour, its character only where the viewer may see it.
    pub open spec fn grid_shows(&self, grid: Seq<GridCell>, viewer: Option<i64>, privileged: bool) -> bool {
        &&& grid.len() == self.len()
        &&& forall|i: int|
                0 <= i < self.len() ==> (#[trigger] grid[i].owner_color_hue is None
                    <==> !self.claimed(i))
        &&& forall|i: int, p: int|
                0 <= i < self.len() && #[trigger] self.owns(p, i) ==> grid[i].owner_color_hue
                    == Some(spec_hue(p, self.n()) as u16) && grid[i].char_content == (if self.sees_claims_of(
                    p,
                    viewer,
                    privileged,
                ) {
                    Some(self.problem_text@[i])
                } else {
                    None::<char>
                })
        &&& forall|i: int|
                0 <= i < self.len() && !self.claimed(i) ==> #[trigger] grid[i].char_content is None
    }

    /// The problem as `viewer` sees it: each claimed cell in its claimer's
    /// colour, its character only where the viewer may see it.
    pub fn build_grid(&self, viewer: Option<i64>, privileged: bool) -> (grid: Vec<GridCell>)
        requires
            self.wf(),
        ensures
            self.grid_shows(grid@, viewer, privileged),
    {
        let n = self.players.len();
        let len = self.problem_text.len();
        let mut grid: Vec<GridCell> = Vec::new();
        let mut i: usize = 0;
        while i < len
            invariant
                self.wf(),
                n == self.n(),
                len == self.len(),
                i <= len,
                grid@.len() == i,
                forall|j: int|
                    0 <= j < i ==> (#[trigger] grid@[j].owner_color_hue is None <==> !self.claimed(j)),
                forall|j: int, p: int|
                    0 <= j < i && #[trigger] self.owns(p, j) ==> grid@[j].owner_color_hue == Some(
                        spec_hue(p, self.n()) as u16,
                    ) && grid@[j].char_content == (if self.sees_claims_of(p, viewer, privileged) {
                        Some(self.problem_text@[j])
                    } else {
                        None::<char>
                    }),
                forall|j: int| 0 <= j < i && !self.claimed(j) ==> #[trigger] grid@[j].char_content is None,
            decreases len - i,
        {
            let cell = match self.owner_of(i) {
                Some(p) => {
                    let hue = hue_for_seat(p, n);
                    let pid = self.players[p].id;
                    let visible = privileged || self.phase == GamePhase::Settlement || (match viewer {
                        Some(v) => v == pid,
                        None => false,
                    });
                    proof {
                        assert forall|q: int| #[trigger] self.owns(q, i as int) implies q == p by {
                            lemma_sole_owner(*self, p as int, q, i as int);
                        }
                    }
                    GridCell {
                        owner_color_hue: Some(hue),
                        char_content: if visible {
                            Some(self.problem_text[i])
                        } else {
                            None
                        },
                    }
                },
                None => GridCell { owner_color_hue: None, char_content: None },
            };
            grid.push(cell);
            proof {
                assert forall|j: int, p: int|
                    0 <= j < i + 1 && #[trigger] self.owns(p, j) implies grid@[j].owner_color_hue
                        == Some(spec_hue(p, self.n()) as u16) && grid@[j].char_content == (
                    if self.sees_claims_of(p, viewer, privileged) {
                        Some(self.problem_text@[j])
                    } else {
                        None::<char>
                    }) by {
                    if j == i {
                        assert(self.claimed(j));
                    }
                }
            }
            i += 1;
        }
        grid
    }

    /// `r` is the Chain part of `viewer`'s view at `now`.
    pub open spec fn view_data_shows(&self, viewer: Option<i64>, privileged: bool, now: u64, r: SessionViewData) -> bool {
        &&& r.phase == self.phase
        &&& r.hint == self.hint_text
        &&& r.deadline_ms == (match self.turn_deadline {
                Some(d) => Some(ms_left(d, now)),
                None => match self.answer_deadline {
                    Some(d) => Some(ms_left(d, now)),
                    None => None,
                }
            })
        &&& (r.grid matches Some(g) && self.grid_shows(g@, viewer, privileged))
        &&& r.pinyin_state is None
        &&& r.winner is None
        &&& r.correct_answer == (if privileged || self.phase == GamePhase::Settlement {
                Some(self.answer_text)
            } else {
                None
            })
    }

    /// The Chain part of `viewer`'s view at `now`; a privileged viewer, or
    /// anyone once settled, sees the answer.
    pub fn get_view_data(&self, viewer: Option<i64>, privileged: bool, now: u64) -> (r: SessionViewData)
        requires
            self.wf(),
        ensures
            self.view_data_shows(viewer, privileged, now, r),
    {
        let deadline_ms = match self.turn_deadline {
            Some(d) => Some(time_left(d, now)),
            None => match self.answer_deadline {
                Some(d) => Some(time_left(d, now)),
                None => None,
            },
        };
        SessionViewData {
            phase: self.phase,
            hint: self.hint_text.clone(),
            deadline_ms,
            grid: Some(self.build_grid(viewer, privileged)),
            pinyin_state: None,
            winner: None,
            correct_answer: if privileged || self.phase == GamePhase::Settlement {
                Some(self.answer_text.clone())
            } else {
                None
            },
        }
    }

    /// `r` is what `viewer` sees of the seat of `pid`.
    pub open spec fn seat_shows(&self, pid: i64, viewer: Option<i64>, privileged: bool, r: SeatState) -> bool {
        &&& (!self.seated(pid) ==> r == (SeatState {
                status: PlayerStatus::Waiting,
                score_display: None,
                is_active_turn: false,
                answer: None,
            }))
        &&& forall|i: int| #[trigger] self.holds_seat(pid, i) ==> {
                &&& r.status == self.players@[i].status
                &&& (r.score_display matches Some(t) && t@ == decimal(self.obt(i).len()))
                &&& r.is_active_turn == (self.phase == GamePhase::Picking
                    && self.players@[self.current_turn_idx as int].id == pid)
                &&& r.answer == (if privileged || self.phase == GamePhase::Settlement || viewer == Some(pid) {
                    self.players@[i].answer
                } else {
                    None
                })
            }
    }

    /// What `viewer` sees of the seat of `pid`: its status, how many
    /// characters it holds, whether it is the active seat, and its answer
    /// where the viewer may see it.
    pub fn get_player_state(&self, pid: i64, viewer: Option<i64>, privileged: bool) -> (r: SeatState)
        requires
            self.wf(),
        ensures
            self.seat_shows(pid, viewer, privileged, r),
    {
        let i = match self.find_seat(pid) {
            Some(i) => i,
            None => {
                return SeatState {
                    status: PlayerStatus::Waiting,
                    score_display: None,
                    is_active_turn: false,
                    answer: None,
                };
            },
        };
        let p = &self.players[i];
        let show = privileged || self.phase == GamePhase::Settlement || (match viewer {
            Some(v) => v == pid,
            None => false,
        });
        let active = self.phase == GamePhase::Picking && self.players[self.current_turn_idx].id == pid;
        proof {
            assert forall|k: int| #[trigger] self.holds_seat(pid, k) implies k == i by {}
        }
        SeatState {
            status: p.status,
            score_display: Some(usize_string(p.obtained_indices.len())),
            is_active_turn: active,
            answer: if show {
                clone_answer(&p.answer)
            } else {
                None
            },
        }
    }

    /// The identities of the seats, in turn order.
    pub open spec fn seat_ids(&self) -> Seq<i64> {
        Seq::new(self.players@.len(), |i: int| self.players@[i].id)
    }
}




/// A copy of an optional answer.
pub fn clone_answer(a: &Option<String>) -> (r: Option<String>)
    ensures
        r == *a,
{
    match a {
        Some(s) => Some(s.clone()),
        None => None,
    }
}

proof fn lemma_sole_owner(g: ChainGame, p: int, q: int, idx: int)
    requires
        g.claims_ok(),
        g.owns(p, idx),
        g.owns(q, idx),
    ensures
        p == q,
{
    let k1 = choose|k: int| 0 <= k < g.obt(p).len() && #[trigger] g.obt(p)[k] as int == idx;
    let k2 = choose|k: int| 0 <= k < g.obt(q).len() && #[trigger] g.obt(q)[k] as int == idx;
    if p != q {
        assert(g.obt(p)[k1] != g.obt(q)[k2]);
    }
}

proof fn lemma_seat_after_dist(from: int, to: int, n: int)
    requires
        0 <= from < n,
        0 <= to < n,
    ensures
        1 <= circ_dist(from, to, n) <= n,
        seat_after(from, circ_dist(from, to, n), n) == to,
{
}

proof fn lemma_next_unique(g: ChainGame, j1: int, j2: int)
    requires
        g.current_turn_idx < g.n(),
        g.is_next_waiting(j1),
        g.is_next_waiting(j2),
    ensures
        j1 == j2,
{
    let c = g.current_turn_idx as int;
    lemma_seat_after_dist(c, j1, g.n());
    lemma_seat_after_dist(c, j2, g.n());
    let d1 = circ_dist(c, j1, g.n());
    let d2 = circ_dist(c, j2, g.n());
    if d1 < d2 {
        assert(g.stopped_status(seat_after(c, d1, g.n())) != PlayerStatus::Waiting);
    } else if d2 < d1 {
        assert(g.stopped_status(seat_after(c, d2, g.n())) != PlayerStatus::Waiting);
    }
}

proof fn lemma_claims_same(g: ChainGame, h: ChainGame)
    requires
        g.claims_ok(),
        h.n() == g.n(),
        h.cursor == g.cursor,
        forall|p: int| 0 <= p < g.n() ==> #[trigger] h.obt(p) == g.obt(p),
    ensures
        h.claims_ok(),
{
    assert forall|p: int, k: int|
        0 <= p < h.n() && 0 <= k < h.obt(p).len() implies #[trigger] h.obt(p)[k] < h.cursor by {
        assert(h.obt(p)[k] == g.obt(p)[k]);
    }
    assert forall|p1: int, k1: int, p2: int, k2: int|
        0 <= p1 < h.n() && 0 <= k1 < h.obt(p1).len() && 0 <= p2 < h.n() && 0 <= k2 < h.obt(
            p2,
        ).len() && (p1 != p2 || k1 != k2) implies #[trigger] h.obt(p1)[k1] != #[trigger] h.obt(
        p2,
    )[k2] by {
        assert(h.obt(p1)[k1] == g.obt(p1)[k1]);
        assert(h.obt(p2)[k2] == g.obt(p2)[k2]);
    }
    assert forall|idx: int| 0 <= idx < h.cursor implies #[trigger] h.claimed(idx) by {
        assert(g.claimed(idx));
        let p = choose|p: int| #[trigger] g.owns(p, idx);
        let k = choose|k: int| 0 <= k < g.obt(p).len() && #[trigger] g.obt(p)[k] as int == idx;
        assert(h.obt(p)[k] == g.obt(p)[k]);
        assert(h.owns(p, idx));
    }
}

/// What `handle_action` does: `h` is `g` after it.
pub open spec fn action_post(g: ChainGame, h: ChainGame, pid: i64, act: Seq<char>, now: u64) -> bool {
    let active = g.phase == GamePhase::Picking && g.players@[g.current_turn_idx as int].id == pid;
    &&& active && act == "take"@ ==> take_post(g, h, now)
    &&& active && act == "stop"@ ==> advance_post(g, h, now)
    &&& !(active && (act == "take"@ || act == "stop"@)) ==> h == g
}

/// What `handle_answer` does: `h` is `g` after it.
pub open spec fn answer_post(g: ChainGame, h: ChainGame, pid: i64, content: String) -> bool {
    &&& forall|i: int|
        #[trigger] g.holds_seat(pid, i) && g.may_answer(i) && g.players@[i].status
            != PlayerStatus::Submitted ==> {
            &&& h.n() == g.n()
            &&& h.players@[i] == (ChainPlayer {
                status: PlayerStatus::Submitted,
                answer: Some(content),
                ..g.players@[i]
            })
            &&& forall|k: int| 0 <= k < g.n() && k != i ==> #[trigger] h.players@[k] == g.players@[k]
            &&& h.phase == (if g.phase == GamePhase::Answering && h.all_done() {
                GamePhase::Settlement
            } else {
                g.phase
            })
            &&& h == (ChainGame {
                players: h.players,
                phase: h.phase,
                turn_deadline: h.turn_deadline,
                answer_deadline: h.answer_deadline,
                ..g
            })
            &&& h.phase == GamePhase::Settlement ==> h.turn_deadline is None && h.answer_deadline is None
            &&& h.phase != GamePhase::Settlement ==> h.turn_deadline == g.turn_deadline && h.answer_deadline == g.answer_deadline
        }
    &&& (forall|i: int| #[trigger] g.holds_seat(pid, i) ==> !g.may_answer(i) || g.players@[i].status
        == PlayerStatus::Submitted) ==> h == g
}

/// What `tick` does: `h` is `g` after it.
pub open spec fn tick_post(g: ChainGame, h: ChainGame, now: u64) -> bool {
    let cur = g.players@[g.current_turn_idx as int];
    &&& g.phase == GamePhase::Picking && !cur.is_online ==> advance_post(g, h, now)
    &&& g.phase == GamePhase::Picking && cur.is_online && now > g.turn_deadline->Some_0
        ==> take_post(g, h, now)
    &&& g.phase == GamePhase::Picking && cur.is_online && now <= g.turn_deadline->Some_0
        ==> h == g
    &&& g.phase == GamePhase::Answering ==> h == (if g.all_done() || (g.answer_deadline
        is Some && now > g.answer_deadline->Some_0) {
        finished(g)
    } else {
        g
    })
    &&& g.phase != GamePhase::Picking && g.phase != GamePhase::Answering ==> h == g
}

/// What `handle_join` does: `h` is `g` after it.
pub open spec fn join_post(g: ChainGame, h: ChainGame, pid: i64) -> bool {
    &&& forall|i: int| #[trigger] g.holds_seat(pid, i) ==> {
        &&& h.n() == g.n()
        &&& h.players@[i] == (ChainPlayer { is_online: true, ..g.players@[i] })
        &&& forall|k: int| 0 <= k < g.n() && k != i ==> #[trigger] h.players@[k] == g.players@[k]
        &&& h == (ChainGame { players: h.players, ..g })
    }
    &&& !g.seated(pid) && g.phase != GamePhase::Waiting ==> h == g
    &&& !g.seated(pid) && g.phase == GamePhase::Waiting ==> {
        &&& h.n() == g.n() + 1
        &&& forall|k: int| 0 <= k < g.n() ==> #[trigger] h.players@[k] == g.players@[k]
        &&& h.players@[g.n()].id == pid
        &&& h.players@[g.n()].status == PlayerStatus::Waiting
        &&& h.players@[g.n()].obtained_indices@.len() == 0
        &&& h.players@[g.n()].is_online
        &&& h == (ChainGame { players: h.players, ..g })
    }
}

/// What `handle_leave` does: `h` is `g` after it.
pub open spec fn leave_post(g: ChainGame, h: ChainGame, pid: i64) -> bool {
    &&& !g.seated(pid) ==> h == g
    &&& forall|i: int| #[trigger] g.holds_seat(pid, i) && g.phase != GamePhase::Waiting ==> {
        &&& h.n() == g.n()
        &&& h.players@[i] == (ChainPlayer { is_online: false, ..g.players@[i] })
        &&& forall|k: int| 0 <= k < g.n() && k != i ==> #[trigger] h.players@[k] == g.players@[k]
        &&& h == (ChainGame { players: h.players, ..g })
    }
    &&& forall|i: int| #[trigger] g.holds_seat(pid, i) && g.phase == GamePhase::Waiting ==> {
        &&& h.players@ == g.players@.remove(i)
        &&& h == (ChainGame { players: h.players, ..g })
    }
}

/// The session once finished: Settlement, no deadline. Finishing twice changes nothing.
pub open spec fn finished(g: ChainGame) -> ChainGame {
    if g.phase == GamePhase::Settlement {
        g
    } else {
        ChainGame { phase: GamePhase::Settlement, turn_deadline: None, answer_deadline: None, ..g }
    }
}

/// The session after checking for all answers in: finished when answering and
/// every seat has submitted or left.
pub open spec fn settled_if_done(g: ChainGame) -> ChainGame {
    if g.phase == GamePhase::Answering && g.all_done() {
        finished(g)
    } else {
        g
    }
}

/// Seat `i` of `h` is seat `i` of `g` with another status and claims.
pub open spec fn same_seat_but(g: ChainGame, h: ChainGame, i: int) -> bool {
    h.players@[i] == (ChainPlayer {
        status: h.players@[i].status,
        obtained_indices: h.players@[i].obtained_indices,
        ..g.players@[i]
    })
}

/// `h` is `g` after picking ended at `now`: every seat that has not submitted
/// is answering, the answer clock runs, and the session settles at once if
/// everyone is already done. `award` is the seat given the rest of the text.
pub open spec fn answering_post(g: ChainGame, h: ChainGame, now: u64, award: Option<int>) -> bool {
    &&& h.n() == g.n()
    &&& forall|i: int|
        0 <= i < g.n() ==> {
            &&& same_seat_but(g, h, i)
            &&& #[trigger] h.players@[i].status == (if g.stopped_status(i) == PlayerStatus::Submitted {
                PlayerStatus::Submitted
            } else {
                PlayerStatus::Answering
            })
            &&& h.obt(i) == (if award == Some(i) {
                g.obt(i) + remaining(g.cursor as int, g.len())
            } else {
                g.obt(i)
            })
        }
    &&& h.cursor == (if award is Some {
        g.len()
    } else {
        g.cursor as int
    })
    &&& h == (ChainGame {
        phase: h.phase,
        players: h.players,
        cursor: h.cursor,
        turn_deadline: None,
        answer_deadline: h.answer_deadline,
        ..g
    })
    &&& h.all_done() ==> h.phase == GamePhase::Settlement && h.answer_deadline is None
    &&& !h.all_done() ==> h.phase == GamePhase::Answering && h.answer_deadline == Some(
        deadline_after(now, ANSWER_MS),
    )
}

/// `h` is `g` after the turn passed at `now` to seat `j`.
pub open spec fn picking_post(g: ChainGame, h: ChainGame, now: u64, j: int) -> bool {
    &&& h.n() == g.n()
    &&& forall|i: int|
        0 <= i < g.n() ==> {
            &&& same_seat_but(g, h, i)
            &&& #[trigger] h.players@[i].status == (if i == j {
                PlayerStatus::Picking
            } else {
                g.stopped_status(i)
            })
            &&& h.obt(i) == g.obt(i)
        }
    &&& h == (ChainGame {
        players: h.players,
        current_turn_idx: j as usize,
        turn_deadline: Some(deadline_after(now, TURN_MS)),
        ..g
    })
}

/// `h` is `g` after the current seat stopped at `now` and the turn moved on:
/// to the next waiting seat; or, when it is the last one waiting, that seat
/// gets every unclaimed character and picking ends; or, when none is
/// waiting, picking ends.
pub open spec fn advance_post(g: ChainGame, h: ChainGame, now: u64) -> bool {
    &&& g.none_waiting() ==> answering_post(g, h, now, None)
    &&& forall|j: int| #[trigger] g.sole_waiting(j) ==> answering_post(g, h, now, Some(j))
    &&& forall|j: int|
        #[trigger] g.is_next_waiting(j) && !g.sole_waiting(j) ==> picking_post(g, h, now, j)
}

/// `h` is `g` after the current seat took the character under the cursor at `now`.
pub open spec fn took_post(g: ChainGame, h: ChainGame, now: u64) -> bool {
    let c = g.current_turn_idx as int;
    &&& h.n() == g.n()
    &&& forall|i: int|
        0 <= i < g.n() && i != c ==> #[trigger] h.players@[i] == g.players@[i]
    &&& h.players@[c] == (ChainPlayer {
        obtained_indices: h.players@[c].obtained_indices,
        ..g.players@[c]
    })
    &&& h.obt(c) == g.obt(c).push(g.cursor)
    &&& h == (ChainGame {
        players: h.players,
        cursor: (g.cursor + 1) as usize,
        turn_deadline: Some(deadline_after(now, TURN_MS)),
        ..g
    })
}

/// `h` is `g` after a "take" at `now`: the next character, or, once the text
/// is used up, a stop.
pub open spec fn take_post(g: ChainGame, h: ChainGame, now: u64) -> bool {
    &&& g.cursor < g.len() ==> took_post(g, h, now)
    &&& g.cursor >= g.len() ==> advance_post(g, h, now)
}

/// The seat `d` steps after seat `from`, going round `n` seats (`d <= n`).
pub open spec fn seat_after(from: int, d: int, n: int) -> int {
    if from + d >= n {
        from + d - n
    } else {
        from + d
    }
}

/// How many steps forward, going round `n` seats, lead from `from` to `to`
/// (a full round when they are equal).
pub open spec fn circ_dist(from: int, to: int, n: int) -> int {
    if to > from {
        to - from
    } else {
        to + n - from
    }
}



/// Once the cursor has reached the end of the problem, the claims split the
/// text exactly: every index is claimed by exactly one seat, every claim is an
/// index of the text, and no index is claimed twice.
pub proof fn law_exhausted_text_is_partitioned(g: ChainGame)
    requires
        g.wf(),
        g.cursor == g.len(),
    ensures
        forall|idx: int| 0 <= idx < g.len() ==> #[trigger] g.claimed(idx),
        forall|idx: int, p: int, q: int|
            0 <= idx < g.len() && #[trigger] g.owns(p, idx) && #[trigger] g.owns(q, idx) ==> p == q,
        forall|p: int, k: int| 0 <= p < g.n() && 0 <= k < g.obt(p).len() ==> #[trigger] g.obt(p)[k] < g.len(),
        forall|p1: int, k1: int, p2: int, k2: int|
            0 <= p1 < g.n() && 0 <= k1 < g.obt(p1).len() && 0 <= p2 < g.n() && 0 <= k2 < g.obt(
                p2,
            ).len() && (p1 != p2 || k1 != k2) ==> #[trigger] g.obt(p1)[k1] != #[trigger] g.obt(p2)[k2],
{
    assert forall|idx: int, p: int, q: int|
        0 <= idx < g.len() && #[trigger] g.owns(p, idx) && #[trigger] g.owns(q, idx) implies p == q by {
        let k1 = choose|k: int| 0 <= k < g.obt(p).len() && #[trigger] g.obt(p)[k] as int == idx;
        let k2 = choose|k: int| 0 <= k < g.obt(q).len() && #[trigger] g.obt(q)[k] as int == idx;
        if p != q {
            assert(g.obt(p)[k1] != g.obt(q)[k2]);
        }
    }
}

/// A "take" while characters remain gives the active seat the character
/// under the cursor and moves the cursor on by one, so forcing "take"
/// repeatedly reaches the end of the text.
pub proof fn law_take_claims_next(g: ChainGame, h: ChainGame, now: u64)
    requires
        g.wf(),
        g.phase == GamePhase::Picking,
        g.cursor < g.len(),
        take_post(g, h, now),
    ensures
        h.cursor == g.cursor + 1,
        h.phase == GamePhase::Picking,
        h.obt(g.current_turn_idx as int) == g.obt(g.current_turn_idx as int).push(g.cursor),
{
}

proof fn lemma_next_waiting_exists(g: ChainGame, i: int, d: int)
    requires
        g.current_turn_idx < g.n(),
        0 <= i < g.n(),
        g.stopped_status(i) == PlayerStatus::Waiting,
        1 <= d <= circ_dist(g.current_turn_idx as int, i, g.n()),
        forall|e: int|
            1 <= e < d ==> g.stopped_status(#[trigger] seat_after(g.current_turn_idx as int, e, g.n()))
                != PlayerStatus::Waiting,
    ensures
        exists|j: int| #[trigger] g.is_next_waiting(j),
    decreases circ_dist(g.current_turn_idx as int, i, g.n()) - d,
{
    let c = g.current_turn_idx as int;
    let s = seat_after(c, d, g.n());
    if g.stopped_status(s) == PlayerStatus::Waiting {
        assert(circ_dist(c, s, g.n()) == d);
        assert(g.is_next_waiting(s));
    } else {
        assert(seat_after(c, circ_dist(c, i, g.n()), g.n()) == i);
        lemma_next_waiting_exists(g, i, d + 1);
    }
}

/// When the active seat has gone offline, a tick passes the turn on: picking
/// goes on with another seat, or it is over; and the offline seat's claims
/// stay as they were.
pub proof fn law_disconnect_passes_turn(g: ChainGame, h: ChainGame, now: u64)
    requires
        g.wf(),
        g.phase == GamePhase::Picking,
        !g.players@[g.current_turn_idx as int].is_online,
        tick_post(g, h, now),
    ensures
        h.phase != GamePhase::Picking || h.current_turn_idx != g.current_turn_idx,
        h.phase != GamePhase::Picking || h.players@[h.current_turn_idx as int].id
            != g.players@[g.current_turn_idx as int].id,
        h.n() == g.n(),
        h.obt(g.current_turn_idx as int) == g.obt(g.current_turn_idx as int),
{
    let c = g.current_turn_idx as int;
    assert(0 <= c < g.n());
    if g.none_waiting() {
        assert(answering_post(g, h, now, None));
        let st = h.players@[c].status;
        assert(h.obt(c) == g.obt(c));
        assert(h.phase == GamePhase::Answering || h.phase == GamePhase::Settlement);
    } else {
        let i = choose|i: int| 0 <= i < g.n() && #[trigger] g.stopped_status(i) == PlayerStatus::Waiting;
        lemma_next_waiting_exists(g, i, 1);
        let j = choose|j: int| #[trigger] g.is_next_waiting(j);
        assert(j != c);
        if g.sole_waiting(j) {
            assert(answering_post(g, h, now, Some(j)));
            let st = h.players@[c].status;
            assert(h.obt(c) == g.obt(c));
            assert(h.phase == GamePhase::Answering || h.phase == GamePhase::Settlement);
        } else {
            assert(picking_post(g, h, now, j));
            let st = h.players@[c].status;
            assert(h.obt(c) == g.obt(c));
            assert(h.current_turn_idx == j);
            let sj = h.players@[j].status;
            assert(h.players@[j].id == g.players@[j].id);
            assert(g.seat_ids()[j] != g.seat_ids()[c]);
        }
    }
}

/// When the turn moves on and only one seat is still waiting, that seat gets
/// every character from the cursor to the end and picking ends, with no move
/// of theirs.
pub proof fn law_last_waiting_takes_rest(g: ChainGame, h: ChainGame, now: u64, j: int)
    requires
        g.wf(),
        g.phase == GamePhase::Picking,
        g.sole_waiting(j),
        advance_post(g, h, now),
    ensures
        h.obt(j) == g.obt(j) + remaining(g.cursor as int, g.len()),
        h.cursor == g.len(),
        h.phase == GamePhase::Answering || h.phase == GamePhase::Settlement,
{
    assert(answering_post(g, h, now, Some(j)));
    let st = h.players@[j].status;
    assert(h.obt(j) == g.obt(j) + remaining(g.cursor as int, g.len()));
}

/// A seat that has stopped may answer while others are still picking; a
/// second answer from it changes nothing.
pub proof fn law_stopped_seat_answers_once(
    g: ChainGame,
    h: ChainGame,
    h2: ChainGame,
    pid: i64,
    i: int,
    first: String,
    second: String,
)
    requires
        g.wf(),
        g.phase == GamePhase::Picking,
        g.holds_seat(pid, i),
        g.players@[i].status == PlayerStatus::Stopped,
        answer_post(g, h, pid, first),
        answer_post(h, h2, pid, second),
    ensures
        h.players@[i].answer == Some(first),
        h.players@[i].status == PlayerStatus::Submitted,
        h.phase == GamePhase::Picking,
        h2 == h,
{
    assert(g.may_answer(i));
    assert(h.holds_seat(pid, i)) by {
        assert forall|j: int| 0 <= j < i implies #[trigger] h.players@[j].id != pid by {
            assert(h.players@[j] == g.players@[j]);
        }
    }
    assert forall|k: int| #[trigger] h.holds_seat(pid, k) implies !h.may_answer(k) || h.players@[k].status
        == PlayerStatus::Submitted by {
        if k != i {
            if k < i {
                assert(h.players@[k] == g.players@[k]);
            } else {
                assert(h.players@[i].id == pid);
            }
        }
    }
}

} // verus!
