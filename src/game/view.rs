use vstd::prelude::*;
use crate::models::{ClientView, GamePhase, PlayerStatus, PlayerView, SeatState, SessionViewData};
use crate::game::room::{GameSession, Room, RoomPlayer};
use crate::game::seats::{hue_for_seat, spec_hue};

verus! {

/// Whether `viewer` is an admin of `room`, or a site admin.
pub open spec fn viewer_is_admin(room: Room, viewer: Option<i64>, is_site_super: bool) -> bool {
    (viewer matches Some(v) && room.is_room_admin(v)) || is_site_super
}

/// Whether `viewer` sees the whole truth: an admin watching as a spectator.
pub open spec fn viewer_privileged(room: Room, viewer: Option<i64>, is_site_super: bool) -> bool {
    (viewer matches Some(v) && room.is_spectator(v)) && viewer_is_admin(room, viewer, is_site_super)
}

/// Whether the roster entry `p` is listed for a viewer: spectators only for admins.
pub open spec fn listed(p: RoomPlayer, admin: bool) -> bool {
    !p.is_spectator || admin
}

/// The identities of the players (not spectators) of `s`, in order.
pub open spec fn player_ids(s: Seq<RoomPlayer>) -> Seq<i64>
    decreases s.len(),
{
    if s.len() == 0 {
        Seq::empty()
    } else if !s.last().is_spectator {
        player_ids(s.drop_last()).push(s.last().id)
    } else {
        player_ids(s.drop_last())
    }
}

/// The turn order that colours are given by: the session's seats, or without
/// a session the roster's players by identity.
pub open spec fn turn_ids(room: Room) -> Seq<i64> {
    match room.session {
        GameSession::Chain(g) => g.seat_ids(),
        GameSession::Pinyin(g) => g.seat_ids(),
        GameSession::Idle => player_ids(room.players@),
    }
}

/// `i` is the first position of `id` in `order`.
pub open spec fn first_pos(order: Seq<i64>, id: i64, i: int) -> bool {
    &&& 0 <= i < order.len()
    &&& order[i] == id
    &&& forall|j: int| 0 <= j < i ==> order[j] != id
}

/// The colour of `id`: its seat's share of the wheel in `order`, 0 off it.
pub open spec fn seat_hue(order: Seq<i64>, id: i64) -> int {
    if order.contains(id) {
        spec_hue(choose|i: int| first_pos(order, id, i), if order.len() == 0 { 1 } else { order.len() as int })
    } else {
        0
    }
}

/// `s` is what the session shows of the seat of `pid` to this viewer.
pub open spec fn session_seat(session: GameSession, pid: i64, viewer: Option<i64>, privileged: bool, s: SeatState) -> bool {
    match session {
        GameSession::Chain(g) => g.seat_shows(pid, viewer, privileged, s),
        GameSession::Pinyin(g) => g.seat_shows(pid, s),
        GameSession::Idle => s == (SeatState {
            status: PlayerStatus::Waiting,
            score_display: None,
            is_active_turn: false,
            answer: None,
        }),
    }
}

/// `v` shows roster entry `p`: its own fields, its colour in `order`, and
/// the session's state of its seat (a spectator shows as waiting).
pub open spec fn shows_member(
    room: Room,
    viewer: Option<i64>,
    privileged: bool,
    order: Seq<i64>,
    p: RoomPlayer,
    v: PlayerView,
) -> bool {
    &&& v.id == p.id
    &&& v.name == p.name
    &&& v.is_online == p.is_online
    &&& v.is_spectator == p.is_spectator
    &&& v.is_admin == p.is_admin
    &&& v.is_me == (viewer == Some(p.id))
    &&& v.color_hue as int == seat_hue(order, p.id)
    &&& exists|s: SeatState| #[trigger] session_seat(room.session, p.id, viewer, privileged, s) && v.status == (
        if p.is_spectator {
            PlayerStatus::Waiting
        } else {
            s.status
        }) && v.score_display == s.score_display && v.is_active_turn == s.is_active_turn && v.answer
        == s.answer
}

/// The listed members among the seats `order`, in seat order.
pub open spec fn listed_seats(room: Room, order: Seq<i64>, admin: bool) -> Seq<i64>
    decreases order.len(),
{
    if order.len() == 0 {
        Seq::empty()
    } else {
        let rest = listed_seats(room, order.drop_last(), admin);
        let id = order.last();
        if room.has(id) && listed(room.entry(id), admin) {
            rest.push(id)
        } else {
            rest
        }
    }
}

/// The listed members of `s` that are not in `skip`, in roster order.
pub open spec fn listed_rest(s: Seq<RoomPlayer>, skip: Seq<i64>, admin: bool) -> Seq<i64>
    decreases s.len(),
{
    if s.len() == 0 {
        Seq::empty()
    } else {
        let rest = listed_rest(s.drop_last(), skip, admin);
        if !skip.contains(s.last().id) && listed(s.last(), admin) {
            rest.push(s.last().id)
        } else {
            rest
        }
    }
}

/// The identities a view lists, in order: during a game the listed seats in
/// turn order, then the other listed members; the roster is kept by
/// ascending identity, so the others come by identity.
pub open spec fn view_order(room: Room, admin: bool) -> Seq<i64> {
    if room.session is Idle {
        listed_rest(room.players@, Seq::empty(), admin)
    } else {
        listed_seats(room, turn_ids(room), admin) + listed_rest(room.players@, turn_ids(room), admin)
    }
}

/// The identities of a list of player views.
pub open spec fn ids_of(v: Seq<PlayerView>) -> Seq<i64> {
    Seq::new(v.len(), |k: int| v[k].id)
}

/// `r` is the snapshot of `room` that `viewer` may see at `now`.
pub open spec fn view_shows(room: Room, viewer: Option<i64>, is_site_super: bool, now: u64, r: ClientView) -> bool {
    let privileged = viewer_privileged(room, viewer, is_site_super);
    &&& r.room_id == room.id
    &&& r.room_name == room.name
    &&& r.room_type == room.room_type
    &&& r.max_players == room.max_players
    &&& r.phase == room.session.spec_phase()
    &&& r.is_admin == viewer_is_admin(room, viewer, is_site_super)
    &&& r.is_admin ==> (r.admin_ids matches Some(a) && a@ == room.admin_ids@)
    &&& !r.is_admin ==> r.admin_ids is None
    &&& room.session is Idle ==> r.hint@.len() == 0 && r.deadline_ms is None && r.grid is None
        && r.pinyin_state is None && r.winner is None && r.correct_answer is None
    &&& room.session matches GameSession::Chain(g) ==> g.view_data_shows(
        viewer,
        privileged,
        now,
        SessionViewData {
            phase: r.phase,
            hint: r.hint,
            deadline_ms: r.deadline_ms,
            grid: r.grid,
            pinyin_state: r.pinyin_state,
            winner: r.winner,
            correct_answer: r.correct_answer,
        },
    )
    &&& room.session matches GameSession::Pinyin(g) ==> g.view_data_shows(
        viewer,
        privileged,
        now,
        SessionViewData {
            phase: r.phase,
            hint: r.hint,
            deadline_ms: r.deadline_ms,
            grid: r.grid,
            pinyin_state: r.pinyin_state,
            winner: r.winner,
            correct_answer: r.correct_answer,
        },
    )
    &&& ids_of(r.players@) == view_order(room, r.is_admin)
    &&& forall|k: int| 0 <= k < r.players@.len() ==> {
        let v = #[trigger] r.players@[k];
        &&& room.has(v.id)
        &&& shows_member(room, viewer, privileged, turn_ids(room), room.entry(v.id), v)
        &&& v.is_spectator ==> r.is_admin
        &&& v.answer is Some ==> privileged || r.phase == GamePhase::Settlement || v.is_me
    }
}

/// The first position of `id` in `order`, if it is there.
fn position_of(order: &Vec<i64>, id: i64) -> (r: Option<usize>)
    ensures
        r matches Some(i) ==> first_pos(order@, id, i as int),
        r is None ==> !order@.contains(id),
{
    let mut i: usize = 0;
    while i < order.len()
        invariant
            i <= order@.len(),
            forall|j: int| 0 <= j < i ==> #[trigger] order@[j] != id,
        decreases order@.len() - i,
    {
        if order[i] == id {
            return Some(i);
        }
        i += 1;
    }
    None
}

/// The turn order of `room` (see `turn_ids`).
fn turn_order(room: &Room) -> (r: Vec<i64>)
    ensures
        r@ == turn_ids(*room),
{
    let mut r: Vec<i64> = Vec::new();
    match &room.session {
        GameSession::Chain(g) => {
            let mut i: usize = 0;
            while i < g.players.len()
                invariant
                    i <= g.players@.len(),
                    r@ == g.seat_ids().subrange(0, i as int),
                decreases g.players@.len() - i,
            {
                r.push(g.players[i].id);
                i += 1;
                assert(r@ =~= g.seat_ids().subrange(0, i as int));
            }
            assert(g.seat_ids().subrange(0, i as int) =~= g.seat_ids());
        },
        GameSession::Pinyin(g) => {
            let mut i: usize = 0;
            while i < g.players.len()
                invariant
                    i <= g.players@.len(),
                    r@ == g.seat_ids().subrange(0, i as int),
                decreases g.players@.len() - i,
            {
                r.push(g.players[i].id);
                i += 1;
                assert(r@ =~= g.seat_ids().subrange(0, i as int));
            }
            assert(g.seat_ids().subrange(0, i as int) =~= g.seat_ids());
        },
        GameSession::Idle => {
            let mut i: usize = 0;
            while i < room.players.len()
                invariant
                    i <= room.players@.len(),
                    r@ == player_ids(room.players@.subrange(0, i as int)),
                decreases room.players@.len() - i,
            {
                assert(room.players@.subrange(0, i + 1).drop_last() =~= room.players@.subrange(0, i as int));
                if !room.players[i].is_spectator {
                    r.push(room.players[i].id);
                }
                i += 1;
            }
            assert(room.players@.subrange(0, i as int) =~= room.players@);
        },
    }
    r
}

/// The view of roster entry `p` for this viewer, coloured by `order`.
fn player_view(
    room: &Room,
    p: &RoomPlayer,
    viewer: Option<i64>,
    privileged: bool,
    order: &Vec<i64>,
) -> (r: PlayerView)
    requires
        room.session.wf(),
    ensures
        shows_member(*room, viewer, privileged, order@, *p, r),
        r.answer is Some ==> privileged || room.session.spec_phase() == GamePhase::Settlement
            || viewer == Some(p.id),
{
    let state = match &room.session {
        GameSession::Chain(g) => {
            let st = g.get_player_state(p.id, viewer, privileged);
            proof {
                if g.seated(p.id) {
                    let k = choose|k: int| 0 <= k < g.n() && #[trigger] g.players@[k].id == p.id;
                    crate::game::room::lemma_chain_first_seat(*g, p.id, k);
                    let m = choose|m: int| #[trigger] g.holds_seat(p.id, m);
                    assert(g.holds_seat(p.id, m));
                }
            }
            st
        },
        GameSession::Pinyin(g) => {
            let st = g.get_player_state(p.id);
            proof {
                if g.seated(p.id) {
                    let k = choose|k: int| 0 <= k < g.n() && #[trigger] g.players@[k].id == p.id;
                    crate::game::room::lemma_pinyin_first_seat(*g, p.id, k);
                    let m = choose|m: int| #[trigger] g.holds_seat(p.id, m);
                    assert(g.holds_seat(p.id, m));
                }
            }
            st
        },
        GameSession::Idle => SeatState {
            status: PlayerStatus::Waiting,
            score_display: None,
            is_active_turn: false,
            answer: None,
        },
    };
    let total = if order.len() == 0 {
        1
    } else {
        order.len()
    };
    let color_hue = match position_of(order, p.id) {
        Some(i) => {
            proof {
                assert(order@.contains(p.id)) by {
                    assert(order@[i as int] == p.id);
                }
                let c = choose|c: int| first_pos(order@, p.id, c);
                if c < i {
                    assert(order@[c] == p.id);
                }
                if i < c {
                    assert(order@[i as int] == p.id);
                }
            }
            hue_for_seat(i, total)
        },
        None => 0,
    };
    let r = PlayerView {
        id: p.id,
        name: p.name.clone(),
        color_hue,
        status: if p.is_spectator {
            PlayerStatus::Waiting
        } else {
            state.status
        },
        is_me: match viewer {
            Some(v) => v == p.id,
            None => false,
        },
        is_online: p.is_online,
        is_active_turn: state.is_active_turn,
        score_display: state.score_display,
        answer: state.answer,
        is_spectator: p.is_spectator,
        is_admin: p.is_admin,
    };
    proof {
        assert(session_seat(room.session, p.id, viewer, privileged, state));
    }
    r
}

/// The snapshot of `room` that `viewer` may see at `now` (see `view_shows`).
/// Spectators are listed for admins only; during a game the seats come first
/// in turn order, then the rest of the roster by identity.
pub fn build_client_view(room: &Room, viewer: Option<i64>, is_site_super: bool, now: u64) -> (r: ClientView)
    requires
        room.wf(),
    ensures
        view_shows(*room, viewer, is_site_super, now, r),
{
    let is_admin = (match viewer {
        Some(v) => room.admin_contains(v),
        None => false,
    }) || is_site_super;
    let is_spectator = match viewer {
        Some(v) => match room.find_player(v) {
            Some(i) => room.players[i].is_spectator,
            None => false,
        },
        None => false,
    };
    let privileged = is_spectator && is_admin;
    proof {
        if let Some(v) = viewer {
            if room.has(v) {
                let c = choose|j: int| 0 <= j < room.players@.len() && #[trigger] room.players@[j].id == v;
                assert(room.entry(v) == room.players@[c]);
            }
        }
        assert(privileged == viewer_privileged(*room, viewer, is_site_super));
    }
    let order = turn_order(room);
    let data = match &room.session {
        GameSession::Idle => SessionViewData {
            phase: GamePhase::Waiting,
            hint: String::new(),
            deadline_ms: None,
            grid: None,
            pinyin_state: None,
            winner: None,
            correct_answer: None,
        },
        GameSession::Chain(g) => g.get_view_data(viewer, privileged, now),
        GameSession::Pinyin(g) => g.get_view_data(viewer, privileged, now),
    };
    let in_session = match &room.session {
        GameSession::Idle => false,
        _ => true,
    };
    let ghost skip: Seq<i64> = if in_session { order@ } else { Seq::empty() };
    let mut views: Vec<PlayerView> = Vec::new();
    if in_session {
        let mut k: usize = 0;
        while k < order.len()
            invariant
                room.wf(),
                order@ == turn_ids(*room),
                privileged == viewer_privileged(*room, viewer, is_site_super),
                k <= order@.len(),
                ids_of(views@) == listed_seats(*room, order@.subrange(0, k as int), is_admin),
                forall|j: int| 0 <= j < views@.len() ==> {
                    let v = #[trigger] views@[j];
                    &&& room.has(v.id)
                    &&& shows_member(*room, viewer, privileged, order@, room.entry(v.id), v)
                    &&& v.is_spectator ==> is_admin
                    &&& v.answer is Some ==> privileged || room.session.spec_phase() == GamePhase::Settlement || v.is_me
                },
            decreases order@.len() - k,
        {
            let pid = order[k];
            let ghost before = views@;
            proof {
                assert(order@.subrange(0, k + 1).drop_last() =~= order@.subrange(0, k as int));
            }
            match room.find_player(pid) {
                Some(i) => {
                    let p = &room.players[i];
                    if !p.is_spectator || is_admin {
                        views.push(player_view(room, p, viewer, privileged, &order));
                        assert(ids_of(views@) =~= ids_of(before).push(pid));
                    }
                },
                None => {},
            }
            k += 1;
        }
        assert(order@.subrange(0, order@.len() as int) =~= order@);
    }
    let ghost first = ids_of(views@);
    proof {
        if !in_session {
            assert(first =~= Seq::<i64>::empty());
        }
    }
    let mut i: usize = 0;
    while i < room.players.len()
        invariant
            room.wf(),
            order@ == turn_ids(*room),
            privileged == viewer_privileged(*room, viewer, is_site_super),
            skip == (if in_session { order@ } else { Seq::<i64>::empty() }),
            i <= room.players@.len(),
            ids_of(views@) == first + listed_rest(room.players@.subrange(0, i as int), skip, is_admin),
            forall|j: int| 0 <= j < views@.len() ==> {
                let v = #[trigger] views@[j];
                &&& room.has(v.id)
                &&& shows_member(*room, viewer, privileged, order@, room.entry(v.id), v)
                &&& v.is_spectator ==> is_admin
                &&& v.answer is Some ==> privileged || room.session.spec_phase() == GamePhase::Settlement || v.is_me
            },
        decreases room.players@.len() - i,
    {
        let p = &room.players[i];
        let ghost pid = p.id;
        let ghost before = views@;
        proof {
            let c = choose|j: int| 0 <= j < room.players@.len() && #[trigger] room.players@[j].id == pid;
            assert(room.players@[i as int].id == pid);
            if c != i {
                assert(room.players@[c].id != room.players@[i as int].id);
            }
            assert(room.entry(pid) == room.players@[i as int]);
            assert(room.has(pid));
            assert(room.players@.subrange(0, i + 1).drop_last() =~= room.players@.subrange(0, i as int));
        }
        let skipped = in_session && position_of(&order, p.id).is_some();
        proof {
            assert(skipped == skip.contains(pid)) by {
                if skip.contains(pid) {
                    let x = choose|x: int| 0 <= x < skip.len() && skip[x] == pid;
                    assert(order@[x] == pid);
                }
            }
        }
        if !skipped && (!p.is_spectator || is_admin) {
            views.push(player_view(room, p, viewer, privileged, &order));
            assert(ids_of(views@) =~= ids_of(before).push(pid));
        }
        i += 1;
    }
    proof {
        assert(room.players@.subrange(0, room.players@.len() as int) =~= room.players@);
    }
    ClientView {
        room_id: room.id.clone(),
        room_name: room.name.clone(),
        room_type: room.room_type,
        phase: data.phase,
        hint: data.hint,
        deadline_ms: data.deadline_ms,
        is_admin,
        admin_ids: if is_admin {
            Some(copy_ids(&room.admin_ids))
        } else {
            None
        },
        players: views,
        max_players: room.max_players,
        grid: data.grid,
        pinyin_state: data.pinyin_state,
        winner: data.winner,
        correct_answer: data.correct_answer,
    }
}

/// A copy of a list of identities.
fn copy_ids(v: &Vec<i64>) -> (r: Vec<i64>)
    ensures
        r@ == v@,
{
    let mut r: Vec<i64> = Vec::new();
    let mut i: usize = 0;
    while i < v.len()
        invariant
            i <= v@.len(),
            r@ == v@.subrange(0, i as int),
        decreases v@.len() - i,
    {
        r.push(v[i]);
        i += 1;
        assert(r@ =~= v@.subrange(0, i as int));
    }
    assert(v@.subrange(0, v@.len() as int) =~= v@);
    r
}

impl Room {
    /// The snapshot of this room that `viewer` may see at `now` (see `view_shows`).
    pub fn get_view(&self, viewer: Option<i64>, is_site_super: bool, now: u64) -> (r: ClientView)
        requires
            self.wf(),
        ensures
            view_shows(*self, viewer, is_site_super, now, r),
    {
        build_client_view(self, viewer, is_site_super, now)
    }
}

} // verus!
