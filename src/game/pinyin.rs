use std::sync::Arc;
use vstd::prelude::*;
use crate::models::{
    emit, emit_log, extends, quiet, toasted, updated, GamePhase, InternalMsg, PinyinHistoryItem, PinyinSpecificView,
    PlayerStatus, SeatState, SessionViewData, ToastKind,
};
use crate::text::{blank, char_string, is_blank, join3, player_text};
use crate::game::pinyin_utils::{
    add_all, add_str, char_fault, contains_str, distinct_strs, get_text_components, str_set,
    text_finals, text_initials, validate_char, PinyinTable,
};
use crate::game::seats::{deadline_after, hue_for_seat, later, ms_left, shuffle_ids, spec_hue, time_left};

verus! {

/// How long each seat has for its turn.
pub const PINYIN_TURN_MS: u64 = 180000;

/// One seat of a Pinyin session.
#[derive(Clone, Debug)]
pub struct PinyinPlayer {
    pub id: i64,
    pub color_hue: u16,
    pub status: PlayerStatus,
    pub is_online: bool,
}

/// The relay game: each describer in turn rewrites the prompt under a growing
/// ban on initials and finals; the last seat guesses the answer.
pub struct PinyinGame {
    pub phase: GamePhase,
    pub players: Vec<PinyinPlayer>,
    pub pinyin_table: Arc<PinyinTable>,
    pub answer_text: String,
    pub hint_text: String,
    pub current_player_idx: usize,
    pub turn_deadline: Option<u64>,
    pub history: Vec<PinyinHistoryItem>,
    pub is_first_describer: bool,
    pub current_input_prompt: String,
    pub banned_initials: Vec<String>,
    pub banned_finals: Vec<String>,
    pub answer_initials: Vec<String>,
    pub answer_finals: Vec<String>,
    pub all_initials: Vec<String>,
    pub all_finals: Vec<String>,
    pub winner: bool,
}

/// Every initial of the table.
pub open spec fn table_initials(t: PinyinTable) -> Set<Seq<char>> {
    Set::new(|x: Seq<char>| exists|i: int| 0 <= i < t.entries@.len() && #[trigger] t.entries@[i].initial@ == x)
}

/// Every final of the table.
pub open spec fn table_finals(t: PinyinTable) -> Set<Seq<char>> {
    Set::new(|x: Seq<char>| exists|i: int| 0 <= i < t.entries@.len() && #[trigger] t.entries@[i].fin@ == x)
}

/// `a` comes before `b` in lexicographic order of code points.
pub open spec fn seq_le(a: Seq<char>, b: Seq<char>) -> bool
    decreases a.len(),
{
    if a.len() == 0 {
        true
    } else if b.len() == 0 {
        false
    } else if a[0] != b[0] {
        (a[0] as u32) < (b[0] as u32)
    } else {
        seq_le(a.drop_first(), b.drop_first())
    }
}

/// Relies on `slice::sort` for `String`: a stable sort into ascending
/// lexicographic order.
#[verifier::external_body]
pub(crate) fn sort_strings(v: &mut Vec<String>)
    ensures
        final(v)@.to_multiset() == old(v)@.to_multiset(),
        forall|i: int, j: int| 0 <= i < j < final(v)@.len() ==> seq_le(#[trigger] final(v)@[i]@, #[trigger] final(v)@[j]@),
{
    v.sort()
}

proof fn lemma_sorted_same_set(a: Seq<String>, b: Seq<String>)
    requires
        a.to_multiset() == b.to_multiset(),
    ensures
        str_set(a) == str_set(b),
{
    assert forall|x: Seq<char>| str_set(a).contains(x) implies str_set(b).contains(x) by {
        let i = choose|i: int| 0 <= i < a.len() && #[trigger] a[i]@ == x;
        vstd::seq_lib::to_multiset_contains(a, a[i]);
        vstd::seq_lib::to_multiset_contains(b, a[i]);
        assert(a.contains(a[i]));
        let j = choose|j: int| 0 <= j < b.len() && b[j] == a[i];
        assert(b[j]@ == x);
    }
    assert forall|x: Seq<char>| str_set(b).contains(x) implies str_set(a).contains(x) by {
        let i = choose|i: int| 0 <= i < b.len() && #[trigger] b[i]@ == x;
        vstd::seq_lib::to_multiset_contains(a, b[i]);
        vstd::seq_lib::to_multiset_contains(b, b[i]);
        assert(b.contains(b[i]));
        let j = choose|j: int| 0 <= j < a.len() && a[j] == b[i];
        assert(a[j]@ == x);
    }
    assert(str_set(a) =~= str_set(b));
}

/// The strings of `v` are in ascending order.
pub open spec fn sorted_strs(v: Seq<String>) -> bool {
    forall|i: int, j: int| 0 <= i < j < v.len() ==> seq_le(#[trigger] v[i]@, #[trigger] v[j]@)
}

proof fn lemma_permutation_distinct(a: Seq<String>, b: Seq<String>)
    requires
        a.to_multiset() == b.to_multiset(),
        distinct_strs(a),
    ensures
        distinct_strs(b),
{
    assert(a.no_duplicates()) by {
        assert forall|i: int, j: int| 0 <= i < a.len() && 0 <= j < a.len() && i != j implies a[i] != a[j] by {
            if i < j {
                assert(a[i]@ != a[j]@);
            } else {
                assert(a[j]@ != a[i]@);
            }
        }
    }
    a.lemma_multiset_has_no_duplicates();
    assert forall|x: String| b.to_multiset().contains(x) implies b.to_multiset().count(x) == 1 by {
        assert(a.to_multiset().contains(x));
    }
    b.lemma_multiset_has_no_duplicates_conv();
    assert forall|i: int, j: int| 0 <= i < j < b.len() implies #[trigger] b[i]@ != #[trigger] b[j]@ by {
        vstd::seq_lib::to_multiset_contains(a, b[i]);
        vstd::seq_lib::to_multiset_contains(b, b[i]);
        vstd::seq_lib::to_multiset_contains(a, b[j]);
        vstd::seq_lib::to_multiset_contains(b, b[j]);
        assert(b.contains(b[i]));
        assert(b.contains(b[j]));
        let x = choose|x: int| 0 <= x < a.len() && a[x] == b[i];
        let y = choose|y: int| 0 <= y < a.len() && a[y] == b[j];
        assert(b[i] != b[j]);
        assert(x != y);
        if x < y {
            assert(a[x]@ != a[y]@);
        } else {
            assert(a[y]@ != a[x]@);
        }
    }
}

/// The catalogue of every initial and every final of the table, sorted.
fn table_catalogue(t: &PinyinTable) -> (r: (Vec<String>, Vec<String>))
    ensures
        str_set(r.0@) == table_initials(*t),
        str_set(r.1@) == table_finals(*t),
        distinct_strs(r.0@),
        distinct_strs(r.1@),
        sorted_strs(r.0@),
        sorted_strs(r.1@),
{
    let mut inits: Vec<String> = Vec::new();
    let mut fins: Vec<String> = Vec::new();
    let mut i: usize = 0;
    while i < t.entries.len()
        invariant
            i <= t.entries@.len(),
            distinct_strs(inits@),
            distinct_strs(fins@),
            str_set(inits@) == Set::new(|x: Seq<char>| exists|k: int| 0 <= k < i && #[trigger] t.entries@[k].initial@ == x),
            str_set(fins@) == Set::new(|x: Seq<char>| exists|k: int| 0 <= k < i && #[trigger] t.entries@[k].fin@ == x),
        decreases t.entries@.len() - i,
    {
        add_str(&mut inits, t.entries[i].initial.clone());
        add_str(&mut fins, t.entries[i].fin.clone());
        proof {
            assert(str_set(inits@) =~= Set::new(|x: Seq<char>| exists|k: int| 0 <= k < i + 1 && #[trigger] t.entries@[k].initial@ == x)) by {
                assert forall|x: Seq<char>| #[trigger] str_set(inits@).contains(x) implies exists|k: int| 0 <= k < i + 1 && #[trigger] t.entries@[k].initial@ == x by {
                    if x == t.entries@[i as int].initial@ {
                    }
                }
            }
            assert(str_set(fins@) =~= Set::new(|x: Seq<char>| exists|k: int| 0 <= k < i + 1 && #[trigger] t.entries@[k].fin@ == x)) by {
                assert forall|x: Seq<char>| #[trigger] str_set(fins@).contains(x) implies exists|k: int| 0 <= k < i + 1 && #[trigger] t.entries@[k].fin@ == x by {
                    if x == t.entries@[i as int].fin@ {
                    }
                }
            }
        }
        i += 1;
    }
    let ghost a = inits@;
    let ghost b = fins@;
    sort_strings(&mut inits);
    sort_strings(&mut fins);
    proof {
        lemma_sorted_same_set(a, inits@);
        lemma_sorted_same_set(b, fins@);
        lemma_permutation_distinct(a, inits@);
        lemma_permutation_distinct(b, fins@);
        assert(str_set(a) =~= table_initials(*t));
        assert(str_set(b) =~= table_finals(*t));
    }
    (inits, fins)
}

/// A copy of a list of strings.
pub fn copy_strs(v: &Vec<String>) -> (r: Vec<String>)
    ensures
        r@ == v@,
{
    let mut r: Vec<String> = Vec::new();
    let mut i: usize = 0;
    while i < v.len()
        invariant
            i <= v@.len(),
            r@ == v@.subrange(0, i as int),
        decreases v@.len() - i,
    {
        r.push(v[i].clone());
        i += 1;
        assert(r@ =~= v@.subrange(0, i as int));
    }
    assert(v@.subrange(0, v@.len() as int) =~= v@);
    r
}

/// A copy of a history.
pub fn copy_history(v: &Vec<PinyinHistoryItem>) -> (r: Vec<PinyinHistoryItem>)
    ensures
        r@ == v@,
{
    let mut r: Vec<PinyinHistoryItem> = Vec::new();
    let mut i: usize = 0;
    while i < v.len()
        invariant
            i <= v@.len(),
            r@ == v@.subrange(0, i as int),
        decreases v@.len() - i,
    {
        let it = &v[i];
        r.push(PinyinHistoryItem { player: it.player, content: it.content.clone(), is_guess: it.is_guess });
        i += 1;
        assert(r@ =~= v@.subrange(0, i as int));
    }
    assert(v@.subrange(0, v@.len() as int) =~= v@);
    r
}

impl PinyinGame {
    pub open spec fn n(&self) -> int {
        self.players@.len() as int
    }

    pub open spec fn table(&self) -> PinyinTable {
        *self.pinyin_table
    }

    pub open spec fn wf(&self) -> bool {
        &&& self.table().wf()
        &&& self.seat_ids().no_duplicates()
        &&& distinct_strs(self.banned_initials@)
        &&& distinct_strs(self.banned_finals@)
        &&& str_set(self.answer_initials@) == text_initials(self.table(), self.answer_text@)
        &&& str_set(self.answer_finals@) == text_finals(self.table(), self.answer_text@)
        &&& self.phase == GamePhase::Gaming ==> {
            &&& self.current_player_idx < self.n()
            &&& self.turn_deadline is Some
            &&& self.players@[self.current_player_idx as int].status == PlayerStatus::Picking
            &&& forall|i: int|
                0 <= i < self.n() && i != self.current_player_idx ==> #[trigger] self.players@[i].status
                    != PlayerStatus::Picking
        }
        &&& self.phase != GamePhase::Waiting ==> self.n() > 0
        &&& self.phase != GamePhase::Picking && self.phase != GamePhase::Answering
    }

    /// Seat `i` is the first seat of player `pid`.
    pub open spec fn holds_seat(&self, pid: i64, i: int) -> bool {
        &&& 0 <= i < self.n()
        &&& self.players@[i].id == pid
        &&& forall|j: int| 0 <= j < i ==> #[trigger] self.players@[j].id != pid
    }

    pub open spec fn seated(&self, pid: i64) -> bool {
        exists|i: int| 0 <= i < self.n() && #[trigger] self.players@[i].id == pid
    }

    /// Whether a describer may use `c` now: the table knows it, its initial and
    /// final are not banned, and on a first turn they are not the answer's.
    pub open spec fn char_allowed(&self, c: char) -> bool {
        &&& char_fault(c, self.table(), str_set(self.banned_initials@), str_set(self.banned_finals@))
            is None
        &&& self.is_first_describer ==> !str_set(self.answer_initials@).contains(
            self.table().initial_of(c),
        ) && !str_set(self.answer_finals@).contains(self.table().final_of(c))
    }

    /// Whether a describer's `text` is accepted.
    pub open spec fn accepts(&self, text: Seq<char>) -> bool {
        forall|i: int| 0 <= i < text.len() ==> self.char_allowed(#[trigger] text[i])
    }

    /// A new session for `ans`, waiting for players.
    pub fn new(ans: String, hint: String, table: Arc<PinyinTable>) -> (g: Self)
        requires
            table.wf(),
        ensures
            g.wf(),
            g.phase == GamePhase::Waiting,
            g.n() == 0,
            g.answer_text == ans,
            g.hint_text == hint,
            g.pinyin_table == table,
            g.current_input_prompt == ans,
            g.is_first_describer,
            g.history@.len() == 0,
            g.banned_initials@.len() == 0,
            g.banned_finals@.len() == 0,
            str_set(g.all_initials@) == table_initials(*table),
            str_set(g.all_finals@) == table_finals(*table),
            distinct_strs(g.all_initials@) && sorted_strs(g.all_initials@),
            distinct_strs(g.all_finals@) && sorted_strs(g.all_finals@),
            str_set(g.answer_initials@) == text_initials(*table, ans@),
            str_set(g.answer_finals@) == text_finals(*table, ans@),
            !g.winner,
    {
        let (answer_initials, answer_finals) = get_text_components(ans.as_str(), &table);
        let (all_initials, all_finals) = table_catalogue(&table);
        let prompt = ans.clone();
        PinyinGame {
            phase: GamePhase::Waiting,
            players: Vec::new(),
            pinyin_table: table,
            answer_text: ans,
            hint_text: hint,
            current_player_idx: 0,
            turn_deadline: None,
            history: Vec::new(),
            is_first_describer: true,
            current_input_prompt: prompt,
            banned_initials: Vec::new(),
            banned_finals: Vec::new(),
            answer_initials,
            answer_finals,
            all_initials,
            all_finals,
            winner: false,
        }
    }

    /// The first seat of `pid`, if it has one.
    pub fn find_seat(&self, pid: i64) -> (r: Option<usize>)
        ensures
            r matches Some(i) ==> self.holds_seat(pid, i as int),
            r is None <==> !self.seated(pid),
    {
        let mut i: usize = 0;
        while i < self.players.len()
            invariant
                i <= self.players@.len(),
                forall|j: int| 0 <= j < i ==> #[trigger] self.players@[j].id != pid,
            decreases self.players@.len() - i,
        {
            if self.players[i].id == pid {
                return Some(i);
            }
            i += 1;
        }
        None
    }

    /// The state right after seating `order` at `now`.
    pub open spec fn seated_from(&self, order: Seq<i64>, now: u64) -> bool {
        &&& self.phase == GamePhase::Gaming
        &&& self.n() == order.len()
        &&& forall|j: int|
            0 <= j < self.n() ==> {
                let p = #[trigger] self.players@[j];
                &&& p.id == order[j]
                &&& p.color_hue as int == spec_hue(j, self.n())
                &&& p.status == (if j == 0 {
                    PlayerStatus::Picking
                } else {
                    PlayerStatus::Waiting
                })
                &&& p.is_online
            }
        &&& self.current_player_idx == 0
        &&& self.current_input_prompt == self.answer_text
        &&& self.is_first_describer
        &&& self.banned_initials@.len() == 0
        &&& self.banned_finals@.len() == 0
        &&& self.history@.len() == 0
        &&& self.turn_deadline == Some(deadline_after(now, PINYIN_TURN_MS))
    }

    /// Seats the players of `order`, in that order, and opens the first turn.
    pub fn seat_players(&mut self, order: Vec<i64>, now: u64, out: &mut Vec<InternalMsg>)
        requires
            old(self).wf(),
            old(self).phase == GamePhase::Waiting,
            order@.len() > 0,
            order@.no_duplicates(),
        ensures
            final(self).wf(),
            final(self).seated_from(order@, now),
            *final(self) == (PinyinGame {
                phase: final(self).phase,
                players: final(self).players,
                current_player_idx: final(self).current_player_idx,
                turn_deadline: final(self).turn_deadline,
                history: final(self).history,
                is_first_describer: final(self).is_first_describer,
                current_input_prompt: final(self).current_input_prompt,
                banned_initials: final(self).banned_initials,
                banned_finals: final(self).banned_finals,
                ..*old(self)
            }),
            extends(old(out)@, final(out)@),
    {
        let n = order.len();
        let mut players: Vec<PinyinPlayer> = Vec::new();
        let mut i: usize = 0;
        while i < n
            invariant
                n == order@.len(),
                n > 0,
                i <= n,
                players@.len() == i,
                forall|j: int|
                    0 <= j < i ==> {
                        let p = #[trigger] players@[j];
                        &&& p.id == order@[j]
                        &&& p.color_hue as int == spec_hue(j, n as int)
                        &&& p.status == (if j == 0 {
                            PlayerStatus::Picking
                        } else {
                            PlayerStatus::Waiting
                        })
                        &&& p.is_online
                    },
            decreases n - i,
        {
            let status = if i == 0 {
                PlayerStatus::Picking
            } else {
                PlayerStatus::Waiting
            };
            players.push(PinyinPlayer { id: order[i], color_hue: hue_for_seat(i, n), status, is_online: true });
            i += 1;
        }
        self.players = players;
        self.phase = GamePhase::Gaming;
        self.current_player_idx = 0;
        self.current_input_prompt = self.answer_text.clone();
        self.is_first_describer = true;
        self.banned_initials = Vec::new();
        self.banned_finals = Vec::new();
        self.history = Vec::new();
        self.turn_deadline = Some(later(now, PINYIN_TURN_MS));
        emit_log(out, "System", String::from_str("Pinyin Game Started."));
        emit(out, InternalMsg::StateUpdated);
    }

    /// Starts the session with the players of `ids` in a random order. Does
    /// nothing unless the session is waiting and `ids` is not empty.
    pub fn start(&mut self, ids: Vec<i64>, now: u64, out: &mut Vec<InternalMsg>)
        requires
            old(self).wf(),
            ids@.no_duplicates(),
        ensures
            final(self).wf(),
            extends(old(out)@, final(out)@),
            old(self).phase != GamePhase::Waiting || ids@.len() == 0 ==> *final(self) == *old(self),
            old(self).phase == GamePhase::Waiting && ids@.len() > 0 ==> {
                &&& final(self).seated_from(final(self).seat_ids(), now)
                &&& final(self).seat_ids().to_multiset() == ids@.to_multiset()
                &&& final(self).answer_text == old(self).answer_text
                &&& final(self).hint_text == old(self).hint_text
                &&& final(self).pinyin_table == old(self).pinyin_table
            },
    {
        if self.phase != GamePhase::Waiting || ids.len() == 0 {
            return;
        }
        let mut order = ids;
        let ghost before = order@;
        shuffle_ids(&mut order);
        proof {
            vstd::seq_lib::to_multiset_len(before);
            vstd::seq_lib::to_multiset_len(order@);
            crate::game::seats::lemma_permutation_no_duplicates(before, order@);
        }
        self.seat_players(order, now, out);
        assert(self.seat_ids() =~= order@);
    }

    /// The identities of the seats, in turn order.
    pub open spec fn seat_ids(&self) -> Seq<i64> {
        Seq::new(self.players@.len(), |i: int| self.players@[i].id)
    }

    /// Ends the session with the given outcome. A second call changes nothing.
    pub fn finish_game(&mut self, win: bool, out: &mut Vec<InternalMsg>)
        ensures
            *final(self) == finished(*old(self), win),
            extends(old(out)@, final(out)@),
            old(self).phase == GamePhase::Settlement ==> quiet(old(out)@, final(out)@),
            old(self).phase != GamePhase::Settlement ==> updated(old(out)@, final(out)@),
    {
        if self.phase == GamePhase::Settlement {
            return;
        }
        self.phase = GamePhase::Settlement;
        self.winner = win;
        self.turn_deadline = None;
        emit_log(out, "System", String::from_str(if win { "Game Over. Result: Win" } else { "Game Over. Result: Loss" }));
        emit(out, InternalMsg::StateUpdated);
    }

    /// Hands the turn from the current describer to the next seat at `now`.
    /// The first-turn rule comes back when the prompt is the answer itself.
    fn pass_turn(&mut self, now: u64, out: &mut Vec<InternalMsg>)
        requires
            old(self).wf(),
            old(self).phase == GamePhase::Gaming,
            old(self).current_player_idx + 1 < old(self).n(),
        ensures
            final(self).wf(),
            passed(*old(self), *final(self), now),
            final(self).is_first_describer == (old(self).is_first_describer
                || old(self).current_input_prompt@ == old(self).answer_text@),
            *final(self) == (PinyinGame {
                players: final(self).players,
                current_player_idx: final(self).current_player_idx,
                turn_deadline: final(self).turn_deadline,
                is_first_describer: final(self).is_first_describer,
                ..*old(self)
            }),
            extends(old(out)@, final(out)@),
            updated(old(out)@, final(out)@),
    {
        let ghost ids0 = self.seat_ids();
        let cur = self.current_player_idx;
        let _n = self.players.len();
        self.players[cur].status = PlayerStatus::Submitted;
        self.current_player_idx = cur + 1;
        self.players[cur + 1].status = PlayerStatus::Picking;
        if self.current_input_prompt == self.answer_text {
            self.is_first_describer = true;
        }
        self.turn_deadline = Some(later(now, PINYIN_TURN_MS));
        emit(out, InternalMsg::StateUpdated);
        proof {
            assert(self.seat_ids() =~= ids0);
        }
    }

    /// An answer from `pid`. Only the active seat may answer while the game
    /// runs, and blank content is refused. The last seat guesses: the game ends,
    /// won when the guess is the answer. A describer's text is refused, with a
    /// toast and no change, unless every character is allowed; an accepted
    /// text bans its own initials and finals, becomes the next prompt, and the
    /// turn passes on.
    pub fn handle_answer(&mut self, pid: i64, content: String, now: u64, out: &mut Vec<InternalMsg>)
        requires
            old(self).wf(),
        ensures
            final(self).wf(),
            extends(old(out)@, final(out)@),
            ({
                let g = *old(self);
                let turn = g.phase == GamePhase::Gaming && g.players@[g.current_player_idx as int].id == pid;
                let guesser = g.current_player_idx + 1 == g.n();
                &&& !turn ==> quiet(old(out)@, final(out)@)
                &&& turn && blank(content@) ==> toasted(old(out)@, final(out)@, pid)
                &&& turn && !blank(content@) && !guesser && !g.accepts(content@) ==> toasted(old(out)@, final(out)@, pid)
                &&& turn && !blank(content@) && (guesser || g.accepts(content@)) ==> updated(old(out)@, final(out)@)
            }),
            answer_post(*old(self), *final(self), pid, content, now),
    {
        let ghost ids0 = self.seat_ids();
        if self.phase != GamePhase::Gaming || self.players[self.current_player_idx].id != pid {
            return;
        }
        if is_blank(content.as_str()) {
            emit(out, InternalMsg::Toast { to_user: pid, msg: String::from_str("Content cannot be empty."), kind: ToastKind::Error });
            return;
        }
        let ghost g = *self;
        let cur = self.current_player_idx;
        if cur == self.players.len() - 1 {
            let win = content == self.answer_text;
            self.history.push(PinyinHistoryItem { player: pid, content, is_guess: true });
            assert(self.history@.subrange(0, g.history@.len() as int) =~= g.history@);
            self.finish_game(win, out);
            return;
        }
        let n = content.as_str().unicode_len();
        let mut i: usize = 0;
        while i < n
            invariant
                n == content@.len(),
                i <= n,
                self.wf(),
                *self == g,
                g == *old(self),
                out@ == old(out)@,
                self.phase == GamePhase::Gaming,
                cur == self.current_player_idx,
                cur + 1 < self.n(),
                self.players@[cur as int].id == pid,
                !blank(content@),
                forall|k: int| 0 <= k < i ==> self.char_allowed(#[trigger] content@[k]),
            decreases n - i,
        {
            let c = content.as_str().get_char(i);
            match validate_char(c, &self.pinyin_table, &self.banned_initials, &self.banned_finals) {
                Ok(()) => {},
                Err(msg) => {
                    proof {
                        assert(!self.char_allowed(content@[i as int]));
                        assert(!g.accepts(content@));
                    }
                    emit(out, InternalMsg::Toast { to_user: pid, msg, kind: ToastKind::Error });
                    return;
                },
            }
            if self.is_first_describer {
                let k = match self.pinyin_table.find(c) {
                    Some(k) => k,
                    None => {
                        return;
                    },
                };
                let e = &self.pinyin_table.entries[k];
                if contains_str(&self.answer_initials, &e.initial) || contains_str(&self.answer_finals, &e.fin) {
                    proof {
                        assert(!self.char_allowed(content@[i as int]));
                        assert(!g.accepts(content@));
                    }
                    let cs = char_string(c);
                    emit(out, InternalMsg::Toast {
                        to_user: pid,
                        msg: join3("Forbidden char '", cs.as_str(), "' (part of answer components)."),
                        kind: ToastKind::Error,
                    });
                    return;
                }
            }
            i += 1;
        }
        let (new_i, new_f) = get_text_components(content.as_str(), &self.pinyin_table);
        add_all(&mut self.banned_initials, &new_i);
        add_all(&mut self.banned_finals, &new_f);
        self.history.push(PinyinHistoryItem { player: pid, content: content.clone(), is_guess: false });
        assert(self.history@.subrange(0, g.history@.len() as int) =~= g.history@);
        self.current_input_prompt = content;
        self.is_first_describer = false;
        emit_log(out, "Game", player_text("", pid, " finished turn."));
        self.pass_turn(now, out);
        proof {
            assert(self.seat_ids() =~= ids0);
        }
    }

    /// One beat of the clock at `now`: when the active seat is offline or its
    /// time is up, a describer is skipped with the prompt unchanged, and a
    /// guesser loses the game.
    pub fn tick(&mut self, now: u64, out: &mut Vec<InternalMsg>)
        requires
            old(self).wf(),
        ensures
            final(self).wf(),
            extends(old(out)@, final(out)@),
            ({
                let g = *old(self);
                let cur = g.players@[g.current_player_idx as int];
                let due = g.phase == GamePhase::Gaming && (!cur.is_online || now > g.turn_deadline->Some_0);
                &&& due ==> updated(old(out)@, final(out)@)
                &&& !due ==> quiet(old(out)@, final(out)@)
            }),
            tick_post(*old(self), *final(self), now),
    {
        let ghost ids0 = self.seat_ids();
        if self.phase != GamePhase::Gaming {
            return;
        }
        let cur = self.current_player_idx;
        let pid = self.players[cur].id;
        let due = !self.players[cur].is_online || (match self.turn_deadline {
            Some(d) => now > d,
            None => false,
        });
        if !due {
            return;
        }
        let ghost g = *self;
        if cur == self.players.len() - 1 {
            self.history.push(PinyinHistoryItem { player: pid, content: String::from_str("(Timeout)"), is_guess: true });
            assert(self.history@.subrange(0, g.history@.len() as int) =~= g.history@);
            self.finish_game(false, out);
        } else {
            self.history.push(PinyinHistoryItem { player: pid, content: String::from_str("(Timeout)"), is_guess: false });
            assert(self.history@.subrange(0, g.history@.len() as int) =~= g.history@);
            emit_log(out, "System", player_text("Player ", pid, " timed out. Skipping."));
            self.pass_turn(now, out);
        }
        proof {
            assert(self.seat_ids() =~= ids0);
        }
    }

    /// `pid` connects: an existing seat comes back online; a new player gets
    /// a seat only while the session is waiting.
    pub fn handle_join(&mut self, pid: i64, out: &mut Vec<InternalMsg>)
        requires
            old(self).wf(),
        ensures
            final(self).wf(),
            extends(old(out)@, final(out)@),
            forall|i: int| #[trigger] old(self).holds_seat(pid, i) ==> (if old(self).players@[i].is_online {
                quiet(old(out)@, final(out)@)
            } else {
                updated(old(out)@, final(out)@)
            }),
            !old(self).seated(pid) && old(self).phase != GamePhase::Waiting ==> quiet(old(out)@, final(out)@),
            !old(self).seated(pid) && old(self).phase == GamePhase::Waiting ==> updated(old(out)@, final(out)@),
            join_post(*old(self), *final(self), pid),
    {
        let ghost ids0 = self.seat_ids();
        let ghost g = *self;
        match self.find_seat(pid) {
            Some(i) => {
                if !self.players[i].is_online {
                    self.players[i].is_online = true;
                    emit_log(out, "System", player_text("", pid, " reconnected."));
                    emit(out, InternalMsg::StateUpdated);
                }
                proof {
                    assert(self.seat_ids() =~= ids0);
                    assert(self.players@[i as int] == (PinyinPlayer { is_online: true, ..g.players@[i as int] }));
                    assert forall|k: int| #[trigger] g.holds_seat(pid, k) implies k == i by {}
                }
            },
            None => {
                if self.phase != GamePhase::Waiting {
                    return;
                }
                self.players.push(PinyinPlayer { id: pid, color_hue: 0, status: PlayerStatus::Waiting, is_online: true });
                proof {
                    assert(self.seat_ids() =~= ids0.push(pid));
                    assert(!ids0.contains(pid)) by {
                        if ids0.contains(pid) {
                            let x = choose|x: int| 0 <= x < ids0.len() && ids0[x] == pid;
                            assert(g.players@[x].id == pid);
                        }
                    }
                    crate::game::seats::lemma_push_distinct(ids0, pid);
                }
                emit_log(out, "System", player_text("", pid, " joined."));
                emit(out, InternalMsg::StateUpdated);
            },
        }
    }

    /// `pid` disconnects: their seat goes offline, and while the session is
    /// waiting the seat is given up.
    pub fn handle_leave(&mut self, pid: i64, out: &mut Vec<InternalMsg>)
        requires
            old(self).wf(),
        ensures
            final(self).wf(),
            extends(old(out)@, final(out)@),
            old(self).seated(pid) ==> updated(old(out)@, final(out)@),
            !old(self).seated(pid) ==> quiet(old(out)@, final(out)@),
            leave_post(*old(self), *final(self), pid),
    {
        let ghost ids0 = self.seat_ids();
        let ghost g = *self;
        let i = match self.find_seat(pid) {
            Some(i) => i,
            None => {
                return;
            },
        };
        if self.phase == GamePhase::Waiting {
            self.players.remove(i);
            proof {
                assert(self.seat_ids() =~= ids0.remove(i as int));
                crate::game::seats::lemma_remove_distinct(ids0, i as int);
            }
            emit_log(out, "System", player_text("", pid, " left."));
        } else {
            self.players[i].is_online = false;
            proof {
                assert(self.seat_ids() =~= ids0);
            }
            emit_log(out, "System", player_text("", pid, " disconnected."));
        }
        emit(out, InternalMsg::StateUpdated);
        proof {
            assert forall|k: int| #[trigger] g.holds_seat(pid, k) implies k == i by {}
        }
    }
}

impl PinyinGame {
    /// Whether `viewer` sees everything: a privileged viewer, or anyone once settled.
    pub open spec fn sees_all(&self, privileged: bool) -> bool {
        privileged || self.phase == GamePhase::Settlement
    }

    /// The seat of `viewer`, if they have one.
    pub open spec fn seat_of(&self, viewer: Option<i64>) -> Option<int> {
        match viewer {
            Some(v) => if self.seated(v) {
                Some(choose|i: int| #[trigger] self.holds_seat(v, i))
            } else {
                None
            },
            None => None,
        }
    }

    /// Whether `viewer` sees the history: everyone sees it once it is
    /// settled or with privilege; a seated player once their turn has come.
    pub open spec fn sees_history(&self, viewer: Option<i64>, privileged: bool) -> bool {
        self.sees_all(privileged) || (self.seat_of(viewer) matches Some(m) && m
            <= self.current_player_idx)
    }

    /// Whether `viewer` sees the bans: as the history, and also anyone without a seat.
    pub open spec fn sees_bans(&self, viewer: Option<i64>, privileged: bool) -> bool {
        self.sees_all(privileged) || self.seat_of(viewer) is None || (self.seat_of(viewer) matches Some(m) && m
            <= self.current_player_idx)
    }

    /// The active seat on a first turn sees the answer's own initials and
    /// finals among its bans.
    pub open spec fn sees_answer_bans(&self, viewer: Option<i64>) -> bool {
        self.phase == GamePhase::Gaming && self.is_first_describer && viewer == Some(
            self.players@[self.current_player_idx as int].id,
        )
    }

    /// Whether `viewer` is the active seat and is shown the prompt.
    pub open spec fn sees_prompt(&self, viewer: Option<i64>, privileged: bool) -> bool {
        !self.sees_all(privileged) && self.phase == GamePhase::Gaming && self.seat_of(viewer) == Some(
            self.current_player_idx as int,
        )
    }

    /// `v` is the Pinyin state as `viewer` may see it.
    pub open spec fn pinyin_view_shows(&self, v: PinyinSpecificView, viewer: Option<i64>, privileged: bool) -> bool {
        &&& v.all_initials@ == self.all_initials@
        &&& v.all_finals@ == self.all_finals@
        &&& v.history@ == (if self.sees_history(viewer, privileged) {
            self.history@
        } else {
            Seq::empty()
        })
        &&& str_set(v.banned_initials@) == (if self.sees_bans(viewer, privileged) {
            str_set(self.banned_initials@)
        } else {
            Set::empty()
        }).union(if self.sees_answer_bans(viewer) {
            str_set(self.answer_initials@)
        } else {
            Set::empty()
        })
        &&& str_set(v.banned_finals@) == (if self.sees_bans(viewer, privileged) {
            str_set(self.banned_finals@)
        } else {
            Set::empty()
        }).union(if self.sees_answer_bans(viewer) {
            str_set(self.answer_finals@)
        } else {
            Set::empty()
        })
        &&& v.my_prompt == (if self.sees_prompt(viewer, privileged) {
            Some(self.current_input_prompt)
        } else {
            None
        })
        &&& v.is_first_turn == (self.sees_prompt(viewer, privileged) && self.is_first_describer)
        &&& v.is_guessing_turn == (self.sees_prompt(viewer, privileged)
            && self.current_player_idx + 1 == self.n())
        &&& self.phase != GamePhase::Settlement ==> v.end_message is None
        &&& self.phase == GamePhase::Settlement ==> (v.end_message matches Some(t) && t@ == (
            if self.winner {
                "Success!"@
            } else {
                "Failed."@
            }))
    }

    fn viewer_seat(&self, viewer: Option<i64>) -> (r: Option<usize>)
        ensures
            r matches Some(m) ==> self.seat_of(viewer) == Some(m as int),
            r is None ==> self.seat_of(viewer) is None,
    {
        match viewer {
            Some(v) => match self.find_seat(v) {
                Some(m) => {
                    proof {
                        let c = choose|i: int| #[trigger] self.holds_seat(v, i);
                        assert(self.holds_seat(v, m as int));
                        if c < m {
                            assert(self.players@[c].id != v);
                        }
                        if m < c {
                            assert(self.players@[m as int].id != v);
                        }
                    }
                    Some(m)
                },
                None => None,
            },
            None => None,
        }
    }

    /// `r` is the Pinyin part of `viewer`'s view at `now`.
    pub open spec fn view_data_shows(&self, viewer: Option<i64>, privileged: bool, now: u64, r: SessionViewData) -> bool {
        &&& r.phase == self.phase
        &&& r.hint == self.hint_text
        &&& r.deadline_ms == (match self.turn_deadline {
                Some(d) => Some(ms_left(d, now)),
                None => None
            })
        &&& r.grid is None
        &&& r.winner == (if self.phase == GamePhase::Settlement { Some(self.winner) } else { None })
        &&& r.correct_answer == (if self.sees_all(privileged) { Some(self.answer_text) } else { None })
        &&& (r.pinyin_state matches Some(v) && self.pinyin_view_shows(v, viewer, privileged))
    }

    /// The Pinyin part of `viewer`'s view at `now`.
    pub fn get_view_data(&self, viewer: Option<i64>, privileged: bool, now: u64) -> (r: SessionViewData)
        requires
            self.wf(),
        ensures
            self.view_data_shows(viewer, privileged, now, r),
    {
        let all = privileged || self.phase == GamePhase::Settlement;
        let np = self.players.len();
        let me = self.viewer_seat(viewer);
        let cur = self.current_player_idx;
        let history_visible = all || (match me {
            Some(m) => m <= cur,
            None => false,
        });
        let bans_visible = all || (match me {
            Some(m) => m <= cur,
            None => true,
        });
        let prompt_visible = !all && self.phase == GamePhase::Gaming && (match me {
            Some(m) => m == cur,
            None => false,
        });
        let answer_bans = self.phase == GamePhase::Gaming && self.is_first_describer && (match viewer {
            Some(v) => v == self.players[cur].id,
            None => false,
        });
        let mut banned_i: Vec<String> = if bans_visible {
            copy_strs(&self.banned_initials)
        } else {
            Vec::new()
        };
        let mut banned_f: Vec<String> = if bans_visible {
            copy_strs(&self.banned_finals)
        } else {
            Vec::new()
        };
        proof {
            assert(str_set(Seq::<String>::empty()) =~= Set::empty());
        }
        if answer_bans {
            add_all(&mut banned_i, &self.answer_initials);
            add_all(&mut banned_f, &self.answer_finals);
        } else {
            assert(str_set(banned_i@) =~= str_set(banned_i@).union(Set::empty()));
            assert(str_set(banned_f@) =~= str_set(banned_f@).union(Set::empty()));
        }
        let end_message = if self.phase != GamePhase::Settlement {
            None
        } else if self.winner {
            Some(String::from_str("Success!"))
        } else {
            Some(String::from_str("Failed."))
        };
        let state = PinyinSpecificView {
            all_initials: copy_strs(&self.all_initials),
            all_finals: copy_strs(&self.all_finals),
            banned_initials: banned_i,
            banned_finals: banned_f,
            history: if history_visible {
                copy_history(&self.history)
            } else {
                Vec::new()
            },
            my_prompt: if prompt_visible {
                Some(self.current_input_prompt.clone())
            } else {
                None
            },
            is_first_turn: prompt_visible && self.is_first_describer,
            is_guessing_turn: prompt_visible && cur + 1 == np,
            end_message,
        };
        SessionViewData {
            phase: self.phase,
            hint: self.hint_text.clone(),
            deadline_ms: match self.turn_deadline {
                Some(d) => Some(time_left(d, now)),
                None => None,
            },
            grid: None,
            pinyin_state: Some(state),
            winner: if self.phase == GamePhase::Settlement {
                Some(self.winner)
            } else {
                None
            },
            correct_answer: if all {
                Some(self.answer_text.clone())
            } else {
                None
            },
        }
    }

    /// `r` is what a viewer sees of the seat of `pid`.
    pub open spec fn seat_shows(&self, pid: i64, r: SeatState) -> bool {
        &&& (!self.seated(pid) ==> r == (SeatState {
                status: PlayerStatus::Waiting,
                score_display: None,
                is_active_turn: false,
                answer: None,
            }))
        &&& forall|i: int| #[trigger] self.holds_seat(pid, i) ==> r == (SeatState {
                status: self.players@[i].status,
                score_display: None,
                is_active_turn: self.phase == GamePhase::Gaming && self.players@[self.current_player_idx as int].id == pid,
                answer: None
            })
    }

    /// What a viewer sees of the seat of `pid`: its status and whether it is
    /// the active seat.
    pub fn get_player_state(&self, pid: i64) -> (r: SeatState)
        requires
            self.wf(),
        ensures
            self.seat_shows(pid, r),
    {
        let i = match self.find_seat(pid) {
            Some(i) => i,
            None => {
                return SeatState { status: PlayerStatus::Waiting, score_display: None, is_active_turn: false, answer: None };
            },
        };
        proof {
            assert forall|k: int| #[trigger] self.holds_seat(pid, k) implies k == i by {}
        }
        let active = self.phase == GamePhase::Gaming && self.current_player_idx < self.players.len()
            && self.players[self.current_player_idx].id == pid;
        SeatState { status: self.players[i].status, score_display: None, is_active_turn: active, answer: None }
    }
}

/// What `handle_answer` does: `h` is `g` after it.
pub open spec fn answer_post(g: PinyinGame, h: PinyinGame, pid: i64, content: String, now: u64) -> bool {
    let turn = g.phase == GamePhase::Gaming && g.players@[g.current_player_idx as int].id == pid;
    let guesser = g.current_player_idx + 1 == g.n();
    &&& !turn || blank(content@) ==> h == g
    &&& turn && !blank(content@) && guesser ==> {
        &&& history_grew(g, h, pid, content@, true)
        &&& h == finished(PinyinGame { history: h.history, ..g }, content@ == g.answer_text@)
    }
    &&& turn && !blank(content@) && !guesser && !g.accepts(content@) ==> h == g
    &&& turn && !blank(content@) && !guesser && g.accepts(content@) ==> {
        &&& history_grew(g, h, pid, content@, false)
        &&& str_set(h.banned_initials@) == str_set(g.banned_initials@).union(text_initials(g.table(), content@))
        &&& str_set(h.banned_finals@) == str_set(g.banned_finals@).union(text_finals(g.table(), content@))
        &&& h.current_input_prompt == content
        &&& h.is_first_describer == (content@ == g.answer_text@)
        &&& passed(g, h, now)
        &&& h == (PinyinGame {
            players: h.players,
            current_player_idx: h.current_player_idx,
            turn_deadline: h.turn_deadline,
            history: h.history,
            is_first_describer: h.is_first_describer,
            current_input_prompt: h.current_input_prompt,
            banned_initials: h.banned_initials,
            banned_finals: h.banned_finals,
            ..g
        })
    }
}

/// What `tick` does: `h` is `g` after it.
pub open spec fn tick_post(g: PinyinGame, h: PinyinGame, now: u64) -> bool {
    let cur = g.players@[g.current_player_idx as int];
    let due = !cur.is_online || now > g.turn_deadline->Some_0;
    let guesser = g.current_player_idx + 1 == g.n();
    &&& g.phase != GamePhase::Gaming || !due ==> h == g
    &&& g.phase == GamePhase::Gaming && due && guesser ==> {
        &&& history_grew(g, h, cur.id, "(Timeout)"@, true)
        &&& h == finished(PinyinGame { history: h.history, ..g }, false)
    }
    &&& g.phase == GamePhase::Gaming && due && !guesser ==> {
        &&& history_grew(g, h, cur.id, "(Timeout)"@, false)
        &&& passed(g, h, now)
        &&& h.is_first_describer == (g.is_first_describer || g.current_input_prompt@ == g.answer_text@)
        &&& h == (PinyinGame {
            players: h.players,
            current_player_idx: h.current_player_idx,
            turn_deadline: h.turn_deadline,
            history: h.history,
            is_first_describer: h.is_first_describer,
            ..g
        })
    }
}

/// What `handle_join` does: `h` is `g` after it.
pub open spec fn join_post(g: PinyinGame, h: PinyinGame, pid: i64) -> bool {
    &&& forall|i: int| #[trigger] g.holds_seat(pid, i) ==> {
        &&& h.n() == g.n()
        &&& h.players@[i] == (PinyinPlayer { is_online: true, ..g.players@[i] })
        &&& forall|k: int| 0 <= k < g.n() && k != i ==> #[trigger] h.players@[k] == g.players@[k]
        &&& h == (PinyinGame { players: h.players, ..g })
    }
    &&& !g.seated(pid) && g.phase != GamePhase::Waiting ==> h == g
    &&& !g.seated(pid) && g.phase == GamePhase::Waiting ==> {
        &&& h.players@ == g.players@.push(PinyinPlayer { id: pid, color_hue: 0, status: PlayerStatus::Waiting, is_online: true })
        &&& h == (PinyinGame { players: h.players, ..g })
    }
}

/// What `handle_leave` does: `h` is `g` after it.
pub open spec fn leave_post(g: PinyinGame, h: PinyinGame, pid: i64) -> bool {
    &&& !g.seated(pid) ==> h == g
    &&& forall|i: int| #[trigger] g.holds_seat(pid, i) && g.phase != GamePhase::Waiting ==> {
        &&& h.n() == g.n()
        &&& h.players@[i] == (PinyinPlayer { is_online: false, ..g.players@[i] })
        &&& forall|k: int| 0 <= k < g.n() && k != i ==> #[trigger] h.players@[k] == g.players@[k]
        &&& h == (PinyinGame { players: h.players, ..g })
    }
    &&& forall|i: int| #[trigger] g.holds_seat(pid, i) && g.phase == GamePhase::Waiting ==> {
        &&& h.players@ == g.players@.remove(i)
        &&& h == (PinyinGame { players: h.players, ..g })
    }
}

/// The session once finished with outcome `win`: Settlement, no deadline.
/// Finishing twice changes nothing.
pub open spec fn finished(g: PinyinGame, win: bool) -> PinyinGame {
    if g.phase == GamePhase::Settlement {
        g
    } else {
        PinyinGame { phase: GamePhase::Settlement, winner: win, turn_deadline: None, ..g }
    }
}

/// `h`'s history is `g`'s with one more entry at the end.
pub open spec fn history_grew(g: PinyinGame, h: PinyinGame, player: i64, content: Seq<char>, is_guess: bool) -> bool {
    &&& h.history@.len() == g.history@.len() + 1
    &&& h.history@.subrange(0, g.history@.len() as int) == g.history@
    &&& h.history@.last().player == player
    &&& h.history@.last().content@ == content
    &&& h.history@.last().is_guess == is_guess
}

/// `h` is `g` after the active describer's turn ended at `now`: they have
/// submitted, the next seat is active and has a fresh deadline.
pub open spec fn passed(g: PinyinGame, h: PinyinGame, now: u64) -> bool {
    let c = g.current_player_idx as int;
    &&& h.n() == g.n()
    &&& h.current_player_idx == c + 1
    &&& h.players@[c] == (PinyinPlayer { status: PlayerStatus::Submitted, ..g.players@[c] })
    &&& h.players@[c + 1] == (PinyinPlayer { status: PlayerStatus::Picking, ..g.players@[c + 1] })
    &&& forall|i: int| 0 <= i < g.n() && i != c && i != c + 1 ==> #[trigger] h.players@[i] == g.players@[i]
    &&& h.turn_deadline == Some(deadline_after(now, PINYIN_TURN_MS))
}

/// A describer's text that uses a banned initial or final is refused and the
/// session stays exactly as it was.
pub proof fn law_banned_sound_is_refused(g: PinyinGame, h: PinyinGame, pid: i64, content: String, now: u64, k: int)
    requires
        g.wf(),
        g.current_player_idx + 1 < g.n(),
        0 <= k < content@.len(),
        g.table().has(content@[k]),
        str_set(g.banned_initials@).contains(g.table().initial_of(content@[k])) || str_set(
            g.banned_finals@,
        ).contains(g.table().final_of(content@[k])),
        answer_post(g, h, pid, content, now),
    ensures
        h == g,
{
    assert(!g.char_allowed(content@[k]));
    assert(!g.accepts(content@));
}

/// Across an answer or a tick the banned initials and finals only grow.
pub proof fn law_bans_only_grow(g: PinyinGame, h: PinyinGame, h2: PinyinGame, pid: i64, content: String, now: u64)
    requires
        g.wf(),
        answer_post(g, h, pid, content, now),
        tick_post(h, h2, now),
    ensures
        str_set(g.banned_initials@).subset_of(str_set(h.banned_initials@)),
        str_set(g.banned_finals@).subset_of(str_set(h.banned_finals@)),
        str_set(h.banned_initials@) == str_set(h2.banned_initials@),
        str_set(h.banned_finals@) == str_set(h2.banned_finals@),
{
}

/// A session that has just been seated has no bans and no history.
pub proof fn law_new_session_has_no_bans(g: PinyinGame, order: Seq<i64>, now: u64)
    requires
        g.seated_from(order, now),
    ensures
        str_set(g.banned_initials@).is_empty(),
        str_set(g.banned_finals@).is_empty(),
        g.history@.len() == 0,
{
    assert(str_set(g.banned_initials@) =~= Set::empty());
    assert(str_set(g.banned_finals@) =~= Set::empty());
}

/// The guesser's text ends the game: won exactly when it is the answer. (A
/// blank text is refused before it is judged.)
pub proof fn law_guess_decides(g: PinyinGame, h: PinyinGame, pid: i64, content: String, now: u64)
    requires
        g.wf(),
        g.phase == GamePhase::Gaming,
        g.current_player_idx + 1 == g.n(),
        g.players@[g.current_player_idx as int].id == pid,
        !blank(content@),
        answer_post(g, h, pid, content, now),
    ensures
        h.phase == GamePhase::Settlement,
        h.winner == (content@ == g.answer_text@),
{
}

/// Settlement is final: no answer and no tick changes a settled session.
pub proof fn law_settlement_is_final(g: PinyinGame, h: PinyinGame, h2: PinyinGame, pid: i64, content: String, now: u64)
    requires
        g.phase == GamePhase::Settlement,
        answer_post(g, h, pid, content, now),
        tick_post(g, h2, now),
    ensures
        h == g,
        h2 == g,
{
}

} // verus!
