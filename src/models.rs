use vstd::prelude::*;

verus! {

/// Which game a room plays.
#[derive(Clone, Copy, Debug, PartialEq, Eq, Structural)]
pub enum RoomType {
    Chain,
    Pinyin,
}

/// The top-level state of a session. Chain goes Waiting, Picking, Answering,
/// Settlement; Pinyin goes Waiting, Gaming, Settlement.
#[derive(Clone, Copy, Debug, PartialEq, Eq, Structural)]
pub enum GamePhase {
    Waiting,
    Picking,
    Answering,
    Gaming,
    Settlement,
}

/// Per-player state inside a session. `Picking` marks the active seat in both modes.
#[derive(Clone, Copy, Debug, PartialEq, Eq, Structural)]
pub enum PlayerStatus {
    Waiting,
    Picking,
    Answering,
    Submitted,
    Stopped,
}

/// The kind of a toast shown to a player.
#[derive(Clone, Copy, Debug, PartialEq, Eq, Structural)]
pub enum ToastKind {
    Info,
    Error,
}

/// An event published on a room's bus. A `Log` is stamped with its wall-clock
/// time by whoever publishes it; the library leaves `time` empty.
#[derive(Clone, Debug)]
pub enum InternalMsg {
    StateUpdated,
    Log { who: String, text: String, time: String },
    Toast { to_user: i64, msg: String, kind: ToastKind },
    Kick { target: i64 },
}

/// A message from a connected client.
#[derive(Clone, Debug)]
pub enum ClientAction {
    Action { action: String },
    Answer { content: String },
}

/// What a room list shows of one room.
#[derive(Clone, Debug)]
pub struct RoomSummary {
    pub id: String,
    pub name: String,
    pub room_type: RoomType,
    pub phase: GamePhase,
    pub player_count: usize,
    pub max_players: usize,
}

/// One seat as a given viewer may see it.
#[derive(Clone, Debug)]
pub struct PlayerView {
    pub id: i64,
    pub name: String,
    pub color_hue: u16,
    pub status: PlayerStatus,
    pub is_me: bool,
    pub is_online: bool,
    pub is_active_turn: bool,
    pub score_display: Option<String>,
    pub answer: Option<String>,
    pub is_spectator: bool,
    pub is_admin: bool,
}

/// One character position of a Chain problem. `char_content` is `None` unless
/// the viewer may see it.
#[derive(Clone, Copy, Debug)]
pub struct GridCell {
    pub owner_color_hue: Option<u16>,
    pub char_content: Option<char>,
}

/// One entry of a Pinyin session's history.
#[derive(Clone, Debug)]
pub struct PinyinHistoryItem {
    pub player: i64,
    pub content: String,
    pub is_guess: bool,
}

/// The Pinyin part of a view.
#[derive(Clone, Debug)]
pub struct PinyinSpecificView {
    pub all_initials: Vec<String>,
    pub all_finals: Vec<String>,
    pub banned_initials: Vec<String>,
    pub banned_finals: Vec<String>,
    pub history: Vec<PinyinHistoryItem>,
    pub my_prompt: Option<String>,
    pub is_first_turn: bool,
    pub is_guessing_turn: bool,
    pub end_message: Option<String>,
}

/// A full snapshot of a room for one viewer.
#[derive(Clone, Debug)]
pub struct ClientView {
    pub room_id: String,
    pub room_name: String,
    pub room_type: RoomType,
    pub phase: GamePhase,
    pub hint: String,
    pub deadline_ms: Option<u64>,
    pub is_admin: bool,
    pub admin_ids: Option<Vec<i64>>,
    pub players: Vec<PlayerView>,
    pub max_players: usize,
    pub grid: Option<Vec<GridCell>>,
    pub pinyin_state: Option<PinyinSpecificView>,
    pub winner: Option<bool>,
    pub correct_answer: Option<String>,
}

/// The mode-specific part of a view, as a session builds it.
#[derive(Clone, Debug)]
pub struct SessionViewData {
    pub phase: GamePhase,
    pub hint: String,
    pub deadline_ms: Option<u64>,
    pub grid: Option<Vec<GridCell>>,
    pub pinyin_state: Option<PinyinSpecificView>,
    pub winner: Option<bool>,
    pub correct_answer: Option<String>,
}

/// What a session shows of one seat: status, score text, whether it is the
/// active turn, and the answer when the viewer may see it.
#[derive(Clone, Debug)]
pub struct SeatState {
    pub status: PlayerStatus,
    pub score_display: Option<String>,
    pub is_active_turn: bool,
    pub answer: Option<String>,
}

/// A sequence of events extends another: the old events stay, in place.
pub open spec fn extends(before: Seq<InternalMsg>, after: Seq<InternalMsg>) -> bool {
    &&& before.len() <= after.len()
    &&& forall|i: int| 0 <= i < before.len() ==> #[trigger] after[i] == before[i]
}

/// Nothing was published.
pub open spec fn quiet(before: Seq<InternalMsg>, after: Seq<InternalMsg>) -> bool {
    after == before
}

/// Events were published, the last of them `StateUpdated`.
pub open spec fn updated(before: Seq<InternalMsg>, after: Seq<InternalMsg>) -> bool {
    &&& extends(before, after)
    &&& after.len() > before.len()
    &&& after.last() == InternalMsg::StateUpdated
}

/// Exactly one event was published: an error toast to `pid`.
pub open spec fn toasted(before: Seq<InternalMsg>, after: Seq<InternalMsg>, pid: i64) -> bool {
    &&& after.len() == before.len() + 1
    &&& extends(before, after)
    &&& (after.last() matches InternalMsg::Toast { to_user, kind, .. } && to_user == pid && kind
        == ToastKind::Error)
}

/// Appends one event to an outbox.
pub fn emit(out: &mut Vec<InternalMsg>, msg: InternalMsg)
    ensures
        final(out)@ == old(out)@.push(msg),
        extends(old(out)@, final(out)@),
{
    out.push(msg);
}

/// Appends a log line from `who`.
pub fn emit_log(out: &mut Vec<InternalMsg>, who: &str, text: String)
    ensures
        extends(old(out)@, final(out)@),
        final(out)@.len() == old(out)@.len() + 1,
{
    emit(out, InternalMsg::Log { who: who.to_string(), text, time: String::new() });
}

} // verus!
