use vstd::prelude::*;
use crate::models::{extends, GamePhase, InternalMsg, SessionViewData};
use crate::game::chain::ChainGame;
use crate::game::pinyin::PinyinGame;
use crate::game::room::{
    session_acted, session_answered, session_joined, session_left, session_ticked, GameSession,
};

verus! {

/// One game of either mode, behind one interface.
pub enum GameMode {
    Chain(ChainGame),
    Pinyin(PinyinGame),
}

impl GameMode {
    /// The same game as a room's session.
    pub open spec fn as_session(self) -> GameSession {
        match self {
            GameMode::Chain(g) => GameSession::Chain(g),
            GameMode::Pinyin(g) => GameSession::Pinyin(g),
        }
    }

    pub open spec fn wf(&self) -> bool {
        self.as_session().wf()
    }

    /// Makes the game a room's session.
    pub fn into_session(self) -> (r: GameSession)
        ensures
            r == self.as_session(),
    {
        match self {
            GameMode::Chain(g) => GameSession::Chain(g),
            GameMode::Pinyin(g) => GameSession::Pinyin(g),
        }
    }

    /// The game's phase.
    pub fn phase(&self) -> (r: GamePhase)
        ensures
            r == self.as_session().spec_phase(),
    {
        match self {
            GameMode::Chain(g) => g.phase,
            GameMode::Pinyin(g) => g.phase,
        }
    }

    /// `pid` connects.
    pub fn handle_join(&mut self, pid: i64, out: &mut Vec<InternalMsg>)
        requires
            old(self).wf(),
        ensures
            final(self).wf(),
            session_joined(old(self).as_session(), final(self).as_session(), pid),
            extends(old(out)@, final(out)@),
    {
        match self {
            GameMode::Chain(g) => g.handle_join(pid, out),
            GameMode::Pinyin(g) => g.handle_join(pid, out),
        }
    }

    /// `pid` disconnects.
    pub fn handle_leave(&mut self, pid: i64, out: &mut Vec<InternalMsg>)
        requires
            old(self).wf(),
        ensures
            final(self).wf(),
            session_left(old(self).as_session(), final(self).as_session(), pid),
            extends(old(out)@, final(out)@),
    {
        match self {
            GameMode::Chain(g) => g.handle_leave(pid, out),
            GameMode::Pinyin(g) => g.handle_leave(pid, out),
        }
    }

    /// A verb from `pid` at `now`.
    pub fn handle_action(&mut self, pid: i64, act: &str, now: u64, out: &mut Vec<InternalMsg>)
        requires
            old(self).wf(),
        ensures
            final(self).wf(),
            session_acted(old(self).as_session(), final(self).as_session(), pid, act@, now),
            extends(old(out)@, final(out)@),
    {
        match self {
            GameMode::Chain(g) => g.handle_action(pid, act, now, out),
            GameMode::Pinyin(_) => {},
        }
    }

    /// An answer from `pid` at `now`.
    pub fn handle_answer(&mut self, pid: i64, content: String, now: u64, out: &mut Vec<InternalMsg>)
        requires
            old(self).wf(),
        ensures
            final(self).wf(),
            session_answered(old(self).as_session(), final(self).as_session(), pid, content, now),
            extends(old(out)@, final(out)@),
    {
        match self {
            GameMode::Chain(g) => g.handle_answer(pid, content, out),
            GameMode::Pinyin(g) => g.handle_answer(pid, content, now, out),
        }
    }

    /// One beat of the clock at `now`.
    pub fn tick(&mut self, now: u64, out: &mut Vec<InternalMsg>)
        requires
            old(self).wf(),
        ensures
            final(self).wf(),
            session_ticked(old(self).as_session(), final(self).as_session(), now),
            extends(old(out)@, final(out)@),
    {
        match self {
            GameMode::Chain(g) => g.tick(now, out),
            GameMode::Pinyin(g) => g.tick(now, out),
        }
    }

    /// The mode's part of `viewer`'s view at `now`.
    pub fn get_view(&self, viewer: Option<i64>, privileged: bool, now: u64) -> (r: SessionViewData)
        requires
            self.wf(),
        ensures
            r.phase == self.as_session().spec_phase(),
            match self {
                GameMode::Chain(g) => g.view_data_shows(viewer, privileged, now, r),
                GameMode::Pinyin(g) => g.view_data_shows(viewer, privileged, now, r),
            },
    {
        match self {
            GameMode::Chain(g) => g.get_view_data(viewer, privileged, now),
            GameMode::Pinyin(g) => g.get_view_data(viewer, privileged, now),
        }
    }
}

} // verus!
