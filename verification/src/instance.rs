//! A session that players join: a game, its players and, once it has
//! begun, its state.
use crate::error::ErrorKind;
use crate::game::{GameId, GenericGame};
use crate::game_base::{BaseGame, BaseGameState, Request, Response};
use vstd::prelude::*;

verus! {

/// An identified session of a game.
#[derive(Debug)]
pub struct GameInstance {
    id: GameId,
    game: BaseGame,
    state: Option<BaseGameState>,
    players: Vec<String>,
}

impl GameInstance {
    /// The name of the session.
    pub closed spec fn spec_id(&self) -> GameId {
        self.id
    }

    /// The game that is played.
    pub closed spec fn spec_game(&self) -> BaseGame {
        self.game
    }

    /// The state of the session; none before it has begun.
    pub closed spec fn spec_state(&self) -> Option<BaseGameState> {
        self.state
    }

    /// The names of the players, in the order in which they joined.
    pub closed spec fn spec_players(&self) -> Seq<String> {
        self.players@
    }

    /// Validity: the players can be counted, and the state is valid.
    pub open spec fn wf(&self) -> bool {
        &&& self.spec_players().len() <= u32::MAX
        &&& self.spec_state().is_some() ==> self.spec_state().unwrap().wf()
    }

    /// A session of `game` that nobody has joined yet.
    pub fn new(id: GameId, game: BaseGame) -> (r: Self)
        ensures
            r.wf(),
            r.spec_id() == id,
            r.spec_game() == game,
            r.spec_state().is_none(),
            r.spec_players().len() == 0,
    {
        GameInstance { id, game, state: None, players: Vec::new() }
    }

    /// The session made of the given parts, if its players can be counted.
    pub fn restore(
        id: GameId,
        game: BaseGame,
        state: Option<BaseGameState>,
        players: Vec<String>,
    ) -> (r: Option<Self>)
        requires
            state.is_some() ==> state.unwrap().wf(),
        ensures
            r.is_some() <==> players.len() <= u32::MAX,
            r.is_some() ==> {
                &&& r.unwrap().wf()
                &&& r.unwrap().spec_id() == id
                &&& r.unwrap().spec_game() == game
                &&& r.unwrap().spec_state() == state
                &&& r.unwrap().spec_players() == players@
            },
    {
        if players.len() > u32::MAX as usize {
            None
        } else {
            Some(GameInstance { id, game, state, players })
        }
    }

    /// The name of the session.
    pub fn id(&self) -> (r: GameId)
        ensures
            r == self.spec_id(),
    {
        self.id
    }

    /// The game that is played.
    pub fn game(&self) -> (r: &BaseGame)
        ensures
            *r == self.spec_game(),
    {
        &self.game
    }

    /// The state of the session; none before it has begun.
    pub fn state(&self) -> (r: &Option<BaseGameState>)
        ensures
            *r == self.spec_state(),
    {
        &self.state
    }

    /// The names of the players, in the order in which they joined.
    pub fn players(&self) -> (r: &Vec<String>)
        ensures
            r@ == self.spec_players(),
    {
        &self.players
    }

    /// Why nobody may join, if so.
    pub open spec fn join_refusal(&self) -> Option<ErrorKind> {
        if self.spec_state().is_some() {
            Some(ErrorKind::AlreadyStarted)
        } else if self.spec_players().len() >= u32::MAX {
            Some(ErrorKind::TooManyPlayers)
        } else {
            None
        }
    }

    /// Why the session may not begin, if so.
    pub open spec fn start_refusal(&self) -> Option<ErrorKind> {
        if self.spec_state().is_some() {
            Some(ErrorKind::AlreadyStarted)
        } else if !self.spec_game().can_start() {
            Some(ErrorKind::NotPlayable)
        } else {
            None
        }
    }

    /// Adds a player to a session that has not begun.
    pub fn join(&mut self, name: String) -> (r: Response)
        requires
            old(self).wf(),
        ensures
            final(self).wf(),
            match old(self).join_refusal() {
                Some(e) => r == Response::Rejected(e) && *final(self) == *old(self),
                None => {
                    &&& r == Response::Accepted
                    &&& final(self).spec_id() == old(self).spec_id()
                    &&& final(self).spec_game() == old(self).spec_game()
                    &&& final(self).spec_state().is_none()
                    &&& final(self).spec_players() == old(self).spec_players().push(name)
                },
            },
    {
        if self.state.is_some() {
            Response::Rejected(ErrorKind::AlreadyStarted)
        } else if self.players.len() >= u32::MAX as usize {
            Response::Rejected(ErrorKind::TooManyPlayers)
        } else {
            self.players.push(name);
            Response::Accepted
        }
    }

    /// Begins the session with the players who have joined.
    pub fn start(&mut self) -> (r: Response)
        requires
            old(self).wf(),
        ensures
            final(self).wf(),
            match old(self).start_refusal() {
                Some(e) => r == Response::Rejected(e) && *final(self) == *old(self),
                None => {
                    &&& r == Response::Accepted
                    &&& final(self).spec_id() == old(self).spec_id()
                    &&& final(self).spec_game() == old(self).spec_game()
                    &&& final(self).spec_players() == old(self).spec_players()
                    &&& final(self).spec_state().is_some()
                    &&& old(self).spec_game().starts(
                        old(self).spec_players().len(),
                        &final(self).spec_state().unwrap(),
                    )
                },
            },
    {
        if self.state.is_some() {
            return Response::Rejected(ErrorKind::AlreadyStarted);
        }
        match self.game.try_new_state(self.players.len() as u32) {
            None => Response::Rejected(ErrorKind::NotPlayable),
            Some(state) => {
                self.state = Some(state);
                Response::Accepted
            },
        }
    }

    /// Carries out a request of a player on the state of the session, or
    /// rejects it and leaves the session as it is.
    pub fn handle(&mut self, request: &Request) -> (r: Response)
        requires
            old(self).wf(),
        ensures
            final(self).wf(),
            final(self).spec_id() == old(self).spec_id(),
            final(self).spec_game() == old(self).spec_game(),
            final(self).spec_players() == old(self).spec_players(),
            match old(self).spec_state() {
                None => r == Response::Rejected(ErrorKind::NotStarted) && *final(self) == *old(self),
                Some(before) => final(self).spec_state().is_some() && (match before.refusal_of(
                    request,
                ) {
                    Some(e) => r == Response::Rejected(e) && final(self).spec_state().unwrap()
                        == before,
                    None => r == Response::Accepted && before.follows(
                        &final(self).spec_state().unwrap(),
                        request,
                    ),
                }),
            },
    {
        match &mut self.state {
            None => Response::Rejected(ErrorKind::NotStarted),
            Some(state) => match state.apply(request) {
                Ok(()) => Response::Accepted,
                Err(e) => Response::Rejected(e),
            },
        }
    }
}

} // verus!
