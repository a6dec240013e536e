//! The mathematical model of one room: its state as plain values, and each
//! command as a function from state to state.
//!
//! Everything here is ghost code. The executable room in `room` is held to
//! these functions, and the laws at the end of the file are proved of them.

use vstd::prelude::*;
use crate::draw::is_unique_draw;
use crate::scoring::guess_points;
use crate::scoring::score_plus;

verus! {

/// The stage of a round.
#[derive(Clone, Copy, Debug, PartialEq, Eq, Structural)]
pub enum Phase {
    Lobby,
    Cue1,
    Guess1,
    Cue2,
    Guess2,
    Reveal,
}

/// A player as the model sees it.
#[verifier::ext_equal]
pub struct PlayerView {
    pub id: u128,
    pub name: Seq<char>,
    pub score: int,
}

/// What chance contributes to one command: the identity of a joining player,
/// the candidate targets of a new round, and the target used at the reveal
/// when the cue-giver chose none.
#[verifier::ext_equal]
pub struct DrawView {
    pub player_id: u128,
    pub options: Seq<usize>,
    pub fallback: usize,
}

/// A client command as the model sees it.
#[verifier::ext_equal]
pub enum Command {
    Join { name: Seq<char>, room: Option<Seq<char>> },
    StartGame,
    LockCue1 { cue: Seq<char> },
    LockCue2 { cue2: Seq<char> },
    Guess { cell: usize },
    NextRound,
    ChooseTarget { index: usize },
    AdminReset { secret: Seq<char> },
    AdminKick { secret: Seq<char>, player: u128 },
}

/// The state of one room.
#[verifier::ext_equal]
pub struct RoomView {
    pub name: Seq<char>,
    pub round: nat,
    pub cols: nat,
    pub rows: nat,
    pub cue_giver_idx: nat,
    pub phase: Phase,
    pub cue1: Option<Seq<char>>,
    pub cue2: Option<Seq<char>>,
    pub target: Option<usize>,
    pub select_options: Option<Seq<usize>>,
    pub players: Seq<PlayerView>,
    pub guessed_once: Set<u128>,
    pub guessed_twice: Set<u128>,
    pub guess1_cells: Map<u128, usize>,
    pub guess2_cells: Map<u128, usize>,
}

/// Width of the grid of a new room.
pub const DEFAULT_COLS: u32 = 30;

/// Height of the grid of a new room.
pub const DEFAULT_ROWS: u32 = 18;

/// Number of candidate targets offered to the cue-giver.
pub const CANDIDATES: usize = 4;

/// The wire name of a phase.
pub open spec fn phase_name(phase: Phase) -> Seq<char> {
    match phase {
        Phase::Lobby => "lobby"@,
        Phase::Cue1 => "cue1"@,
        Phase::Guess1 => "guess1"@,
        Phase::Cue2 => "cue2"@,
        Phase::Guess2 => "guess2"@,
        Phase::Reveal => "reveal"@,
    }
}

/// The player with the score set back to zero.
pub open spec fn cleared(p: PlayerView) -> PlayerView {
    PlayerView { score: 0, ..p }
}

/// The round counter after one more round, held at the top of the `u32` range.
pub open spec fn round_after(round: nat) -> nat {
    if round < u32::MAX {
        round + 1
    } else {
        round
    }
}

/// The divisor used to bring the cue-giver's index back into a list of `len`
/// players: the length itself, or one for an empty list.
pub open spec fn turn_modulus(len: nat) -> nat {
    if len == 0 {
        1
    } else {
        len
    }
}

/// The test that keeps every player but those with identity `id`.
pub open spec fn other_than(id: u128) -> spec_fn(PlayerView) -> bool {
    |p: PlayerView| p.id != id
}

impl RoomView {
    /// A room as it is created: in the lobby, with the default grid and nobody
    /// in it.
    pub open spec fn fresh(name: Seq<char>) -> RoomView {
        RoomView {
            name,
            round: 0,
            cols: DEFAULT_COLS as nat,
            rows: DEFAULT_ROWS as nat,
            cue_giver_idx: 0,
            phase: Phase::Lobby,
            cue1: None,
            cue2: None,
            target: None,
            select_options: None,
            players: Seq::empty(),
            guessed_once: Set::empty(),
            guessed_twice: Set::empty(),
            guess1_cells: Map::empty(),
            guess2_cells: Map::empty(),
        }
    }

    /// The invariant of a room: the grid is not empty and its cells can be
    /// counted in a `usize`; the cue-giver's index points at a player whenever
    /// there is one, and is zero otherwise; each guess set holds exactly the
    /// players of the guess map beside it; the round, the sides of the grid
    /// and the scores fit the machine types that hold them; a room at the
    /// reveal has a target; the target, if there is one, is a cell of the
    /// grid; the candidates, if there are any, are distinct cells of the grid,
    /// four of them or as many as the grid has.
    pub open spec fn wf(self) -> bool {
        &&& 0 < self.cells() <= usize::MAX
        &&& self.cols <= u32::MAX
        &&& self.rows <= u32::MAX
        &&& self.round <= u32::MAX
        &&& self.cue_giver_idx < turn_modulus(self.players.len())
        &&& self.guessed_once == self.guess1_cells.dom()
        &&& self.guessed_twice == self.guess2_cells.dom()
        &&& forall|i: int|
            0 <= i < self.players.len() ==> i32::MIN <= (#[trigger] self.players[i]).score
                <= i32::MAX
        &&& (self.phase == Phase::Reveal ==> self.target is Some)
        &&& (self.target is Some ==> self.target->0 < self.cells())
        &&& (self.select_options is Some ==> is_unique_draw(
            self.select_options->0,
            self.cells(),
            CANDIDATES as int,
        ))
    }

    /// Whether `draw` holds what a command may use in this room: for a new
    /// round, candidates that are distinct cells of the grid, four of them or
    /// as many as the grid has; for a guess, a cell of the grid to fall back
    /// on as the target.
    pub open spec fn draw_fits(self, cmd: Command, draw: DrawView) -> bool {
        &&& (cmd is StartGame || cmd is NextRound ==> is_unique_draw(
            draw.options,
            self.cells(),
            CANDIDATES as int,
        ))
        &&& (cmd is Guess ==> draw.fallback < self.cells())
    }

    /// Number of cells of the room's grid.
    pub open spec fn cells(self) -> int {
        self.cols as int * self.rows as int
    }

    /// The identity of the current cue-giver, if the room has one.
    pub open spec fn cue_giver(self) -> Option<u128> {
        if self.cue_giver_idx < self.players.len() {
            Some(self.players[self.cue_giver_idx as int].id)
        } else {
            None
        }
    }

    /// Whether the player at position `i` is one of those who guess: every
    /// player but the cue-giver.
    pub open spec fn must_guess(self, i: int) -> bool {
        0 <= i < self.players.len() && Some(self.players[i].id) != self.cue_giver()
    }

    /// Whether every guessing player is in `guessed`.
    pub open spec fn all_in(self, guessed: Set<u128>) -> bool {
        forall|i: int| #[trigger]
            self.must_guess(i) ==> guessed.contains(self.players[i].id)
    }

    /// Whether the current guessing phase is complete. Outside the two
    /// guessing phases it never is.
    pub open spec fn all_guessed(self) -> bool {
        match self.phase {
            Phase::Guess1 => self.all_in(self.guessed_once),
            Phase::Guess2 => self.all_in(self.guessed_twice),
            _ => false,
        }
    }

    /// The room after a new player has come in.
    pub open spec fn joined(self, id: u128, name: Seq<char>) -> RoomView {
        RoomView { players: self.players.push(PlayerView { id, name, score: 0 }), ..self }
    }

    /// The room after every player with identity `id` has left. The
    /// cue-giver's index is brought back into the shorter list.
    pub open spec fn without_player(self, id: u128) -> RoomView {
        let rest = self.players.filter(other_than(id));
        RoomView {
            players: rest,
            cue_giver_idx: self.cue_giver_idx % turn_modulus(rest.len()),
            ..self
        }
    }

    /// The room after `StartGame`.
    pub open spec fn started(self, options: Seq<usize>) -> RoomView {
        RoomView {
            round: 1,
            cue_giver_idx: 0,
            phase: Phase::Cue1,
            cue1: None,
            cue2: None,
            target: None,
            select_options: Some(options),
            players: self.players.map_values(|p: PlayerView| cleared(p)),
            guessed_once: Set::empty(),
            guessed_twice: Set::empty(),
            guess1_cells: Map::empty(),
            guess2_cells: Map::empty(),
            ..self
        }
    }

    /// The room after `NextRound`.
    pub open spec fn advanced(self, options: Seq<usize>) -> RoomView {
        RoomView {
            round: round_after(self.round),
            cue_giver_idx: (self.cue_giver_idx + 1) % turn_modulus(self.players.len()),
            phase: Phase::Cue1,
            cue1: None,
            cue2: None,
            target: None,
            select_options: Some(options),
            guessed_once: Set::empty(),
            guessed_twice: Set::empty(),
            guess1_cells: Map::empty(),
            guess2_cells: Map::empty(),
            ..self
        }
    }

    /// The room after `LockCue1`.
    pub open spec fn cue1_locked(self, cue: Seq<char>) -> RoomView {
        RoomView {
            cue1: Some(cue),
            phase: Phase::Guess1,
            guessed_once: Set::empty(),
            guess1_cells: Map::empty(),
            ..self
        }
    }

    /// The room after `LockCue2`.
    pub open spec fn cue2_locked(self, cue2: Seq<char>) -> RoomView {
        RoomView {
            cue2: Some(cue2),
            phase: Phase::Guess2,
            guessed_twice: Set::empty(),
            guess2_cells: Map::empty(),
            ..self
        }
    }

    /// Whether `player` may make `index` the target: only the cue-giver may,
    /// and only a cell among the candidates on offer.
    pub open spec fn may_choose(self, player: u128, index: usize) -> bool {
        &&& self.cue_giver() == Some(player)
        &&& self.select_options is Some
        &&& self.select_options->0.contains(index)
    }

    /// The room after `ChooseTarget`: the choice is taken and the candidates
    /// are withdrawn, or nothing changes.
    pub open spec fn target_chosen(self, player: u128, index: usize) -> RoomView {
        if self.may_choose(player, index) {
            RoomView { target: Some(index), select_options: None, ..self }
        } else {
            self
        }
    }

    /// The room with the guess of `player` written down for the current
    /// phase; unchanged outside the guessing phases.
    pub open spec fn guess_recorded(self, player: u128, cell: usize) -> RoomView {
        match self.phase {
            Phase::Guess1 => RoomView {
                guessed_once: self.guessed_once.insert(player),
                guess1_cells: self.guess1_cells.insert(player, cell),
                ..self
            },
            Phase::Guess2 => RoomView {
                guessed_twice: self.guessed_twice.insert(player),
                guess2_cells: self.guess2_cells.insert(player, cell),
                ..self
            },
            _ => self,
        }
    }

    /// The guess that counts for a player at the reveal: the second if there
    /// is one, else the first.
    pub open spec fn counted_guess(self, id: u128) -> Option<usize> {
        if self.guess2_cells.contains_key(id) {
            Some(self.guess2_cells[id])
        } else if self.guess1_cells.contains_key(id) {
            Some(self.guess1_cells[id])
        } else {
            None
        }
    }

    /// The points that the reveal awards to the player with identity `id`:
    /// none to the cue-giver or to a player without a guess, else the points
    /// of the counted guess against `target`.
    pub open spec fn award(self, id: u128, target: usize) -> int {
        if Some(id) == self.cue_giver() {
            0
        } else {
            match self.counted_guess(id) {
                Some(guess) => guess_points(guess as int, target as int, self.cols as int),
                None => 0,
            }
        }
    }

    /// A player after the reveal against `target`.
    pub open spec fn scored(self, p: PlayerView, target: usize) -> PlayerView {
        PlayerView { score: score_plus(p.score, self.award(p.id, target)), ..p }
    }

    /// The target that the reveal uses: the chosen one, else `fallback`.
    pub open spec fn resolved_target(self, fallback: usize) -> usize {
        match self.target {
            Some(t) => t,
            None => fallback,
        }
    }

    /// The room after the reveal.
    pub open spec fn revealed(self, fallback: usize) -> RoomView {
        let target = self.resolved_target(fallback);
        RoomView {
            phase: Phase::Reveal,
            target: Some(target),
            players: self.players.map_values(|p: PlayerView| self.scored(p, target)),
            ..self
        }
    }

    /// The room after `Guess`: the guess is written down, and if that
    /// completes the phase the room moves on, from the first guessing phase to
    /// the second cue, from the second to the reveal.
    pub open spec fn guessed(self, player: u128, cell: usize, fallback: usize) -> RoomView {
        let noted = self.guess_recorded(player, cell);
        if noted.all_guessed() {
            match noted.phase {
                Phase::Guess1 => RoomView { phase: Phase::Cue2, ..noted },
                Phase::Guess2 => noted.revealed(fallback),
                _ => noted,
            }
        } else {
            noted
        }
    }

    /// The room after a command sent by `player`. Commands that act on the
    /// hub rather than on one room leave the room as it is.
    pub open spec fn applied(self, player: u128, cmd: Command, draw: DrawView) -> RoomView {
        match cmd {
            Command::StartGame => self.started(draw.options),
            Command::LockCue1 { cue } => self.cue1_locked(cue),
            Command::LockCue2 { cue2 } => self.cue2_locked(cue2),
            Command::ChooseTarget { index } => self.target_chosen(player, index),
            Command::Guess { cell } => self.guessed(player, cell, draw.fallback),
            Command::NextRound => self.advanced(draw.options),
            _ => self,
        }
    }
}

/// A new room satisfies the room invariant.
pub proof fn lemma_fresh_wf(name: Seq<char>)
    ensures
        RoomView::fresh(name).wf(),
{
    let room = RoomView::fresh(name);
    assert(room.cols * room.rows == 540) by (nonlinear_arith)
        requires
            room.cols == 30,
            room.rows == 18,
    ;
    assert(room.guess1_cells.dom() =~= Set::<u128>::empty());
    assert(room.guess2_cells.dom() =~= Set::<u128>::empty());
}

/// Filtering one more player: the next player is kept or dropped by its own
/// identity alone.
pub proof fn lemma_filter_next(players: Seq<PlayerView>, k: int, id: u128)
    requires
        0 <= k < players.len(),
    ensures
        players.take(k + 1).filter(other_than(id)) == if players[k].id != id {
            players.take(k).filter(other_than(id)).push(players[k])
        } else {
            players.take(k).filter(other_than(id))
        },
{
    reveal(Seq::filter);
    assert(players.take(k + 1).drop_last() =~= players.take(k));
}

/// Filtering no players leaves none.
pub proof fn lemma_filter_none(players: Seq<PlayerView>, id: u128)
    ensures
        players.take(0).filter(other_than(id)) == Seq::<PlayerView>::empty(),
{
    reveal(Seq::filter);
    assert(players.take(0).filter(other_than(id)) =~= Seq::<PlayerView>::empty());
}

/// The room invariant is kept by every command, from any player, with any
/// draw that fits the room.
pub proof fn lemma_room_steps_keep_wf(room: RoomView, player: u128, cmd: Command, draw: DrawView)
    requires
        room.wf(),
        room.draw_fits(cmd, draw),
    ensures
        room.applied(player, cmd, draw).wf(),
        room.applied(player, cmd, draw).name == room.name,
{
    match cmd {
        Command::StartGame => {
            let post = room.started(draw.options);
            assert(post.guess1_cells.dom() =~= Set::<u128>::empty());
            assert(post.guess2_cells.dom() =~= Set::<u128>::empty());
        },
        Command::NextRound => {
            let post = room.advanced(draw.options);
            assert(post.guess1_cells.dom() =~= Set::<u128>::empty());
            assert(post.guess2_cells.dom() =~= Set::<u128>::empty());
        },
        Command::LockCue1 { cue } => {
            assert(room.cue1_locked(cue).guess1_cells.dom() =~= Set::<u128>::empty());
        },
        Command::LockCue2 { cue2 } => {
            assert(room.cue2_locked(cue2).guess2_cells.dom() =~= Set::<u128>::empty());
        },
        Command::ChooseTarget { index } => {
            if room.may_choose(player, index) {
                let options = room.select_options->0;
                let k = choose|k: int| 0 <= k < options.len() && options[k] == index;
                assert(options[k] < room.cells());
            }
        },
        Command::Guess { cell } => {
            let noted = room.guess_recorded(player, cell);
            assert(noted.guess1_cells.dom() =~= noted.guessed_once);
            assert(noted.guess2_cells.dom() =~= noted.guessed_twice);
            assert(noted.wf());
            assert(noted.revealed(draw.fallback).wf());
        },
        _ => {},
    }
}

/// The room invariant is kept when a player comes in and when a player
/// leaves.
pub proof fn lemma_room_membership_keeps_wf(room: RoomView, player: u128, name: Seq<char>)
    requires
        room.wf(),
    ensures
        room.joined(player, name).wf(),
        room.without_player(player).wf(),
{
    assert(room.without_player(player).wf()) by {
        room.players.lemma_filter_len(other_than(player));
        let rest = room.players.filter(other_than(player));
        assert forall|i: int| 0 <= i < rest.len() implies i32::MIN <= (#[trigger] rest[i]).score
            <= i32::MAX by {
            room.players.lemma_filter_contains_rev(other_than(player), rest[i]);
        }
    }
}

/// No step changes the name of a room or its grid.
pub proof fn lemma_room_keeps_its_name(
    room: RoomView,
    player: u128,
    cmd: Command,
    draw: DrawView,
    name: Seq<char>,
)
    ensures
        room.applied(player, cmd, draw).name == room.name,
        room.applied(player, cmd, draw).cells() == room.cells(),
        room.joined(player, name).name == room.name,
        room.joined(player, name).cells() == room.cells(),
        room.without_player(player).name == room.name,
        room.without_player(player).cells() == room.cells(),
{
}

/// Wherever a room stands, `StartGame` takes it to the first cue of round
/// one, and `NextRound` to the first cue of the following round.
pub proof fn lemma_new_round_starts_at_first_cue(room: RoomView, player: u128, draw: DrawView)
    ensures
        room.applied(player, Command::StartGame, draw).phase == Phase::Cue1,
        room.applied(player, Command::StartGame, draw).round == 1,
        room.applied(player, Command::NextRound, draw).phase == Phase::Cue1,
{
}

/// A room at the reveal stays there until a new round begins: of the commands
/// that are not a cue, only `StartGame` and `NextRound` lead out of the
/// reveal, and they lead to the first cue. Players coming and going do not
/// change the phase at all.
pub proof fn lemma_reveal_exits(
    room: RoomView,
    player: u128,
    cmd: Command,
    draw: DrawView,
    name: Seq<char>,
)
    requires
        room.phase == Phase::Reveal,
        !(cmd is LockCue1),
        !(cmd is LockCue2),
    ensures
        room.applied(player, cmd, draw).phase != Phase::Reveal ==> (cmd is StartGame
            || cmd is NextRound) && room.applied(player, cmd, draw).phase == Phase::Cue1,
        room.joined(player, name).phase == Phase::Reveal,
        room.without_player(player).phase == Phase::Reveal,
{
}

/// The reveal is reached in one way only: by a guess in the second guessing
/// phase after which every player but the cue-giver is in the set of those
/// who guessed twice. No other command, and no guess that leaves a guessing
/// player out, enters it.
pub proof fn lemma_reveal_needs_every_guess(
    room: RoomView,
    player: u128,
    cmd: Command,
    draw: DrawView,
)
    requires
        room.phase != Phase::Reveal,
        room.applied(player, cmd, draw).phase == Phase::Reveal,
    ensures
        cmd is Guess,
        room.phase == Phase::Guess2,
        forall|i: int| #[trigger]
            room.applied(player, cmd, draw).must_guess(i) ==> room.applied(
                player,
                cmd,
                draw,
            ).guessed_twice.contains(room.applied(player, cmd, draw).players[i].id),
{
    let post = room.applied(player, cmd, draw);
    match cmd {
        Command::Guess { cell } => {
            let noted = room.guess_recorded(player, cell);
            assert(noted.all_guessed());
            assert(noted.phase == Phase::Guess2);
            assert(post == noted.revealed(draw.fallback));
            assert(post.cue_giver() == noted.cue_giver());
            assert forall|i: int| #[trigger] post.must_guess(i) implies post.guessed_twice.contains(
                post.players[i].id,
            ) by {
                assert(noted.must_guess(i));
            }
        },
        _ => {},
    }
}

/// A guess in the second guessing phase enters the reveal exactly when, with
/// that guess counted, every player but the cue-giver has guessed twice.
pub proof fn lemma_last_guess_reveals(room: RoomView, player: u128, cell: usize, fallback: usize)
    requires
        room.phase == Phase::Guess2,
    ensures
        room.guessed(player, cell, fallback).phase == Phase::Reveal <==> room.all_in(
            room.guessed_twice.insert(player),
        ),
        room.guessed(player, cell, fallback).phase != Phase::Reveal ==> room.guessed(
            player,
            cell,
            fallback,
        ).phase == Phase::Guess2,
{
    let noted = room.guess_recorded(player, cell);
    assert(noted.cue_giver() == room.cue_giver());
    assert(noted.all_in(noted.guessed_twice) <==> room.all_in(room.guessed_twice.insert(player)))
        by {
        if noted.all_in(noted.guessed_twice) {
            assert forall|i: int| #[trigger] room.must_guess(i) implies room.guessed_twice.insert(
                player,
            ).contains(room.players[i].id) by {
                assert(noted.must_guess(i));
            }
        }
        if room.all_in(room.guessed_twice.insert(player)) {
            assert forall|i: int| #[trigger] noted.must_guess(i) implies noted.guessed_twice.contains(
                noted.players[i].id,
            ) by {
                assert(room.must_guess(i));
            }
        }
    }
}

/// A room's target comes into being in two ways only: the cue-giver chooses
/// it among the candidates on offer, which withdraws them, or the reveal
/// begins with no target chosen and settles on the one drawn for it.
pub proof fn lemma_target_comes_from_choice_or_reveal(
    room: RoomView,
    player: u128,
    cmd: Command,
    draw: DrawView,
)
    requires
        room.applied(player, cmd, draw).target is Some,
        room.applied(player, cmd, draw).target != room.target,
    ensures
        (cmd matches Command::ChooseTarget { index } && room.may_choose(player, index)
            && room.applied(player, cmd, draw).target == Some(index) && room.applied(
            player,
            cmd,
            draw,
        ).select_options is None) || (cmd is Guess && room.phase == Phase::Guess2
            && room.target is None && room.applied(player, cmd, draw).phase == Phase::Reveal
            && room.applied(player, cmd, draw).target == Some(draw.fallback)),
{
}

/// A guessing phase begins with nothing guessed: whatever command leads into
/// it, the guesses of an earlier round are gone.
pub proof fn lemma_guessing_phase_begins_empty(
    room: RoomView,
    player: u128,
    cmd: Command,
    draw: DrawView,
)
    ensures
        room.phase != Phase::Guess1 && room.applied(player, cmd, draw).phase == Phase::Guess1
            ==> room.applied(player, cmd, draw).guessed_once == Set::<u128>::empty()
            && room.applied(player, cmd, draw).guess1_cells == Map::<u128, usize>::empty(),
        room.phase != Phase::Guess2 && room.applied(player, cmd, draw).phase == Phase::Guess2
            ==> room.applied(player, cmd, draw).guessed_twice == Set::<u128>::empty()
            && room.applied(player, cmd, draw).guess2_cells == Map::<u128, usize>::empty(),
{
}

/// The reveal changes the score of no cue-giver and of no player without a
/// guess; every other player gains the points of the guess that counts
/// against the target, up to the top of the score range.
pub proof fn lemma_reveal_scores(room: RoomView, fallback: usize, i: int)
    requires
        room.wf(),
        0 <= i < room.players.len(),
    ensures
        room.revealed(fallback).players.len() == room.players.len(),
        room.revealed(fallback).players[i].id == room.players[i].id,
        room.revealed(fallback).players[i].name == room.players[i].name,
        room.revealed(fallback).players[i].score == score_plus(
            room.players[i].score,
            room.award(room.players[i].id, room.resolved_target(fallback)),
        ),
        !room.must_guess(i) ==> room.revealed(fallback).players[i].score == room.players[i].score,
        room.counted_guess(room.players[i].id) is None ==> room.revealed(fallback).players[i].score
            == room.players[i].score,
        room.revealed(fallback).target == Some(room.resolved_target(fallback)),
        room.target is Some ==> room.revealed(fallback).target == room.target,
{
}

/// After a player has left, nobody of that identity is in the room, the
/// players that stay are those that were there, and whether a guessing phase
/// is complete no longer depends on that player: a guess left behind by the
/// player counts for nothing.
pub proof fn lemma_departed_player_does_not_count(room: RoomView, id: u128, guessed: Set<u128>)
    ensures
        forall|i: int|
            0 <= i < room.without_player(id).players.len() ==> (
            #[trigger] room.without_player(id).players[i]).id != id,
        forall|i: int|
            0 <= i < room.without_player(id).players.len() ==> room.players.contains(
                #[trigger] room.without_player(id).players[i],
            ),
        forall|i: int|
            0 <= i < room.players.len() && room.players[i].id != id ==> room.without_player(
                id,
            ).players.contains(#[trigger] room.players[i]),
        room.without_player(id).all_in(guessed.insert(id)) <==> room.without_player(id).all_in(
            guessed.remove(id),
        ),
{
    let post = room.without_player(id);
    let keep = other_than(id);
    assert forall|i: int| 0 <= i < post.players.len() implies (#[trigger] post.players[i]).id != id
        && room.players.contains(post.players[i]) by {
        room.players.lemma_filter_pred(keep, i);
        room.players.lemma_filter_contains_rev(keep, post.players[i]);
    }
    assert forall|i: int| 0 <= i < room.players.len() && room.players[i].id != id implies post.players.contains(
        #[trigger] room.players[i],
    ) by {
        room.players.lemma_filter_contains(keep, i);
    }
    if post.all_in(guessed.insert(id)) {
        assert forall|i: int| #[trigger] post.must_guess(i) implies guessed.remove(id).contains(
            post.players[i].id,
        ) by {
            assert(guessed.insert(id).contains(post.players[i].id));
        }
    }
    if post.all_in(guessed.remove(id)) {
        assert forall|i: int| #[trigger] post.must_guess(i) implies guessed.insert(id).contains(
            post.players[i].id,
        ) by {
            assert(guessed.remove(id).contains(post.players[i].id));
        }
    }
}

} // verus!
