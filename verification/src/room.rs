//! The executable room: the authoritative state of one game, and the
//! commands that change it. Each method is held to the function of the same
//! purpose in `model`.

use vstd::prelude::*;
use std::collections::HashMap;
use std::collections::HashSet;
use crate::draw::check_unique_draw;
use crate::draw::grid_cells;
use crate::draw::rand_index;
use crate::draw::rand_unique_indices;
use crate::draw::is_unique_draw;
use crate::model::Phase;
use crate::model::PlayerView;
use crate::model::RoomView;
use crate::model::cleared;
use crate::model::lemma_filter_next;
use crate::model::lemma_filter_none;
use crate::model::lemma_fresh_wf;
use crate::model::other_than;
use crate::model::CANDIDATES;
use crate::model::DEFAULT_COLS;
use crate::model::DEFAULT_ROWS;
use crate::protocol::ClientMsg;
use crate::protocol::Draw;
use crate::protocol::list_ids;
use crate::scoring::add_points;
use crate::scoring::points_for;

verus! {

/// One participant of a room.
#[derive(Debug)]
pub struct Player {
    pub id: u128,
    pub name: String,
    pub score: i32,
}

impl View for Player {
    type V = PlayerView;

    open spec fn view(&self) -> PlayerView {
        PlayerView { id: self.id, name: self.name@, score: self.score as int }
    }
}

/// The state of one room.
#[derive(Debug)]
pub struct RoomState {
    pub name: String,
    pub round: u32,
    pub cols: u32,
    pub rows: u32,
    pub cue_giver_idx: usize,
    pub phase: Phase,
    pub cue1: Option<String>,
    pub cue2: Option<String>,
    pub target: Option<usize>,
    pub select_options: Option<Vec<usize>>,
    pub players: Vec<Player>,
    pub guessed_once: HashSet<u128>,
    pub guessed_twice: HashSet<u128>,
    pub guess1_cells: HashMap<u128, usize>,
    pub guess2_cells: HashMap<u128, usize>,
}

/// The characters of an optional text.
pub open spec fn text_view(text: Option<String>) -> Option<Seq<char>> {
    match text {
        Some(s) => Some(s@),
        None => None,
    }
}

/// The cells of an optional list.
pub open spec fn cells_view(cells: Option<Vec<usize>>) -> Option<Seq<usize>> {
    match cells {
        Some(v) => Some(v@),
        None => None,
    }
}

/// The players of a list as the model sees them.
pub open spec fn players_view(players: Seq<Player>) -> Seq<PlayerView> {
    players.map_values(|p: Player| p@)
}

impl View for RoomState {
    type V = RoomView;

    open spec fn view(&self) -> RoomView {
        RoomView {
            name: self.name@,
            round: self.round as nat,
            cols: self.cols as nat,
            rows: self.rows as nat,
            cue_giver_idx: self.cue_giver_idx as nat,
            phase: self.phase,
            cue1: text_view(self.cue1),
            cue2: text_view(self.cue2),
            target: self.target,
            select_options: cells_view(self.select_options),
            players: players_view(self.players@),
            guessed_once: self.guessed_once@,
            guessed_twice: self.guessed_twice@,
            guess1_cells: self.guess1_cells@,
            guess2_cells: self.guess2_cells@,
        }
    }
}

/// The room that exists from the start, under the name "default".
pub fn default_room() -> (room: RoomState)
    ensures
        room@ == RoomView::fresh("default"@),
        room@.wf(),
{
    RoomState::new("default".to_owned())
}

impl RoomState {
    /// A new room: in the lobby, 30 by 18, with nobody in it.
    pub fn new(name: String) -> (room: RoomState)
        ensures
            room@ == RoomView::fresh(name@),
            room@.wf(),
    {
        let room = RoomState {
            name,
            round: 0,
            cols: DEFAULT_COLS,
            rows: DEFAULT_ROWS,
            cue_giver_idx: 0,
            phase: Phase::Lobby,
            cue1: None,
            cue2: None,
            target: None,
            select_options: None,
            players: Vec::new(),
            guessed_once: HashSet::new(),
            guessed_twice: HashSet::new(),
            guess1_cells: HashMap::new(),
            guess2_cells: HashMap::new(),
        };
        proof {
            assert(room@.players =~= Seq::<PlayerView>::empty());
            assert(room@ =~= RoomView::fresh(name@));
            lemma_fresh_wf(name@);
        }
        room
    }

    /// Appends a player with no points.
    pub fn join(&mut self, id: u128, name: String)
        requires
            old(self)@.wf(),
        ensures
            final(self)@ == old(self)@.joined(id, name@),
            final(self)@.wf(),
    {
        let player = Player { id, name, score: 0 };
        self.players.push(player);
        proof {
            assert(self@.players =~= old(self)@.players.push(player@));
        }
    }

    /// `LockCue1`: stores the first cue and opens the first guessing phase.
    pub fn lock_cue1(&mut self, cue: String)
        requires
            old(self)@.wf(),
        ensures
            final(self)@ == old(self)@.cue1_locked(cue@),
            final(self)@.wf(),
    {
        self.cue1 = Some(cue);
        self.phase = Phase::Guess1;
        self.guessed_once.clear();
        self.guess1_cells.clear();
    }

    /// `LockCue2`: stores the second cue and opens the second guessing phase.
    pub fn lock_cue2(&mut self, cue2: String)
        requires
            old(self)@.wf(),
        ensures
            final(self)@ == old(self)@.cue2_locked(cue2@),
            final(self)@.wf(),
    {
        self.cue2 = Some(cue2);
        self.phase = Phase::Guess2;
        self.guessed_twice.clear();
        self.guess2_cells.clear();
    }

    /// The identity of the current cue-giver, if the room has one.
    pub fn cue_giver(&self) -> (id: Option<u128>)
        ensures
            id == self@.cue_giver(),
    {
        if self.cue_giver_idx < self.players.len() {
            Some(self.players[self.cue_giver_idx].id)
        } else {
            None
        }
    }

    /// `ChooseTarget`: the cue-giver makes one of the candidates the target.
    /// From anyone else, or for a cell that is not on offer, nothing changes.
    pub fn choose_target(&mut self, player: u128, index: usize)
        requires
            old(self)@.wf(),
        ensures
            final(self)@ == old(self)@.target_chosen(player, index),
            final(self)@.wf(),
    {
        if self.cue_giver() == Some(player) {
            let on_offer = match &self.select_options {
                Some(options) => contains_cell(options, index),
                None => false,
            };
            if on_offer {
                self.target = Some(index);
                self.select_options = None;
            }
        }
    }

    /// `StartGame` with the candidate targets given: every score back to
    /// zero, round one, the first player gives the cues.
    pub fn start_game_with(&mut self, options: Vec<usize>)
        requires
            old(self)@.wf(),
            is_unique_draw(options@, old(self)@.cells(), CANDIDATES as int),
        ensures
            final(self)@ == old(self)@.started(options@),
            final(self)@.wf(),
    {
        let mut i: usize = 0;
        while i < self.players.len()
            invariant
                0 <= i <= self.players.len(),
                self.players.len() == old(self).players.len(),
                forall|j: int| 0 <= j < i ==> (#[trigger] self.players@[j])@ == cleared(old(self).players@[j]@),
                forall|j: int| i <= j < self.players.len() ==> self.players@[j] == old(self).players@[j],
                self.name == old(self).name,
                self.cols == old(self).cols,
                self.rows == old(self).rows,
            decreases self.players.len() - i,
        {
            self.players[i].score = 0;
            i = i + 1;
        }
        self.round = 1;
        self.cue_giver_idx = 0;
        self.phase = Phase::Cue1;
        self.cue1 = None;
        self.cue2 = None;
        self.target = None;
        self.select_options = Some(options);
        self.guessed_once.clear();
        self.guessed_twice.clear();
        self.guess1_cells.clear();
        self.guess2_cells.clear();
        proof {
            assert(self@.players =~= old(self)@.players.map_values(|p: PlayerView| cleared(p)));
            assert(self@ =~= old(self)@.started(options@));
            assert(self@.guess1_cells.dom() =~= Set::<u128>::empty());
            assert(self@.guess2_cells.dom() =~= Set::<u128>::empty());
        }
    }

    /// `NextRound` with the candidate targets given: the next player gives
    /// the cues, scores stay.
    pub fn next_round_with(&mut self, options: Vec<usize>)
        requires
            old(self)@.wf(),
            is_unique_draw(options@, old(self)@.cells(), CANDIDATES as int),
        ensures
            final(self)@ == old(self)@.advanced(options@),
            final(self)@.wf(),
    {
        if self.round < u32::MAX {
            self.round = self.round + 1;
        }
        let modulus: usize = if self.players.len() == 0 {
            1
        } else {
            self.players.len()
        };
        self.cue_giver_idx = (self.cue_giver_idx + 1) % modulus;
        self.phase = Phase::Cue1;
        self.cue1 = None;
        self.cue2 = None;
        self.target = None;
        self.select_options = Some(options);
        self.guessed_once.clear();
        self.guessed_twice.clear();
        self.guess1_cells.clear();
        self.guess2_cells.clear();
        proof {
            assert(self@ =~= old(self)@.advanced(options@));
            assert(self@.guess1_cells.dom() =~= Set::<u128>::empty());
            assert(self@.guess2_cells.dom() =~= Set::<u128>::empty());
        }
    }

    /// Whether the current guessing phase is complete: every player but the
    /// cue-giver has guessed in it.
    pub fn all_guessed(&self) -> (done: bool)
        ensures
            done == self@.all_guessed(),
    {
        broadcast use vstd::std_specs::hash::group_hash_axioms;

        let first = match self.phase {
            Phase::Guess1 => true,
            Phase::Guess2 => false,
            _ => {
                return false;
            },
        };
        let cue = self.cue_giver();
        let mut i: usize = 0;
        while i < self.players.len()
            invariant
                0 <= i <= self.players.len(),
                cue == self@.cue_giver(),
                first <==> self.phase == Phase::Guess1,
                !first <==> self.phase == Phase::Guess2,
                forall|j: int|
                    0 <= j < i && #[trigger] self@.must_guess(j) ==> (if first {
                        self@.guessed_once
                    } else {
                        self@.guessed_twice
                    }).contains(self@.players[j].id),
            decreases self.players.len() - i,
        {
            let id = self.players[i].id;
            if Some(id) != cue {
                let found = if first {
                    self.guessed_once.contains(&id)
                } else {
                    self.guessed_twice.contains(&id)
                };
                if !found {
                    assert(self@.must_guess(i as int));
                    return false;
                }
            }
            i = i + 1;
        }
        true
    }

    /// The guess that counts for a player at the reveal: the second if there
    /// is one, else the first.
    pub fn counted_guess(&self, id: u128) -> (guess: Option<usize>)
        ensures
            guess == self@.counted_guess(id),
    {
        broadcast use vstd::std_specs::hash::group_hash_axioms;

        match self.guess2_cells.get(&id) {
            Some(cell) => Some(*cell),
            None => match self.guess1_cells.get(&id) {
                Some(cell) => Some(*cell),
                None => None,
            },
        }
    }

    /// The reveal: settles the target, on `fallback` if none was chosen, and
    /// awards each guessing player the points of the guess that counts.
    pub fn reveal_round(&mut self, fallback: usize)
        requires
            old(self)@.wf(),
            fallback < old(self)@.cells(),
        ensures
            final(self)@ == old(self)@.revealed(fallback),
            final(self)@.wf(),
    {
        let target: usize = match self.target {
            Some(t) => t,
            None => fallback,
        };
        let cue = self.cue_giver();
        let cols: usize = self.cols as usize;
        assert(cols > 0) by (nonlinear_arith)
            requires
                0 < self.cols * self.rows,
                cols == self.cols,
        ;
        let mut i: usize = 0;
        while i < self.players.len()
            invariant
                0 <= i <= self.players.len(),
                cols == old(self).cols,
                cols > 0,
                old(self)@.wf(),
                cue == old(self)@.cue_giver(),
                target == old(self)@.resolved_target(fallback),
                self.players.len() == old(self).players.len(),
                forall|j: int|
                    0 <= j < i ==> (#[trigger] self.players@[j])@ == old(self)@.scored(
                        old(self).players@[j]@,
                        target,
                    ),
                forall|j: int|
                    i <= j < self.players.len() ==> self.players@[j] == old(self).players@[j],
                self.name == old(self).name,
                self.round == old(self).round,
                self.cols == old(self).cols,
                self.rows == old(self).rows,
                self.cue_giver_idx == old(self).cue_giver_idx,
                self.phase == old(self).phase,
                self.cue1 == old(self).cue1,
                self.cue2 == old(self).cue2,
                self.target == old(self).target,
                self.select_options == old(self).select_options,
                self.guessed_once == old(self).guessed_once,
                self.guessed_twice == old(self).guessed_twice,
                self.guess1_cells == old(self).guess1_cells,
                self.guess2_cells == old(self).guess2_cells,
            decreases self.players.len() - i,
        {
            let id = self.players[i].id;
            if Some(id) != cue {
                match self.counted_guess(id) {
                    Some(guess) => {
                        let points = points_for(guess, target, cols);
                        self.players[i].score = add_points(self.players[i].score, points);
                    },
                    None => {},
                }
            }
            i = i + 1;
        }
        self.phase = Phase::Reveal;
        self.target = Some(target);
        proof {
            let scored = |p: PlayerView| old(self)@.scored(p, target);
            assert(self@.players =~= old(self)@.players.map_values(scored));
            assert(self@ =~= old(self)@.revealed(fallback));
        }
    }

    /// `Guess` with the fallback target given: writes the guess down for the
    /// current guessing phase and, once every guessing player has guessed,
    /// moves on, to the second cue or to the reveal.
    pub fn guess_with(&mut self, player: u128, cell: usize, fallback: usize)
        requires
            old(self)@.wf(),
            fallback < old(self)@.cells(),
        ensures
            final(self)@ == old(self)@.guessed(player, cell, fallback),
            final(self)@.wf(),
    {
        broadcast use vstd::std_specs::hash::group_hash_axioms;

        match self.phase {
            Phase::Guess1 => {
                self.guessed_once.insert(player);
                self.guess1_cells.insert(player, cell);
            },
            Phase::Guess2 => {
                self.guessed_twice.insert(player);
                self.guess2_cells.insert(player, cell);
            },
            _ => {},
        }
        proof {
            assert(self@ =~= old(self)@.guess_recorded(player, cell));
            assert(self@.guess1_cells.dom() =~= self@.guessed_once);
            assert(self@.guess2_cells.dom() =~= self@.guessed_twice);
        }
        if self.all_guessed() {
            match self.phase {
                Phase::Guess1 => {
                    self.phase = Phase::Cue2;
                },
                Phase::Guess2 => {
                    self.reveal_round(fallback);
                },
                _ => {},
            }
        }
    }

    /// Removes every player with identity `id` and brings the cue-giver's
    /// index back into the shorter list.
    pub fn remove_player(&mut self, id: u128)
        requires
            old(self)@.wf(),
        ensures
            final(self)@ == old(self)@.without_player(id),
            final(self)@.wf(),
    {
        let mut all: Vec<Player> = Vec::new();
        std::mem::swap(&mut all, &mut self.players);
        let ghost before = players_view(all@);
        let mut rest: Vec<Player> = Vec::new();
        proof {
            lemma_filter_none(before, id);
        }
        for p in it: all
            invariant
                players_view(it.seq()) == before,
                players_view(rest@) == before.take(it.index() as int).filter(other_than(id)),
        {
            proof {
                lemma_filter_next(before, it.index() as int, id);
            }
            if p.id != id {
                rest.push(p);
                assert(players_view(rest@) =~= before.take(it.index() as int).filter(
                    other_than(id),
                ).push(p@));
            }
        }
        assert(before.take(before.len() as int) =~= before);
        let modulus: usize = if rest.len() == 0 {
            1
        } else {
            rest.len()
        };
        self.players = rest;
        self.cue_giver_idx = self.cue_giver_idx % modulus;
        proof {
            assert(self@ =~= old(self)@.without_player(id));
        }
    }

    /// Puts the room back into the state of a new room of the same name.
    pub fn reset(&mut self)
        ensures
            final(self)@ == RoomView::fresh(old(self)@.name),
            final(self)@.wf(),
    {
        self.round = 0;
        self.cols = DEFAULT_COLS;
        self.rows = DEFAULT_ROWS;
        self.cue_giver_idx = 0;
        self.phase = Phase::Lobby;
        self.cue1 = None;
        self.cue2 = None;
        self.target = None;
        self.select_options = None;
        self.players = Vec::new();
        self.guessed_once.clear();
        self.guessed_twice.clear();
        self.guess1_cells.clear();
        self.guess2_cells.clear();
        proof {
            assert(self@.players =~= Seq::<PlayerView>::empty());
            assert(self@ =~= RoomView::fresh(old(self)@.name));
            lemma_fresh_wf(old(self)@.name);
        }
    }

    /// `StartGame`: draws the candidate targets and starts the first round.
    pub fn start_game(&mut self)
        requires
            old(self)@.wf(),
        ensures
            exists|options: Seq<usize>|
                is_unique_draw(
                    options,
                    old(self)@.cells(),
                    CANDIDATES as int,
                ) && final(self)@ == #[trigger] old(self)@.started(options),
            final(self)@.wf(),
    {
        let options = rand_unique_indices(self.cols, self.rows, CANDIDATES);
        self.start_game_with(options);
    }

    /// `NextRound`: draws the candidate targets and starts the next round.
    pub fn next_round(&mut self)
        requires
            old(self)@.wf(),
        ensures
            exists|options: Seq<usize>|
                is_unique_draw(
                    options,
                    old(self)@.cells(),
                    CANDIDATES as int,
                ) && final(self)@ == #[trigger] old(self)@.advanced(options),
            final(self)@.wf(),
    {
        let options = rand_unique_indices(self.cols, self.rows, CANDIDATES);
        self.next_round_with(options);
    }

    /// `Guess`: draws the target to fall back on and takes the guess.
    pub fn guess(&mut self, player: u128, cell: usize)
        requires
            old(self)@.wf(),
        ensures
            exists|fallback: usize|
                fallback < old(self)@.cells() && final(self)@
                    == #[trigger] old(self)@.guessed(player, cell, fallback),
            final(self)@.wf(),
    {
        let fallback = rand_index(self.cols, self.rows);
        self.guess_with(player, cell, fallback);
    }

    /// Whether the room satisfies the room invariant.
    pub fn is_well_formed(&self) -> (ok: bool)
        ensures
            ok == self@.wf(),
    {
        let total: u64 = grid_cells(self.cols, self.rows);
        if total == 0 || total > usize::MAX as u64 {
            return false;
        }
        let cells: usize = total as usize;
        let modulus: usize = if self.players.len() == 0 {
            1
        } else {
            self.players.len()
        };
        let target_fits = match self.target {
            Some(target) => target < cells,
            None => match self.phase {
                Phase::Reveal => false,
                _ => true,
            },
        };
        let options_fit = match &self.select_options {
            Some(options) => check_unique_draw(options, cells, CANDIDATES),
            None => true,
        };
        self.cue_giver_idx < modulus && same_players(&self.guessed_once, &self.guess1_cells)
            && same_players(&self.guessed_twice, &self.guess2_cells) && target_fits && options_fit
    }

    /// Applies a command sent by `player`, with what chance contributes
    /// given. Commands that act on the hub rather than on one room change
    /// nothing.
    pub fn apply_with(&mut self, player: u128, cmd: ClientMsg, draw: Draw)
        requires
            old(self)@.wf(),
            old(self)@.draw_fits(cmd@, draw@),
        ensures
            final(self)@ == old(self)@.applied(player, cmd@, draw@),
            final(self)@.wf(),
    {
        match cmd {
            ClientMsg::StartGame => self.start_game_with(draw.options),
            ClientMsg::LockCue1 { cue } => self.lock_cue1(cue),
            ClientMsg::LockCue2 { cue2 } => self.lock_cue2(cue2),
            ClientMsg::ChooseTarget { index } => self.choose_target(player, index),
            ClientMsg::Guess { cell } => self.guess_with(player, cell, draw.fallback),
            ClientMsg::NextRound => self.next_round_with(draw.options),
            _ => {},
        }
    }
}

/// Whether `ids` holds exactly the players of `guesses`.
pub fn same_players(ids: &HashSet<u128>, guesses: &HashMap<u128, usize>) -> (same: bool)
    ensures
        same == (ids@ == guesses@.dom()),
{
    broadcast use vstd::std_specs::hash::group_hash_axioms;

    if ids.len() != guesses.len() {
        return false;
    }
    let list = list_ids(ids);
    let mut i: usize = 0;
    while i < list.len()
        invariant
            0 <= i <= list.len(),
            list@.to_set() == ids@,
            forall|j: int| 0 <= j < i ==> guesses@.contains_key(list@[j]),
        decreases list.len() - i,
    {
        if !guesses.contains_key(&list[i]) {
            assert(ids@.contains(list@[i as int]));
            return false;
        }
        i = i + 1;
    }
    proof {
        assert forall|id: u128| ids@.contains(id) implies guesses@.dom().contains(id) by {
            let j = choose|j: int| 0 <= j < list@.len() && list@[j] == id;
            assert(guesses@.contains_key(list@[j]));
        }
        vstd::set_lib::lemma_subset_equality(ids@, guesses@.dom());
    }
    true
}

/// Whether `cell` occurs in `cells`.
pub fn contains_cell(cells: &Vec<usize>, cell: usize) -> (found: bool)
    ensures
        found == cells@.contains(cell),
{
    let mut i: usize = 0;
    while i < cells.len()
        invariant
            0 <= i <= cells.len(),
            forall|j: int| 0 <= j < i ==> cells@[j] != cell,
        decreases cells.len() - i,
    {
        if cells[i] == cell {
            return true;
        }
        i = i + 1;
    }
    false
}

} // verus!
