//! What travels between the hub and its connections: the commands that come
//! in, the messages that go out, and the snapshot of a room that a state
//! message carries.

use vstd::prelude::*;
use vstd::std_specs::iter::IteratorSpec;
use std::collections::HashMap;
use std::collections::HashSet;
use crate::model::Command;
use crate::model::DrawView;
use crate::model::Phase;
use crate::model::PlayerView;
use crate::model::RoomView;
use crate::model::phase_name;
use crate::room::Player;
use crate::room::RoomState;
use crate::room::cells_view;
use crate::room::players_view;
use crate::room::text_view;

verus! {

/// A command sent by a client.
#[derive(Debug, Clone)]
pub enum ClientMsg {
    Join { name: String, room: Option<String> },
    StartGame,
    LockCue1 { cue: String },
    LockCue2 { cue2: String },
    Guess { cell: usize },
    NextRound,
    ChooseTarget { index: usize },
    AdminReset { secret: String },
    AdminKick { secret: String, player: u128 },
}

impl View for ClientMsg {
    type V = Command;

    open spec fn view(&self) -> Command {
        match *self {
            ClientMsg::Join { name, room } => Command::Join { name: name@, room: text_view(room) },
            ClientMsg::StartGame => Command::StartGame,
            ClientMsg::LockCue1 { cue } => Command::LockCue1 { cue: cue@ },
            ClientMsg::LockCue2 { cue2 } => Command::LockCue2 { cue2: cue2@ },
            ClientMsg::Guess { cell } => Command::Guess { cell },
            ClientMsg::NextRound => Command::NextRound,
            ClientMsg::ChooseTarget { index } => Command::ChooseTarget { index },
            ClientMsg::AdminReset { secret } => Command::AdminReset { secret: secret@ },
            ClientMsg::AdminKick { secret, player } => Command::AdminKick {
                secret: secret@,
                player,
            },
        }
    }
}

/// What chance contributes to one command.
#[derive(Debug)]
pub struct Draw {
    pub player_id: u128,
    pub options: Vec<usize>,
    pub fallback: usize,
}

impl View for Draw {
    type V = DrawView;

    open spec fn view(&self) -> DrawView {
        DrawView { player_id: self.player_id, options: self.options@, fallback: self.fallback }
    }
}

/// A player as a snapshot shows it.
#[derive(Debug, Clone)]
pub struct PlayerDto {
    pub id: u128,
    pub name: String,
    pub score: i32,
}

impl View for PlayerDto {
    type V = PlayerView;

    open spec fn view(&self) -> PlayerView {
        PlayerView { id: self.id, name: self.name@, score: self.score as int }
    }
}

/// The snapshot of a room that every member receives after a change.
#[derive(Debug)]
pub struct GameStateDto {
    pub room: String,
    pub round: u32,
    pub cols: u32,
    pub rows: u32,
    pub cue_giver: Option<u128>,
    pub phase: String,
    pub cue1: Option<String>,
    pub cue2: Option<String>,
    pub target: Option<usize>,
    pub select_options: Option<Vec<usize>>,
    pub players: Vec<PlayerDto>,
    pub guessed_once: HashSet<u128>,
    pub guessed_twice: HashSet<u128>,
    pub guesses1: Vec<(u128, usize)>,
    pub guesses2: Vec<(u128, usize)>,
    pub last_guesses: Vec<(u128, usize)>,
}

/// A message sent to clients.
#[derive(Debug)]
pub enum ServerMsg {
    Welcome { id: u128, room: String },
    State { state: GameStateDto },
    Error { message: String },
}

/// One message and the connections it goes to.
#[derive(Debug)]
pub struct Delivery {
    pub to: Vec<u128>,
    pub msg: ServerMsg,
}

/// `list` holds each entry of `guesses` once, in some order.
pub open spec fn lists_guesses(list: Seq<(u128, usize)>, guesses: Map<u128, usize>) -> bool {
    list.no_duplicates() && list.to_set() == guesses.kv_pairs()
}

/// The target as a snapshot may show it: only once the room has reached the
/// reveal.
pub open spec fn visible_target(room: RoomView) -> Option<usize> {
    if room.phase == Phase::Reveal {
        room.target
    } else {
        None
    }
}

/// The players of a snapshot as the model sees them.
pub open spec fn dtos_view(players: Seq<PlayerDto>) -> Seq<PlayerView> {
    players.map_values(|p: PlayerDto| p@)
}

impl GameStateDto {
    /// The snapshot shows `room`: every field is the room's, the target only
    /// at the reveal, and the guess lists hold the guess maps in some order.
    pub open spec fn shows(self, room: RoomView) -> bool {
        &&& self.room@ == room.name
        &&& self.round == room.round
        &&& self.cols == room.cols
        &&& self.rows == room.rows
        &&& self.cue_giver == room.cue_giver()
        &&& self.phase@ == phase_name(room.phase)
        &&& text_view(self.cue1) == room.cue1
        &&& text_view(self.cue2) == room.cue2
        &&& self.target == visible_target(room)
        &&& cells_view(self.select_options) == room.select_options
        &&& dtos_view(self.players@) == room.players
        &&& self.guessed_once@ == room.guessed_once
        &&& self.guessed_twice@ == room.guessed_twice
        &&& lists_guesses(self.guesses1@, room.guess1_cells)
        &&& lists_guesses(self.guesses2@, room.guess2_cells)
        &&& self.last_guesses@ == self.guesses2@
    }
}

impl Delivery {
    /// The delivery is the welcome of player `id` in the room named `room`,
    /// addressed to `conn` alone.
    pub open spec fn is_welcome(self, conn: u128, id: u128, room: Seq<char>) -> bool {
        &&& self.to@ == seq![conn]
        &&& self.msg matches ServerMsg::Welcome { id: i, room: r }
        &&& i == id
        &&& r@ == room
    }

    /// The delivery carries a snapshot of `room` to exactly the connections
    /// of `members`, each once.
    pub open spec fn is_state_of(self, room: RoomView, members: Set<u128>) -> bool {
        &&& self.to@.no_duplicates()
        &&& self.to@.to_set() == members
        &&& self.msg matches ServerMsg::State { state }
        &&& state.shows(room)
    }

    /// The delivery reports `detail` as undecodable input to `conn` alone.
    pub open spec fn is_decode_error(self, conn: u128, detail: Seq<char>) -> bool {
        &&& self.to@ == seq![conn]
        &&& self.msg matches ServerMsg::Error { message }
        &&& message@ == "bad json: "@ + detail
    }
}

impl Phase {
    /// The wire name of the phase.
    pub fn name(&self) -> (text: String)
        ensures
            text@ == phase_name(*self),
    {
        match self {
            Phase::Lobby => "lobby".to_owned(),
            Phase::Cue1 => "cue1".to_owned(),
            Phase::Guess1 => "guess1".to_owned(),
            Phase::Cue2 => "cue2".to_owned(),
            Phase::Guess2 => "guess2".to_owned(),
            Phase::Reveal => "reveal".to_owned(),
        }
    }
}

/// A copy of an optional text.
pub fn copy_text(text: &Option<String>) -> (copy: Option<String>)
    ensures
        copy == *text,
{
    match text {
        Some(s) => Some(s.clone()),
        None => None,
    }
}

/// A copy of a list of cells.
pub fn copy_cells(cells: &Vec<usize>) -> (copy: Vec<usize>)
    ensures
        copy@ == cells@,
{
    let mut copy: Vec<usize> = Vec::new();
    let mut i: usize = 0;
    while i < cells.len()
        invariant
            0 <= i <= cells.len(),
            copy@ == cells@.take(i as int),
        decreases cells.len() - i,
    {
        copy.push(cells[i]);
        i = i + 1;
        assert(copy@ =~= cells@.take(i as int));
    }
    assert(cells@.take(cells.len() as int) =~= cells@);
    copy
}

/// A copy of a list of guesses.
pub fn copy_guesses(guesses: &Vec<(u128, usize)>) -> (copy: Vec<(u128, usize)>)
    ensures
        copy@ == guesses@,
{
    let mut copy: Vec<(u128, usize)> = Vec::new();
    let mut i: usize = 0;
    while i < guesses.len()
        invariant
            0 <= i <= guesses.len(),
            copy@ == guesses@.take(i as int),
        decreases guesses.len() - i,
    {
        copy.push(guesses[i]);
        i = i + 1;
        assert(copy@ =~= guesses@.take(i as int));
    }
    assert(guesses@.take(guesses.len() as int) =~= guesses@);
    copy
}

/// The identities of a set, each once, in the order in which the set is
/// walked.
pub fn list_ids(ids: &HashSet<u128>) -> (list: Vec<u128>)
    ensures
        list@.no_duplicates(),
        list@.to_set() == ids@,
{
    broadcast use vstd::std_specs::hash::group_hash_axioms;

    let mut list: Vec<u128> = Vec::new();
    let ghost walked = ids.iter().remaining();
    for id in it: ids.iter()
        invariant
            it.seq() == walked,
            list@.len() == it.index(),
            forall|j: int| 0 <= j < list@.len() ==> list@[j] == *walked[j],
    {
        list.push(*id);
    }
    proof {
        assert(list@ =~= walked.unref());
    }
    list
}

/// A copy of a set of identities.
pub fn copy_ids(ids: &HashSet<u128>) -> (copy: HashSet<u128>)
    ensures
        copy@ == ids@,
{
    broadcast use vstd::std_specs::hash::group_hash_axioms;

    let list = list_ids(ids);
    let mut copy: HashSet<u128> = HashSet::new();
    let mut i: usize = 0;
    while i < list.len()
        invariant
            0 <= i <= list.len(),
            copy@ == list@.take(i as int).to_set(),
        decreases list.len() - i,
    {
        copy.insert(list[i]);
        i = i + 1;
        proof {
            let before = list@.take(i - 1);
            let now = list@.take(i as int);
            assert(now =~= before.push(list@[i - 1]));
            assert forall|x: u128| now.to_set().contains(x) <==> before.to_set().insert(
                list@[i - 1],
            ).contains(x) by {
                if now.contains(x) {
                    let k = choose|k: int| 0 <= k < now.len() && now[k] == x;
                    if k < i - 1 {
                        assert(before[k] == x);
                    }
                }
                if before.contains(x) {
                    let k = choose|k: int| 0 <= k < before.len() && before[k] == x;
                    assert(now[k] == x);
                }
                assert(now[i - 1] == list@[i - 1]);
            }
            assert(copy@ =~= now.to_set());
        }
    }
    assert(list@.take(list.len() as int) =~= list@);
    copy
}

/// The entries of a guess map, each once, in the order in which the map is
/// walked.
pub fn list_guesses(guesses: &HashMap<u128, usize>) -> (list: Vec<(u128, usize)>)
    ensures
        lists_guesses(list@, guesses@),
{
    broadcast use vstd::std_specs::hash::group_hash_axioms;

    let mut list: Vec<(u128, usize)> = Vec::new();
    let ghost walked = guesses.iter().remaining();
    for entry in it: guesses.iter()
        invariant
            it.seq() == walked,
            list@.len() == it.index(),
            forall|j: int|
                0 <= j < list@.len() ==> list@[j] == (*walked[j].0, *walked[j].1),
    {
        let (id, cell) = entry;
        list.push((*id, *cell));
    }
    proof {
        assert(list@ =~= walked.unref());
    }
    list
}

/// The players of a room as a snapshot shows them.
pub fn list_players(players: &Vec<Player>) -> (list: Vec<PlayerDto>)
    ensures
        dtos_view(list@) == players_view(players@),
{
    let mut list: Vec<PlayerDto> = Vec::new();
    let mut i: usize = 0;
    while i < players.len()
        invariant
            0 <= i <= players.len(),
            list@.len() == i,
            forall|j: int| 0 <= j < i ==> (#[trigger] list@[j])@ == players@[j]@,
        decreases players.len() - i,
    {
        let p = &players[i];
        list.push(PlayerDto { id: p.id, name: p.name.clone(), score: p.score });
        i = i + 1;
    }
    assert(dtos_view(list@) =~= players_view(players@));
    list
}

/// The snapshot of a room. The target is shown only at the reveal; the
/// candidate targets are shown whenever there are any.
pub fn snapshot(room: &RoomState) -> (state: GameStateDto)
    ensures
        state.shows(room@),
{
    let target = match room.phase {
        Phase::Reveal => room.target,
        _ => None,
    };
    let select_options = match &room.select_options {
        Some(options) => Some(copy_cells(options)),
        None => None,
    };
    let guesses2 = list_guesses(&room.guess2_cells);
    let last_guesses = copy_guesses(&guesses2);
    GameStateDto {
        room: room.name.clone(),
        round: room.round,
        cols: room.cols,
        rows: room.rows,
        cue_giver: room.cue_giver(),
        phase: room.phase.name(),
        cue1: copy_text(&room.cue1),
        cue2: copy_text(&room.cue2),
        target,
        select_options,
        players: list_players(&room.players),
        guessed_once: copy_ids(&room.guessed_once),
        guessed_twice: copy_ids(&room.guessed_twice),
        guesses1: list_guesses(&room.guess1_cells),
        guesses2,
        last_guesses,
    }
}

/// The report of input that could not be decoded, for the connection that
/// sent it.
pub fn decode_failure(conn: u128, detail: &str) -> (report: Delivery)
    ensures
        report.is_decode_error(conn, detail@),
{
    let mut message = "bad json: ".to_owned();
    message.append(detail);
    let mut to: Vec<u128> = Vec::new();
    to.push(conn);
    assert(to@ =~= seq![conn]);
    Delivery { to, msg: ServerMsg::Error { message } }
}

/// A snapshot shows the target at the reveal and at no other time: whatever
/// the room holds, a snapshot of a room in any other phase has no target.
pub proof fn lemma_target_shown_only_at_reveal(state: GameStateDto, room: RoomView)
    requires
        state.shows(room),
    ensures
        room.phase != Phase::Reveal ==> state.target is None,
        room.phase == Phase::Reveal ==> state.target == room.target,
        state.target is Some ==> room.phase == Phase::Reveal,
{
}

} // verus!
