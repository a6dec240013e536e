//! The session hub: all rooms and all connections in one place. Every
//! change to a room goes through the hub, and every change is answered with
//! the messages to send: the hub itself sends nothing.

use vstd::prelude::*;
use vstd::std_specs::iter::IteratorSpec;
use std::collections::HashMap;
use std::collections::HashSet;
use crate::hub_model::HubView;
use crate::hub_model::default_name;
use crate::hub_model::holds_room;
use crate::hub_model::is_random_id;
use crate::hub_model::lemma_hub_connections_keep_wf;
use crate::hub_model::lemma_joined;
use crate::hub_model::lemma_left;
use crate::hub_model::lemma_index_of;
use crate::hub_model::lemma_with_room;
use crate::draw::rand_index;
use crate::draw::rand_unique_indices;
use crate::model::CANDIDATES;
use crate::model::Command;
use crate::model::DrawView;
use crate::model::Phase;
use crate::model::RoomView;
use crate::model::lemma_room_keeps_its_name;
use crate::model::phase_name;
use crate::protocol::ClientMsg;
use crate::protocol::PlayerDto;
use crate::protocol::dtos_view;
use crate::protocol::list_players;
use crate::protocol::Delivery;
use crate::protocol::Draw;
use crate::protocol::ServerMsg;
use crate::protocol::snapshot;
use crate::room::RoomState;
use crate::room::default_room;
use crate::room::text_view;

verus! {

/// The hub.
#[derive(Debug)]
pub struct WsHub {
    /// The rooms, oldest first; no two of the same name.
    pub rooms: Vec<RoomState>,
    /// For each connection that has joined: the name of its room and the
    /// identity of its player.
    pub conns: HashMap<u128, (String, u128)>,
    /// The connections that can be sent to.
    pub open: HashSet<u128>,
}

/// One room in the hub's report of itself.
#[derive(Debug)]
pub struct RoomSummary {
    pub name: String,
    pub round: u32,
    pub phase: String,
    pub players: Vec<PlayerDto>,
}

/// The hub's report of itself: its rooms, oldest first, and the number of
/// connections that have joined a room.
#[derive(Debug)]
pub struct DebugState {
    pub rooms: Vec<RoomSummary>,
    pub conns: usize,
}

impl RoomSummary {
    /// The summary shows `room`: its name, round, phase and players.
    pub open spec fn shows(self, room: RoomView) -> bool {
        &&& self.name@ == room.name
        &&& self.round == room.round
        &&& self.phase@ == phase_name(room.phase)
        &&& dtos_view(self.players@) == room.players
    }
}

/// The rooms of a list as the model sees them.
pub open spec fn rooms_view(rooms: Seq<RoomState>) -> Seq<RoomView> {
    rooms.map_values(|r: RoomState| r@)
}

/// What a connection stands for, as the model sees it.
pub open spec fn binding_view(binding: (String, u128)) -> (Seq<char>, u128) {
    (binding.0@, binding.1)
}

impl View for WsHub {
    type V = HubView;

    open spec fn view(&self) -> HubView {
        HubView {
            rooms: rooms_view(self.rooms@),
            conns: self.conns@.map_values(|b: (String, u128)| binding_view(b)),
            open: self.open@,
        }
    }
}

/// `Uuid::new_v4` makes a random identifier, and `as_u128` hands it out as a
/// number. All that is known of the number is what marks the identifier as a
/// random one: the version is 4 and the variant is the standard one.
#[verifier::external_body]
fn new_player_id() -> (id: u128)
    ensures
        is_random_id(id),
{
    uuid::Uuid::new_v4().as_u128()
}

/// Whether a command is answered with a welcome: a `Join` from a connection
/// that is open.
pub open spec fn greets(pre: HubView, conn: u128, cmd: Command) -> bool {
    cmd is Join && pre.open.contains(conn)
}

/// What the hub sends after a command that took it from `pre` to `post`: a
/// welcome to the connection that joined, if it is open; then, if the join
/// took the connection's earlier player out of another room, the new state
/// of that room to its members; and then the new state of the room that the
/// command was about, to the members of that room. A command that is about no
/// room is answered with nothing.
pub open spec fn answers(
    out: Seq<Delivery>,
    pre: HubView,
    post: HubView,
    conn: u128,
    cmd: Command,
    admin_secret: Seq<char>,
    draw: DrawView,
) -> bool {
    let told = pre.told_room(conn, cmd, admin_secret);
    let tells = told is Some && post.has_room(told->0);
    let vacated = pre.vacated_room(conn, cmd);
    let vacates = vacated is Some && post.has_room(vacated->0);
    let first = if greets(pre, conn, cmd) {
        1int
    } else {
        0int
    };
    &&& out.len() == first + (if vacates {
        1int
    } else {
        0int
    }) + (if tells {
        1int
    } else {
        0int
    })
    &&& greets(pre, conn, cmd) ==> out[0].is_welcome(conn, draw.player_id, told->0)
    &&& vacates ==> out[first].is_state_of(post.room(vacated->0), post.members(vacated->0))
    &&& tells ==> out[out.len() - 1].is_state_of(post.room(told->0), post.members(told->0))
}

/// What the hub sends about the room named `name`: its state to its members,
/// or nothing if there is no such room.
pub open spec fn tells_room(out: Seq<Delivery>, hub: HubView, name: Seq<char>) -> bool {
    if hub.has_room(name) {
        out.len() == 1 && out[0].is_state_of(hub.room(name), hub.members(name))
    } else {
        out.len() == 0
    }
}

/// Nothing that the hub sends after a command shows a target, unless the
/// room that the message speaks of is at the reveal; then it shows the target
/// of that room.
pub proof fn lemma_answers_show_no_target_before_reveal(
    out: Seq<Delivery>,
    pre: HubView,
    post: HubView,
    conn: u128,
    cmd: Command,
    admin_secret: Seq<char>,
    draw: DrawView,
    i: int,
)
    requires
        answers(out, pre, post, conn, cmd, admin_secret, draw),
        0 <= i < out.len(),
        out[i].msg is State,
        out[i].msg->state.target is Some,
    ensures
        (pre.told_room(conn, cmd, admin_secret) is Some && post.room(
            pre.told_room(conn, cmd, admin_secret)->0,
        ).phase == Phase::Reveal && out[i].msg->state.target == post.room(
            pre.told_room(conn, cmd, admin_secret)->0,
        ).target) || (pre.vacated_room(conn, cmd) is Some && post.room(
            pre.vacated_room(conn, cmd)->0,
        ).phase == Phase::Reveal && out[i].msg->state.target == post.room(
            pre.vacated_room(conn, cmd)->0,
        ).target),
{
}

/// The state that is sent of a room at the reveal shows the target that the
/// round was scored against: the room has one, it is a cell of the room's
/// grid, and every member is shown the same.
pub proof fn lemma_reveal_state_shows_the_target(delivery: Delivery, hub: HubView, name: Seq<char>)
    requires
        hub.wf(),
        hub.has_room(name),
        hub.room(name).phase == Phase::Reveal,
        delivery.is_state_of(hub.room(name), hub.members(name)),
    ensures
        delivery.msg is State,
        delivery.msg->state.target is Some,
        delivery.msg->state.target == hub.room(name).target,
        delivery.msg->state.target->0 < hub.room(name).cells(),
{
    let k = hub.index_of(name);
    assert(hub.names_room(k, name));
    assert(hub.rooms[k].wf());
}

/// Replacing the room at position `i` by a well-formed room of the same name
/// is storing that room under its name.
pub proof fn lemma_replaced_at(pre: HubView, post: HubView, i: int, room: RoomView)
    requires
        pre.wf(),
        room.wf(),
        0 <= i < pre.rooms.len(),
        pre.rooms[i].name == room.name,
        post == (HubView { rooms: pre.rooms.update(i, room), ..pre }),
    ensures
        post == pre.with_room(room),
        post.wf(),
        pre.room(room.name) == pre.rooms[i],
{
    lemma_index_of(pre, i);
    lemma_with_room(pre, room);
}

impl Default for WsHub {
    /// The hub with no room and no connection.
    fn default() -> (hub: WsHub)
        ensures
            hub@ == HubView::empty(),
            hub@.wf(),
    {
        WsHub::new()
    }
}

impl WsHub {
    /// A hub with no room and no connection.
    pub fn new() -> (hub: WsHub)
        ensures
            hub@ == HubView::empty(),
            hub@.wf(),
    {
        let hub = WsHub { rooms: Vec::new(), conns: HashMap::new(), open: HashSet::new() };
        proof {
            assert(hub@.rooms =~= Seq::<RoomView>::empty());
            assert(hub@.conns =~= Map::<u128, (Seq<char>, u128)>::empty());
            assert(hub@ =~= HubView::empty());
        }
        hub
    }

    /// A hub that holds the default room and nothing else.
    pub fn with_default_room() -> (hub: WsHub)
        ensures
            hub@.rooms == seq![RoomView::fresh(default_name())],
            hub@.conns == Map::<u128, (Seq<char>, u128)>::empty(),
            hub@.open == Set::<u128>::empty(),
            hub@.wf(),
    {
        let mut hub = WsHub::new();
        hub.rooms.push(default_room());
        proof {
            assert(hub@.rooms =~= seq![RoomView::fresh(default_name())]);
            assert(hub@.conns =~= Map::<u128, (Seq<char>, u128)>::empty());
        }
        hub
    }

    /// The hub's report of itself.
    pub fn debug_state(&self) -> (report: DebugState)
        ensures
            report.conns == self@.conns.len(),
            report.rooms@.len() == self@.rooms.len(),
            forall|i: int|
                0 <= i < report.rooms@.len() ==> (#[trigger] report.rooms@[i]).shows(
                    self@.rooms[i],
                ),
    {
        broadcast use vstd::std_specs::hash::group_hash_axioms;

        let mut rooms: Vec<RoomSummary> = Vec::new();
        let mut i: usize = 0;
        while i < self.rooms.len()
            invariant
                0 <= i <= self.rooms.len(),
                rooms@.len() == i,
                forall|j: int| 0 <= j < i ==> (#[trigger] rooms@[j]).shows(self@.rooms[j]),
            decreases self.rooms.len() - i,
        {
            let room = &self.rooms[i];
            rooms.push(
                RoomSummary {
                    name: room.name.clone(),
                    round: room.round,
                    phase: room.phase.name(),
                    players: list_players(&room.players),
                },
            );
            i = i + 1;
        }
        proof {
            assert(self@.conns.dom() =~= self.conns@.dom());
        }
        DebugState { rooms, conns: self.conns.len() }
    }

    /// Registers an open connection: it can be sent to from now on.
    pub fn connect(&mut self, conn: u128)
        requires
            old(self)@.wf(),
        ensures
            final(self)@ == old(self)@.opened(conn),
            final(self)@.wf(),
    {
        broadcast use vstd::std_specs::hash::group_hash_axioms;

        self.open.insert(conn);
        proof {
            assert(self@ =~= old(self)@.opened(conn));
        }
    }

    /// Whether the hub satisfies the hub invariant.
    pub fn is_well_formed(&self) -> (ok: bool)
        ensures
            ok == self@.wf(),
    {
        broadcast use vstd::std_specs::hash::group_hash_axioms;

        let mut i: usize = 0;
        while i < self.rooms.len()
            invariant
                0 <= i <= self.rooms.len(),
                forall|a: int| 0 <= a < i ==> (#[trigger] self@.rooms[a]).wf(),
                forall|a: int, b: int|
                    0 <= a < b < self.rooms.len() && a < i ==> (#[trigger] self@.rooms[a]).name != (
                    #[trigger] self@.rooms[b]).name,
            decreases self.rooms.len() - i,
        {
            if !self.rooms[i].is_well_formed() {
                assert(!self@.rooms[i as int].wf());
                return false;
            }
            let mut j: usize = i + 1;
            while j < self.rooms.len()
                invariant
                    0 <= i < j <= self.rooms.len(),
                    forall|b: int| i < b < j ==> self@.rooms[i as int].name != (
                    #[trigger] self@.rooms[b]).name,
                decreases self.rooms.len() - j,
            {
                if self.rooms[i].name == self.rooms[j].name {
                    assert(self@.rooms[i as int].name == self@.rooms[j as int].name);
                    return false;
                }
                j = j + 1;
            }
            i = i + 1;
        }
        let ghost walked = self.conns.iter().remaining();
        for entry in it: self.conns.iter()
            invariant
                it.seq() == walked,
                forall|k: int|
                    0 <= k < it.index() ==> self@.has_room((*(#[trigger] walked[k]).1).0@),
        {
            let (conn, binding) = entry;
            if self.find_room(&binding.0).is_none() {
                proof {
                    let k = it.index() as int;
                    assert(self.conns@.contains_key(*walked[k].0) && self.conns@[*walked[k].0]
                        == *walked[k].1);
                    assert(self@.conns.contains_key(*conn));
                    assert(!self@.has_room(self@.conns[*conn].0));
                }
                return false;
            }
        }
        proof {
            assert forall|c: u128| #[trigger] self@.conns.contains_key(c) implies self@.has_room(
                self@.conns[c].0,
            ) by {
                let m = self.conns@;
                assert(m.contains_key(c));
                assert(walked.contains((&c, &m[c])));
                let k = choose|k: int| 0 <= k < walked.len() && walked[k] == (&c, &m[c]);
                assert(self@.has_room((*walked[k].1).0@));
            }
        }
        true
    }

    /// The position of the room named `name`, if there is one.
    pub fn find_room(&self, name: &String) -> (found: Option<usize>)
        ensures
            match found {
                Some(i) => self@.names_room(i as int, name@),
                None => !self@.has_room(name@),
            },
            self@.wf() && found is Some ==> self@.index_of(name@) == found->0,
    {
        let mut i: usize = 0;
        while i < self.rooms.len()
            invariant
                0 <= i <= self.rooms.len(),
                forall|j: int| 0 <= j < i ==> !holds_room(self@.rooms, j, name@),
            decreases self.rooms.len() - i,
        {
            if self.rooms[i].name == *name {
                proof {
                    if self@.wf() {
                        lemma_index_of(self@, i as int);
                    }
                }
                return Some(i);
            }
            i = i + 1;
        }
        None
    }

    /// The connections that receive the state of the room named `name`, each
    /// once: those that joined it and are open.
    pub fn members_of(&self, name: &String) -> (list: Vec<u128>)
        ensures
            list@.no_duplicates(),
            list@.to_set() == self@.members(name@),
    {
        broadcast use vstd::std_specs::hash::group_hash_axioms;

        let mut list: Vec<u128> = Vec::new();
        let ghost walked = self.conns.iter().remaining();
        let ghost mut from: Seq<int> = Seq::empty();
        for entry in it: self.conns.iter()
            invariant
                it.seq() == walked,
                from.len() == list@.len(),
                forall|j: int|
                    0 <= j < from.len() ==> 0 <= #[trigger] from[j] < it.index() && list@[j]
                        == *walked[from[j]].0,
                forall|a: int, b: int| 0 <= a < b < from.len() ==> from[a] < from[b],
                forall|j: int|
                    0 <= j < from.len() ==> (*walked[#[trigger] from[j]].1).0@ == name@
                        && self.open@.contains(*walked[from[j]].0),
                forall|k: int|
                    0 <= k < it.index() && (*(#[trigger] walked[k]).1).0@ == name@
                        && self.open@.contains(*walked[k].0) ==> exists|j: int|
                        0 <= j < from.len() && from[j] == k,
        {
            let (cid, binding) = entry;
            if binding.0 == *name && self.open.contains(cid) {
                list.push(*cid);
                proof {
                    let ghost here = it.index() as int;
                    let ghost earlier = from;
                    from = from.push(here);
                    assert(from[earlier.len() as int] == here);
                    assert forall|k: int|
                        0 <= k < it.index() + 1 && (*(#[trigger] walked[k]).1).0@ == name@
                            && self.open@.contains(*walked[k].0) implies exists|j: int|
                        0 <= j < from.len() && from[j] == k by {
                        if k < here {
                            let j = choose|j: int| 0 <= j < earlier.len() && earlier[j] == k;
                            assert(from[j] == k);
                        }
                    }
                }
            }
        }
        proof {
            let m = self.conns@;
            assert forall|a: int, b: int| 0 <= a < list@.len() && 0 <= b < list@.len() && a
                != b implies list@[a] != list@[b] by {
                if list@[a] == list@[b] {
                    let ka = from[a];
                    let kb = from[b];
                    assert(ka != kb) by {
                        if a < b {
                            assert(from[a] < from[b]);
                        } else {
                            assert(from[b] < from[a]);
                        }
                    }
                    assert(m.contains_key(*walked[ka].0) && m[*walked[ka].0] == *walked[ka].1);
                    assert(m.contains_key(*walked[kb].0) && m[*walked[kb].0] == *walked[kb].1);
                    assert(walked[ka] == walked[kb]);
                }
            }
            assert forall|c: u128| list@.to_set().contains(c) <==> self@.members(name@).contains(
                c,
            ) by {
                if list@.to_set().contains(c) {
                    let j = choose|j: int| 0 <= j < list@.len() && list@[j] == c;
                    let k = from[j];
                    assert(m.contains_key(*walked[k].0) && m[*walked[k].0] == *walked[k].1);
                }
                if self@.members(name@).contains(c) {
                    assert(m.contains_key(c));
                    assert(walked.contains((&c, &m[c])));
                    let k = choose|k: int| 0 <= k < walked.len() && walked[k] == (&c, &m[c]);
                    assert((*walked[k].1).0@ == name@);
                    let j = choose|j: int| 0 <= j < from.len() && from[j] == k;
                    assert(list@[j] == c);
                }
            }
            assert(list@.to_set() =~= self@.members(name@));
        }
        list
    }

    /// The state message for the room named `room_name` and the connections
    /// it goes to; nothing if there is no such room.
    pub fn broadcast_state(&self, room_name: &String) -> (sent: Option<Delivery>)
        requires
            self@.wf(),
        ensures
            match sent {
                Some(delivery) => self@.has_room(room_name@) && delivery.is_state_of(
                    self@.room(room_name@),
                    self@.members(room_name@),
                ),
                None => !self@.has_room(room_name@),
            },
    {
        match self.find_room(room_name) {
            Some(i) => {
                let state = snapshot(&self.rooms[i]);
                let to = self.members_of(room_name);
                Some(Delivery { to, msg: ServerMsg::State { state } })
            },
            None => None,
        }
    }

    /// The message list that tells the room named `room_name` its state.
    fn tell(&self, room_name: &String) -> (out: Vec<Delivery>)
        requires
            self@.wf(),
        ensures
            tells_room(out@, self@, room_name@),
    {
        let mut out: Vec<Delivery> = Vec::new();
        match self.broadcast_state(room_name) {
            Some(delivery) => {
                out.push(delivery);
            },
            None => {},
        }
        out
    }

    /// What the connection stands for, if it has joined: a copy of the name
    /// of its room, and the identity of its player.
    pub fn binding_of(&self, conn: u128) -> (binding: Option<(String, u128)>)
        ensures
            match binding {
                Some(b) => self@.conns.contains_key(conn) && self@.conns[conn] == binding_view(b),
                None => !self@.conns.contains_key(conn),
            },
    {
        broadcast use vstd::std_specs::hash::group_hash_axioms;

        match self.conns.get(&conn) {
            Some(b) => Some((b.0.clone(), b.1)),
            None => None,
        }
    }

    /// Takes the player of `conn` out of its room, with the connection still
    /// standing for that player, and returns a copy of the room's name; does
    /// nothing for a connection that has not joined.
    pub fn leave(&mut self, conn: u128) -> (vacated: Option<String>)
        requires
            old(self)@.wf(),
        ensures
            final(self)@ == old(self)@.left(conn),
            final(self)@.wf(),
            match vacated {
                Some(name) => old(self)@.conns.contains_key(conn) && name@ == old(
                    self,
                )@.conns[conn].0 && final(self)@.has_room(name@),
                None => !old(self)@.conns.contains_key(conn),
            },
    {
        proof {
            lemma_left(old(self)@, conn, default_name());
        }
        match self.binding_of(conn) {
            Some((room_name, player)) => {
                proof {
                    lemma_left(old(self)@, conn, room_name@);
                }
                match self.find_room(&room_name) {
                    Some(i) => {
                        self.rooms[i].remove_player(player);
                        proof {
                            let room = self.rooms@[i as int]@;
                            assert(self@.rooms =~= old(self)@.rooms.update(i as int, room));
                            assert(self@.conns =~= old(self)@.conns);
                            lemma_replaced_at(old(self)@, self@, i as int, room);
                        }
                    },
                    None => {
                        assert(old(self)@.has_room(room_name@));
                        assert(false);
                    },
                }
                Some(room_name)
            },
            None => None,
        }
    }

    /// Closes a connection: if it had joined, its player leaves the room and
    /// the room is told; the connection stands for nobody and can no longer be
    /// sent to.
    pub fn disconnect(&mut self, conn: u128) -> (out: Vec<Delivery>)
        requires
            old(self)@.wf(),
        ensures
            final(self)@ == old(self)@.closed(conn),
            final(self)@.wf(),
            old(self)@.conns.contains_key(conn) ==> tells_room(
                out@,
                final(self)@,
                old(self)@.conns[conn].0,
            ) && final(self)@.has_room(old(self)@.conns[conn].0),
            !old(self)@.conns.contains_key(conn) ==> out@.len() == 0,
    {
        broadcast use vstd::std_specs::hash::group_hash_axioms;

        let vacated = self.leave(conn);
        self.open.remove(&conn);
        self.conns.remove(&conn);
        proof {
            assert(self@.conns =~= old(self)@.conns.remove(conn));
            assert(self@ =~= old(self)@.closed(conn));
            lemma_hub_connections_keep_wf(old(self)@, conn);
        }
        match vacated {
            Some(room_name) => self.tell(&room_name),
            None => Vec::new(),
        }
    }

    /// `Join` with the identity of the new player given: the player that the
    /// connection stood for until now, if any, leaves its room; the new player
    /// comes into the room asked for, or into the default room; a room that
    /// does not exist yet is created. The connection, if open, is welcomed;
    /// the room left, if it is another than the room joined, is told; and the
    /// room joined is told.
    pub fn join_as(&mut self, conn: u128, name: String, room: Option<String>, id: u128) -> (out:
        Vec<Delivery>)
        requires
            old(self)@.wf(),
        ensures
            final(self)@ == old(self)@.joined(conn, name@, text_view(room), id),
            final(self)@.wf(),
            answers(
                out@,
                old(self)@,
                final(self)@,
                conn,
                (Command::Join { name: name@, room: text_view(room) }),
                Seq::empty(),
                (DrawView { player_id: id, options: Seq::empty(), fallback: 0 }),
            ),
    {
        broadcast use vstd::std_specs::hash::group_hash_axioms;

        let room_name = match room {
            Some(asked) => asked,
            None => "default".to_owned(),
        };
        let vacated = self.leave(conn);
        let ghost emptied = self@;
        let ghost entered = emptied.room_to_join(room_name@).joined(id, name@);
        let at: usize = match self.find_room(&room_name) {
            Some(i) => {
                proof {
                    lemma_index_of(self@, i as int);
                }
                i
            },
            None => {
                self.rooms.push(RoomState::new(room_name.clone()));
                self.rooms.len() - 1
            },
        };
        self.rooms[at].join(id, name);
        proof {
            lemma_with_room(emptied, entered);
            assert(self@.rooms =~= emptied.with_room(entered).rooms);
        }
        self.conns.insert(conn, (room_name.clone(), id));
        proof {
            assert(self@.conns =~= old(self)@.conns.insert(conn, (room_name@, id)));
            assert(self@ =~= old(self)@.joined(conn, name@, text_view(room), id));
            lemma_joined(old(self)@, conn, name@, text_view(room), id, room_name@);
            if vacated is Some {
                lemma_joined(old(self)@, conn, name@, text_view(room), id, vacated->0@);
            }
        }
        let mut out: Vec<Delivery> = Vec::new();
        if self.open.contains(&conn) {
            let mut to: Vec<u128> = Vec::new();
            to.push(conn);
            assert(to@ =~= seq![conn]);
            out.push(Delivery { to, msg: ServerMsg::Welcome { id, room: room_name.clone() } });
        }
        match vacated {
            Some(earlier) => {
                if earlier != room_name {
                    match self.broadcast_state(&earlier) {
                        Some(delivery) => {
                            out.push(delivery);
                        },
                        None => {},
                    }
                }
            },
            None => {},
        }
        match self.broadcast_state(&room_name) {
            Some(delivery) => {
                out.push(delivery);
            },
            None => {},
        }
        out
    }

    /// Resets the default room if `secret` is the administrator's, and tells
    /// the room. With any other secret nothing happens and nothing is
    /// returned.
    pub fn admin_reset(&mut self, secret: &String, admin_secret: &String) -> (sent: Option<
        Vec<Delivery>,
    >)
        requires
            old(self)@.wf(),
        ensures
            final(self)@.wf(),
            sent is Some <==> secret@ == admin_secret@,
            sent is None ==> final(self)@ == old(self)@,
            sent is Some ==> final(self)@ == old(self)@.default_reset() && tells_room(
                sent->0@,
                final(self)@,
                default_name(),
            ),
    {
        if *secret != *admin_secret {
            return None;
        }
        let room_name = "default".to_owned();
        match self.find_room(&room_name) {
            Some(i) => {
                self.rooms[i].reset();
                proof {
                    let room = self.rooms@[i as int]@;
                    assert(self@.rooms =~= old(self)@.rooms.update(i as int, room));
                    assert(self@.conns =~= old(self)@.conns);
                    lemma_replaced_at(old(self)@, self@, i as int, room);
                }
            },
            None => {},
        }
        Some(self.tell(&room_name))
    }

    /// Removes `player` from the default room if `secret` is the
    /// administrator's, and tells the room. With any other secret nothing
    /// happens and nothing is returned.
    pub fn admin_kick(&mut self, secret: &String, admin_secret: &String, player: u128) -> (sent:
        Option<Vec<Delivery>>)
        requires
            old(self)@.wf(),
        ensures
            final(self)@.wf(),
            sent is Some <==> secret@ == admin_secret@,
            sent is None ==> final(self)@ == old(self)@,
            sent is Some ==> final(self)@ == old(self)@.default_kicked(player) && tells_room(
                sent->0@,
                final(self)@,
                default_name(),
            ),
    {
        if *secret != *admin_secret {
            return None;
        }
        let room_name = "default".to_owned();
        match self.find_room(&room_name) {
            Some(i) => {
                self.rooms[i].remove_player(player);
                proof {
                    let room = self.rooms@[i as int]@;
                    assert(self@.rooms =~= old(self)@.rooms.update(i as int, room));
                    assert(self@.conns =~= old(self)@.conns);
                    lemma_replaced_at(old(self)@, self@, i as int, room);
                }
            },
            None => {},
        }
        Some(self.tell(&room_name))
    }

    /// Applies a command of a connection that has joined to its room, with
    /// what chance contributes given, and tells the room. From a connection
    /// that has not joined, nothing happens.
    pub fn room_command_with(&mut self, conn: u128, cmd: ClientMsg, draw: Draw) -> (out: Vec<
        Delivery,
    >)
        requires
            old(self)@.wf(),
            old(self)@.draw_in_grid(conn, cmd@, draw@),
        ensures
            final(self)@ == old(self)@.room_command(conn, cmd@, draw@),
            final(self)@.wf(),
            old(self)@.conns.contains_key(conn) ==> tells_room(
                out@,
                final(self)@,
                old(self)@.conns[conn].0,
            ),
            !old(self)@.conns.contains_key(conn) ==> out@.len() == 0,
    {
        match self.binding_of(conn) {
            Some((room_name, player)) => {
                match self.find_room(&room_name) {
                    Some(i) => {
                        proof {
                            lemma_index_of(self@, i as int);
                        }
                        self.rooms[i].apply_with(player, cmd, draw);
                        proof {
                            let room = self.rooms@[i as int]@;
                            assert(self@.rooms =~= old(self)@.rooms.update(i as int, room));
                            assert(self@.conns =~= old(self)@.conns);
                            lemma_room_keeps_its_name(
                                old(self)@.rooms[i as int],
                                player,
                                cmd@,
                                draw@,
                                Seq::empty(),
                            );
                            lemma_replaced_at(old(self)@, self@, i as int, room);
                        }
                    },
                    None => {},
                }
                self.tell(&room_name)
            },
            None => Vec::new(),
        }
    }

    /// Handles a command from connection `conn`, with what chance
    /// contributes given, and returns the messages to send.
    pub fn handle_with(&mut self, conn: u128, cmd: ClientMsg, admin_secret: &String, draw: Draw) -> (out:
        Vec<Delivery>)
        requires
            old(self)@.wf(),
            old(self)@.draw_in_grid(conn, cmd@, draw@),
        ensures
            final(self)@ == old(self)@.handled(conn, cmd@, admin_secret@, draw@),
            final(self)@.wf(),
            answers(out@, old(self)@, final(self)@, conn, cmd@, admin_secret@, draw@),
    {
        match cmd {
            ClientMsg::Join { name, room } => self.join_as(conn, name, room, draw.player_id),
            ClientMsg::AdminReset { secret } => match self.admin_reset(&secret, admin_secret) {
                Some(out) => out,
                None => Vec::new(),
            },
            ClientMsg::AdminKick { secret, player } => match self.admin_kick(
                &secret,
                admin_secret,
                player,
            ) {
                Some(out) => out,
                None => Vec::new(),
            },
            other => self.room_command_with(conn, other, draw),
        }
    }

    /// The grid of the room of a connection that has joined: its width and
    /// height. The grid has at least one cell, and its cells can be counted
    /// in a `usize`.
    pub fn grid_of(&self, conn: u128) -> (grid: Option<(u32, u32)>)
        requires
            self@.wf(),
        ensures
            match grid {
                Some((cols, rows)) => self@.conns.contains_key(conn) && self@.has_room(
                    self@.conns[conn].0,
                ) && self@.room(self@.conns[conn].0).cols == cols && self@.room(
                    self@.conns[conn].0,
                ).rows == rows && 0 < self@.room(self@.conns[conn].0).cells() <= usize::MAX,
                None => !self@.conns.contains_key(conn),
            },
    {
        match self.binding_of(conn) {
            Some((room_name, player)) => match self.find_room(&room_name) {
                Some(i) => {
                    proof {
                        lemma_index_of(self@, i as int);
                    }
                    Some((self.rooms[i].cols, self.rooms[i].rows))
                },
                None => {
                    assert(false);
                    None
                },
            },
            None => None,
        }
    }

    /// Draws what chance contributes to a command: a fresh identity for a
    /// player who joins, candidate targets for a new round, a target to fall
    /// back on for a guess.
    pub fn draw_for(&self, conn: u128, cmd: &ClientMsg) -> (draw: Draw)
        requires
            self@.wf(),
        ensures
            self@.draw_fits(conn, cmd@, draw@),
    {
        let mut draw = Draw { player_id: 0, options: Vec::new(), fallback: 0 };
        match cmd {
            ClientMsg::Join { .. } => {
                draw.player_id = new_player_id();
            },
            ClientMsg::StartGame | ClientMsg::NextRound => {
                match self.grid_of(conn) {
                    Some((cols, rows)) => {
                        draw.options = rand_unique_indices(cols, rows, CANDIDATES);
                    },
                    None => {},
                }
            },
            ClientMsg::Guess { .. } => {
                match self.grid_of(conn) {
                    Some((cols, rows)) => {
                        draw.fallback = rand_index(cols, rows);
                    },
                    None => {},
                }
            },
            _ => {},
        }
        draw
    }

    /// Handles a command from connection `conn` and returns the messages to
    /// send. Whatever chance contributes is drawn here.
    pub fn handle_client_msg(&mut self, conn: u128, cmd: ClientMsg, admin_secret: &String) -> (out:
        Vec<Delivery>)
        requires
            old(self)@.wf(),
        ensures
            final(self)@.wf(),
            exists|draw: DrawView|
                old(self)@.draw_fits(conn, cmd@, draw) && final(self)@ == #[trigger] old(
                    self,
                )@.handled(conn, cmd@, admin_secret@, draw) && answers(
                    out@,
                    old(self)@,
                    final(self)@,
                    conn,
                    cmd@,
                    admin_secret@,
                    draw,
                ),
    {
        let draw = self.draw_for(conn, &cmd);
        self.handle_with(conn, cmd, admin_secret, draw)
    }
}

} // verus!
