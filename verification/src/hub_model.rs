//! The mathematical model of the hub: the rooms, the connections that are
//! open, and which player in which room each connection stands for.
//!
//! Rooms are kept in the order in which they were created and are never
//! removed, so a room keeps its place for good.

use vstd::prelude::*;
use crate::model::Command;
use crate::model::Phase;
use crate::model::DrawView;
use crate::model::PlayerView;
use crate::model::RoomView;
use crate::model::lemma_departed_player_does_not_count;
use crate::model::lemma_fresh_wf;
use crate::model::lemma_reveal_exits;
use crate::model::lemma_reveal_needs_every_guess;
use crate::model::lemma_room_keeps_its_name;
use crate::model::lemma_room_membership_keeps_wf;
use crate::model::lemma_room_steps_keep_wf;

verus! {

/// The state of the hub.
#[verifier::ext_equal]
pub struct HubView {
    /// The rooms, oldest first.
    pub rooms: Seq<RoomView>,
    /// For each connection that has joined: the name of its room and the
    /// identity of its player.
    pub conns: Map<u128, (Seq<char>, u128)>,
    /// The connections that can be sent to.
    pub open: Set<u128>,
}

/// The name of the room that a client joins when it names none, and on which
/// the administrative commands act.
pub open spec fn default_name() -> Seq<char> {
    "default"@
}

/// The room named by a `Join`: the one asked for, or the default room.
pub open spec fn room_or_default(room: Option<Seq<char>>) -> Seq<char> {
    match room {
        Some(name) => name,
        None => default_name(),
    }
}

/// Whether the room at position `i` of `rooms` is the one named `name`.
pub open spec fn holds_room(rooms: Seq<RoomView>, i: int, name: Seq<char>) -> bool {
    0 <= i < rooms.len() && rooms[i].name == name
}

/// Whether `rooms` holds a room named `name`.
pub open spec fn room_exists(rooms: Seq<RoomView>, name: Seq<char>) -> bool {
    exists|i: int| holds_room(rooms, i, name)
}

/// The position in `rooms` of a room named `name`.
pub open spec fn room_index(rooms: Seq<RoomView>, name: Seq<char>) -> int {
    choose|i: int| holds_room(rooms, i, name)
}

/// Whether `id` is marked as a random identifier: version 4, standard variant.
pub open spec fn is_random_id(id: u128) -> bool {
    (id >> 76) & 0xf == 4 && (id >> 62) & 0x3 == 2
}

/// Whether no player of `room` has identity `id`.
pub open spec fn room_lacks(room: RoomView, id: u128) -> bool {
    forall|i: int| 0 <= i < room.players.len() ==> (#[trigger] room.players[i]).id != id
}

impl HubView {
    /// The hub with no room and no connection.
    pub open spec fn empty() -> HubView {
        HubView { rooms: Seq::empty(), conns: Map::empty(), open: Set::empty() }
    }

    /// Whether the room at position `i` is the one named `name`.
    pub open spec fn names_room(self, i: int, name: Seq<char>) -> bool {
        holds_room(self.rooms, i, name)
    }

    /// Whether there is a room named `name`.
    pub open spec fn has_room(self, name: Seq<char>) -> bool {
        room_exists(self.rooms, name)
    }

    /// The position of the room named `name`.
    pub open spec fn index_of(self, name: Seq<char>) -> int {
        room_index(self.rooms, name)
    }

    /// The room named `name`.
    pub open spec fn room(self, name: Seq<char>) -> RoomView {
        self.rooms[self.index_of(name)]
    }

    /// The invariant of the hub: every room satisfies the room invariant, no
    /// two rooms share a name, and every connection that has joined stands in
    /// an existing room.
    pub open spec fn wf(self) -> bool {
        &&& forall|i: int| 0 <= i < self.rooms.len() ==> (#[trigger] self.rooms[i]).wf()
        &&& self.distinct_names()
        &&& forall|c: u128| #[trigger]
            self.conns.contains_key(c) ==> self.has_room(self.conns[c].0)
    }

    /// Whether no two rooms share a name.
    pub open spec fn distinct_names(self) -> bool {
        forall|i: int, j: int|
            0 <= i < j < self.rooms.len() ==> (#[trigger] self.rooms[i]).name != (
            #[trigger] self.rooms[j]).name
    }

    /// Whether no room holds a player of identity `id`.
    pub open spec fn lacks_player(self, id: u128) -> bool {
        forall|k: int| 0 <= k < self.rooms.len() ==> room_lacks(#[trigger] self.rooms[k], id)
    }

    /// Whether no room but the one named `name` holds a player of identity
    /// `id`.
    pub open spec fn only_in(self, id: u128, name: Seq<char>) -> bool {
        forall|k: int|
            0 <= k < self.rooms.len() && (#[trigger] self.rooms[k]).name != name ==> room_lacks(
                self.rooms[k],
                id,
            )
    }

    /// The hub with `room` stored under its own name: in place of the room of
    /// that name, or after all others if there is none.
    pub open spec fn with_room(self, room: RoomView) -> HubView {
        if self.has_room(room.name) {
            HubView { rooms: self.rooms.update(self.index_of(room.name), room), ..self }
        } else {
            HubView { rooms: self.rooms.push(room), ..self }
        }
    }

    /// The connections that receive the state of the room named `name`:
    /// those that joined it and are open.
    pub open spec fn members(self, name: Seq<char>) -> Set<u128> {
        Set::new(
            |c: u128| self.conns.contains_key(c) && self.conns[c].0 == name && self.open.contains(c),
        )
    }

    /// The hub after a connection has been opened.
    pub open spec fn opened(self, conn: u128) -> HubView {
        HubView { open: self.open.insert(conn), ..self }
    }

    /// The hub after the player of `conn` has left its room, with the
    /// connection still standing for that player; unchanged for a connection
    /// that has not joined.
    pub open spec fn left(self, conn: u128) -> HubView {
        if self.conns.contains_key(conn) && self.has_room(self.conns[conn].0) {
            self.with_room(self.room(self.conns[conn].0).without_player(self.conns[conn].1))
        } else {
            self
        }
    }

    /// The hub after a connection has been closed: if it had joined, its
    /// player leaves the room, and the connection stands for nobody and can no
    /// longer be sent to.
    pub open spec fn closed(self, conn: u128) -> HubView {
        let vacated = self.left(conn);
        HubView { open: self.open.remove(conn), conns: self.conns.remove(conn), ..vacated }
    }

    /// The room that a player joining `name` comes into: the room of that
    /// name, or a new one.
    pub open spec fn room_to_join(self, name: Seq<char>) -> RoomView {
        if self.has_room(name) {
            self.room(name)
        } else {
            RoomView::fresh(name)
        }
    }

    /// The hub after `Join`: the player that the connection stood for until
    /// now, if any, leaves its room; the new player is appended to the room
    /// asked for, which is created if need be; and the connection stands for
    /// the new player from now on.
    pub open spec fn joined(
        self,
        conn: u128,
        name: Seq<char>,
        room: Option<Seq<char>>,
        id: u128,
    ) -> HubView {
        let room_name = room_or_default(room);
        let vacated = self.left(conn);
        let entered = vacated.room_to_join(room_name).joined(id, name);
        HubView { conns: self.conns.insert(conn, (room_name, id)), ..vacated.with_room(entered) }
    }

    /// The hub after the default room has been reset; unchanged if there is
    /// no default room.
    pub open spec fn default_reset(self) -> HubView {
        if self.has_room(default_name()) {
            self.with_room(RoomView::fresh(default_name()))
        } else {
            self
        }
    }

    /// The hub after `player` has been removed from the default room;
    /// unchanged if there is no default room.
    pub open spec fn default_kicked(self, player: u128) -> HubView {
        if self.has_room(default_name()) {
            self.with_room(self.room(default_name()).without_player(player))
        } else {
            self
        }
    }

    /// The hub after a command of a connection that has joined has been
    /// applied to its room; unchanged for a connection that has not.
    pub open spec fn room_command(self, conn: u128, cmd: Command, draw: DrawView) -> HubView {
        if self.conns.contains_key(conn) && self.has_room(self.conns[conn].0) {
            self.with_room(self.room(self.conns[conn].0).applied(self.conns[conn].1, cmd, draw))
        } else {
            self
        }
    }

    /// The hub after a command from connection `conn`.
    pub open spec fn handled(
        self,
        conn: u128,
        cmd: Command,
        admin_secret: Seq<char>,
        draw: DrawView,
    ) -> HubView {
        match cmd {
            Command::Join { name, room } => self.joined(conn, name, room, draw.player_id),
            Command::AdminReset { secret } => if secret == admin_secret {
                self.default_reset()
            } else {
                self
            },
            Command::AdminKick { secret, player } => if secret == admin_secret {
                self.default_kicked(player)
            } else {
                self
            },
            _ => self.room_command(conn, cmd, draw),
        }
    }

    /// Whether `draw` holds what the command of `conn` may use: if the
    /// connection has joined a room, the draw fits that room.
    pub open spec fn draw_in_grid(self, conn: u128, cmd: Command, draw: DrawView) -> bool {
        self.conns.contains_key(conn) && self.has_room(self.conns[conn].0) ==> self.room(
            self.conns[conn].0,
        ).draw_fits(cmd, draw)
    }

    /// Whether `draw` is a draw that the hub makes for a command: it fits the
    /// room of the connection, and for a `Join` the identity of the new player
    /// is marked as a random one.
    pub open spec fn draw_fits(self, conn: u128, cmd: Command, draw: DrawView) -> bool {
        &&& self.draw_in_grid(conn, cmd, draw)
        &&& (cmd is Join ==> is_random_id(draw.player_id))
    }

    /// The room that a `Join` takes the connection's earlier player out of, if
    /// it is another room than the one joined. That room is told its state
    /// too.
    pub open spec fn vacated_room(self, conn: u128, cmd: Command) -> Option<Seq<char>> {
        match cmd {
            Command::Join { name, room } => if self.conns.contains_key(conn)
                && self.conns[conn].0 != room_or_default(room) {
                Some(self.conns[conn].0)
            } else {
                None
            },
            _ => None,
        }
    }

    /// The room whose state is sent out after a command, if any: the room
    /// joined, the default room after an administrative command with the
    /// right secret, else the room of the connection.
    pub open spec fn told_room(self, conn: u128, cmd: Command, admin_secret: Seq<char>) -> Option<
        Seq<char>,
    > {
        match cmd {
            Command::Join { name, room } => Some(room_or_default(room)),
            Command::AdminReset { secret } => if secret == admin_secret {
                Some(default_name())
            } else {
                None
            },
            Command::AdminKick { secret, player } => if secret == admin_secret {
                Some(default_name())
            } else {
                None
            },
            _ => if self.conns.contains_key(conn) {
                Some(self.conns[conn].0)
            } else {
                None
            },
        }
    }
}


/// With distinct names, the room at position `i` is the room of its name.
pub proof fn lemma_index_of(hub: HubView, i: int)
    requires
        hub.distinct_names(),
        0 <= i < hub.rooms.len(),
    ensures
        hub.has_room(hub.rooms[i].name),
        hub.index_of(hub.rooms[i].name) == i,
        hub.room(hub.rooms[i].name) == hub.rooms[i],
{
    let name = hub.rooms[i].name;
    assert(hub.names_room(i, name));
    let k = hub.index_of(name);
    assert(hub.names_room(k, name));
    if k < i {
        assert(hub.rooms[k].name != hub.rooms[i].name);
    }
    if i < k {
        assert(hub.rooms[i].name != hub.rooms[k].name);
    }
}

/// Storing a room under its name puts it at one position, that of the room
/// of its name or a new one at the end, and leaves every other position as it
/// was.
pub proof fn lemma_with_room_positions(hub: HubView, room: RoomView) -> (at: int)
    requires
        hub.distinct_names(),
    ensures
        0 <= at <= hub.rooms.len(),
        hub.has_room(room.name) <==> at < hub.rooms.len(),
        hub.has_room(room.name) ==> hub.rooms[at].name == room.name && hub.room(room.name)
            == hub.rooms[at],
        hub.with_room(room).rooms.len() == if at < hub.rooms.len() {
            hub.rooms.len()
        } else {
            hub.rooms.len() + 1
        },
        hub.with_room(room).rooms[at] == room,
        forall|i: int|
            0 <= i < hub.rooms.len() && i != at ==> #[trigger] hub.with_room(room).rooms[i]
                == hub.rooms[i] && hub.rooms[i].name != room.name,
        hub.with_room(room).distinct_names(),
        hub.with_room(room).conns == hub.conns,
        hub.with_room(room).open == hub.open,
{
    let post = hub.with_room(room);
    let at = if hub.has_room(room.name) {
        hub.index_of(room.name)
    } else {
        hub.rooms.len() as int
    };
    if hub.has_room(room.name) {
        assert(hub.names_room(at, room.name));
    }
    assert forall|i: int| 0 <= i < hub.rooms.len() && i != at implies #[trigger] post.rooms[i]
        == hub.rooms[i] && hub.rooms[i].name != room.name by {
        if hub.has_room(room.name) {
            if i < at {
                assert(hub.rooms[i].name != hub.rooms[at].name);
            } else {
                assert(hub.rooms[at].name != hub.rooms[i].name);
            }
        } else {
            if hub.rooms[i].name == room.name {
                assert(hub.names_room(i, room.name));
            }
        }
    }
    assert forall|i: int, j: int| 0 <= i < j < post.rooms.len() implies (
    #[trigger] post.rooms[i]).name != (#[trigger] post.rooms[j]).name by {
        if i != at && j != at {
            assert(post.rooms[i] == hub.rooms[i]);
            assert(post.rooms[j] == hub.rooms[j]);
            assert(hub.rooms[i].name != hub.rooms[j].name);
        } else if i == at {
            assert(post.rooms[j] == hub.rooms[j]);
        } else {
            assert(post.rooms[i] == hub.rooms[i]);
        }
    }
    at
}

/// Storing a room under its name makes it the room of its name; every other
/// name finds what it found before. Storing a well-formed room in a
/// well-formed hub keeps the hub well-formed.
pub proof fn lemma_with_room(hub: HubView, room: RoomView)
    requires
        hub.distinct_names(),
    ensures
        hub.with_room(room).distinct_names(),
        hub.with_room(room).has_room(room.name),
        hub.with_room(room).room(room.name) == room,
        hub.with_room(room).conns == hub.conns,
        hub.with_room(room).open == hub.open,
        forall|name: Seq<char>|
            name != room.name ==> (#[trigger] hub.with_room(room).has_room(name)
                <==> hub.has_room(name)),
        forall|name: Seq<char>|
            name != room.name && hub.has_room(name) ==> #[trigger] hub.with_room(room).room(name)
                == hub.room(name),
        hub.wf() && room.wf() ==> hub.with_room(room).wf(),
{
    let post = hub.with_room(room);
    let at = lemma_with_room_positions(hub, room);
    assert(post.names_room(at, room.name));
    lemma_index_of(post, at);
    assert forall|name: Seq<char>| name != room.name implies (#[trigger] post.has_room(name)
        <==> hub.has_room(name)) by {
        if post.has_room(name) {
            let k = post.index_of(name);
            assert(post.names_room(k, name));
            assert(post.rooms[k] == hub.rooms[k]);
            assert(hub.names_room(k, name));
        }
        if hub.has_room(name) {
            let k = hub.index_of(name);
            assert(hub.names_room(k, name));
            assert(post.rooms[k] == hub.rooms[k]);
            assert(post.names_room(k, name));
        }
    }
    assert forall|name: Seq<char>| name != room.name && hub.has_room(name) implies #[trigger] post.room(
        name,
    ) == hub.room(name) by {
        let k = hub.index_of(name);
        assert(hub.names_room(k, name));
        assert(post.rooms[k] == hub.rooms[k]);
        assert(post.names_room(k, name));
        lemma_index_of(post, k);
    }
    if hub.wf() && room.wf() {
        assert forall|i: int| 0 <= i < post.rooms.len() implies (#[trigger] post.rooms[i]).wf() by {
            if i != at {
                assert(post.rooms[i] == hub.rooms[i]);
            }
        }
        assert forall|c: u128| #[trigger] post.conns.contains_key(c) implies post.has_room(
            post.conns[c].0,
        ) by {
            assert(hub.has_room(hub.conns[c].0));
        }
    }
}

/// When the player of a connection leaves its room, that room loses the
/// player and nothing else changes: every other room, who has joined which
/// room, and which connections are open stay as they were.
pub proof fn lemma_left(hub: HubView, conn: u128, name: Seq<char>)
    requires
        hub.wf(),
    ensures
        hub.left(conn).wf(),
        hub.left(conn).conns == hub.conns,
        hub.left(conn).open == hub.open,
        hub.left(conn).has_room(name) <==> hub.has_room(name),
        hub.has_room(name) ==> hub.left(conn).room(name) == if hub.conns.contains_key(conn)
            && hub.conns[conn].0 == name {
            hub.room(name).without_player(hub.conns[conn].1)
        } else {
            hub.room(name)
        },
{
    if hub.conns.contains_key(conn) {
        let own = hub.conns[conn].0;
        assert(hub.has_room(own));
        let k = hub.index_of(own);
        assert(hub.names_room(k, own));
        let room = hub.room(own);
        lemma_room_membership_keeps_wf(room, hub.conns[conn].1, own);
        lemma_room_keeps_its_name(room, hub.conns[conn].1, Command::StartGame, arbitrary(), own);
        let rest = room.without_player(hub.conns[conn].1);
        lemma_with_room(hub, rest);
        let post = hub.with_room(rest);
        assert(post == hub.left(conn));
        if name != own {
            assert(post.has_room(name) <==> hub.has_room(name));
            if hub.has_room(name) {
                assert(post.room(name) == hub.room(name));
            }
        }
    }
}

/// The hub's invariant holds of the empty hub and is kept when a connection
/// is opened or closed.
pub proof fn lemma_hub_connections_keep_wf(hub: HubView, conn: u128)
    requires
        hub.wf(),
    ensures
        HubView::empty().wf(),
        hub.opened(conn).wf(),
        hub.closed(conn).wf(),
{
    lemma_left(hub, conn, default_name());
    let vacated = hub.left(conn);
    let post = hub.closed(conn);
    assert forall|c: u128| #[trigger] post.conns.contains_key(c) implies post.has_room(
        post.conns[c].0,
    ) by {
        assert(vacated.conns.contains_key(c));
        assert(vacated.has_room(vacated.conns[c].0));
    }
}

/// The hub's invariant is kept by every command with any draw that fits the
/// room of the connection.
pub proof fn lemma_hub_steps_keep_wf(
    hub: HubView,
    conn: u128,
    cmd: Command,
    admin_secret: Seq<char>,
    draw: DrawView,
)
    requires
        hub.wf(),
        hub.draw_in_grid(conn, cmd, draw),
    ensures
        hub.handled(conn, cmd, admin_secret, draw).wf(),
{
    assert(hub.handled(conn, cmd, admin_secret, draw).wf()) by {
        match cmd {
            Command::Join { name, room } => {
                lemma_joined(hub, conn, name, room, draw.player_id, default_name());
            },
            Command::AdminReset { secret } => {
                lemma_fresh_wf(default_name());
                lemma_with_room(hub, RoomView::fresh(default_name()));
            },
            Command::AdminKick { secret, player } => {
                if hub.has_room(default_name()) {
                    let k = hub.index_of(default_name());
                    assert(hub.names_room(k, default_name()));
                    let room = hub.room(default_name());
                    lemma_room_membership_keeps_wf(room, player, default_name());
                    lemma_room_keeps_its_name(room, player, cmd, draw, default_name());
                    lemma_with_room(hub, room.without_player(player));
                }
            },
            _ => {
                if hub.conns.contains_key(conn) && hub.has_room(hub.conns[conn].0) {
                    let name = hub.conns[conn].0;
                    let k = hub.index_of(name);
                    assert(hub.names_room(k, name));
                    let room = hub.room(name);
                    lemma_room_steps_keep_wf(room, hub.conns[conn].1, cmd, draw);
                    lemma_with_room(hub, room.applied(hub.conns[conn].1, cmd, draw));
                }
            },
        }
    }
}

/// A `Join` seen from the room named `name`: the earlier player of the
/// connection leaves the room if it stood there, and the new player is
/// appended to the room if it is the one joined. Every other room is as it
/// was. The connection stands for the new player, and for nobody else.
pub proof fn lemma_joined(
    hub: HubView,
    conn: u128,
    who: Seq<char>,
    room: Option<Seq<char>>,
    id: u128,
    name: Seq<char>,
)
    requires
        hub.wf(),
    ensures
        hub.joined(conn, who, room, id).wf(),
        hub.joined(conn, who, room, id).open == hub.open,
        hub.joined(conn, who, room, id).conns == hub.conns.insert(
            conn,
            (room_or_default(room), id),
        ),
        hub.joined(conn, who, room, id).has_room(room_or_default(room)),
        hub.has_room(name) ==> hub.joined(conn, who, room, id).has_room(name),
        hub.joined(conn, who, room, id).has_room(name) ==> hub.has_room(name) || name
            == room_or_default(room),
        hub.joined(conn, who, room, id).has_room(name) ==> hub.joined(conn, who, room, id).room(
            name,
        ) == ({
            let before = if hub.has_room(name) {
                hub.left(conn).room(name)
            } else {
                RoomView::fresh(name)
            };
            if name == room_or_default(room) {
                before.joined(id, who)
            } else {
                before
            }
        }),
{
    let room_name = room_or_default(room);
    lemma_left(hub, conn, room_name);
    lemma_left(hub, conn, name);
    let vacated = hub.left(conn);
    let base = vacated.room_to_join(room_name);
    if vacated.has_room(room_name) {
        let k = vacated.index_of(room_name);
        assert(vacated.names_room(k, room_name));
    } else {
        lemma_fresh_wf(room_name);
    }
    lemma_room_membership_keeps_wf(base, id, who);
    lemma_room_keeps_its_name(base, id, Command::StartGame, arbitrary(), who);
    let entered = base.joined(id, who);
    assert(entered.name == room_name);
    lemma_with_room(vacated, entered);
    let stored = vacated.with_room(entered);
    let post = hub.joined(conn, who, room, id);
    assert(post.rooms == stored.rooms);
    assert(stored.has_room(room_name));
    assert(post.has_room(room_name));
    if name != room_name {
        assert(stored.has_room(name) <==> vacated.has_room(name));
        if vacated.has_room(name) {
            assert(stored.room(name) == vacated.room(name));
        }
    } else {
        assert(stored.room(name) == entered);
    }
    assert forall|c: u128| #[trigger] post.conns.contains_key(c) implies post.has_room(
        post.conns[c].0,
    ) by {
        if c != conn {
            assert(vacated.conns.contains_key(c));
            let own = vacated.conns[c].0;
            assert(vacated.has_room(own));
            if own != room_name {
                assert(stored.has_room(own) <==> vacated.has_room(own));
            }
        }
    }
}

/// After a connection that had joined has been closed, its player is in the
/// room no longer, and the connection receives the state of no room.
pub proof fn lemma_closed_connection_is_gone(hub: HubView, conn: u128)
    requires
        hub.wf(),
        hub.conns.contains_key(conn),
    ensures
        hub.closed(conn).has_room(hub.conns[conn].0),
        hub.closed(conn).room(hub.conns[conn].0) == hub.room(hub.conns[conn].0).without_player(
            hub.conns[conn].1,
        ),
        room_lacks(hub.closed(conn).room(hub.conns[conn].0), hub.conns[conn].1),
        forall|name: Seq<char>| !(#[trigger] hub.closed(conn).members(name)).contains(conn),
        !hub.closed(conn).conns.contains_key(conn),
{
    let name = hub.conns[conn].0;
    let player = hub.conns[conn].1;
    assert(hub.has_room(name));
    lemma_left(hub, conn, name);
    lemma_departed_player_does_not_count(hub.room(name), player, Set::empty());
}

/// A connection that is open and joins a room is among those that are told
/// the state of that room, and its player is the last of the room's players.
pub proof fn lemma_joined_connection_is_told(
    hub: HubView,
    conn: u128,
    name: Seq<char>,
    room: Option<Seq<char>>,
    id: u128,
)
    requires
        hub.wf(),
    ensures
        hub.joined(conn, name, room, id).has_room(room_or_default(room)),
        hub.joined(conn, name, room, id).room(room_or_default(room)).players.last() == (
        PlayerView { id, name, score: 0 }),
        hub.open.contains(conn) ==> hub.joined(conn, name, room, id).members(
            room_or_default(room),
        ).contains(conn),
{
    lemma_joined(hub, conn, name, room, id, room_or_default(room));
}

/// A command of one room's player leaves every other room as it was, and
/// changes neither who has joined which room nor which connections are open.
pub proof fn lemma_room_command_is_local(
    hub: HubView,
    conn: u128,
    cmd: Command,
    draw: DrawView,
    other: Seq<char>,
)
    requires
        hub.wf(),
        hub.conns.contains_key(conn),
        hub.conns[conn].0 != other,
    ensures
        hub.room_command(conn, cmd, draw).conns == hub.conns,
        hub.room_command(conn, cmd, draw).open == hub.open,
        hub.room_command(conn, cmd, draw).has_room(other) <==> hub.has_room(other),
        hub.has_room(other) ==> hub.room_command(conn, cmd, draw).room(other) == hub.room(other),
        hub.room_command(conn, cmd, draw).room(hub.conns[conn].0) == hub.room(
            hub.conns[conn].0,
        ).applied(hub.conns[conn].1, cmd, draw),
{
    let name = hub.conns[conn].0;
    assert(hub.has_room(name));
    let k = hub.index_of(name);
    assert(hub.names_room(k, name));
    let room = hub.room(name);
    lemma_room_keeps_its_name(room, hub.conns[conn].1, cmd, draw, name);
    lemma_with_room(hub, room.applied(hub.conns[conn].1, cmd, draw));
}

/// The room named `name` after a command, seen from that room: the command
/// was applied to it if the connection stands in it; on a `Join` the earlier
/// player of the connection left it if it stood there, and the new player
/// came in if it was the room joined; and an administrative command with the
/// right secret acted on it if it is the default room. Otherwise the room is
/// as it was.
pub proof fn lemma_room_after_command(
    hub: HubView,
    conn: u128,
    cmd: Command,
    admin_secret: Seq<char>,
    draw: DrawView,
    name: Seq<char>,
)
    requires
        hub.wf(),
        hub.has_room(name),
    ensures
        hub.handled(conn, cmd, admin_secret, draw).has_room(name),
        hub.handled(conn, cmd, admin_secret, draw).room(name) == (match cmd {
            Command::Join { name: who, room } => {
                let before = if hub.conns.contains_key(conn) && hub.conns[conn].0 == name {
                    hub.room(name).without_player(hub.conns[conn].1)
                } else {
                    hub.room(name)
                };
                if room_or_default(room) == name {
                    before.joined(draw.player_id, who)
                } else {
                    before
                }
            },
            Command::AdminReset { secret } => if secret == admin_secret && name == default_name() {
                RoomView::fresh(name)
            } else {
                hub.room(name)
            },
            Command::AdminKick { secret, player } => if secret == admin_secret && name
                == default_name() {
                hub.room(name).without_player(player)
            } else {
                hub.room(name)
            },
            _ => if hub.conns.contains_key(conn) && hub.conns[conn].0 == name {
                hub.room(name).applied(hub.conns[conn].1, cmd, draw)
            } else {
                hub.room(name)
            },
        }),
{
    let k = hub.index_of(name);
    assert(hub.names_room(k, name));
    match cmd {
        Command::Join { name: who, room: asked } => {
            lemma_joined(hub, conn, who, asked, draw.player_id, name);
            lemma_left(hub, conn, name);
        },
        Command::AdminReset { secret } => {
            if secret == admin_secret && hub.has_room(default_name()) {
                lemma_with_room(hub, RoomView::fresh(default_name()));
                let stored = hub.with_room(RoomView::fresh(default_name()));
                assert(stored.has_room(name));
                if name != default_name() {
                    assert(stored.room(name) == hub.room(name));
                }
            }
        },
        Command::AdminKick { secret, player } => {
            if secret == admin_secret && hub.has_room(default_name()) {
                let j = hub.index_of(default_name());
                assert(hub.names_room(j, default_name()));
                let target = hub.room(default_name());
                lemma_room_keeps_its_name(target, player, cmd, draw, default_name());
                lemma_with_room(hub, target.without_player(player));
                let stored = hub.with_room(target.without_player(player));
                assert(stored.has_room(name));
                if name != default_name() {
                    assert(stored.room(name) == hub.room(name));
                }
            }
        },
        _ => {
            if hub.conns.contains_key(conn) {
                let own = hub.conns[conn].0;
                assert(hub.has_room(own));
                let j = hub.index_of(own);
                assert(hub.names_room(j, own));
                let target = hub.room(own);
                lemma_room_keeps_its_name(target, hub.conns[conn].1, cmd, draw, own);
                lemma_with_room(hub, target.applied(hub.conns[conn].1, cmd, draw));
                let stored = hub.with_room(target.applied(hub.conns[conn].1, cmd, draw));
                assert(stored.has_room(name));
                if name != own {
                    assert(stored.room(name) == hub.room(name));
                }
            }
        },
    }
}

/// Whatever reaches the hub, a room enters the reveal in one way only: a
/// player of that room guesses in the second guessing phase, and with that
/// guess every player of the room but the cue-giver has guessed twice.
pub proof fn lemma_hub_reveal_needs_every_guess(
    hub: HubView,
    conn: u128,
    cmd: Command,
    admin_secret: Seq<char>,
    draw: DrawView,
    name: Seq<char>,
)
    requires
        hub.wf(),
        hub.has_room(name),
        hub.room(name).phase != Phase::Reveal,
        hub.handled(conn, cmd, admin_secret, draw).room(name).phase == Phase::Reveal,
    ensures
        cmd is Guess,
        hub.conns.contains_key(conn) && hub.conns[conn].0 == name,
        hub.room(name).phase == Phase::Guess2,
        forall|i: int| #[trigger]
            hub.handled(conn, cmd, admin_secret, draw).room(name).must_guess(i) ==> hub.handled(
                conn,
                cmd,
                admin_secret,
                draw,
            ).room(name).guessed_twice.contains(
                hub.handled(conn, cmd, admin_secret, draw).room(name).players[i].id,
            ),
{
    lemma_room_after_command(hub, conn, cmd, admin_secret, draw, name);
    if hub.conns.contains_key(conn) && hub.conns[conn].0 == name {
        lemma_reveal_needs_every_guess(hub.room(name), hub.conns[conn].1, cmd, draw);
    }
}

/// Whatever reaches the hub, a room at the reveal stays there until one of
/// its players starts a new round: apart from a cue and from the
/// administrator's reset, only `StartGame` and `NextRound` from a connection
/// of that room lead out of the reveal, and they lead to the first cue.
/// Closing a connection never changes the phase.
pub proof fn lemma_hub_reveal_exits(
    hub: HubView,
    conn: u128,
    cmd: Command,
    admin_secret: Seq<char>,
    draw: DrawView,
    name: Seq<char>,
)
    requires
        hub.wf(),
        hub.has_room(name),
        hub.room(name).phase == Phase::Reveal,
        !(cmd is LockCue1),
        !(cmd is LockCue2),
        !(cmd is AdminReset),
    ensures
        hub.handled(conn, cmd, admin_secret, draw).room(name).phase != Phase::Reveal ==> (
        cmd is StartGame || cmd is NextRound) && hub.conns.contains_key(conn)
            && hub.conns[conn].0 == name && hub.handled(conn, cmd, admin_secret, draw).room(
            name,
        ).phase == Phase::Cue1,
        hub.closed(conn).has_room(name),
        hub.closed(conn).room(name).phase == Phase::Reveal,
{
    lemma_room_after_command(hub, conn, cmd, admin_secret, draw, name);
    if hub.conns.contains_key(conn) && hub.conns[conn].0 == name {
        lemma_reveal_exits(hub.room(name), hub.conns[conn].1, cmd, draw, name);
    }
    lemma_left(hub, conn, name);
}

/// Every change to a room is told: a command that changes an existing room
/// is answered with the state of that very room, and a command from a
/// connection that stands in the room and is open is answered to that
/// connection too.
pub proof fn lemma_every_change_is_told(
    hub: HubView,
    conn: u128,
    cmd: Command,
    admin_secret: Seq<char>,
    draw: DrawView,
    name: Seq<char>,
)
    requires
        hub.wf(),
        hub.has_room(name),
        hub.handled(conn, cmd, admin_secret, draw).room(name) != hub.room(name),
    ensures
        hub.told_room(conn, cmd, admin_secret) == Some(name) || hub.vacated_room(conn, cmd)
            == Some(name),
        hub.handled(conn, cmd, admin_secret, draw).has_room(name),
        hub.conns.contains_key(conn) && hub.conns[conn].0 == name && hub.open.contains(conn)
            && !(cmd is Join) ==> hub.handled(conn, cmd, admin_secret, draw).members(
            name,
        ).contains(conn),
{
    lemma_room_after_command(hub, conn, cmd, admin_secret, draw, name);
    match cmd {
        Command::Join { name: who, room } => {},
        Command::AdminReset { secret } => {},
        Command::AdminKick { secret, player } => {},
        _ => {
            if hub.conns.contains_key(conn) {
                let own = hub.conns[conn].0;
                assert(hub.has_room(own));
                let j = hub.index_of(own);
                assert(hub.names_room(j, own));
                let target = hub.room(own);
                lemma_room_keeps_its_name(target, hub.conns[conn].1, cmd, draw, own);
                lemma_with_room(hub, target.applied(hub.conns[conn].1, cmd, draw));
            }
        },
    }
}

/// Who is in a room after a player has come or gone: leaving takes every
/// player of that identity along, and neither step brings in a player of
/// another identity. A new room holds nobody.
pub proof fn lemma_room_players_after(room: RoomView, x: u128, p: u128, name: Seq<char>)
    ensures
        room_lacks(room.without_player(p), p),
        room_lacks(room, x) ==> room_lacks(room.without_player(p), x),
        room_lacks(room, x) && x != p ==> room_lacks(room.joined(p, name), x),
        room_lacks(RoomView::fresh(name), x),
{
    lemma_departed_player_does_not_count(room, p, Set::empty());
    let rest = room.without_player(p);
    if room_lacks(room, x) {
        assert forall|i: int| 0 <= i < rest.players.len() implies (#[trigger] rest.players[i]).id
            != x by {
            assert(room.players.contains(rest.players[i]));
            let k = choose|k: int| 0 <= k < room.players.len() && room.players[k]
                == rest.players[i];
            assert(room.players[k].id != x);
        }
    }
}

/// Who is in the hub after a room has been stored: a player that was in no
/// other room is then in no room, if the stored room lacks it, and in that
/// room alone otherwise.
pub proof fn lemma_with_room_players(hub: HubView, room: RoomView, x: u128)
    requires
        hub.distinct_names(),
    ensures
        hub.only_in(x, room.name) ==> hub.with_room(room).only_in(x, room.name),
        hub.only_in(x, room.name) && room_lacks(room, x) ==> hub.with_room(room).lacks_player(x),
        hub.lacks_player(x) ==> hub.only_in(x, room.name),
{
    let post = hub.with_room(room);
    let at = lemma_with_room_positions(hub, room);
    if hub.only_in(x, room.name) {
        assert forall|k: int| 0 <= k < post.rooms.len() && (#[trigger] post.rooms[k]).name
            != room.name implies room_lacks(post.rooms[k], x) by {
            assert(k != at);
            assert(post.rooms[k] == hub.rooms[k]);
        }
        if room_lacks(room, x) {
            assert forall|k: int| 0 <= k < post.rooms.len() implies room_lacks(
                #[trigger] post.rooms[k],
                x,
            ) by {
                if k != at {
                    assert(post.rooms[k] == hub.rooms[k]);
                    assert(hub.rooms[k].name != room.name);
                }
            }
        }
    }
}

/// Who is in the hub after the player of a connection has left its room: no
/// player has come in, and if the player that left was in no other room, it
/// is now in none.
pub proof fn lemma_left_players(hub: HubView, conn: u128, x: u128)
    requires
        hub.wf(),
    ensures
        hub.lacks_player(x) ==> hub.left(conn).lacks_player(x),
        hub.conns.contains_key(conn) && hub.only_in(hub.conns[conn].1, hub.conns[conn].0)
            ==> hub.left(conn).lacks_player(hub.conns[conn].1),
{
    if hub.conns.contains_key(conn) {
        let own = hub.conns[conn].0;
        let player = hub.conns[conn].1;
        assert(hub.has_room(own));
        let k = hub.index_of(own);
        assert(hub.names_room(k, own));
        let room = hub.room(own);
        let rest = room.without_player(player);
        lemma_room_keeps_its_name(room, player, Command::StartGame, arbitrary(), own);
        lemma_room_players_after(room, x, player, own);
        lemma_with_room_players(hub, rest, x);
        lemma_with_room_players(hub, rest, player);
        if hub.lacks_player(x) {
            assert(room_lacks(hub.rooms[k], x));
        }
    }
}

/// Who is in the hub after a `Join`: the new player is in the room joined
/// and, if its identity was new, in no other; no player of another identity
/// has come in.
pub proof fn lemma_joined_players(
    hub: HubView,
    conn: u128,
    who: Seq<char>,
    room: Option<Seq<char>>,
    id: u128,
    x: u128,
)
    requires
        hub.wf(),
    ensures
        hub.left(conn).lacks_player(id) ==> hub.joined(conn, who, room, id).only_in(
            id,
            room_or_default(room),
        ),
        x != id && hub.left(conn).lacks_player(x) ==> hub.joined(conn, who, room, id).lacks_player(
            x,
        ),
{
    let room_name = room_or_default(room);
    lemma_left(hub, conn, room_name);
    let vacated = hub.left(conn);
    let base = vacated.room_to_join(room_name);
    lemma_room_keeps_its_name(base, id, Command::StartGame, arbitrary(), who);
    let entered = base.joined(id, who);
    let stored = vacated.with_room(entered);
    let post = hub.joined(conn, who, room, id);
    assert(post.rooms == stored.rooms);
    lemma_with_room_players(vacated, entered, id);
    lemma_with_room_players(vacated, entered, x);
    lemma_room_players_after(base, x, id, who);
    if vacated.has_room(room_name) {
        let k = vacated.index_of(room_name);
        assert(vacated.names_room(k, room_name));
        if vacated.lacks_player(x) {
            assert(room_lacks(vacated.rooms[k], x));
        }
    }
    if vacated.lacks_player(id) {
        assert(stored.only_in(id, room_name));
        assert forall|k: int| 0 <= k < post.rooms.len() && (#[trigger] post.rooms[k]).name
            != room_name implies room_lacks(post.rooms[k], id) by {
            assert(post.rooms[k] == stored.rooms[k]);
        }
    }
    if x != id && vacated.lacks_player(x) {
        assert(stored.lacks_player(x));
        assert forall|k: int| 0 <= k < post.rooms.len() implies room_lacks(
            #[trigger] post.rooms[k],
            x,
        ) by {
            assert(post.rooms[k] == stored.rooms[k]);
        }
    }
}

/// A connection leaves nobody behind: if it joins twice, under identities
/// that no player had before, and is then closed, no room holds a player of
/// either identity, and the connection stands for nobody.
pub proof fn lemma_closed_connection_leaves_nobody(
    hub: HubView,
    conn: u128,
    who1: Seq<char>,
    room1: Option<Seq<char>>,
    id1: u128,
    who2: Seq<char>,
    room2: Option<Seq<char>>,
    id2: u128,
)
    requires
        hub.wf(),
        hub.lacks_player(id1),
        hub.lacks_player(id2),
    ensures
        hub.joined(conn, who1, room1, id1).joined(conn, who2, room2, id2).closed(
            conn,
        ).lacks_player(id1),
        hub.joined(conn, who1, room1, id1).joined(conn, who2, room2, id2).closed(
            conn,
        ).lacks_player(id2),
        !hub.joined(conn, who1, room1, id1).joined(conn, who2, room2, id2).closed(
            conn,
        ).conns.contains_key(conn),
        hub.joined(conn, who1, room1, id1).joined(conn, who2, room2, id2).conns[conn] == (
            room_or_default(room2),
            id2,
        ),
{
    let first = hub.joined(conn, who1, room1, id1);
    let second = first.joined(conn, who2, room2, id2);
    let end = second.closed(conn);
    // The first join.
    lemma_left_players(hub, conn, id1);
    lemma_left_players(hub, conn, id2);
    lemma_joined_players(hub, conn, who1, room1, id1, id2);
    lemma_joined(hub, conn, who1, room1, id1, default_name());
    assert(first.conns[conn] == (room_or_default(room1), id1));
    assert(first.only_in(id1, room_or_default(room1)));
    // The second join: the first player leaves.
    lemma_left_players(first, conn, id1);
    lemma_left_players(first, conn, id2);
    assert(first.left(conn).lacks_player(id1));
    assert(first.left(conn).lacks_player(id2));
    lemma_joined_players(first, conn, who2, room2, id2, id1);
    lemma_joined(first, conn, who2, room2, id2, default_name());
    assert(second.conns[conn] == (room_or_default(room2), id2));
    assert(second.only_in(id2, room_or_default(room2)));
    // The close: the second player leaves.
    lemma_left_players(second, conn, id2);
    lemma_left_players(second, conn, id1);
    let vacated = second.left(conn);
    assert(vacated.lacks_player(id2));
    assert(end.rooms == vacated.rooms);
    assert forall|k: int| 0 <= k < end.rooms.len() implies room_lacks(
        #[trigger] end.rooms[k],
        id2,
    ) by {
        assert(end.rooms[k] == vacated.rooms[k]);
    }
    if id1 != id2 {
        assert(second.lacks_player(id1));
        assert(vacated.lacks_player(id1));
    }
    assert forall|k: int| 0 <= k < end.rooms.len() implies room_lacks(
        #[trigger] end.rooms[k],
        id1,
    ) by {
        assert(end.rooms[k] == vacated.rooms[k]);
    }
}

} // verus!
