use vstd::prelude::*;

use crate::block::BlockType;
use crate::chunk::spec_locate;
use crate::protocol::{BlockUpdateEntry, ClientPacket, PlayerId, ServerMsg, ServerPacket};
use crate::world::{
    World, entries_map, entry_key, keys_unique, lemma_entries_insert, lemma_entries_map, local_key,
    set_entries, update_at,
};

verus! {

/// Seed of the server's world.
pub const SEED: u32 = 42;

/// Nanoseconds between two keepalive rounds.
pub const KEEPALIVE_EVERY_NANOS: u64 = 5_000_000_000;

/// Nanoseconds of silence after which a client is dropped.
pub const CLIENT_TIMEOUT_NANOS: u64 = 15_000_000_000;

/// Nanoseconds between two time-of-day broadcasts.
pub const TIME_SYNC_EVERY_NANOS: u64 = 1_000_000_000;

/// Bit pattern of the `f32` 80.0, the height at which players spawn.
pub const SPAWN_Y_BITS: u32 = 0x42a0_0000;

/// A socket address as plain values: the address family, the IP address
/// (an IPv4 address in the low 32 bits), the port, and the IPv6 flow and scope.
#[derive(Clone, Copy, PartialEq, Eq, Hash, Debug, Structural)]
pub struct PeerAddr {
    pub v6: bool,
    pub ip: u128,
    pub port: u16,
    pub flowinfo: u32,
    pub scope_id: u32,
}

/// A connected player as the server tracks it. Positions and angles are the
/// bit patterns of `f32` values; times are nanoseconds on the server's clock.
#[derive(Debug, PartialEq, Eq)]
pub struct ConnectedPlayer {
    pub id: PlayerId,
    pub name: String,
    pub addr: PeerAddr,
    pub x: u32,
    pub y: u32,
    pub z: u32,
    pub yaw: u32,
    pub pitch: u32,
    pub last_seen: u64,
    pub ping_id: u32,
    pub ping_sent: Option<u64>,
    pub ready: bool,
}

/// A connected player as a value.
#[verifier::ext_equal]
pub struct PlayerRecord {
    pub id: PlayerId,
    pub name: Seq<char>,
    pub addr: PeerAddr,
    pub x: u32,
    pub y: u32,
    pub z: u32,
    pub yaw: u32,
    pub pitch: u32,
    pub last_seen: u64,
    pub ping_id: u32,
    pub ping_sent: Option<u64>,
    pub ready: bool,
}

impl View for ConnectedPlayer {
    type V = PlayerRecord;

    open spec fn view(&self) -> PlayerRecord {
        PlayerRecord {
            id: self.id,
            name: self.name@,
            addr: self.addr,
            x: self.x,
            y: self.y,
            z: self.z,
            yaw: self.yaw,
            pitch: self.pitch,
            last_seen: self.last_seen,
            ping_id: self.ping_id,
            ping_sent: self.ping_sent,
            ready: self.ready,
        }
    }
}

/// A packet and the peers it goes to.
#[derive(Debug, PartialEq, Eq)]
pub struct Outgoing {
    pub to: Vec<PeerAddr>,
    pub packet: ServerPacket,
}

/// An outgoing packet as a value.
#[verifier::ext_equal]
pub struct OutMsg {
    pub to: Seq<PeerAddr>,
    pub msg: ServerMsg,
}

impl View for Outgoing {
    type V = OutMsg;

    open spec fn view(&self) -> OutMsg {
        OutMsg { to: self.to@, msg: self.packet@ }
    }
}

/// The outgoing packets as values.
pub open spec fn out_view(v: Seq<Outgoing>) -> Seq<OutMsg> {
    v.map_values(|o: Outgoing| o@)
}

/// The server's state as a value.
#[verifier::ext_equal]
pub struct ServerView {
    pub seed: u32,
    pub deltas: Seq<BlockUpdateEntry>,
    pub players: Seq<PlayerRecord>,
    pub next_id: PlayerId,
    pub last_ping: u64,
    pub ping_counter: u32,
    pub last_time_sync: u64,
}

/// `a - b`, or 0 when `b` is later than `a`.
pub open spec fn elapsed(now: u64, since: u64) -> int {
    if now >= since {
        now - since
    } else {
        0
    }
}

/// Some player connected from `a`.
pub open spec fn has_addr(ps: Seq<PlayerRecord>, a: PeerAddr) -> bool {
    exists|i: int| 0 <= i < ps.len() && (#[trigger] ps[i]).addr == a
}

/// The player connected from `a` (the only one, since no address appears twice).
pub open spec fn addr_index(ps: Seq<PlayerRecord>, a: PeerAddr) -> int {
    choose|i: int| 0 <= i < ps.len() && (#[trigger] ps[i]).addr == a
}

/// No two players share an address.
pub open spec fn addrs_unique(ps: Seq<PlayerRecord>) -> bool {
    forall|i: int, j: int|
        0 <= i < ps.len() && 0 <= j < ps.len() && i != j ==> (#[trigger] ps[i]).addr != (
        #[trigger] ps[j]).addr
}

/// Every player's id is below `next` and no two players share an id.
pub open spec fn ids_fresh(ps: Seq<PlayerRecord>, next: PlayerId) -> bool {
    &&& forall|i: int| 0 <= i < ps.len() ==> (#[trigger] ps[i]).id < next
    &&& forall|i: int, j: int|
        0 <= i < ps.len() && 0 <= j < ps.len() && i != j ==> (#[trigger] ps[i]).id != (
        #[trigger] ps[j]).id
}

/// The addresses of all players, in order.
pub open spec fn addrs(ps: Seq<PlayerRecord>) -> Seq<PeerAddr> {
    ps.map_values(|p: PlayerRecord| p.addr)
}

/// The addresses of all players but the one at `a`, in order.
pub open spec fn addrs_except(ps: Seq<PlayerRecord>, a: PeerAddr) -> Seq<PeerAddr>
    decreases ps.len(),
{
    if ps.len() == 0 {
        Seq::empty()
    } else {
        let r = addrs_except(ps.drop_last(), a);
        if ps.last().addr != a {
            r.push(ps.last().addr)
        } else {
            r
        }
    }
}

/// The players after hearing from `a` at time `now`.
pub open spec fn touch(ps: Seq<PlayerRecord>, a: PeerAddr, now: u64) -> Seq<PlayerRecord> {
    if has_addr(ps, a) {
        let i = addr_index(ps, a);
        ps.update(i, PlayerRecord { last_seen: now, ..ps[i] })
    } else {
        ps
    }
}

/// A packet for the single peer `a`.
pub open spec fn to_one(a: PeerAddr, msg: ServerMsg) -> OutMsg {
    OutMsg { to: seq![a], msg }
}

/// The player that connects from `a` with `name` and gets `id`.
pub open spec fn new_player(id: PlayerId, name: Seq<char>, a: PeerAddr, now: u64) -> PlayerRecord {
    PlayerRecord {
        id,
        name,
        addr: a,
        x: 0,
        y: SPAWN_Y_BITS,
        z: 0,
        yaw: 0,
        pitch: 0,
        last_seen: now,
        ping_id: 0,
        ping_sent: None,
        ready: false,
    }
}

/// Tells the new player at `a` about the existing player `q`.
pub open spec fn joined_notice(a: PeerAddr, q: PlayerRecord) -> OutMsg {
    to_one(a, ServerMsg::PlayerJoined { player_id: q.id, name: q.name, x: q.x, y: q.y, z: q.z })
}

/// A connect from `a`: a known peer gets its welcome again; a new peer is
/// announced to everyone, added, welcomed, and told about every other player.
pub open spec fn connect_step(s: ServerView, a: PeerAddr, name: Seq<char>, now: u64) -> (
    ServerView,
    Seq<OutMsg>,
) {
    if has_addr(s.players, a) {
        let p = s.players[addr_index(s.players, a)];
        (
            s,
            seq![
                to_one(
                    a,
                    ServerMsg::Welcome {
                        player_id: p.id,
                        seed: s.seed,
                        spawn_x: p.x,
                        spawn_y: p.y,
                        spawn_z: p.z,
                    },
                ),
            ],
        )
    } else {
        let id = s.next_id;
        let joined = OutMsg {
            to: addrs(s.players),
            msg: ServerMsg::PlayerJoined { player_id: id, name, x: 0, y: SPAWN_Y_BITS, z: 0 },
        };
        let welcome = to_one(
            a,
            ServerMsg::Welcome { player_id: id, seed: s.seed, spawn_x: 0, spawn_y: SPAWN_Y_BITS, spawn_z: 0 },
        );
        (
            ServerView {
                players: s.players.push(new_player(id, name, a, now)),
                next_id: (id + 1) as u64,
                ..s
            },
            seq![joined, welcome] + s.players.map_values(|q: PlayerRecord| joined_notice(a, q)),
        )
    }
}

/// The player at `a` leaves: it is removed and everyone left is told.
pub open spec fn leave_step(s: ServerView, a: PeerAddr) -> (ServerView, Seq<OutMsg>) {
    if has_addr(s.players, a) {
        let i = addr_index(s.players, a);
        let rest = s.players.remove(i);
        (
            ServerView { players: rest, ..s },
            seq![OutMsg { to: addrs(rest), msg: ServerMsg::PlayerLeft { player_id: s.players[i].id } }],
        )
    } else {
        (s, Seq::empty())
    }
}

/// A block change at (wx, wy, wz): recorded and announced to everyone when the
/// cell lies inside the world's height.
pub open spec fn block_step(s: ServerView, wx: i32, wy: i32, wz: i32, block: BlockType) -> (
    ServerView,
    Seq<OutMsg>,
) {
    match spec_locate(wx as int, wy as int, wz as int) {
        Some(p) => {
            let e = update_at(p, block);
            (
                ServerView {
                    deltas: set_entries(s.deltas, wx as int, wy as int, wz as int, block),
                    ..s
                },
                seq![
                    OutMsg {
                        to: addrs(s.players),
                        msg: ServerMsg::BlockUpdate {
                            coord: e.coord,
                            lx: e.lx,
                            ly: e.ly,
                            lz: e.lz,
                            block: e.block,
                        },
                    },
                ],
            )
        },
        None => (s, Seq::empty()),
    }
}

/// The state and the packets sent after a packet from `a` arrives at time `now`.
pub open spec fn packet_step(s0: ServerView, a: PeerAddr, pkt: ClientPacket, now: u64) -> (
    ServerView,
    Seq<OutMsg>,
) {
    let s = ServerView { players: touch(s0.players, a, now), ..s0 };
    let known = has_addr(s.players, a);
    let i = addr_index(s.players, a);
    let p = s.players[i];
    match pkt {
        ClientPacket::Connect { name } => connect_step(s, a, name@, now),
        ClientPacket::Ready => if known && !p.ready {
            (
                ServerView { players: s.players.update(i, PlayerRecord { ready: true, ..p }), ..s },
                seq![to_one(a, ServerMsg::BlockBatch { updates: s.deltas })],
            )
        } else {
            (s, Seq::empty())
        },
        ClientPacket::Move { x, y, z, yaw, pitch } => if known {
            (
                ServerView {
                    players: s.players.update(i, PlayerRecord { x, y, z, yaw, pitch, ..p }),
                    ..s
                },
                seq![
                    OutMsg {
                        to: addrs_except(s.players, a),
                        msg: ServerMsg::PlayerMoved { player_id: p.id, x, y, z, yaw, pitch },
                    },
                ],
            )
        } else {
            (s, Seq::empty())
        },
        ClientPacket::BreakBlock { wx, wy, wz } => if known {
            block_step(s, wx, wy, wz, BlockType::Air)
        } else {
            (s, Seq::empty())
        },
        ClientPacket::PlaceBlock { wx, wy, wz, block } => if known {
            block_step(s, wx, wy, wz, block)
        } else {
            (s, Seq::empty())
        },
        ClientPacket::ChatMessage { text } => if known {
            (
                s,
                seq![
                    OutMsg {
                        to: addrs(s.players),
                        msg: ServerMsg::ChatMessage { sender_name: p.name, message: text@ },
                    },
                ],
            )
        } else {
            (s, Seq::empty())
        },
        ClientPacket::Pong { id } => if known && p.ping_id == id {
            (
                ServerView { players: s.players.update(i, PlayerRecord { ping_sent: None, ..p }), ..s },
                Seq::empty(),
            )
        } else {
            (s, Seq::empty())
        },
        ClientPacket::Disconnect => leave_step(s, a),
    }
}

/// A keepalive round at time `now`, when one is due: every player gets a
/// fresh ping id and a ping.
pub open spec fn keepalive_step(s: ServerView, now: u64) -> (ServerView, Seq<OutMsg>) {
    if elapsed(now, s.last_ping) < KEEPALIVE_EVERY_NANOS {
        (s, Seq::empty())
    } else {
        let id = (s.ping_counter + 1) as u32;
        (
            ServerView {
                last_ping: now,
                ping_counter: id,
                players: s.players.map_values(
                    |p: PlayerRecord| PlayerRecord { ping_id: id, ping_sent: Some(now), ..p },
                ),
                ..s
            },
            seq![OutMsg { to: addrs(s.players), msg: ServerMsg::Ping { id } }],
        )
    }
}

/// A time-of-day broadcast of `time` at time `now`, when one is due.
pub open spec fn time_sync_step(s: ServerView, now: u64, time: u32) -> (ServerView, Seq<OutMsg>) {
    if elapsed(now, s.last_time_sync) >= TIME_SYNC_EVERY_NANOS {
        (
            ServerView { last_time_sync: now, ..s },
            seq![OutMsg { to: addrs(s.players), msg: ServerMsg::TimeUpdate { time } }],
        )
    } else {
        (s, Seq::empty())
    }
}

/// The player has been silent for longer than the timeout at time `now`.
pub open spec fn timed_out(p: PlayerRecord, now: u64) -> bool {
    elapsed(now, p.last_seen) > CLIENT_TIMEOUT_NANOS
}

/// Addresses of the players that have timed out at `now`, in order.
pub open spec fn timed_out_addrs(ps: Seq<PlayerRecord>, now: u64) -> Seq<PeerAddr>
    decreases ps.len(),
{
    if ps.len() == 0 {
        Seq::empty()
    } else {
        let r = timed_out_addrs(ps.drop_last(), now);
        if timed_out(ps.last(), now) {
            r.push(ps.last().addr)
        } else {
            r
        }
    }
}

/// The players at the addresses `list` leave, one after the other.
pub open spec fn leave_all(s: ServerView, list: Seq<PeerAddr>) -> (ServerView, Seq<OutMsg>)
    decreases list.len(),
{
    if list.len() == 0 {
        (s, Seq::empty())
    } else {
        let (s1, o1) = leave_all(s, list.drop_last());
        let (s2, o2) = leave_step(s1, list.last());
        (s2, o1 + o2)
    }
}

/// Every player that has timed out at `now` leaves.
pub open spec fn drop_step(s: ServerView, now: u64) -> (ServerView, Seq<OutMsg>) {
    leave_all(s, timed_out_addrs(s.players, now))
}

/// Two player lists with the same addresses, position by position.
pub open spec fn same_addrs(ps: Seq<PlayerRecord>, qs: Seq<PlayerRecord>) -> bool {
    ps.len() == qs.len() && forall|i: int|
        0 <= i < ps.len() ==> (#[trigger] ps[i]).addr == qs[i].addr && ps[i].id == qs[i].id
}

proof fn lemma_same_addrs_except(ps: Seq<PlayerRecord>, qs: Seq<PlayerRecord>, a: PeerAddr)
    requires
        same_addrs(ps, qs),
    ensures
        addrs_except(ps, a) == addrs_except(qs, a),
    decreases ps.len(),
{
    if ps.len() > 0 {
        assert(same_addrs(ps.drop_last(), qs.drop_last())) by {
            assert forall|i: int| 0 <= i < ps.drop_last().len() implies (#[trigger] ps.drop_last()[i]).addr
                == qs.drop_last()[i].addr && ps.drop_last()[i].id == qs.drop_last()[i].id by {
                assert(ps[i].addr == qs[i].addr);
            }
        }
        lemma_same_addrs_except(ps.drop_last(), qs.drop_last(), a);
        assert(ps.last().addr == qs.last().addr) by {
            assert(ps[ps.len() - 1].addr == qs[ps.len() - 1].addr);
        }
    }
}

/// Lists with the same addresses agree on everything that depends on addresses only.
proof fn lemma_same_addrs(ps: Seq<PlayerRecord>, qs: Seq<PlayerRecord>)
    requires
        same_addrs(ps, qs),
        addrs_unique(ps),
    ensures
        addrs_unique(qs),
        addrs(ps) == addrs(qs),
        forall|a: PeerAddr| has_addr(ps, a) == has_addr(qs, a),
        forall|a: PeerAddr| has_addr(ps, a) ==> addr_index(ps, a) == addr_index(qs, a),
        forall|a: PeerAddr| addrs_except(ps, a) == addrs_except(qs, a),
        forall|n: PlayerId| ids_fresh(ps, n) ==> ids_fresh(qs, n),
{
    assert forall|n: PlayerId| ids_fresh(ps, n) implies ids_fresh(qs, n) by {
        assert forall|i: int| 0 <= i < qs.len() implies (#[trigger] qs[i]).id < n by {
            assert(ps[i].id == qs[i].id);
        }
        assert forall|j: int, k: int|
            0 <= j < qs.len() && 0 <= k < qs.len() && j != k implies (#[trigger] qs[j]).id != (
            #[trigger] qs[k]).id by {
            assert(ps[j].id == qs[j].id);
            assert(ps[k].id == qs[k].id);
        }
    }
    assert forall|j: int, k: int|
        0 <= j < qs.len() && 0 <= k < qs.len() && j != k implies (#[trigger] qs[j]).addr != (
        #[trigger] qs[k]).addr by {
        assert(ps[j].addr == qs[j].addr);
        assert(ps[k].addr == qs[k].addr);
    }
    assert(addrs(ps) =~= addrs(qs)) by {
        assert forall|i: int| 0 <= i < ps.len() implies addrs(ps)[i] == addrs(qs)[i] by {
            assert(ps[i].addr == qs[i].addr);
        }
    }
    assert forall|a: PeerAddr| has_addr(ps, a) == has_addr(qs, a) by {
        if has_addr(ps, a) {
            let i = choose|i: int| 0 <= i < ps.len() && (#[trigger] ps[i]).addr == a;
            assert(qs[i].addr == a);
        }
        if has_addr(qs, a) {
            let i = choose|i: int| 0 <= i < qs.len() && (#[trigger] qs[i]).addr == a;
            assert(ps[i].addr == a);
        }
    }
    assert forall|a: PeerAddr| has_addr(ps, a) implies addr_index(ps, a) == addr_index(qs, a) by {
        let i = addr_index(ps, a);
        let k = addr_index(qs, a);
        assert(has_addr(qs, a));
        assert(ps[k].addr == qs[k].addr);
        if i != k {
            assert(ps[i].addr != ps[k].addr);
        }
    }
    assert forall|a: PeerAddr| addrs_except(ps, a) == addrs_except(qs, a) by {
        lemma_same_addrs_except(ps, qs, a);
    }
}

/// Rewriting one player without moving it keeps the addresses when its address stays.
proof fn lemma_update_same_addr(ps: Seq<PlayerRecord>, i: int, p: PlayerRecord)
    requires
        0 <= i < ps.len(),
        p.addr == ps[i].addr,
        p.id == ps[i].id,
        addrs_unique(ps),
    ensures
        forall|n: PlayerId| ids_fresh(ps, n) ==> ids_fresh(ps.update(i, p), n),
        same_addrs(ps, ps.update(i, p)),
        addrs_unique(ps.update(i, p)),
        addrs(ps) == addrs(ps.update(i, p)),
        forall|a: PeerAddr| has_addr(ps, a) == has_addr(ps.update(i, p), a),
        forall|a: PeerAddr| has_addr(ps, a) ==> addr_index(ps, a) == addr_index(ps.update(i, p), a),
        forall|a: PeerAddr| addrs_except(ps, a) == addrs_except(ps.update(i, p), a),
{
    lemma_same_addrs(ps, ps.update(i, p));
}

/// Adding a player with a new address and the next id keeps addresses and
/// ids unique, with the next id moved on by one.
proof fn lemma_push_fresh(ps: Seq<PlayerRecord>, np: PlayerRecord, next: PlayerId)
    requires
        ids_fresh(ps, next),
        addrs_unique(ps),
        !has_addr(ps, np.addr),
        np.id == next,
        next < u64::MAX,
    ensures
        ids_fresh(ps.push(np), (next + 1) as u64),
        addrs_unique(ps.push(np)),
{
    let ps2 = ps.push(np);
    assert forall|j: int| 0 <= j < ps2.len() implies (#[trigger] ps2[j]).id < next + 1 by {
        if j < ps.len() {
            assert(ps2[j] == ps[j]);
        }
    }
    assert forall|j: int, k: int|
        0 <= j < ps2.len() && 0 <= k < ps2.len() && j != k implies (#[trigger] ps2[j]).id != (
        #[trigger] ps2[k]).id by {
        if j < ps.len() {
            assert(ps2[j] == ps[j]);
        }
        if k < ps.len() {
            assert(ps2[k] == ps[k]);
        }
    }
    assert forall|j: int, k: int|
        0 <= j < ps2.len() && 0 <= k < ps2.len() && j != k implies (#[trigger] ps2[j]).addr != (
        #[trigger] ps2[k]).addr by {
        if j < ps.len() && k < ps.len() {
            assert(ps2[j] == ps[j]);
            assert(ps2[k] == ps[k]);
        } else if j < ps.len() {
            assert(ps2[j] == ps[j]);
        } else {
            assert(ps2[k] == ps[k]);
        }
    }
}

/// Removing a player keeps addresses and ids unique and below `next`.
proof fn lemma_remove_fresh(ps: Seq<PlayerRecord>, i: int, next: PlayerId)
    requires
        0 <= i < ps.len(),
        ids_fresh(ps, next),
        addrs_unique(ps),
    ensures
        ids_fresh(ps.remove(i), next),
        addrs_unique(ps.remove(i)),
{
    let rest = ps.remove(i);
    assert forall|j: int| 0 <= j < rest.len() implies (#[trigger] rest[j]).id < next by {
        let jj = if j < i { j } else { j + 1 };
        assert(rest[j] == ps[jj]);
    }
    assert forall|j: int, k: int|
        0 <= j < rest.len() && 0 <= k < rest.len() && j != k implies (#[trigger] rest[j]).id != (
        #[trigger] rest[k]).id by {
        let jj = if j < i { j } else { j + 1 };
        let kk = if k < i { k } else { k + 1 };
        assert(rest[j] == ps[jj]);
        assert(rest[k] == ps[kk]);
    }
    assert forall|j: int, k: int|
        0 <= j < rest.len() && 0 <= k < rest.len() && j != k implies (#[trigger] rest[j]).addr != (
        #[trigger] rest[k]).addr by {
        let jj = if j < i { j } else { j + 1 };
        let kk = if k < i { k } else { k + 1 };
        assert(rest[j] == ps[jj]);
        assert(rest[k] == ps[kk]);
    }
}

/// A player's own address never appears among the other players' addresses.
pub proof fn lemma_addrs_except_excludes(ps: Seq<PlayerRecord>, a: PeerAddr)
    ensures
        !addrs_except(ps, a).contains(a),
    decreases ps.len(),
{
    if ps.len() > 0 {
        lemma_addrs_except_excludes(ps.drop_last(), a);
    }
}

/// A client that says it is ready, and was not yet, is sent every block change
/// made so far: each changed cell once, with its latest block.
pub proof fn lemma_ready_gets_every_change(s: ServerView, a: PeerAddr, now: u64)
    requires
        keys_unique(s.deltas),
        has_addr(s.players, a),
        !s.players[addr_index(s.players, a)].ready,
        addrs_unique(s.players),
    ensures
        packet_step(s, a, ClientPacket::Ready, now).1 == seq![
            to_one(a, ServerMsg::BlockBatch { updates: s.deltas }),
        ],
        forall|k: (crate::chunk::ChunkCoord, u8, u8, u8)|
            entries_map(s.deltas).contains_key(k) <==> exists|i: int|
                0 <= i < s.deltas.len() && entry_key(#[trigger] s.deltas[i]) == k,
        forall|i: int|
            0 <= i < s.deltas.len() ==> entries_map(s.deltas)[entry_key(#[trigger] s.deltas[i])]
                == s.deltas[i].block,
{
    let i = addr_index(s.players, a);
    lemma_update_same_addr(s.players, i, PlayerRecord { last_seen: now, ..s.players[i] });
    lemma_entries_map(s.deltas);
}

/// A block placed or broken by a connected player inside the world's height is
/// recorded and sent to every connected player; the changes then give that
/// cell the new block.
pub proof fn lemma_block_change_reaches_everyone(
    s: ServerView,
    a: PeerAddr,
    pkt: ClientPacket,
    now: u64,
)
    requires
        keys_unique(s.deltas),
        addrs_unique(s.players),
        has_addr(s.players, a),
        pkt matches ClientPacket::PlaceBlock { wx, wy, wz, block } ==> spec_locate(
            wx as int,
            wy as int,
            wz as int,
        ) is Some,
        pkt matches ClientPacket::BreakBlock { wx, wy, wz } ==> spec_locate(
            wx as int,
            wy as int,
            wz as int,
        ) is Some,
        pkt is PlaceBlock || pkt is BreakBlock,
    ensures
        ({
            let (wx, wy, wz, block) = match pkt {
                ClientPacket::PlaceBlock { wx, wy, wz, block } => (wx, wy, wz, block),
                ClientPacket::BreakBlock { wx, wy, wz } => (wx, wy, wz, BlockType::Air),
                _ => (0, 0, 0, BlockType::Air),
            };
            let p = spec_locate(wx as int, wy as int, wz as int).unwrap();
            let (s2, out) = packet_step(s, a, pkt, now);
            &&& out.len() == 1
            &&& out[0].to == addrs(s.players)
            &&& out[0].msg == (ServerMsg::BlockUpdate {
                coord: p.coord,
                lx: p.lx,
                ly: p.ly,
                lz: p.lz,
                block,
            })
            &&& keys_unique(s2.deltas)
            &&& entries_map(s2.deltas) == entries_map(s.deltas).insert(local_key(p), block)
        }),
{
    if has_addr(s.players, a) {
        let i = addr_index(s.players, a);
        lemma_update_same_addr(s.players, i, PlayerRecord { last_seen: now, ..s.players[i] });
    }
    let (wx, wy, wz, block) = match pkt {
        ClientPacket::PlaceBlock { wx, wy, wz, block } => (wx, wy, wz, block),
        ClientPacket::BreakBlock { wx, wy, wz } => (wx, wy, wz, BlockType::Air),
        _ => (0, 0, 0, BlockType::Air),
    };
    let p = spec_locate(wx as int, wy as int, wz as int).unwrap();
    lemma_entries_insert(s.deltas, update_at(p, block));
}

/// A player that disconnects is gone afterwards, and none of the packets
/// announcing it go to its address.
pub proof fn lemma_disconnect_removes(s: ServerView, a: PeerAddr, now: u64)
    requires
        addrs_unique(s.players),
        has_addr(s.players, a),
    ensures
        !has_addr(packet_step(s, a, ClientPacket::Disconnect, now).0.players, a),
        packet_step(s, a, ClientPacket::Disconnect, now).0.players.len() == s.players.len() - 1,
        forall|k: int|
            0 <= k < packet_step(s, a, ClientPacket::Disconnect, now).1.len() ==> !(#[trigger] packet_step(
                s,
                a,
                ClientPacket::Disconnect,
                now,
            ).1[k]).to.contains(a),
{
    let i0 = addr_index(s.players, a);
    let t = touch(s.players, a, now);
    lemma_update_same_addr(s.players, i0, PlayerRecord { last_seen: now, ..s.players[i0] });
    let i = addr_index(t, a);
    let rest = t.remove(i);
    assert(!has_addr(rest, a)) by {
        if has_addr(rest, a) {
            let j = choose|j: int| 0 <= j < rest.len() && (#[trigger] rest[j]).addr == a;
            let jj = if j < i { j } else { j + 1 };
            assert(rest[j] == t[jj]);
        }
    }
    assert(!addrs(rest).contains(a)) by {
        if addrs(rest).contains(a) {
            let j = choose|j: int| 0 <= j < addrs(rest).len() && addrs(rest)[j] == a;
            assert(rest[j].addr == a);
        }
    }
}

/// Movement is relayed to every other player and never back to the mover.
pub proof fn lemma_move_skips_sender(
    s: ServerView,
    a: PeerAddr,
    x: u32,
    y: u32,
    z: u32,
    yaw: u32,
    pitch: u32,
    now: u64,
)
    requires
        addrs_unique(s.players),
        has_addr(s.players, a),
    ensures
        packet_step(s, a, ClientPacket::Move { x, y, z, yaw, pitch }, now).1.len() == 1,
        packet_step(s, a, ClientPacket::Move { x, y, z, yaw, pitch }, now).1[0].to == addrs_except(
            s.players,
            a,
        ),
        !packet_step(s, a, ClientPacket::Move { x, y, z, yaw, pitch }, now).1[0].to.contains(a),
{
    let i = addr_index(s.players, a);
    lemma_update_same_addr(s.players, i, PlayerRecord { last_seen: now, ..s.players[i] });
    lemma_addrs_except_excludes(s.players, a);
}

/// A block placed or broken from an address that never connected changes
/// nothing and is sent to nobody.
pub proof fn lemma_edit_from_stranger_ignored(s: ServerView, a: PeerAddr, pkt: ClientPacket, now: u64)
    requires
        !has_addr(s.players, a),
        pkt is PlaceBlock || pkt is BreakBlock,
    ensures
        packet_step(s, a, pkt, now) == (s, Seq::<OutMsg>::empty()),
{
    assert(ServerView { players: touch(s.players, a, now), ..s } == s);
}

/// A connect from an address that is already connected adds no player and
/// uses no id: the player keeps its id, name and place, and gets exactly one
/// welcome again, with its own id and position.
pub proof fn lemma_reconnect_welcomes_again(s: ServerView, a: PeerAddr, name: String, now: u64)
    requires
        addrs_unique(s.players),
        has_addr(s.players, a),
    ensures
        ({
            let p = s.players[addr_index(s.players, a)];
            let (s2, out) = packet_step(s, a, ClientPacket::Connect { name }, now);
            &&& s2 == ServerView { players: touch(s.players, a, now), ..s }
            &&& s2.next_id == s.next_id
            &&& same_addrs(s.players, s2.players)
            &&& s2.players[addr_index(s2.players, a)] == PlayerRecord { last_seen: now, ..p }
            &&& out == seq![
                to_one(
                    a,
                    ServerMsg::Welcome {
                        player_id: p.id,
                        seed: s.seed,
                        spawn_x: p.x,
                        spawn_y: p.y,
                        spawn_z: p.z,
                    },
                ),
            ]
        }),
{
    let i = addr_index(s.players, a);
    lemma_update_same_addr(s.players, i, PlayerRecord { last_seen: now, ..s.players[i] });
}

/// A ready player is sent the changes once: after a `Ready` from a connected
/// player, that player is marked ready, and a second `Ready` changes nothing
/// but the time it was last heard from and sends nothing. A `Ready` from an
/// address that never connected changes nothing and sends nothing.
pub proof fn lemma_ready_once(s: ServerView, a: PeerAddr, now: u64, later: u64)
    requires
        addrs_unique(s.players),
    ensures
        !has_addr(s.players, a) ==> packet_step(s, a, ClientPacket::Ready, now) == (
            s,
            Seq::<OutMsg>::empty(),
        ),
        has_addr(s.players, a) ==> ({
            let s2 = packet_step(s, a, ClientPacket::Ready, now).0;
            let (s3, out) = packet_step(s2, a, ClientPacket::Ready, later);
            &&& has_addr(s2.players, a)
            &&& s2.players[addr_index(s2.players, a)].ready
            &&& s2.next_id == s.next_id
            &&& s2.deltas == s.deltas
            &&& out == Seq::<OutMsg>::empty()
            &&& s3 == ServerView { players: touch(s2.players, a, later), ..s2 }
        }),
{
    if has_addr(s.players, a) {
        let i = addr_index(s.players, a);
        let t = touch(s.players, a, now);
        lemma_update_same_addr(s.players, i, PlayerRecord { last_seen: now, ..s.players[i] });
        let p = t[i];
        let s2 = packet_step(s, a, ClientPacket::Ready, now).0;
        if !p.ready {
            lemma_update_same_addr(t, i, PlayerRecord { ready: true, ..p });
        }
        assert(has_addr(s2.players, a));
        assert(addr_index(s2.players, a) == i);
        let q = s2.players[i];
        lemma_update_same_addr(s2.players, i, PlayerRecord { last_seen: later, ..q });
    } else {
        assert(ServerView { players: touch(s.players, a, now), ..s } == s);
    }
}

/// Every packet keeps the players' addresses and ids unique and their ids
/// below the next id, which never goes down; a newcomer gets the next id,
/// which no player held before.
pub proof fn lemma_packet_keeps_ids_fresh(s: ServerView, a: PeerAddr, pkt: ClientPacket, now: u64)
    requires
        addrs_unique(s.players),
        ids_fresh(s.players, s.next_id),
        pkt is Connect && !has_addr(s.players, a) ==> s.next_id < u64::MAX,
    ensures
        ({
            let s2 = packet_step(s, a, pkt, now).0;
            &&& addrs_unique(s2.players)
            &&& ids_fresh(s2.players, s2.next_id)
            &&& s2.next_id >= s.next_id
            &&& (pkt is Connect && !has_addr(s.players, a)) ==> {
                &&& s2.players.len() == s.players.len() + 1
                &&& s2.players.last().id == s.next_id
                &&& forall|j: int|
                    0 <= j < s.players.len() ==> (#[trigger] s.players[j]).id != s2.players.last().id
            }
        }),
{
    let t = touch(s.players, a, now);
    if has_addr(s.players, a) {
        let i = addr_index(s.players, a);
        lemma_update_same_addr(s.players, i, PlayerRecord { last_seen: now, ..s.players[i] });
        let p = t[i];
        assert(addr_index(t, a) == i);
        match pkt {
            ClientPacket::Ready => {
                if !p.ready {
                    lemma_update_same_addr(t, i, PlayerRecord { ready: true, ..p });
                }
            },
            ClientPacket::Move { x, y, z, yaw, pitch } => {
                lemma_update_same_addr(t, i, PlayerRecord { x, y, z, yaw, pitch, ..p });
            },
            ClientPacket::Pong { id } => {
                if p.ping_id == id {
                    lemma_update_same_addr(t, i, PlayerRecord { ping_sent: None, ..p });
                }
            },
            ClientPacket::Disconnect => {
                lemma_remove_fresh(t, i, s.next_id);
            },
            ClientPacket::BreakBlock { wx, wy, wz } => {},
            ClientPacket::PlaceBlock { wx, wy, wz, block } => {},
            _ => {},
        }
    } else {
        assert(t == s.players);
        match pkt {
            ClientPacket::Connect { name } => {
                lemma_push_fresh(s.players, new_player(s.next_id, name@, a, now), s.next_id);
            },
            _ => {},
        }
    }
}

/// The players' addresses and ids stay unique and below the next id through
/// players leaving one after the other.
proof fn lemma_leave_all_fresh(s: ServerView, list: Seq<PeerAddr>)
    requires
        addrs_unique(s.players),
        ids_fresh(s.players, s.next_id),
    ensures
        addrs_unique(leave_all(s, list).0.players),
        ids_fresh(leave_all(s, list).0.players, leave_all(s, list).0.next_id),
        leave_all(s, list).0.next_id == s.next_id,
    decreases list.len(),
{
    if list.len() > 0 {
        lemma_leave_all_fresh(s, list.drop_last());
        let s1 = leave_all(s, list.drop_last()).0;
        let b = list.last();
        if has_addr(s1.players, b) {
            lemma_remove_fresh(s1.players, addr_index(s1.players, b), s1.next_id);
        }
    }
}

/// The periodic duties (a keepalive round, a time broadcast, dropping the
/// players that timed out) keep the players' addresses and ids unique and
/// below the next id, which they leave as it is.
pub proof fn lemma_duties_keep_ids_fresh(s: ServerView, now: u64, time: u32)
    requires
        addrs_unique(s.players),
        ids_fresh(s.players, s.next_id),
    ensures
        addrs_unique(keepalive_step(s, now).0.players),
        ids_fresh(keepalive_step(s, now).0.players, keepalive_step(s, now).0.next_id),
        keepalive_step(s, now).0.next_id == s.next_id,
        addrs_unique(time_sync_step(s, now, time).0.players),
        ids_fresh(time_sync_step(s, now, time).0.players, time_sync_step(s, now, time).0.next_id),
        time_sync_step(s, now, time).0.next_id == s.next_id,
        addrs_unique(drop_step(s, now).0.players),
        ids_fresh(drop_step(s, now).0.players, drop_step(s, now).0.next_id),
        drop_step(s, now).0.next_id == s.next_id,
{
    if elapsed(now, s.last_ping) >= KEEPALIVE_EVERY_NANOS {
        let ps2 = keepalive_step(s, now).0.players;
        assert(same_addrs(s.players, ps2));
        lemma_same_addrs(s.players, ps2);
    }
    lemma_leave_all_fresh(s, timed_out_addrs(s.players, now));
}

/// A newcomer is told about every player already connected, each with its
/// id, name and current position: after the notices for the joining and the
/// welcome, the notice at place `2 + j` goes to the newcomer alone and
/// describes player `j`.
pub proof fn lemma_newcomer_meets_everyone(s: ServerView, a: PeerAddr, name: String, now: u64)
    requires
        !has_addr(s.players, a),
    ensures
        ({
            let out = packet_step(s, a, ClientPacket::Connect { name }, now).1;
            &&& out.len() == 2 + s.players.len()
            &&& forall|j: int|
                0 <= j < s.players.len() ==> #[trigger] out[2 + j] == (OutMsg {
                    to: seq![a],
                    msg: ServerMsg::PlayerJoined {
                        player_id: s.players[j].id,
                        name: s.players[j].name,
                        x: s.players[j].x,
                        y: s.players[j].y,
                        z: s.players[j].z,
                    },
                })
        }),
{
    assert(touch(s.players, a, now) == s.players);
    let out = packet_step(s, a, ClientPacket::Connect { name }, now).1;
    assert forall|j: int| 0 <= j < s.players.len() implies #[trigger] out[2 + j] == (OutMsg {
        to: seq![a],
        msg: ServerMsg::PlayerJoined {
            player_id: s.players[j].id,
            name: s.players[j].name,
            x: s.players[j].x,
            y: s.players[j].y,
            z: s.players[j].z,
        },
    }) by {
        assert(out[2 + j] == s.players.map_values(|q: PlayerRecord| joined_notice(a, q))[j]);
    }
}

/// A move is stored: afterwards the mover's record holds the move's
/// position and orientation, and a newcomer connecting next is told that
/// position for it.
pub proof fn lemma_move_then_newcomer_sees_it(
    s: ServerView,
    q: PeerAddr,
    x: u32,
    y: u32,
    z: u32,
    yaw: u32,
    pitch: u32,
    now: u64,
    a: PeerAddr,
    name: String,
    later: u64,
)
    requires
        addrs_unique(s.players),
        has_addr(s.players, q),
        !has_addr(s.players, a),
    ensures
        ({
            let iq = addr_index(s.players, q);
            let s2 = packet_step(s, q, ClientPacket::Move { x, y, z, yaw, pitch }, now).0;
            let out = packet_step(s2, a, ClientPacket::Connect { name }, later).1;
            &&& s2.players.len() == s.players.len()
            &&& addr_index(s2.players, q) == iq
            &&& s2.players[iq].x == x && s2.players[iq].y == y && s2.players[iq].z == z
            &&& s2.players[iq].yaw == yaw && s2.players[iq].pitch == pitch
            &&& out[2 + iq] == (OutMsg {
                to: seq![a],
                msg: ServerMsg::PlayerJoined {
                    player_id: s.players[iq].id,
                    name: s.players[iq].name,
                    x,
                    y,
                    z,
                },
            })
        }),
{
    let iq = addr_index(s.players, q);
    let t = touch(s.players, q, now);
    lemma_update_same_addr(s.players, iq, PlayerRecord { last_seen: now, ..s.players[iq] });
    let p = t[iq];
    lemma_update_same_addr(t, iq, PlayerRecord { x, y, z, yaw, pitch, ..p });
    let s2 = packet_step(s, q, ClientPacket::Move { x, y, z, yaw, pitch }, now).0;
    assert(!has_addr(s2.players, a));
    lemma_newcomer_meets_everyone(s2, a, name, later);
}

/// A chat line from a connected player goes, once, to every connected player
/// (the sender included), under the sender's name and with the text as sent;
/// it changes nothing but the time the sender was last heard from. A chat
/// line from an address that never connected goes nowhere.
pub proof fn lemma_chat_reaches_everyone(s: ServerView, a: PeerAddr, text: String, now: u64)
    requires
        addrs_unique(s.players),
    ensures
        ({
            let (s2, out) = packet_step(s, a, ClientPacket::ChatMessage { text }, now);
            &&& s2 == ServerView { players: touch(s.players, a, now), ..s }
            &&& !has_addr(s.players, a) ==> s2 == s && out.len() == 0
            &&& has_addr(s.players, a) ==> {
                &&& out.len() == 1
                &&& out[0].msg == (ServerMsg::ChatMessage {
                    sender_name: s.players[addr_index(s.players, a)].name,
                    message: text@,
                })
                &&& out[0].to.len() == s.players.len()
                &&& forall|k: int| 0 <= k < s.players.len() ==> #[trigger] out[0].to[k] == s.players[k].addr
            }
        }),
{
    if has_addr(s.players, a) {
        let i = addr_index(s.players, a);
        lemma_update_same_addr(s.players, i, PlayerRecord { last_seen: now, ..s.players[i] });
        let t = touch(s.players, a, now);
        assert forall|k: int| 0 <= k < s.players.len() implies #[trigger] addrs(t)[k] == s.players[k].addr by {
            assert(t[k].addr == s.players[k].addr);
        }
    } else {
        assert(touch(s.players, a, now) == s.players);
    }
}

/// The server's authoritative state: the world, the connected players, and
/// the clocks of its periodic duties.
pub struct ServerState {
    world: World,
    players: Vec<ConnectedPlayer>,
    next_id: PlayerId,
    last_ping: u64,
    ping_counter: u32,
    last_time_sync: u64,
}

impl View for ServerState {
    type V = ServerView;

    closed spec fn view(&self) -> ServerView {
        ServerView {
            seed: self.world.seed,
            deltas: self.world.deltas.entries(),
            players: self.players@.map_values(|p: ConnectedPlayer| p@),
            next_id: self.next_id,
            last_ping: self.last_ping,
            ping_counter: self.ping_counter,
            last_time_sync: self.last_time_sync,
        }
    }
}

/// A one-element list holding `a`.
fn single(a: PeerAddr) -> (v: Vec<PeerAddr>)
    ensures
        v@ == seq![a],
{
    let mut v: Vec<PeerAddr> = Vec::new();
    v.push(a);
    v
}

impl ServerState {
    /// The world's changes hold each cell once and no two players share an address.
    pub closed spec fn wf(&self) -> bool {
        &&& self.world.wf()
        &&& addrs_unique(self@.players)
        &&& ids_fresh(self@.players, self@.next_id)
    }

    /// The well-formed state keeps each changed cell once.
    pub proof fn lemma_wf(&self)
        requires
            self.wf(),
        ensures
            keys_unique(self@.deltas),
            addrs_unique(self@.players),
            ids_fresh(self@.players, self@.next_id),
    {
        self.world.deltas.lemma_unique();
    }

    /// A server with no players, no changes, and its clocks started at time 0.
    pub fn new(seed: u32) -> (s: ServerState)
        ensures
            s.wf(),
            s@ == (ServerView {
                seed,
                deltas: Seq::empty(),
                players: Seq::empty(),
                next_id: 1,
                last_ping: 0,
                ping_counter: 0,
                last_time_sync: 0,
            }),
    {
        let s = ServerState {
            world: World::new(seed),
            players: Vec::new(),
            next_id: 1,
            last_ping: 0,
            ping_counter: 0,
            last_time_sync: 0,
        };
        assert(s@.players =~= Seq::<PlayerRecord>::empty());
        s
    }

    /// The id the next new player gets.
    pub fn next_id(&self) -> (r: PlayerId)
        ensures
            r == self@.next_id,
    {
        self.next_id
    }

    /// How many keepalive rounds have run.
    pub fn ping_counter(&self) -> (r: u32)
        ensures
            r == self@.ping_counter,
    {
        self.ping_counter
    }

    /// When the last keepalive round ran.
    pub fn last_ping(&self) -> (r: u64)
        ensures
            r == self@.last_ping,
    {
        self.last_ping
    }

    /// Some player is connected from `a`.
    pub fn is_connected(&self, a: PeerAddr) -> (r: bool)
        requires
            self.wf(),
        ensures
            r == has_addr(self@.players, a),
    {
        self.find_player(a).is_some()
    }

    /// Position of the player connected from `a`.
    fn find_player(&self, a: PeerAddr) -> (r: Option<usize>)
        requires
            self.wf(),
        ensures
            match r {
                Some(i) => has_addr(self@.players, a) && i == addr_index(self@.players, a) && i
                    < self@.players.len(),
                None => !has_addr(self@.players, a),
            },
    {
        let ghost ps = self@.players;
        assert(addrs_unique(ps));
        let mut i: usize = 0;
        while i < self.players.len()
            invariant
                i <= self.players@.len(),
                ps == self@.players,
                ps.len() == self.players@.len(),
                addrs_unique(ps),
                forall|j: int| 0 <= j < i ==> (#[trigger] ps[j]).addr != a,
            decreases self.players@.len() - i,
        {
            if self.players[i].addr == a {
                proof {
                    assert(ps[i as int].addr == a);
                    let k = addr_index(ps, a);
                    assert(k == i) by {
                        if k != i {
                            assert(ps[k].addr != ps[i as int].addr);
                        }
                    }
                }
                return Some(i);
            }
            i = i + 1;
        }
        None
    }

    /// Addresses of all players, in order.
    fn all_addrs(&self) -> (v: Vec<PeerAddr>)
        ensures
            v@ == addrs(self@.players),
    {
        let ghost ps = self@.players;
        let mut v: Vec<PeerAddr> = Vec::new();
        let mut i: usize = 0;
        while i < self.players.len()
            invariant
                i <= self.players@.len(),
                ps == self@.players,
                ps.len() == self.players@.len(),
                v@ == addrs(ps).take(i as int),
            decreases self.players@.len() - i,
        {
            v.push(self.players[i].addr);
            i = i + 1;
            assert(v@ =~= addrs(ps).take(i as int));
        }
        assert(v@ =~= addrs(ps));
        v
    }

    /// Addresses of all players but the one at `a`, in order.
    fn addrs_except(&self, a: PeerAddr) -> (v: Vec<PeerAddr>)
        ensures
            v@ == addrs_except(self@.players, a),
    {
        let ghost ps = self@.players;
        let mut v: Vec<PeerAddr> = Vec::new();
        let mut i: usize = 0;
        while i < self.players.len()
            invariant
                i <= self.players@.len(),
                ps == self@.players,
                ps.len() == self.players@.len(),
                v@ == addrs_except(ps.take(i as int), a),
            decreases self.players@.len() - i,
        {
            let b = self.players[i].addr;
            assert(ps.take(i + 1).drop_last() =~= ps.take(i as int));
            if b != a {
                v.push(b);
            }
            i = i + 1;
        }
        assert(ps.take(ps.len() as int) =~= ps);
        v
    }

    /// A connect from `a` with `name` at time `now`.
    fn on_connect(&mut self, a: PeerAddr, name: String, now: u64) -> (out: Vec<Outgoing>)
        requires
            old(self).wf(),
            !has_addr(old(self)@.players, a) ==> old(self)@.next_id < u64::MAX,
        ensures
            final(self).wf(),
            final(self)@ == connect_step(old(self)@, a, name@, now).0,
            out_view(out@) == connect_step(old(self)@, a, name@, now).1,
    {
        let ghost s0 = self@;
        let ghost ps = s0.players;
        let mut out: Vec<Outgoing> = Vec::new();
        if let Some(i) = self.find_player(a) {
            let p = &self.players[i];
            let welcome = ServerPacket::Welcome {
                player_id: p.id,
                seed: self.world.seed,
                spawn_x: p.x,
                spawn_y: p.y,
                spawn_z: p.z,
            };
            out.push(Outgoing { to: single(a), packet: welcome });
            assert(out_view(out@) =~= connect_step(s0, a, name@, now).1);
            return out;
        }
        let id = self.next_id;
        self.next_id = id + 1;
        let joined = ServerPacket::PlayerJoined {
            player_id: id,
            name: name.clone(),
            x: 0,
            y: SPAWN_Y_BITS,
            z: 0,
        };
        out.push(Outgoing { to: self.all_addrs(), packet: joined });
        let player = ConnectedPlayer {
            id,
            name,
            addr: a,
            x: 0,
            y: SPAWN_Y_BITS,
            z: 0,
            yaw: 0,
            pitch: 0,
            last_seen: now,
            ping_id: 0,
            ping_sent: None,
            ready: false,
        };
        let ghost np = player@;
        self.players.push(player);
        proof {
            assert(self@.players =~= ps.push(np));
            lemma_push_fresh(ps, np, s0.next_id);
        }
        let welcome = ServerPacket::Welcome {
            player_id: id,
            seed: self.world.seed,
            spawn_x: 0,
            spawn_y: SPAWN_Y_BITS,
            spawn_z: 0,
        };
        out.push(Outgoing { to: single(a), packet: welcome });
        let ghost prefix = out_view(out@);
        let n = self.players.len();
        let mut k: usize = 0;
        while k < n
            invariant
                k <= n,
                n == ps.len() + 1,
                n == self.players@.len(),
                self@.players == ps.push(np),
                np.addr == a,
                !has_addr(ps, a),
                out_view(out@) == prefix + ps.take(
                    if k <= ps.len() {
                        k as int
                    } else {
                        ps.len() as int
                    },
                ).map_values(|q: PlayerRecord| joined_notice(a, q)),
            decreases n - k,
        {
            let q = &self.players[k];
            assert(self@.players[k as int] == q@);
            if q.addr != a {
                let notice = ServerPacket::PlayerJoined {
                    player_id: q.id,
                    name: q.name.clone(),
                    x: q.x,
                    y: q.y,
                    z: q.z,
                };
                let ghost before = out@;
                let o = Outgoing { to: single(a), packet: notice };
                assert(o@ == joined_notice(a, ps[k as int]));
                out.push(o);
                proof {
                    assert(out_view(out@) =~= out_view(before).push(o@));
                    assert(k < ps.len());
                    assert(self@.players[k as int] == ps[k as int]);
                    assert(ps.take(k + 1) =~= ps.take(k as int).push(ps[k as int]));
                    assert(out_view(out@) =~= prefix + ps.take(k + 1).map_values(
                        |q: PlayerRecord| joined_notice(a, q),
                    ));
                }
            } else {
                proof {
                    if k < ps.len() {
                        assert(self@.players[k as int] == ps[k as int]);
                        assert(has_addr(ps, a));
                    }
                }
            }
            k = k + 1;
        }
        proof {
            assert(ps.take(ps.len() as int) =~= ps);
            assert(out_view(out@) =~= connect_step(s0, a, name@, now).1);
            assert(self@ =~= connect_step(s0, a, name@, now).0);
        }
        out
    }

    /// The player at `a`, if any, leaves.
    fn on_leave(&mut self, a: PeerAddr) -> (out: Vec<Outgoing>)
        requires
            old(self).wf(),
        ensures
            final(self).wf(),
            final(self)@ == leave_step(old(self)@, a).0,
            out_view(out@) == leave_step(old(self)@, a).1,
    {
        let ghost s0 = self@;
        let ghost ps = s0.players;
        let mut out: Vec<Outgoing> = Vec::new();
        if let Some(i) = self.find_player(a) {
            let p = self.players.remove(i);
            proof {
                assert(self@.players =~= ps.remove(i as int));
                lemma_remove_fresh(ps, i as int, s0.next_id);
            }
            let pkt = ServerPacket::PlayerLeft { player_id: p.id };
            out.push(Outgoing { to: self.all_addrs(), packet: pkt });
            proof {
                assert(out_view(out@) =~= leave_step(s0, a).1);
                assert(self@ =~= leave_step(s0, a).0);
            }
        } else {
            assert(out_view(out@) =~= leave_step(s0, a).1);
        }
        out
    }

    /// A request to set world cell (wx, wy, wz) to `block`.
    fn on_block(&mut self, wx: i32, wy: i32, wz: i32, block: BlockType) -> (out: Vec<Outgoing>)
        requires
            old(self).wf(),
        ensures
            final(self).wf(),
            final(self)@ == block_step(old(self)@, wx, wy, wz, block).0,
            out_view(out@) == block_step(old(self)@, wx, wy, wz, block).1,
    {
        let ghost s0 = self@;
        let mut out: Vec<Outgoing> = Vec::new();
        match self.world.apply_set(wx, wy, wz, block) {
            Some(e) => {
                let pkt = ServerPacket::BlockUpdate {
                    coord: e.coord,
                    lx: e.lx,
                    ly: e.ly,
                    lz: e.lz,
                    block: e.block,
                };
                out.push(Outgoing { to: self.all_addrs(), packet: pkt });
            },
            None => {},
        }
        proof {
            assert(self@.players =~= s0.players);
            assert(out_view(out@) =~= block_step(s0, wx, wy, wz, block).1);
            assert(self@ =~= block_step(s0, wx, wy, wz, block).0);
        }
        out
    }

    /// Handles a packet that arrived from `a` at time `now` (nanoseconds on the
    /// server's clock) and returns the packets to send.
    pub fn handle_packet(&mut self, a: PeerAddr, pkt: ClientPacket, now: u64) -> (out: Vec<Outgoing>)
        requires
            old(self).wf(),
            pkt is Connect && !has_addr(old(self)@.players, a) ==> old(self)@.next_id < u64::MAX,
        ensures
            final(self).wf(),
            final(self)@ == packet_step(old(self)@, a, pkt, now).0,
            out_view(out@) == packet_step(old(self)@, a, pkt, now).1,
    {
        let ghost s0 = self@;
        self.touch(a, now);
        let ghost s = self@;
        proof {
            if has_addr(s0.players, a) {
                lemma_update_same_addr(
                    s0.players,
                    addr_index(s0.players, a),
                    PlayerRecord { last_seen: now, ..s0.players[addr_index(s0.players, a)] },
                );
            }
        }
        let ghost i = addr_index(s.players, a);
        let ghost p = s.players[i];
        match pkt {
            ClientPacket::Connect { name } => self.on_connect(a, name, now),
            ClientPacket::Ready => {
                let mut out: Vec<Outgoing> = Vec::new();
                if let Some(k) = self.find_player(a) {
                    if !self.players[k].ready {
                        self.players[k].ready = true;
                        proof {
                            lemma_update_same_addr(s.players, i, PlayerRecord { ready: true, ..p });
                            assert(self@.players =~= s.players.update(i, PlayerRecord { ready: true, ..p }));
                        }
                        let batch = self.world.initial_batch();
                        out.push(Outgoing { to: single(a), packet: batch });
                    }
                }
                proof {
                    assert(out_view(out@) =~= packet_step(s0, a, pkt, now).1);
                    assert(self@ =~= packet_step(s0, a, pkt, now).0);
                }
                out
            },
            ClientPacket::Move { x, y, z, yaw, pitch } => {
                let mut out: Vec<Outgoing> = Vec::new();
                if let Some(k) = self.find_player(a) {
                    self.players[k].x = x;
                    self.players[k].y = y;
                    self.players[k].z = z;
                    self.players[k].yaw = yaw;
                    self.players[k].pitch = pitch;
                    let id = self.players[k].id;
                    proof {
                        let np = PlayerRecord { x, y, z, yaw, pitch, ..p };
                        lemma_update_same_addr(s.players, i, np);
                        assert(self@.players =~= s.players.update(i, np));
                    }
                    let moved = ServerPacket::PlayerMoved { player_id: id, x, y, z, yaw, pitch };
                    out.push(Outgoing { to: self.addrs_except(a), packet: moved });
                }
                proof {
                    assert(out_view(out@) =~= packet_step(s0, a, pkt, now).1);
                    assert(self@ =~= packet_step(s0, a, pkt, now).0);
                }
                out
            },
            ClientPacket::BreakBlock { wx, wy, wz } => {
                if self.find_player(a).is_some() {
                    self.on_block(wx, wy, wz, BlockType::Air)
                } else {
                    Vec::new()
                }
            },
            ClientPacket::PlaceBlock { wx, wy, wz, block } => {
                if self.find_player(a).is_some() {
                    self.on_block(wx, wy, wz, block)
                } else {
                    Vec::new()
                }
            },
            ClientPacket::ChatMessage { text } => {
                let mut out: Vec<Outgoing> = Vec::new();
                if let Some(k) = self.find_player(a) {
                    let sender_name = self.players[k].name.clone();
                    let msg = ServerPacket::ChatMessage { sender_name, message: text };
                    out.push(Outgoing { to: self.all_addrs(), packet: msg });
                }
                proof {
                    assert(out_view(out@) =~= packet_step(s0, a, pkt, now).1);
                }
                out
            },
            ClientPacket::Pong { id } => {
                if let Some(k) = self.find_player(a) {
                    if self.players[k].ping_id == id {
                        self.players[k].ping_sent = None;
                        proof {
                            let np = PlayerRecord { ping_sent: None, ..p };
                            lemma_update_same_addr(s.players, i, np);
                            assert(self@.players =~= s.players.update(i, np));
                        }
                    }
                }
                let out: Vec<Outgoing> = Vec::new();
                proof {
                    assert(out_view(out@) =~= packet_step(s0, a, pkt, now).1);
                    assert(self@ =~= packet_step(s0, a, pkt, now).0);
                }
                out
            },
            ClientPacket::Disconnect => self.on_leave(a),
        }
    }

    /// Runs a keepalive round at time `now` when one is due.
    pub fn keepalive(&mut self, now: u64) -> (out: Vec<Outgoing>)
        requires
            old(self).wf(),
            elapsed(now, old(self)@.last_ping) >= KEEPALIVE_EVERY_NANOS ==> old(self)@.ping_counter
                < u32::MAX,
        ensures
            final(self).wf(),
            final(self)@ == keepalive_step(old(self)@, now).0,
            out_view(out@) == keepalive_step(old(self)@, now).1,
    {
        let ghost s0 = self@;
        let ghost ps = s0.players;
        let mut out: Vec<Outgoing> = Vec::new();
        if now.saturating_sub(self.last_ping) < KEEPALIVE_EVERY_NANOS {
            assert(out_view(out@) =~= keepalive_step(s0, now).1);
            return out;
        }
        self.last_ping = now;
        self.ping_counter = self.ping_counter + 1;
        let id = self.ping_counter;
        let to = self.all_addrs();
        let mut i: usize = 0;
        while i < self.players.len()
            invariant
                i <= self.players@.len(),
                self.players@.len() == ps.len(),
                self.world == old(self).world,
                self.next_id == old(self).next_id,
                self.last_ping == now,
                self.ping_counter == id,
                self.last_time_sync == old(self).last_time_sync,
                self@.players == Seq::new(
                    ps.len(),
                    |k: int|
                        if k < i {
                            PlayerRecord { ping_id: id, ping_sent: Some(now), ..ps[k] }
                        } else {
                            ps[k]
                        },
                ),
            decreases self.players@.len() - i,
        {
            let ghost prev = self.players@;
            let ghost prev_view = self@.players;
            assert(self@.players[i as int] == ps[i as int]);
            assert(prev[i as int]@ == ps[i as int]);
            self.players[i].ping_id = id;
            self.players[i].ping_sent = Some(now);
            proof {
                assert forall|k: int| 0 <= k < ps.len() implies #[trigger] self@.players[k] == (
                if k < i + 1 {
                    PlayerRecord { ping_id: id, ping_sent: Some(now), ..ps[k] }
                } else {
                    ps[k]
                }) by {
                    if k != i {
                        assert(self.players@[k] == prev[k]);
                        assert(prev_view[k] == prev[k]@);
                        assert(self@.players[k] == self.players@[k]@);
                    }
                }
                assert(self.players@[i as int]@ == PlayerRecord {
                    ping_id: id,
                    ping_sent: Some(now),
                    ..ps[i as int]
                });
                assert(self@.players =~= Seq::new(
                    ps.len(),
                    |k: int|
                        if k < i + 1 {
                            PlayerRecord { ping_id: id, ping_sent: Some(now), ..ps[k] }
                        } else {
                            ps[k]
                        },
                ));
            }
            i = i + 1;
        }
        out.push(Outgoing { to, packet: ServerPacket::Ping { id } });
        proof {
            let np = ps.map_values(
                |p: PlayerRecord| PlayerRecord { ping_id: id, ping_sent: Some(now), ..p },
            );
            assert(self@.players =~= np);
            assert(same_addrs(ps, np));
            lemma_same_addrs(ps, np);
            assert(out_view(out@) =~= keepalive_step(s0, now).1);
            assert(self@ =~= keepalive_step(s0, now).0);
        }
        out
    }

    /// Broadcasts the time of day `time` (the bit pattern of an `f32`) at time
    /// `now` when a broadcast is due.
    pub fn sync_time(&mut self, now: u64, time: u32) -> (out: Vec<Outgoing>)
        requires
            old(self).wf(),
        ensures
            final(self).wf(),
            final(self)@ == time_sync_step(old(self)@, now, time).0,
            out_view(out@) == time_sync_step(old(self)@, now, time).1,
    {
        let ghost s0 = self@;
        let mut out: Vec<Outgoing> = Vec::new();
        if now.saturating_sub(self.last_time_sync) >= TIME_SYNC_EVERY_NANOS {
            self.last_time_sync = now;
            out.push(Outgoing { to: self.all_addrs(), packet: ServerPacket::TimeUpdate { time } });
        }
        proof {
            assert(out_view(out@) =~= time_sync_step(s0, now, time).1);
            assert(self@ =~= time_sync_step(s0, now, time).0);
        }
        out
    }

    /// Addresses of the players that have timed out at `now`, in order.
    fn timed_out_addrs(&self, now: u64) -> (v: Vec<PeerAddr>)
        ensures
            v@ == timed_out_addrs(self@.players, now),
    {
        let ghost ps = self@.players;
        let mut v: Vec<PeerAddr> = Vec::new();
        let mut i: usize = 0;
        while i < self.players.len()
            invariant
                i <= self.players@.len(),
                ps == self@.players,
                ps.len() == self.players@.len(),
                v@ == timed_out_addrs(ps.take(i as int), now),
            decreases self.players@.len() - i,
        {
            let p = &self.players[i];
            assert(ps[i as int] == p@);
            assert(ps.take(i + 1).drop_last() =~= ps.take(i as int));
            if now.saturating_sub(p.last_seen) > CLIENT_TIMEOUT_NANOS {
                v.push(p.addr);
            }
            i = i + 1;
        }
        assert(ps.take(ps.len() as int) =~= ps);
        v
    }

    /// Every player that has been silent for longer than the timeout at time
    /// `now` leaves, and everyone left is told.
    pub fn drop_timed_out(&mut self, now: u64) -> (out: Vec<Outgoing>)
        requires
            old(self).wf(),
        ensures
            final(self).wf(),
            final(self)@ == drop_step(old(self)@, now).0,
            out_view(out@) == drop_step(old(self)@, now).1,
    {
        let ghost s0 = self@;
        let list = self.timed_out_addrs(now);
        let mut out: Vec<Outgoing> = Vec::new();
        let mut j: usize = 0;
        assert(list@.take(0) =~= Seq::<PeerAddr>::empty());
        assert(out_view(out@) =~= Seq::<OutMsg>::empty());
        while j < list.len()
            invariant
                j <= list@.len(),
                list@ == timed_out_addrs(s0.players, now),
                self.wf(),
                self@ == leave_all(s0, list@.take(j as int)).0,
                out_view(out@) == leave_all(s0, list@.take(j as int)).1,
            decreases list@.len() - j,
        {
            let ghost before = out@;
            let mut o = self.on_leave(list[j]);
            let ghost added = o@;
            out.append(&mut o);
            proof {
                assert(list@.take(j + 1).drop_last() =~= list@.take(j as int));
                assert(out@ =~= before + added);
                assert(out_view(out@) =~= out_view(before) + out_view(added));
            }
            j = j + 1;
        }
        assert(list@.take(list@.len() as int) =~= list@);
        out
    }

    /// Notes that the player at `a`, if any, was heard from at time `now`.
    fn touch(&mut self, a: PeerAddr, now: u64)
        requires
            old(self).wf(),
        ensures
            final(self).wf(),
            final(self)@ == (ServerView { players: touch(old(self)@.players, a, now), ..old(self)@ }),
    {
        let ghost ps = self@.players;
        if let Some(i) = self.find_player(a) {
            self.players[i].last_seen = now;
            proof {
                let np = ps.update(i as int, PlayerRecord { last_seen: now, ..ps[i as int] });
                assert(self@.players =~= np);
                lemma_update_same_addr(ps, i as int, PlayerRecord { last_seen: now, ..ps[i as int] });
            }
        }
    }
}

} // verus!
