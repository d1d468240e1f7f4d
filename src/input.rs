use vstd::prelude::*;
use crate::direction::GameDirection;

verus! {

/// The eight movement keys the game listens to: four per player.
#[derive(Clone, Copy, Debug, PartialEq, Eq, Hash, Structural)]
pub enum BoundKey {
    W,
    A,
    S,
    D,
    Up,
    Left,
    Down,
    Right,
}

/// Which of the two players a key binding or queue belongs to.
#[derive(Clone, Copy, Debug, PartialEq, Eq, Hash, Structural)]
pub enum Player {
    One,
    Two,
}

/// The direction a key steers for a player, if the key is bound to that player.
pub open spec fn key_direction(player: Player, key: BoundKey) -> Option<GameDirection> {
    match (player, key) {
        (Player::One, BoundKey::W) => Some(GameDirection::Up),
        (Player::One, BoundKey::A) => Some(GameDirection::Left),
        (Player::One, BoundKey::S) => Some(GameDirection::Down),
        (Player::One, BoundKey::D) => Some(GameDirection::Right),
        (Player::Two, BoundKey::Up) => Some(GameDirection::Up),
        (Player::Two, BoundKey::Left) => Some(GameDirection::Left),
        (Player::Two, BoundKey::Down) => Some(GameDirection::Down),
        (Player::Two, BoundKey::Right) => Some(GameDirection::Right),
        _ => None,
    }
}

/// Whether `key` is one of the player's four keys.
pub open spec fn is_bound(player: Player, key: BoundKey) -> bool {
    key_direction(player, key) is Some
}

/// A player's four keys in the order up, left, down, right.
pub open spec fn bound_keys_of(player: Player) -> Seq<BoundKey> {
    match player {
        Player::One => seq![BoundKey::W, BoundKey::A, BoundKey::S, BoundKey::D],
        Player::Two => seq![BoundKey::Up, BoundKey::Left, BoundKey::Down, BoundKey::Right],
    }
}

/// The direction a key steers for a player, or `None` when the key is not one of
/// that player's four keys.
pub fn direction_of(player: Player, key: BoundKey) -> (r: Option<GameDirection>)
    ensures
        r == key_direction(player, key),
{
    match (player, key) {
        (Player::One, BoundKey::W) => Some(GameDirection::Up),
        (Player::One, BoundKey::A) => Some(GameDirection::Left),
        (Player::One, BoundKey::S) => Some(GameDirection::Down),
        (Player::One, BoundKey::D) => Some(GameDirection::Right),
        (Player::Two, BoundKey::Up) => Some(GameDirection::Up),
        (Player::Two, BoundKey::Left) => Some(GameDirection::Left),
        (Player::Two, BoundKey::Down) => Some(GameDirection::Down),
        (Player::Two, BoundKey::Right) => Some(GameDirection::Right),
        _ => None,
    }
}

/// A player's four keys in the order up, left, down, right.
pub fn bound_keys(player: Player) -> (r: [BoundKey; 4])
    ensures
        r@ == bound_keys_of(player),
{
    let r = match player {
        Player::One => [BoundKey::W, BoundKey::A, BoundKey::S, BoundKey::D],
        Player::Two => [BoundKey::Up, BoundKey::Left, BoundKey::Down, BoundKey::Right],
    };
    assert(r@ =~= bound_keys_of(player));
    r
}

/// `q` with every occurrence of `k` taken out, the rest in their order.
pub open spec fn without(q: Seq<BoundKey>, k: BoundKey) -> Seq<BoundKey>
    decreases q.len(),
{
    if q.len() == 0 {
        q
    } else {
        let r = without(q.drop_last(), k);
        if q.last() == k {
            r
        } else {
            r.push(q.last())
        }
    }
}

/// The queue after a key-down edge: a key of the player's that is not yet held
/// goes to the back.
pub open spec fn pressed(player: Player, q: Seq<BoundKey>, k: BoundKey) -> Seq<BoundKey> {
    if is_bound(player, k) && !q.contains(k) {
        q.push(k)
    } else {
        q
    }
}

/// No key appears twice, and every key is one of the player's.
pub open spec fn queue_ok(player: Player, q: Seq<BoundKey>) -> bool {
    &&& q.no_duplicates()
    &&& forall|i: int| 0 <= i < q.len() ==> is_bound(player, #[trigger] q[i])
}

/// The key that steers now: the most recently pressed key still held.
pub open spec fn current_of(q: Seq<BoundKey>) -> Option<BoundKey> {
    if q.len() == 0 {
        None
    } else {
        Some(q.last())
    }
}

/// A key stays in the queue after taking out `k` exactly when it was there and is not `k`.
pub proof fn lemma_without_contains(q: Seq<BoundKey>, k: BoundKey, x: BoundKey)
    ensures
        without(q, k).contains(x) <==> (q.contains(x) && x != k),
    decreases q.len(),
{
    if q.len() > 0 {
        let p = q.drop_last();
        lemma_without_contains(p, k, x);
        let r = without(p, k);
        if p.contains(x) {
            let i = choose|i: int| 0 <= i < p.len() && p[i] == x;
            assert(q[i] == x);
        }
        if q.contains(x) && q.last() != x {
            let i = choose|i: int| 0 <= i < q.len() && q[i] == x;
            assert(p[i] == x);
        }
        if q.last() != k {
            let s = r.push(q.last());
            assert(s[r.len() as int] == q.last());
            if r.contains(x) {
                let i = choose|i: int| 0 <= i < r.len() && r[i] == x;
                assert(s[i] == x);
            }
            if s.contains(x) {
                let i = choose|i: int| 0 <= i < s.len() && s[i] == x;
                if i < r.len() {
                    assert(r[i] == x);
                }
            }
            if x == q.last() {
                assert(q[q.len() - 1] == x);
            }
        }
    }
}

/// Taking out a key that is not there changes nothing.
pub proof fn lemma_without_absent(q: Seq<BoundKey>, k: BoundKey)
    requires
        !q.contains(k),
    ensures
        without(q, k) == q,
    decreases q.len(),
{
    if q.len() > 0 {
        let p = q.drop_last();
        assert(!p.contains(k)) by {
            if p.contains(k) {
                let i = choose|i: int| 0 <= i < p.len() && p[i] == k;
                assert(q[i] == k);
            }
        }
        lemma_without_absent(p, k);
        assert(q.last() != k);
        assert(q =~= p.push(q.last()));
    }
}

/// Taking keys out keeps every increasing order of the remaining keys.
pub proof fn lemma_without_sorted(q: Seq<BoundKey>, k: BoundKey, f: spec_fn(BoundKey) -> int)
    requires
        forall|i: int, j: int| 0 <= i < j < q.len() ==> f(q[i]) < f(q[j]),
    ensures
        forall|i: int, j: int|
            0 <= i < j < without(q, k).len() ==> f(without(q, k)[i]) < f(without(q, k)[j]),
    decreases q.len(),
{
    if q.len() > 0 {
        let p = q.drop_last();
        lemma_without_sorted(p, k, f);
        let r = without(p, k);
        if q.last() != k {
            assert forall|i: int| 0 <= i < r.len() implies f(r[i]) < f(q.last()) by {
                assert(r.contains(r[i]));
                lemma_without_contains(p, k, r[i]);
                let m = choose|m: int| 0 <= m < p.len() && p[m] == r[i];
                assert(q[m] == r[i]);
            }
            let s = r.push(q.last());
            assert forall|i: int, j: int| 0 <= i < j < s.len() implies f(s[i]) < f(s[j]) by {
                if j == r.len() {
                    assert(s[j] == q.last());
                    assert(s[i] == r[i]);
                } else {
                    assert(s[i] == r[i] && s[j] == r[j]);
                }
            }
        }
    }
}

/// Taking a key out keeps the queue free of repeats and of foreign keys.
pub proof fn lemma_without_ok(player: Player, q: Seq<BoundKey>, k: BoundKey)
    requires
        queue_ok(player, q),
    ensures
        queue_ok(player, without(q, k)),
    decreases q.len(),
{
    if q.len() > 0 {
        let p = q.drop_last();
        assert(queue_ok(player, p)) by {
            assert forall|i: int, j: int| 0 <= i < p.len() && 0 <= j < p.len() && i != j implies p[i] != p[j] by {
                assert(q[i] == p[i] && q[j] == p[j]);
            }
            assert forall|i: int| 0 <= i < p.len() implies is_bound(player, #[trigger] p[i]) by {
                assert(q[i] == p[i]);
            }
        }
        lemma_without_ok(player, p, k);
        let r = without(p, k);
        if q.last() != k {
            assert(!r.contains(q.last())) by {
                lemma_without_contains(p, k, q.last());
                if p.contains(q.last()) {
                    let m = choose|m: int| 0 <= m < p.len() && p[m] == q.last();
                    assert(q[m] == q[q.len() - 1]);
                }
            }
            let s = r.push(q.last());
            assert forall|i: int, j: int| 0 <= i < s.len() && 0 <= j < s.len() && i != j implies s[i] != s[j] by {
                if i == r.len() {
                    assert(r.contains(s[j]));
                } else if j == r.len() {
                    assert(r.contains(s[i]));
                } else {
                    assert(s[i] == r[i] && s[j] == r[j]);
                }
            }
            assert forall|i: int| 0 <= i < s.len() implies is_bound(player, #[trigger] s[i]) by {
                if i < r.len() {
                    assert(s[i] == r[i]);
                }
            }
        }
    }
}

/// A key-down or key-up edge of one key.
#[derive(Clone, Copy, Debug, PartialEq, Eq, Hash, Structural)]
pub enum KeyEdge {
    Pressed(BoundKey),
    Released(BoundKey),
}

/// The key an edge is about.
pub open spec fn edge_key(e: KeyEdge) -> BoundKey {
    match e {
        KeyEdge::Pressed(k) => k,
        KeyEdge::Released(k) => k,
    }
}

/// The queue after one edge.
pub open spec fn step(player: Player, q: Seq<BoundKey>, e: KeyEdge) -> Seq<BoundKey> {
    match e {
        KeyEdge::Pressed(k) => pressed(player, q, k),
        KeyEdge::Released(k) => without(q, k),
    }
}

/// The queue after a sequence of edges, starting from `q`.
pub open spec fn replay_from(player: Player, q: Seq<BoundKey>, edges: Seq<KeyEdge>) -> Seq<BoundKey>
    decreases edges.len(),
{
    if edges.len() == 0 {
        q
    } else {
        step(player, replay_from(player, q, edges.drop_last()), edges.last())
    }
}

/// The queue after a sequence of edges, starting from no key held.
pub open spec fn replay(player: Player, edges: Seq<KeyEdge>) -> Seq<BoundKey> {
    replay_from(player, Seq::empty(), edges)
}

/// Whether `k` is held after `edges`: its last edge is a key-down.
pub open spec fn is_held(edges: Seq<KeyEdge>, k: BoundKey) -> bool
    decreases edges.len(),
{
    if edges.len() == 0 {
        false
    } else if edge_key(edges.last()) == k {
        edges.last() is Pressed
    } else {
        is_held(edges.drop_last(), k)
    }
}

/// The index of the key-down edge that began the current hold of `k`.
pub open spec fn hold_start(edges: Seq<KeyEdge>, k: BoundKey) -> int
    decreases edges.len(),
{
    if edges.len() == 0 {
        0
    } else {
        let p = edges.drop_last();
        if edges.last() == KeyEdge::Pressed(k) && !is_held(p, k) {
            edges.len() - 1
        } else if edge_key(edges.last()) == k && edges.last() is Released {
            0
        } else {
            hold_start(p, k)
        }
    }
}

/// The edges one key gives in a frame, from whether it was just pressed, just
/// released, and is held when the frame ends. A key held at the end ends with a
/// key-down, preceded by a key-up when it was also released (a new hold began);
/// a key not held at the end ends with a key-up, preceded by a key-down when it
/// was also pressed (a tap within the frame). A key with neither gives none.
pub open spec fn edges_for(k: BoundKey, down: bool, up: bool, held: bool) -> Seq<KeyEdge> {
    if !(down || up) {
        Seq::empty()
    } else if held {
        if up {
            seq![KeyEdge::Released(k), KeyEdge::Pressed(k)]
        } else {
            seq![KeyEdge::Pressed(k)]
        }
    } else {
        if down {
            seq![KeyEdge::Pressed(k), KeyEdge::Released(k)]
        } else {
            seq![KeyEdge::Released(k)]
        }
    }
}

/// The edges `k` gives in a frame with these just-pressed, just-released and
/// held keys.
pub open spec fn key_frame_edges(k: BoundKey, down: Seq<BoundKey>, up: Seq<BoundKey>, held: Seq<BoundKey>) -> Seq<KeyEdge> {
    edges_for(k, down.contains(k), up.contains(k), held.contains(k))
}

/// The edges of one frame: those of each of the player's keys in the order up,
/// left, down, right.
pub open spec fn frame_edges(keys: Seq<BoundKey>, down: Seq<BoundKey>, up: Seq<BoundKey>, held: Seq<BoundKey>) -> Seq<KeyEdge>
    decreases keys.len(),
{
    if keys.len() == 0 {
        Seq::empty()
    } else {
        frame_edges(keys.drop_last(), down, up, held) + key_frame_edges(keys.last(), down, up, held)
    }
}

/// A player's four keys are distinct, are the player's, and are all of them.
pub proof fn lemma_bound_keys(player: Player)
    ensures
        bound_keys_of(player).len() == 4,
        bound_keys_of(player).no_duplicates(),
        forall|j: int| 0 <= j < 4 ==> is_bound(player, #[trigger] bound_keys_of(player)[j]),
        forall|k: BoundKey| is_bound(player, k) ==> bound_keys_of(player).contains(k),
{
    let ks = bound_keys_of(player);
    match player {
        Player::One => {
            assert(ks[0] == BoundKey::W && ks[1] == BoundKey::A && ks[2] == BoundKey::S && ks[3] == BoundKey::D);
        },
        Player::Two => {
            assert(ks[0] == BoundKey::Up && ks[1] == BoundKey::Left && ks[2] == BoundKey::Down && ks[3] == BoundKey::Right);
        },
    }
    assert forall|k: BoundKey| is_bound(player, k) implies ks.contains(k) by {
        if ks[0] == k {
        } else if ks[1] == k {
        } else if ks[2] == k {
        } else {
            assert(ks[3] == k);
        }
    }
}

/// After a key-down, a key is in the queue when it was before, or when it is the
/// pressed key and one of the player's.
pub proof fn lemma_pressed_contains(player: Player, q: Seq<BoundKey>, k: BoundKey, x: BoundKey)
    ensures
        pressed(player, q, k).contains(x) <==> (q.contains(x) || (x == k && is_bound(player, k))),
{
    if is_bound(player, k) && !q.contains(k) {
        let r = q.push(k);
        assert(r[q.len() as int] == k);
        if q.contains(x) {
            let m = choose|m: int| 0 <= m < q.len() && q[m] == x;
            assert(r[m] == x);
        }
        if r.contains(x) && x != k {
            let m = choose|m: int| 0 <= m < r.len() && r[m] == x;
            assert(q[m] == x);
        }
    }
}

/// A held key's hold began at one of the edges seen so far.
pub proof fn lemma_hold_start_bound(edges: Seq<KeyEdge>, k: BoundKey)
    requires
        is_held(edges, k),
    ensures
        0 <= hold_start(edges, k) < edges.len(),
    decreases edges.len(),
{
    if edges.len() > 0 && !(edges.last() == KeyEdge::Pressed(k) && !is_held(edges.drop_last(), k)) {
        lemma_hold_start_bound(edges.drop_last(), k);
    }
}

/// Starting from no key held and fed only edges of the player's own keys, the
/// queue never holds a key twice, holds exactly the keys whose last edge was a
/// key-down, and lists them in the order their current holds began.
pub proof fn lemma_replay_tracks_held(player: Player, edges: Seq<KeyEdge>)
    requires
        forall|i: int| 0 <= i < edges.len() ==> is_bound(player, #[trigger] edge_key(edges[i])),
    ensures
        queue_ok(player, replay(player, edges)),
        forall|k: BoundKey| replay(player, edges).contains(k) <==> is_held(edges, k),
        forall|i: int, j: int|
            0 <= i < j < replay(player, edges).len() ==> hold_start(edges, replay(player, edges)[i])
                < hold_start(edges, replay(player, edges)[j]),
    decreases edges.len(),
{
    if edges.len() == 0 {
        assert(replay(player, edges) =~= Seq::<BoundKey>::empty());
    } else {
        let p = edges.drop_last();
        let e = edges.last();
        assert forall|i: int| 0 <= i < p.len() implies is_bound(player, #[trigger] edge_key(p[i])) by {
            assert(edges[i] == p[i]);
        }
        assert(is_bound(player, edge_key(edges[edges.len() - 1])));
        lemma_replay_tracks_held(player, p);
        let q0 = replay(player, p);
        let q = replay(player, edges);
        assert(q == step(player, q0, e));
        assert forall|x: BoundKey|
            is_held(edges, x) == (if edge_key(e) == x { e is Pressed } else { is_held(p, x) }) by {}
        match e {
            KeyEdge::Pressed(k) => {
                if q0.contains(k) {
                    assert(q == q0);
                    assert forall|x: BoundKey| q.contains(x) <==> is_held(edges, x) by {
                        if x != k {
                            assert(q0.contains(x) <==> is_held(p, x));
                        }
                    }
                    assert forall|i: int, j: int| 0 <= i < j < q.len() implies hold_start(edges, q[i])
                        < hold_start(edges, q[j]) by {
                        assert(hold_start(p, q[i]) < hold_start(p, q[j]));
                    }
                } else {
                    assert(q == q0.push(k));
                    assert forall|x: BoundKey| q.contains(x) <==> is_held(edges, x) by {
                        if x == k {
                            assert(q[q0.len() as int] == k);
                        } else {
                            assert(q0.contains(x) <==> is_held(p, x));
                            if q0.contains(x) {
                                let m = choose|m: int| 0 <= m < q0.len() && q0[m] == x;
                                assert(q[m] == x);
                            }
                            if q.contains(x) {
                                let m = choose|m: int| 0 <= m < q.len() && q[m] == x;
                                assert(q0[m] == x);
                            }
                        }
                    }
                    assert forall|i: int, j: int| 0 <= i < j < q.len() implies hold_start(edges, q[i])
                        < hold_start(edges, q[j]) by {
                        assert(q0.contains(q0[i]));
                        lemma_hold_start_bound(p, q0[i]);
                        if j < q0.len() {
                            assert(hold_start(p, q0[i]) < hold_start(p, q0[j]));
                        }
                    }
                    assert forall|i: int, j: int| 0 <= i < q.len() && 0 <= j < q.len() && i != j implies q[i] != q[j] by {
                        if i == q0.len() {
                            assert(q0.contains(q[j]));
                        } else if j == q0.len() {
                            assert(q0.contains(q[i]));
                        }
                    }
                    assert(queue_ok(player, q));
                }
            },
            KeyEdge::Released(k) => {
                assert(q == without(q0, k));
                lemma_without_ok(player, q0, k);
                assert forall|x: BoundKey| q.contains(x) <==> is_held(edges, x) by {
                    lemma_without_contains(q0, k, x);
                }
                let f = |x: BoundKey| hold_start(p, x);
                lemma_without_sorted(q0, k, f);
                assert forall|i: int, j: int| 0 <= i < j < q.len() implies hold_start(edges, q[i])
                    < hold_start(edges, q[j]) by {
                    assert(q.contains(q[i]) && q.contains(q[j]));
                    lemma_without_contains(q0, k, q[i]);
                    lemma_without_contains(q0, k, q[j]);
                    assert(f(q[i]) < f(q[j]));
                }
            },
        }
    }
}

/// Releasing the key that steers now, while another is held, hands control to
/// the key pressed just before it: the most recent of those still held.
pub proof fn lemma_release_current(player: Player, q: Seq<BoundKey>, k: BoundKey)
    requires
        queue_ok(player, q),
        q.len() >= 2,
        current_of(q) == Some(k),
    ensures
        without(q, k) == q.drop_last(),
        current_of(without(q, k)) == Some(q[q.len() - 2]),
{
    let p = q.drop_last();
    assert(!p.contains(k)) by {
        if p.contains(k) {
            let m = choose|m: int| 0 <= m < p.len() && p[m] == k;
            assert(q[m] == q[q.len() - 1]);
        }
    }
    lemma_without_absent(p, k);
}

/// Whether `v` holds `k`.
fn holds_key(v: &Vec<BoundKey>, k: BoundKey) -> (r: bool)
    ensures
        r == v@.contains(k),
{
    let mut i: usize = 0;
    while i < v.len()
        invariant
            0 <= i <= v.len(),
            forall|m: int| 0 <= m < i ==> v@[m] != k,
        decreases v.len() - i,
    {
        if v[i] == k {
            assert(v@[i as int] == k);
            return true;
        }
        i += 1;
    }
    false
}

/// The ordered record of one player's currently held movement keys, oldest
/// press first, with the key edges that led to it.
pub struct InputQueue {
    player: Player,
    keys: Vec<BoundKey>,
    history: Ghost<Seq<KeyEdge>>,
}

impl View for InputQueue {
    type V = Seq<BoundKey>;

    closed spec fn view(&self) -> Seq<BoundKey> {
        self.keys@
    }
}

impl InputQueue {
    /// The player whose keys this queue records.
    pub closed spec fn owner(&self) -> Player {
        self.player
    }

    /// The edges of the player's keys seen so far, oldest first.
    pub closed spec fn history(&self) -> Seq<KeyEdge> {
        self.history@
    }

    /// The queue holds each of its player's keys at most once and no other key,
    /// its history holds edges of the player's keys only, and the queue is what
    /// that history leaves.
    pub open spec fn wf(&self) -> bool {
        &&& queue_ok(self.owner(), self@)
        &&& forall|i: int| 0 <= i < self.history().len() ==> is_bound(self.owner(), #[trigger] edge_key(self.history()[i]))
        &&& self@ == replay(self.owner(), self.history())
    }

    /// An empty queue for `player`, with no edge seen.
    pub fn new(player: Player) -> (r: InputQueue)
        ensures
            r.wf(),
            r.owner() == player,
            r@ == Seq::<BoundKey>::empty(),
            r.history() == Seq::<KeyEdge>::empty(),
    {
        let r = InputQueue { player, keys: Vec::new(), history: Ghost(Seq::empty()) };
        assert(r@ =~= Seq::<BoundKey>::empty());
        r
    }

    pub fn player(&self) -> (r: Player)
        ensures
            r == self.owner(),
    {
        self.player
    }

    /// The held keys, oldest press first.
    pub fn keys(&self) -> (r: Vec<BoundKey>)
        ensures
            r@ == self@,
    {
        self.keys.clone()
    }

    /// A key-down edge: one of the player's keys that is not held yet goes to
    /// the back; anything else leaves the queue as it is.
    pub fn key_down(&mut self, key: BoundKey)
        requires
            old(self).wf(),
        ensures
            final(self).wf(),
            final(self).owner() == old(self).owner(),
            final(self)@ == pressed(old(self).owner(), old(self)@, key),
            final(self).history() == if is_bound(old(self).owner(), key) {
                old(self).history().push(KeyEdge::Pressed(key))
            } else {
                old(self).history()
            },
    {
        let ghost h0 = self.history@;
        let bound = direction_of(self.player, key).is_some();
        if bound && !holds_key(&self.keys, key) {
            self.keys.push(key);
            let ghost q = self.keys@;
            let ghost q0 = q.drop_last();
            assert forall|i: int, j: int| 0 <= i < q.len() && 0 <= j < q.len() && i != j implies q[i] != q[j] by {
                if i == q0.len() {
                    assert(q0[j] == q[j]);
                    assert(q0.contains(q[j]));
                } else if j == q0.len() {
                    assert(q0[i] == q[i]);
                    assert(q0.contains(q[i]));
                } else {
                    assert(q0[i] == q[i] && q0[j] == q[j]);
                }
            }
            assert forall|i: int| 0 <= i < q.len() implies is_bound(self.player, #[trigger] q[i]) by {
                if i < q0.len() {
                    assert(q0[i] == q[i]);
                }
            }
        }
        if bound {
            self.history = Ghost(h0.push(KeyEdge::Pressed(key)));
            assert(self.history@.drop_last() =~= h0);
            assert forall|i: int| 0 <= i < self.history@.len() implies is_bound(self.player, #[trigger] edge_key(self.history@[i])) by {
                if i < h0.len() {
                    assert(self.history@[i] == h0[i]);
                }
            }
        }
    }

    /// A key-up edge: the key leaves the queue wherever it stands; the others
    /// keep their order.
    pub fn key_up(&mut self, key: BoundKey)
        requires
            old(self).wf(),
        ensures
            final(self).wf(),
            final(self).owner() == old(self).owner(),
            final(self)@ == without(old(self)@, key),
            final(self).history() == if is_bound(old(self).owner(), key) {
                old(self).history().push(KeyEdge::Released(key))
            } else {
                old(self).history()
            },
    {
        let ghost q = self.keys@;
        let ghost h0 = self.history@;
        let mut kept: Vec<BoundKey> = Vec::new();
        let mut i: usize = 0;
        while i < self.keys.len()
            invariant
                0 <= i <= self.keys.len(),
                self.keys@ == q,
                kept@ == without(q.take(i as int), key),
            decreases self.keys.len() - i,
        {
            assert(q.take(i as int + 1).drop_last() =~= q.take(i as int));
            let k = self.keys[i];
            if k != key {
                kept.push(k);
            }
            i += 1;
        }
        assert(q.take(q.len() as int) =~= q);
        proof {
            lemma_without_ok(self.player, q, key);
        }
        self.keys = kept;
        if direction_of(self.player, key).is_some() {
            self.history = Ghost(h0.push(KeyEdge::Released(key)));
            assert(self.history@.drop_last() =~= h0);
            assert forall|i: int| 0 <= i < self.history@.len() implies is_bound(self.player, #[trigger] edge_key(self.history@[i])) by {
                if i < h0.len() {
                    assert(self.history@[i] == h0[i]);
                }
            }
        } else {
            assert(!q.contains(key)) by {
                if q.contains(key) {
                    let m = choose|m: int| 0 <= m < q.len() && q[m] == key;
                    assert(is_bound(self.player, q[m]));
                }
            }
            proof {
                lemma_without_absent(q, key);
            }
        }
    }

    /// The key that steers now: the most recently pressed key still held.
    pub fn current(&self) -> (r: Option<BoundKey>)
        ensures
            r == current_of(self@),
    {
        if self.keys.len() == 0 {
            None
        } else {
            Some(self.keys[self.keys.len() - 1])
        }
    }

    /// Applies one key edge.
    pub fn apply(&mut self, edge: KeyEdge)
        requires
            old(self).wf(),
        ensures
            final(self).wf(),
            final(self).owner() == old(self).owner(),
            final(self)@ == step(old(self).owner(), old(self)@, edge),
            final(self).history() == if is_bound(old(self).owner(), edge_key(edge)) {
                old(self).history().push(edge)
            } else {
                old(self).history()
            },
    {
        match edge {
            KeyEdge::Pressed(k) => self.key_down(k),
            KeyEdge::Released(k) => self.key_up(k),
        }
    }

    /// Brings one of the player's keys up to date with a frame: `down`, `up`
    /// and `held` say whether it was just pressed, just released, and is held
    /// at the end of the frame.
    fn settle_key(&mut self, k: BoundKey, down: bool, up: bool, held: bool)
        requires
            old(self).wf(),
            is_bound(old(self).owner(), k),
        ensures
            final(self).wf(),
            final(self).owner() == old(self).owner(),
            final(self).history() == old(self).history() + edges_for(k, down, up, held),
            (down || up) ==> (final(self)@.contains(k) <==> held),
            !(down || up) ==> final(self)@ == old(self)@,
            forall|x: BoundKey| x != k ==> (final(self)@.contains(x) <==> old(self)@.contains(x)),
    {
        let ghost q0 = self@;
        let ghost h0 = self.history();
        let ghost player = self.owner();
        if down || up {
            if held {
                if up {
                    self.key_up(k);
                }
                let ghost q1 = self@;
                let ghost h1 = self.history();
                self.key_down(k);
                assert forall|x: BoundKey| x != k implies (self@.contains(x) <==> q0.contains(x)) by {
                    lemma_pressed_contains(player, q1, k, x);
                    lemma_without_contains(q0, k, x);
                }
                proof {
                    lemma_pressed_contains(player, q1, k, k);
                }
                if up {
                    assert(h0 + edges_for(k, down, up, held) =~= h1.push(KeyEdge::Pressed(k)));
                } else {
                    assert(h0 + edges_for(k, down, up, held) =~= h0.push(KeyEdge::Pressed(k)));
                }
            } else {
                if down {
                    self.key_down(k);
                }
                let ghost q1 = self@;
                let ghost h1 = self.history();
                self.key_up(k);
                assert forall|x: BoundKey| x != k implies (self@.contains(x) <==> q0.contains(x)) by {
                    lemma_without_contains(q1, k, x);
                    lemma_pressed_contains(player, q0, k, x);
                }
                proof {
                    lemma_without_contains(q1, k, k);
                }
                if down {
                    assert(h0 + edges_for(k, down, up, held) =~= h1.push(KeyEdge::Released(k)));
                } else {
                    assert(h0 + edges_for(k, down, up, held) =~= h0.push(KeyEdge::Released(k)));
                }
            }
        } else {
            assert(h0 + edges_for(k, down, up, held) =~= h0);
        }
    }

    /// Applies one frame: for each of the player's keys in the order up, left,
    /// down, right, the edges `key_frame_edges` gives it from `just_pressed`,
    /// `just_released` and `held` (the keys down when the frame ends). Every
    /// key with an edge this frame ends in the queue exactly when it is held;
    /// the other keys stay as they were.
    pub fn save_frame(&mut self, just_pressed: &Vec<BoundKey>, just_released: &Vec<BoundKey>, held: &Vec<BoundKey>)
        requires
            old(self).wf(),
        ensures
            final(self).wf(),
            final(self).owner() == old(self).owner(),
            final(self).history() == old(self).history() + frame_edges(
                bound_keys_of(old(self).owner()),
                just_pressed@,
                just_released@,
                held@,
            ),
            forall|k: BoundKey|
                is_bound(old(self).owner(), k) && (just_pressed@.contains(k) || just_released@.contains(k))
                    ==> (final(self)@.contains(k) <==> held@.contains(k)),
            forall|k: BoundKey|
                !(just_pressed@.contains(k) || just_released@.contains(k))
                    ==> (final(self)@.contains(k) <==> old(self)@.contains(k)),
    {
        let ghost q0 = self@;
        let ghost h0 = self.history();
        let ghost player = self.owner();
        let ghost d = just_pressed@;
        let ghost u = just_released@;
        let ghost hd = held@;
        let keys = bound_keys(self.player);
        proof {
            lemma_bound_keys(player);
        }
        let mut i: usize = 0;
        while i < 4
            invariant
                0 <= i <= 4,
                keys@ == bound_keys_of(player),
                keys@.len() == 4,
                keys@.no_duplicates(),
                forall|j: int| 0 <= j < 4 ==> is_bound(player, #[trigger] keys@[j]),
                self.wf(),
                self.owner() == player,
                d == just_pressed@,
                u == just_released@,
                hd == held@,
                self.history() == h0 + frame_edges(keys@.take(i as int), d, u, hd),
                forall|j: int|
                    0 <= j < i && (d.contains(#[trigger] keys@[j]) || u.contains(keys@[j]))
                        ==> (self@.contains(keys@[j]) <==> hd.contains(keys@[j])),
                forall|j: int| i <= j < 4 ==> (self@.contains(#[trigger] keys@[j]) <==> q0.contains(keys@[j])),
                forall|x: BoundKey| !(d.contains(x) || u.contains(x)) ==> (self@.contains(x) <==> q0.contains(x)),
            decreases 4 - i,
        {
            let ghost before = self@;
            let ghost fe = frame_edges(keys@.take(i as int), d, u, hd);
            assert(keys@.take(i as int + 1).drop_last() =~= keys@.take(i as int));
            assert(keys@.take(i as int + 1).last() == keys@[i as int]);
            let k = keys[i];
            let down = holds_key(just_pressed, k);
            let up = holds_key(just_released, k);
            let is_held = holds_key(held, k);
            self.settle_key(k, down, up, is_held);
            assert(frame_edges(keys@.take(i as int + 1), d, u, hd) == fe + key_frame_edges(k, d, u, hd));
            assert(h0 + (fe + key_frame_edges(k, d, u, hd)) =~= (h0 + fe) + key_frame_edges(k, d, u, hd));
            assert forall|j: int| 0 <= j < 4 && j != i implies (self@.contains(#[trigger] keys@[j]) <==> before.contains(keys@[j])) by {
                assert(keys@[j] != keys@[i as int]);
            }
            i += 1;
        }
        assert(keys@.take(4) =~= keys@);
        assert forall|k: BoundKey|
            is_bound(player, k) && (d.contains(k) || u.contains(k)) implies (self@.contains(k) <==> hd.contains(k)) by {
            let j = choose|j: int| 0 <= j < keys@.len() && keys@[j] == k;
            assert(d.contains(keys@[j]) || u.contains(keys@[j]));
        }
    }
}

/// Both players' input queues.
pub struct KeyState {
    pub input1_queue: InputQueue,
    pub input2_queue: InputQueue,
}

impl KeyState {
    /// Each queue is well formed and belongs to its own player.
    pub open spec fn wf(&self) -> bool {
        &&& self.input1_queue.wf()
        &&& self.input2_queue.wf()
        &&& self.input1_queue.owner() == Player::One
        &&& self.input2_queue.owner() == Player::Two
    }

    /// No key held by either player, and no edge seen.
    pub fn new() -> (r: KeyState)
        ensures
            r.wf(),
            r.input1_queue@ == Seq::<BoundKey>::empty(),
            r.input2_queue@ == Seq::<BoundKey>::empty(),
            r.input1_queue.history() == Seq::<KeyEdge>::empty(),
            r.input2_queue.history() == Seq::<KeyEdge>::empty(),
    {
        KeyState { input1_queue: InputQueue::new(Player::One), input2_queue: InputQueue::new(Player::Two) }
    }

    /// Records one frame's key edges in both players' queues; each queue takes
    /// only its own player's keys. `held` lists the keys down when the frame
    /// ends, so a key pressed and released within the frame ends up absent.
    pub fn save_key_bind(&mut self, just_pressed: &Vec<BoundKey>, just_released: &Vec<BoundKey>, held: &Vec<BoundKey>)
        requires
            old(self).wf(),
        ensures
            final(self).wf(),
            final(self).input1_queue.history() == old(self).input1_queue.history() + frame_edges(
                bound_keys_of(Player::One),
                just_pressed@,
                just_released@,
                held@,
            ),
            final(self).input2_queue.history() == old(self).input2_queue.history() + frame_edges(
                bound_keys_of(Player::Two),
                just_pressed@,
                just_released@,
                held@,
            ),
            forall|k: BoundKey|
                is_bound(Player::One, k) && (just_pressed@.contains(k) || just_released@.contains(k))
                    ==> (final(self).input1_queue@.contains(k) <==> held@.contains(k)),
            forall|k: BoundKey|
                is_bound(Player::Two, k) && (just_pressed@.contains(k) || just_released@.contains(k))
                    ==> (final(self).input2_queue@.contains(k) <==> held@.contains(k)),
            forall|k: BoundKey|
                !(just_pressed@.contains(k) || just_released@.contains(k)) ==> (
                final(self).input1_queue@.contains(k) <==> old(self).input1_queue@.contains(k)),
            forall|k: BoundKey|
                !(just_pressed@.contains(k) || just_released@.contains(k)) ==> (
                final(self).input2_queue@.contains(k) <==> old(self).input2_queue@.contains(k)),
    {
        self.input1_queue.save_frame(just_pressed, just_released, held);
        self.input2_queue.save_frame(just_pressed, just_released, held);
    }
}

/// Whatever frames and edges a queue has been through since it was made, it
/// holds exactly the keys whose last edge was a key-down, with no repeats,
/// oldest hold first.
pub proof fn lemma_queue_tracks_held(q: InputQueue)
    requires
        q.wf(),
    ensures
        q@.no_duplicates(),
        forall|k: BoundKey| q@.contains(k) <==> is_held(q.history(), k),
        forall|i: int, j: int|
            0 <= i < j < q@.len() ==> hold_start(q.history(), q@[i]) < hold_start(q.history(), q@[j]),
{
    lemma_replay_tracks_held(q.owner(), q.history());
}

/// Over a history of the player's own key edges: releasing the key that steers
/// now, while another is held, hands control to the held key whose current
/// hold began last, not to the one held longest.
pub proof fn lemma_release_hands_to_latest_press(player: Player, edges: Seq<KeyEdge>, k: BoundKey)
    requires
        forall|i: int| 0 <= i < edges.len() ==> is_bound(player, #[trigger] edge_key(edges[i])),
        current_of(replay(player, edges)) == Some(k),
        replay(player, edges).len() >= 2,
    ensures
        ({
            let after = replay(player, edges.push(KeyEdge::Released(k)));
            &&& after.len() >= 1
            &&& is_held(edges, after.last())
            &&& after.last() != k
            &&& forall|y: BoundKey|
                is_held(edges, y) && y != k ==> hold_start(edges, y) <= hold_start(edges, after.last())
        }),
{
    let q = replay(player, edges);
    lemma_replay_tracks_held(player, edges);
    let e2 = edges.push(KeyEdge::Released(k));
    assert(e2.drop_last() =~= edges);
    let after = replay(player, e2);
    assert(after == without(q, k));
    lemma_release_current(player, q, k);
    let n = q.len() as int;
    let x = q[n - 2];
    assert(after.last() == x);
    assert(q.contains(x));
    assert(x != k) by {
        assert(q[n - 1] == k);
    }
    assert forall|y: BoundKey| is_held(edges, y) && y != k implies hold_start(edges, y) <= hold_start(edges, x) by {
        assert(q.contains(y));
        let m = choose|m: int| 0 <= m < q.len() && q[m] == y;
        if m < n - 2 {
            assert(hold_start(edges, q[m]) < hold_start(edges, q[n - 2]));
        } else if m == n - 1 {
            assert(q[n - 1] == k);
        }
    }
}

} // verus!
