//! The search: iterative deepening over negamax with alpha-beta pruning, a
//! transposition cache keyed by fingerprint, moves tried in order of their
//! incremental score, and cooperative cancellation.
use std::sync::mpsc::{Receiver, Sender};
use fxhash::FxHashMap;
use vstd::prelude::*;
use crate::action::Action;
use crate::actions::{
    abs,
    actions,
    has_king,
    king_attacked,
    lemma_legal_leaves_king_safe,
    lemma_mover_keeps_king,
    lemma_opponent_keeps_king,
    lemma_successor_grid,
    legal,
    valid_ignoring_check,
};
use crate::result::{
    after,
    inplace_result,
    inplace_revert,
    is_successor,
    lemma_undo_round_trip,
    lemma_valid_well_placed,
    record_of,
    touched_squares,
};
use crate::state::{State, PC};
use crate::value::{
    action_delta,
    heuristic,
    heuristic_action,
    status_of,
    value,
    Status,
    MAX_DELTA,
};

verus! {

/// Declares fxhash's `FxHasher`, the hasher of the cache's map.
#[verifier::external_type_specification]
#[verifier::external_body]
pub struct ExFxHasher(fxhash::FxHasher);

/// Declares std's `BuildHasherDefault`, through which the map makes hashers.
#[verifier::external_type_specification]
#[verifier::external_body]
#[verifier::reject_recursive_types(H)]
pub struct ExBuildHasherDefault<H>(std::hash::BuildHasherDefault<H>);

/// Declares std's channel `Receiver`, on which cancellation arrives.
#[verifier::external_type_specification]
#[verifier::external_body]
#[verifier::reject_recursive_types(T)]
pub struct ExReceiver<T>(Receiver<T>);

/// Declares std's channel `Sender`, on which results leave.
#[verifier::external_type_specification]
#[verifier::external_body]
#[verifier::reject_recursive_types(T)]
pub struct ExSender<T>(Sender<T>);

/// What the cache keeps of a searched position: the depth searched, the
/// value found and the best move found, if any.
pub type CacheEntry = (u32, i64, Option<Action>);

/// The transposition cache of one search, keyed by fingerprint.
pub type MoveCache = FxHashMap<u64, CacheEntry>;

/// The value of a won position for the side to move.
pub const INF: i64 = 1000000000;

/// No value the search handles is larger than this in size.
pub const SCORE_BOUND: i64 = 1000000000000000000;

/// Below this remaining depth the search does not look for cancellation.
pub const CANCEL_DEPTH: u32 = 5;

/// Relies on `HashMap::get` under fxhash's `FxHasher`, a deterministic
/// hasher: the entry stored under `key`, if any.
#[verifier::external_body]
fn cache_get(cache: &MoveCache, key: u64) -> (r: Option<CacheEntry>)
    ensures
        r == if cache@.contains_key(key) {
            Some(cache@[key])
        } else {
            None
        },
{
    cache.get(&key).copied()
}

/// Relies on `HashMap::insert` under fxhash's `FxHasher`: `key` maps to
/// `entry` afterwards, every other key as before.
#[verifier::external_body]
fn cache_insert(cache: &mut MoveCache, key: u64, entry: CacheEntry)
    ensures
        final(cache)@ == old(cache)@.insert(key, entry),
{
    cache.insert(key, entry);
}

/// Relies on `Receiver::try_recv`: whether a message was waiting. What
/// comes back depends on the other thread; nothing is known of it.
#[verifier::external_body]
fn cancel_requested(done_channel: &Receiver<()>) -> bool {
    done_channel.try_recv().is_ok()
}

/// Relies on `Sender::send`: hands one result to the channel; a closed
/// channel is ignored.
#[verifier::external_body]
fn send_result(tx: &Sender<(u32, Action)>, depth: u32, action: Action) {
    let _ = tx.send((depth, action));
}

/// Every value in the cache is within the search's bound.
pub open spec fn cache_ok(c: Map<u64, CacheEntry>) -> bool {
    forall|k: u64| #[trigger] c.contains_key(k) ==> -SCORE_BOUND <= c[k].1 <= SCORE_BOUND
}

/// The cache holds an entry for fingerprint `h` searched at least `depth`
/// deep, which the search then takes as the value. An entry does not record
/// whether its value was exact or a bound left by pruning, so taking it as
/// the value can differ from a full search.
pub open spec fn cache_hit(c: Map<u64, CacheEntry>, h: u64, depth: u32) -> bool {
    depth >= 1 && c.contains_key(h) && c[h].0 >= depth
}

/// A position the search can work from: each side has a king, the
/// repetition counts are positive, and unless the game is drawn the side
/// that just moved is not in check.
pub open spec fn playable(s: State) -> bool {
    &&& has_king(s.grid(), PC::White)
    &&& has_king(s.grid(), PC::Black)
    &&& s.counts_ok()
    &&& (s.drawn || !king_attacked(s.grid(), s.turn.other()))
}

/// The value of a position where the search looks no further: `INF` for a
/// win of the side to move, `-INF` for a loss, 0 for a draw, else the score
/// accumulated along the way.
pub open spec fn leaf_value(s: State, h: i64) -> i64 {
    match status_of(s) {
        Status::Running => h,
        Status::BlackWin => if s.turn == PC::Black {
            INF
        } else {
            (-INF) as i64
        },
        Status::WhiteWin => if s.turn == PC::White {
            INF
        } else {
            (-INF) as i64
        },
        Status::Tie => 0,
    }
}

/// Positions that agree in every part the rules read agree in every rule.
proof fn lemma_same_specs(s1: State, s2: State)
    requires
        s1.same_as(s2),
    ensures
        s1.grid() == s2.grid(),
        s1.spec_hash() == s2.spec_hash(),
        playable(s1) == playable(s2),
        status_of(s1) == status_of(s2),
        forall|n: int| s1.room(n) == s2.room(n),
        forall|a: Action| #[trigger] legal(s1, a) == legal(s2, a),
        forall|a: Action| #[trigger] valid_ignoring_check(s1, a) == valid_ignoring_check(s2, a),
        forall|a: Action| #[trigger] action_delta(s1, a) == action_delta(s2, a),
        forall|a: Action| #[trigger] record_of(s1, a) == record_of(s2, a),
        forall|a: Action, t: State| #[trigger] is_successor(s1, a, t) == is_successor(s2, a, t),
{
    assert forall|a: Action| #[trigger] record_of(s1, a) == record_of(s2, a) by {
        assert(record_of(s1, a) =~= record_of(s2, a));
    }
    assert forall|a: Action| #[trigger] legal(s1, a) == legal(s2, a) by {
        assert(after(s1, a) =~= after(s2, a));
    }
    if exists|a: Action| legal(s1, a) {
        let w = choose|a: Action| legal(s1, a);
        assert(legal(s2, w));
    }
    if exists|a: Action| legal(s2, a) {
        let w = choose|a: Action| legal(s2, a);
        assert(legal(s1, w));
    }
    assert(status_of(s1) == status_of(s2));
}

/// A legal move played in a position the search works from leaves one.
proof fn lemma_successor_playable(s: State, a: Action, t: State, n: int)
    requires
        playable(s),
        !s.drawn,
        legal(s, a),
        is_successor(s, a, t),
        s.room(n + 1),
        n >= 0,
    ensures
        playable(t),
        t.room(n),
{
    lemma_successor_grid(s, a, t);
    if a is Tie {
        assert(after(s, a) =~= s.grid());
    } else {
        lemma_mover_keeps_king(s, a);
        lemma_opponent_keeps_king(s, a);
        lemma_legal_leaves_king_safe(s, a, t);
        if s.turn == PC::White {
            assert(has_king(t.grid(), PC::White));
            assert(has_king(t.grid(), PC::Black));
        } else {
            assert(has_king(t.grid(), PC::Black));
            assert(has_king(t.grid(), PC::White));
        }
    }
    assert forall|h: u64| #[trigger] t.table().contains_key(h) implies t.table()[h] >= 1 && t.table()[h] + n <= i32::MAX by {
        if h != t.spec_hash() {
            assert(s.table().contains_key(h));
        }
    }
}

/// The key by which the search orders moves: the remembered best move
/// above every other, the rest by their incremental score.
pub open spec fn order_key(s: State, a: Action, hint: Option<Action>) -> int {
    if hint == Some(a) {
        MAX_DELTA + 1
    } else {
        action_delta(s, a)
    }
}

proof fn lemma_swap_multiset<T>(v: Seq<T>, i: int, j: int)
    requires
        0 <= i < v.len(),
        0 <= j < v.len(),
        i != j,
    ensures
        v.update(i, v[j]).update(j, v[i]).to_multiset() =~= v.to_multiset(),
{
    broadcast use vstd::seq_lib::group_to_multiset_ensures;
    let w = v.update(i, v[j]);
    vstd::seq_lib::to_multiset_update(v, i, v[j]);
    vstd::seq_lib::to_multiset_update(w, j, v[i]);
    assert(w[j] == v[j]);
}

/// The moves in the order the search tries them: by descending `order_key`,
/// so the cache's remembered best move first.
fn order_actions(state: &State, found: Vec<Action>, hint: Option<Action>) -> (r: Vec<Action>)
    requires
        forall|i: int| 0 <= i < found@.len() ==> valid_ignoring_check(*state, #[trigger] found@[i]),
    ensures
        r@.to_multiset() == found@.to_multiset(),
        forall|i: int, j: int|
            0 <= i < j < r@.len() ==> order_key(*state, #[trigger] r@[i], hint) >= order_key(
                *state,
                #[trigger] r@[j],
                hint,
            ),
{
    let ghost given = found@;
    let mut acts = found;
    let mut keys: Vec<i64> = Vec::new();
    let mut i: usize = 0;
    while i < acts.len()
        invariant
            i <= acts@.len(),
            acts@ == given,
            keys@.len() == i,
            forall|k: int| 0 <= k < i ==> #[trigger] keys@[k] == order_key(*state, acts@[k], hint),
            forall|k: int| 0 <= k < acts@.len() ==> valid_ignoring_check(*state, #[trigger] acts@[k]),
        decreases acts@.len() - i,
    {
        let a = acts[i];
        let is_hint = match hint {
            Some(h) => h == a,
            None => false,
        };
        let key = if is_hint {
            MAX_DELTA + 1
        } else {
            heuristic_action(state, &a)
        };
        keys.push(key);
        i = i + 1;
    }
    let mut i: usize = 1;
    while i < acts.len()
        invariant
            1 <= i,
            i <= acts@.len() || acts@.len() == 0,
            acts@.len() == given.len(),
            acts@.len() == keys@.len(),
            acts@.to_multiset() == given.to_multiset(),
            forall|k: int| 0 <= k < acts@.len() ==> #[trigger] keys@[k] == order_key(*state, acts@[k], hint),
            forall|a: int, b: int| 0 <= a < b < i && b < keys@.len() ==> keys@[a] >= keys@[b],
        decreases acts@.len() - i,
    {
        let mut j: usize = i;
        while j > 0 && keys[j - 1] < keys[j]
            invariant
                j <= i < acts@.len(),
                acts@.len() == given.len(),
                acts@.len() == keys@.len(),
                acts@.to_multiset() == given.to_multiset(),
                forall|k: int| 0 <= k < acts@.len() ==> #[trigger] keys@[k] == order_key(*state, acts@[k], hint),
                forall|a: int, b: int| 0 <= a < b <= i && a != j && b != j ==> keys@[a] >= keys@[b],
                forall|b: int| j < b <= i ==> keys@[j as int] >= keys@[b],
            decreases j,
        {
            let ghost acts_before = acts@;
            let upper = acts[j];
            let lower = acts[j - 1];
            acts.set(j - 1, upper);
            acts.set(j, lower);
            let upper_key = keys[j];
            let lower_key = keys[j - 1];
            keys.set(j - 1, upper_key);
            keys.set(j, lower_key);
            proof {
                lemma_swap_multiset(acts_before, j - 1, j as int);
                assert(acts@ == acts_before.update(j - 1, acts_before[j as int]).update(j as int, acts_before[j - 1]));
            }
            j = j - 1;
        }
        i = i + 1;
    }
    proof {
        assert forall|a: int, b: int| 0 <= a < b < acts@.len() implies order_key(*state, #[trigger] acts@[a], hint)
            >= order_key(*state, #[trigger] acts@[b], hint) by {
            assert(keys@[a] >= keys@[b]);
        }
    }
    acts
}

/// One move tried at a node: the move, the position it led to, the value
/// and best move the search of that position gave, and the cache after it.
pub type Tried = (Action, State, i64, Option<Action>, Map<u64, CacheEntry>);

/// A node's alpha, beta, best value and best move after it tried `steps` in
/// order: each reply's value is negated; a better one becomes the best (the
/// first of equals is kept); `White` raises alpha to it, `Black` lowers beta
/// to its negation.
pub open spec fn fold_tried(turn: PC, alpha: i64, beta: i64, steps: Seq<Tried>) -> (
    i64,
    i64,
    i64,
    Option<Action>,
)
    decreases steps.len(),
{
    if steps.len() == 0 {
        (alpha, beta, (-2 * INF) as i64, None)
    } else {
        let (al, be, bu, ba) = fold_tried(turn, alpha, beta, steps.drop_last());
        let st = steps.last();
        let resp = (-st.2) as i64;
        let (bu2, ba2) = if bu < resp {
            (resp, Some(st.0))
        } else {
            (bu, ba)
        };
        if turn == PC::White {
            (if al < resp {
                resp
            } else {
                al
            }, be, bu2, ba2)
        } else {
            (al, if be > -resp {
                (-resp) as i64
            } else {
                be
            }, bu2, ba2)
        }
    }
}

/// The cache when the move at index `k` is tried.
pub open spec fn cache_before(c0: Map<u64, CacheEntry>, steps: Seq<Tried>, k: int) -> Map<
    u64,
    CacheEntry,
> {
    if k == 0 {
        c0
    } else {
        steps[k - 1].4
    }
}

/// The best move the cache remembers for fingerprint `h`, if any.
pub open spec fn cache_hint(c: Map<u64, CacheEntry>, h: u64) -> Option<Action> {
    if c.contains_key(h) {
        c[h].2
    } else {
        None
    }
}

/// `ord` holds each legal move once, by descending `order_key`.
pub open spec fn ordered_moves(s: State, hint: Option<Action>, ord: Seq<Action>) -> bool {
    &&& ord.no_duplicates()
    &&& forall|a: Action| #[trigger] ord.contains(a) <==> legal(s, a)
    &&& forall|i: int, j: int|
        0 <= i < j < ord.len() ==> order_key(s, #[trigger] ord[i], hint) >= order_key(
            s,
            #[trigger] ord[j],
            hint,
        )
}

/// The search of `s`, `d` plies deep within (`alpha`, `beta`), with score
/// `h` accumulated and cache `c0`, completes with value `v`, best move
/// `best` and cache `c1`:
/// - a cache entry searched at least `d` deep gives its value;
/// - at depth 0 or in a finished game the value is that of a leaf;
/// - otherwise the legal moves are tried in order of `order_key`, each
///   searched one ply less deep with the bounds and cache left by the ones
///   before, until alpha reaches beta or the moves run out; the value and
///   move are those of `fold_tried`, and the cache records them.
pub open spec fn searched(
    s: State,
    d: u32,
    alpha: i64,
    beta: i64,
    h: i64,
    c0: Map<u64, CacheEntry>,
    v: i64,
    best: Option<Action>,
    c1: Map<u64, CacheEntry>,
) -> bool
    decreases d,
{
    let key = s.spec_hash();
    if cache_hit(c0, key, d) {
        v == c0[key].1 && best is None && c1 == c0
    } else if d == 0 || status_of(s) != Status::Running {
        v == leaf_value(s, h) && best is None && c1 == c0
    } else {
        exists|ord: Seq<Action>, steps: Seq<Tried>|
            {
                &&& ordered_moves(s, cache_hint(c0, key), ord)
                &&& steps.len() <= ord.len()
                &&& forall|k: int|
                    0 <= k < steps.len() ==> {
                        let pre = fold_tried(s.turn, alpha, beta, steps.take(k));
                        &&& (#[trigger] steps[k]).0 == ord[k]
                        &&& is_successor(s, ord[k], steps[k].1)
                        &&& searched(
                            steps[k].1,
                            (d - 1) as u32,
                            pre.0,
                            pre.1,
                            (-(h + action_delta(s, ord[k]))) as i64,
                            cache_before(c0, steps, k),
                            steps[k].2,
                            steps[k].3,
                            steps[k].4,
                        )
                    }
                &&& forall|k: int|
                    1 <= k < steps.len() ==> #[trigger] fold_tried(s.turn, alpha, beta, steps.take(k)).0
                        < fold_tried(s.turn, alpha, beta, steps.take(k)).1
                &&& steps.len() < ord.len() ==> steps.len() >= 1 && fold_tried(
                    s.turn,
                    alpha,
                    beta,
                    steps,
                ).0 >= fold_tried(s.turn, alpha, beta, steps).1
                &&& v == fold_tried(s.turn, alpha, beta, steps).2
                &&& best == fold_tried(s.turn, alpha, beta, steps).3
                &&& c1 == cache_before(c0, steps, steps.len() as int).insert(key, (d, v, best))
            }
    }
}

/// The moves in `steps` are the first ones of `ord`, each played from `s`
/// and searched as `searched` says, with the bounds and cache the ones
/// before left, and the search went on after each but the last only while
/// alpha stayed below beta.
#[verifier::opaque]
pub open spec fn steps_ok(
    s: State,
    d: u32,
    alpha: i64,
    beta: i64,
    h: i64,
    c0: Map<u64, CacheEntry>,
    ord: Seq<Action>,
    steps: Seq<Tried>,
) -> bool {
    &&& steps.len() <= ord.len()
    &&& forall|k: int|
        0 <= k < steps.len() ==> {
            let pre = fold_tried(s.turn, alpha, beta, steps.take(k));
            &&& (#[trigger] steps[k]).0 == ord[k]
            &&& is_successor(s, ord[k], steps[k].1)
            &&& searched(
                steps[k].1,
                (d - 1) as u32,
                pre.0,
                pre.1,
                (-(h + action_delta(s, ord[k]))) as i64,
                cache_before(c0, steps, k),
                steps[k].2,
                steps[k].3,
                steps[k].4,
            )
        }
    &&& forall|k: int|
        1 <= k < steps.len() ==> #[trigger] fold_tried(s.turn, alpha, beta, steps.take(k)).0
            < fold_tried(s.turn, alpha, beta, steps.take(k)).1
}

proof fn lemma_fold_push(turn: PC, alpha: i64, beta: i64, steps: Seq<Tried>, x: Tried)
    ensures
        ({
            let (al, be, bu, ba) = fold_tried(turn, alpha, beta, steps);
            let resp = (-x.2) as i64;
            let (bu2, ba2) = if bu < resp {
                (resp, Some(x.0))
            } else {
                (bu, ba)
            };
            fold_tried(turn, alpha, beta, steps.push(x)) == if turn == PC::White {
                (if al < resp {
                    resp
                } else {
                    al
                }, be, bu2, ba2)
            } else {
                (al, if be > -resp {
                    (-resp) as i64
                } else {
                    be
                }, bu2, ba2)
            }
        }),
{
    assert(steps.push(x).drop_last() =~= steps);
}

proof fn lemma_steps_start(
    s: State,
    d: u32,
    alpha: i64,
    beta: i64,
    h: i64,
    c0: Map<u64, CacheEntry>,
    ord: Seq<Action>,
)
    ensures
        steps_ok(s, d, alpha, beta, h, c0, ord, Seq::empty()),
{
    reveal(steps_ok);
}

proof fn lemma_steps_push(
    s: State,
    d: u32,
    alpha: i64,
    beta: i64,
    h: i64,
    c0: Map<u64, CacheEntry>,
    ord: Seq<Action>,
    steps: Seq<Tried>,
    x: Tried,
)
    requires
        steps_ok(s, d, alpha, beta, h, c0, ord, steps),
        steps.len() < ord.len(),
        steps.len() >= 1 ==> fold_tried(s.turn, alpha, beta, steps).0 < fold_tried(
            s.turn,
            alpha,
            beta,
            steps,
        ).1,
        x.0 == ord[steps.len() as int],
        is_successor(s, x.0, x.1),
        searched(
            x.1,
            (d - 1) as u32,
            fold_tried(s.turn, alpha, beta, steps).0,
            fold_tried(s.turn, alpha, beta, steps).1,
            (-(h + action_delta(s, x.0))) as i64,
            cache_before(c0, steps, steps.len() as int),
            x.2,
            x.3,
            x.4,
        ),
    ensures
        steps_ok(s, d, alpha, beta, h, c0, ord, steps.push(x)),
{
    reveal(steps_ok);
    let n = steps.push(x);
    assert(n.take(steps.len() as int) =~= steps);
    assert forall|k: int| 0 <= k < steps.len() implies n.take(k) =~= steps.take(k) by {}
    assert forall|k: int|
        0 <= k < n.len() implies {
            let pre = fold_tried(s.turn, alpha, beta, n.take(k));
            &&& (#[trigger] n[k]).0 == ord[k]
            &&& is_successor(s, ord[k], n[k].1)
            &&& searched(
                n[k].1,
                (d - 1) as u32,
                pre.0,
                pre.1,
                (-(h + action_delta(s, ord[k]))) as i64,
                cache_before(c0, n, k),
                n[k].2,
                n[k].3,
                n[k].4,
            )
        } by {
        if k < steps.len() {
            assert(n.take(k) =~= steps.take(k));
            assert(n[k] == steps[k]);
            assert(cache_before(c0, n, k) == cache_before(c0, steps, k));
        } else {
            assert(n.take(k) =~= steps);
        }
    }
    assert forall|k: int|
        1 <= k < n.len() implies #[trigger] fold_tried(s.turn, alpha, beta, n.take(k)).0
            < fold_tried(s.turn, alpha, beta, n.take(k)).1 by {
        if k < steps.len() {
            assert(n.take(k) =~= steps.take(k));
        } else {
            assert(n.take(k) =~= steps);
        }
    }
}

proof fn lemma_searched_intro(
    s: State,
    d: u32,
    alpha: i64,
    beta: i64,
    h: i64,
    c0: Map<u64, CacheEntry>,
    ord: Seq<Action>,
    steps: Seq<Tried>,
    c1: Map<u64, CacheEntry>,
)
    requires
        !cache_hit(c0, s.spec_hash(), d),
        d >= 1,
        status_of(s) == Status::Running,
        ordered_moves(s, cache_hint(c0, s.spec_hash()), ord),
        steps_ok(s, d, alpha, beta, h, c0, ord, steps),
        steps.len() < ord.len() ==> steps.len() >= 1 && fold_tried(s.turn, alpha, beta, steps).0
            >= fold_tried(s.turn, alpha, beta, steps).1,
        c1 == cache_before(c0, steps, steps.len() as int).insert(
            s.spec_hash(),
            (
                d,
                fold_tried(s.turn, alpha, beta, steps).2,
                fold_tried(s.turn, alpha, beta, steps).3,
            ),
        ),
    ensures
        searched(
            s,
            d,
            alpha,
            beta,
            h,
            c0,
            fold_tried(s.turn, alpha, beta, steps).2,
            fold_tried(s.turn, alpha, beta, steps).3,
            c1,
        ),
{
    reveal(steps_ok);
}

/// Negamax with alpha-beta pruning from `state`, `depth_left` plies deep,
/// `heuristic_cache` being the score accumulated on the way here. `None`
/// when cancelled, which is looked for only at `CANCEL_DEPTH` plies or more.
/// Otherwise the result and the cache left behind are those of `searched`.
/// Either way the position is given back as it was and the cache keeps
/// values within bounds.
pub fn minimax(
    state: &mut State,
    depth_left: u32,
    alpha: i64,
    beta: i64,
    heuristic_cache: i64,
    done_channel: &Receiver<()>,
    move_cache: &mut MoveCache,
) -> (r: Option<(i64, Option<Action>)>)
    requires
        playable(*old(state)),
        old(state).room(depth_left + 1),
        abs(heuristic_cache as int) + depth_left * MAX_DELTA <= SCORE_BOUND,
        cache_ok(old(move_cache)@),
    ensures
        final(state).same_as(*old(state)),
        cache_ok(final(move_cache)@),
        r is Some ==> -SCORE_BOUND <= (r->0).0 <= SCORE_BOUND,
        r is Some && (r->0).1 is Some ==> legal(*old(state), (r->0).1->0),
        depth_left == 0 ==> r == Some((leaf_value(*old(state), heuristic_cache), None::<Action>)),
        depth_left < CANCEL_DEPTH ==> r is Some,
        r is Some ==> searched(
            *old(state),
            depth_left,
            alpha,
            beta,
            heuristic_cache,
            old(move_cache)@,
            (r->0).0,
            (r->0).1,
            final(move_cache)@,
        ),
    decreases depth_left,
{
    let ghost s0 = *state;
    let ghost alpha0 = alpha;
    let ghost beta0 = beta;
    let ghost c0 = move_cache@;
    let mut alpha = alpha;
    let mut beta = beta;
    let mut best_utility: i64 = -2 * INF;
    let mut best_action: Option<Action> = None;
    if depth_left >= CANCEL_DEPTH {
        if cancel_requested(done_channel) {
            return None;
        }
    }
    let mut cache_best_action: Option<Action> = None;
    if depth_left >= 1 {
        match cache_get(move_cache, state.hash()) {
            Some((cache_depth_left, cache_value, cache_action)) => {
                if cache_depth_left >= depth_left {
                    return Some((cache_value, None));
                }
                cache_best_action = cache_action;
            },
            None => {},
        }
    }
    match value(state) {
        Status::Running => {},
        Status::BlackWin => {
            if state.turn == PC::Black {
                return Some((INF, None));
            } else {
                return Some((-INF, None));
            }
        },
        Status::WhiteWin => {
            if state.turn == PC::White {
                return Some((INF, None));
            } else {
                return Some((-INF, None));
            }
        },
        Status::Tie => {
            return Some((0, None));
        },
    }
    if depth_left == 0 {
        return Some((heuristic_cache, None));
    }
    let current_actions = actions(state);
    proof {
        assert forall|i: int| 0 <= i < current_actions@.len() implies valid_ignoring_check(
            s0,
            #[trigger] current_actions@[i],
        ) by {
            assert(current_actions@.contains(current_actions@[i]));
        }
    }
    let ghost listed = current_actions@;
    let ordered = order_actions(state, current_actions, cache_best_action);
    let ghost key = s0.spec_hash();
    proof {
        broadcast use vstd::seq_lib::group_to_multiset_ensures;
        assert forall|k: int| 0 <= k < ordered@.len() implies legal(s0, #[trigger] ordered@[k]) by {
            assert(ordered@.to_multiset().count(ordered@[k]) > 0);
            assert(listed.contains(ordered@[k]));
        }
        assert forall|a: Action| #[trigger] ordered@.contains(a) <==> legal(s0, a) by {
            if legal(s0, a) {
                assert(listed.contains(a));
                assert(listed.to_multiset().count(a) > 0);
            }
        }
        listed.lemma_multiset_has_no_duplicates();
        ordered@.lemma_multiset_has_no_duplicates_conv();
        assert(cache_best_action == cache_hint(c0, key));
        assert(ordered_moves(s0, cache_hint(c0, key), ordered@));
    }
    let ghost mut steps: Seq<Tried> = Seq::empty();
    proof {
        lemma_steps_start(s0, depth_left, alpha0, beta0, heuristic_cache, c0, ordered@);
    }
    let mut i: usize = 0;
    while i < ordered.len()
        invariant_except_break
            i >= 1 ==> alpha < beta,
        invariant
            s0 == *old(state),
            state.same_as(s0),
            playable(s0),
            !s0.drawn,
            status_of(s0) == Status::Running,
            s0.room(depth_left + 1),
            depth_left >= 1,
            abs(heuristic_cache as int) + depth_left * MAX_DELTA <= SCORE_BOUND,
            cache_ok(move_cache@),
            forall|k: int| 0 <= k < ordered@.len() ==> legal(s0, #[trigger] ordered@[k]),
            -SCORE_BOUND <= best_utility <= SCORE_BOUND,
            best_action is Some ==> legal(s0, best_action->0),
            depth_left < CANCEL_DEPTH ==> depth_left - 1 < CANCEL_DEPTH,
            key == s0.spec_hash(),
            !cache_hit(c0, key, depth_left),
            ordered_moves(s0, cache_hint(c0, key), ordered@),
            steps.len() == i,
            i <= ordered@.len(),
            move_cache@ == cache_before(c0, steps, i as int),
            fold_tried(s0.turn, alpha0, beta0, steps) == (alpha, beta, best_utility, best_action),
            steps_ok(s0, depth_left, alpha0, beta0, heuristic_cache, c0, ordered@, steps),
        ensures
            i < ordered@.len() ==> i >= 1 && alpha >= beta,
        decreases ordered@.len() - i,
    {
        let a = ordered[i];
        let ghost before = *state;
        proof {
            lemma_same_specs(before, s0);
            assert(legal(s0, a));
        }
        let action_heuristic = heuristic_action(state, &a);
        let moved_pieces = inplace_result(state, &a);
        let ghost after_move = *state;
        proof {
            lemma_successor_playable(before, a, after_move, depth_left as int);
            lemma_valid_well_placed(before, a);
        }
        let child_h = -(heuristic_cache + action_heuristic);
        let child = minimax(
            state,
            depth_left - 1,
            alpha,
            beta,
            child_h,
            done_channel,
            move_cache,
        );
        let ghost after_child = *state;
        proof {
            assert forall|k: int| 0 <= k < moved_pieces.squares@.len() implies #[trigger] moved_pieces.squares@[k].0
                < 8 && moved_pieces.squares@[k].1 < 8 by {
                assert(moved_pieces.squares@[k].0 == touched_squares(a)[k].0);
            }
        }
        inplace_revert(state, moved_pieces);
        proof {
            lemma_undo_round_trip(before, a, after_move, *state);
        }
        let (child_value, child_best) = match child {
            None => {
                return None;
            },
            Some(found) => found,
        };
        let response_utility = -child_value;
        proof {
            lemma_same_specs(before, s0);
            let x = (a, after_move, child_value, child_best, move_cache@);
            lemma_steps_push(
                s0,
                depth_left,
                alpha0,
                beta0,
                heuristic_cache,
                c0,
                ordered@,
                steps,
                x,
            );
            lemma_fold_push(s0.turn, alpha0, beta0, steps, x);
            steps = steps.push(x);
        }
        if best_utility < response_utility {
            best_utility = response_utility;
            best_action = Some(a);
        }
        if state.turn == PC::White {
            if alpha < response_utility {
                alpha = response_utility;
            }
        } else {
            if beta > -response_utility {
                beta = -response_utility;
            }
        }
        i = i + 1;
        if alpha >= beta {
            break;
        }
    }
    let ghost before_insert = move_cache@;
    cache_insert(move_cache, state.hash(), (depth_left, best_utility, best_action));
    proof {
        lemma_same_specs(*state, s0);
        lemma_searched_intro(
            s0,
            depth_left,
            alpha0,
            beta0,
            heuristic_cache,
            c0,
            ordered@,
            steps,
            move_cache@,
        );
    }
    Some((best_utility, best_action))
}

/// What a completed search of depth `depth` reports: the depth and its
/// best move, when it found one; nothing for a cancelled search.
pub fn depth_report(depth: u32, outcome: Option<(i64, Option<Action>)>) -> (r: Option<(u32, Action)>)
    ensures
        r == match outcome {
            Some((_, Some(a))) => Some((depth, a)),
            _ => None::<(u32, Action)>,
        },
{
    match outcome {
        Some((_, Some(a))) => Some((depth, a)),
        _ => None,
    }
}

/// Searches from `state` with depths 1 to `max_depth` in turn, sending the
/// best move of each depth that completes, with that depth, over `tx`.
/// Stops without a result for the depth under way once a message arrives
/// on `done_channel`.
pub fn ai_move(
    state: State,
    tx: Sender<(u32, Action)>,
    max_depth: u32,
    done_channel: Receiver<()>,
    move_cache: &mut MoveCache,
)
    requires
        playable(state),
        state.room(max_depth + 1),
        cache_ok(old(move_cache)@),
    ensures
        cache_ok(final(move_cache)@),
{
    let mut state = state;
    let ghost s0 = state;
    if max_depth == 0 {
        return;
    }
    let mut depth: u32 = 1;
    while depth <= max_depth
        invariant
            1 <= depth,
            state.same_as(s0),
            playable(s0),
            s0.room(max_depth + 1),
            cache_ok(move_cache@),
        decreases max_depth - depth,
    {
        proof {
            lemma_same_specs(state, s0);
        }
        let curr_h = heuristic(&state);
        assert(depth * MAX_DELTA <= 4294967295 * 40000200) by (nonlinear_arith)
            requires
                depth <= 4294967295,
        ;
        let ghost before = state;
        let outcome = minimax(&mut state, depth, -INF, INF, curr_h, &done_channel, move_cache);
        if cancel_requested(&done_channel) {
            return;
        }
        if outcome.is_none() {
            return;
        }
        if let Some((done_depth, best_action)) = depth_report(depth, outcome) {
            assert(legal(s0, best_action));
            send_result(&tx, done_depth, best_action);
        }
        if depth == max_depth {
            break;
        }
        depth = depth + 1;
    }
}

} // verus!
