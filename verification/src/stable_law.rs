//! The stable limit: no move gives a player more than three stables.
use vstd::prelude::*;
use crate::board::{Tile, TileGroup, count_tile, in_bounds, is_tile, lemma_take_push, put, tile_at};
use crate::player::PlayerView;
use crate::state::{StateView, SubAction, lay_on};
use crate::invariants::{player_step, player_steps};

verus! {

/// Whether a tile carries a stable.
pub open spec fn is_stable(t: Tile) -> bool {
    t is ForestStable || t is MeadowStable || t is PastureStable
}

/// `is_stable` as a predicate.
pub open spec fn stable_fn() -> spec_fn(Tile) -> bool {
    |t: Tile| is_stable(t)
}

/// The number of cells of a board that carry a stable.
pub open spec fn stables(b: Seq<Tile>) -> nat {
    b.filter(stable_fn()).len()
}

proof fn lemma_stables_prefix(b: Seq<Tile>, n: int)
    requires
        0 <= n <= b.len(),
    ensures
        b.take(n).filter(stable_fn()).len() == b.take(n).filter(is_tile(Tile::ForestStable)).len()
            + b.take(n).filter(is_tile(Tile::MeadowStable)).len() + b.take(n).filter(
            is_tile(Tile::PastureStable),
        ).len(),
    decreases n,
{
    if n > 0 {
        lemma_stables_prefix(b, n - 1);
        lemma_take_push(b, n - 1);
        let t = b.take(n - 1);
        t.lemma_filter_push(b[n - 1], stable_fn());
        t.lemma_filter_push(b[n - 1], is_tile(Tile::ForestStable));
        t.lemma_filter_push(b[n - 1], is_tile(Tile::MeadowStable));
        t.lemma_filter_push(b[n - 1], is_tile(Tile::PastureStable));
    } else {
        assert(b.take(0) =~= Seq::<Tile>::empty());
    }
}

/// The stables of a board are its forest, meadow and pasture stables.
pub proof fn lemma_stables_count(b: Seq<Tile>)
    ensures
        stables(b) == count_tile(b, Tile::ForestStable) + count_tile(b, Tile::MeadowStable)
            + count_tile(b, Tile::PastureStable),
{
    lemma_stables_prefix(b, b.len() as int);
    assert(b.take(b.len() as int) =~= b);
}

proof fn lemma_stables_update_prefix(b: Seq<Tile>, i: int, t: Tile, n: int)
    requires
        0 <= i < b.len(),
        0 <= n <= b.len(),
    ensures
        b.update(i, t).take(n).filter(stable_fn()).len() + (if n > i && is_stable(b[i]) {
            1int
        } else {
            0int
        }) == b.take(n).filter(stable_fn()).len() + (if n > i && is_stable(t) {
            1int
        } else {
            0int
        }),
    decreases n,
{
    let u = b.update(i, t);
    if n > 0 {
        lemma_stables_update_prefix(b, i, t, n - 1);
        lemma_take_push(b, n - 1);
        lemma_take_push(u, n - 1);
        b.take(n - 1).lemma_filter_push(b[n - 1], stable_fn());
        u.take(n - 1).lemma_filter_push(u[n - 1], stable_fn());
    } else {
        assert(b.take(0) =~= Seq::<Tile>::empty());
        assert(u.take(0) =~= Seq::<Tile>::empty());
    }
}

/// Laying tile `t` on cell `c` takes away the old tile's stable and adds the
/// new tile's.
pub proof fn lemma_stables_put(b: Seq<Tile>, c: (usize, usize), t: Tile)
    requires
        b.len() == 12,
        in_bounds(c),
    ensures
        stables(put(b, c, t)) + (if is_stable(tile_at(b, c)) {
            1int
        } else {
            0int
        }) == stables(b) + (if is_stable(t) {
            1int
        } else {
            0int
        }),
{
    let i = c.1 * 3 + c.0;
    lemma_stables_update_prefix(b, i, t, 12);
    assert(b.take(12) =~= b);
    assert(put(b, c, t).take(12) =~= put(b, c, t));
}

/// Laying a tile that carries no stable never adds one.
pub proof fn lemma_stables_put_plain(b: Seq<Tile>, c: (usize, usize), t: Tile)
    requires
        b.len() == 12,
        in_bounds(c),
        !is_stable(t),
    ensures
        put(b, c, t).len() == 12,
        stables(put(b, c, t)) <= stables(b),
{
    lemma_stables_put(b, c, t);
}

/// Laying a tile that carries no stable on several cells never adds one.
pub proof fn lemma_stables_lay_on(b: Seq<Tile>, cells: Seq<(usize, usize)>, from: int, to: int, t: Tile)
    requires
        b.len() == 12,
        0 <= from,
        to <= cells.len(),
        forall|k: int| 0 <= k < cells.len() ==> in_bounds(#[trigger] cells[k]),
        !is_stable(t),
    ensures
        lay_on(b, cells, from, to, t).len() == 12,
        stables(lay_on(b, cells, from, to, t)) <= stables(b),
    decreases to - from,
{
    if to > from {
        lemma_stables_lay_on(b, cells, from, to - 1, t);
        assert(in_bounds(cells[to - 1]));
        lemma_stables_put_plain(lay_on(b, cells, from, to - 1, t), cells[to - 1], t);
    }
}


/// A tile group with no stable on either tile.
pub open spec fn plain_group(g: TileGroup) -> bool {
    match g {
        TileGroup::Single(t) => !is_stable(t),
        TileGroup::Twin((a, b)) => !is_stable(a) && !is_stable(b),
    }
}

/// Steps whose tile steps lay no stable.
pub open spec fn plain_steps(pending: Seq<SubAction>) -> bool {
    forall|k: int|
        0 <= k < pending.len() ==> match #[trigger] pending[k] {
            SubAction::PlaceTile(g) => plain_group(g),
            _ => true,
        }
}

/// No player has more than three stables, and no pending tile step lays a stable.
pub open spec fn within_stable_limit(s: StateView) -> bool {
    &&& forall|i: int| 0 <= i < s.players.len() ==> stables(#[trigger] s.players[i].outdoor) <= 3
    &&& plain_steps(s.pending)
}

/// Every position of `cs` is within the stable limit.
pub open spec fn all_within_limit(cs: Seq<StateView>) -> bool {
    forall|k: int| 0 <= k < cs.len() ==> within_stable_limit(#[trigger] cs[k])
}

proof fn lemma_all_within_concat(a: Seq<StateView>, b: Seq<StateView>)
    requires
        all_within_limit(a),
        all_within_limit(b),
    ensures
        all_within_limit(a + b),
{
    assert forall|k: int| 0 <= k < (a + b).len() implies within_stable_limit(#[trigger] (a + b)[k]) by {
        if k < a.len() {
            assert((a + b)[k] == a[k]);
        } else {
            assert((a + b)[k] == b[k - a.len()]);
        }
    }
}

/// A change of player `pi` alone that leaves at most three stables keeps the limit.
proof fn lemma_step_within(c: StateView, s: StateView, pi: int)
    requires
        within_stable_limit(s),
        player_step(c, s, pi),
        stables(c.players[pi].outdoor) <= 3,
    ensures
        within_stable_limit(c),
{
    assert forall|i: int| 0 <= i < c.players.len() implies stables(#[trigger] c.players[i].outdoor)
        <= 3 by {
        if i != pi {
            assert(c.players[i] == s.players[i]);
        }
    }
}

/// Dropping the last step keeps the limit.
proof fn lemma_popped_within(s: StateView)
    requires
        within_stable_limit(s),
    ensures
        within_stable_limit(s.popped()),
{
    let rest = if s.pending.len() > 0 {
        s.pending.drop_last()
    } else {
        s.pending
    };
    assert forall|k: int| 0 <= k < rest.len() implies match #[trigger] rest[k] {
        SubAction::PlaceTile(g) => plain_group(g),
        _ => true,
    } by {
        assert(rest[k] == s.pending[k]);
    }
    if rest.len() == 0 {
        let q = s.popped();
        assert(q.pending == seq![SubAction::SelectActionSpace]);
    }
}

/// Every position of `cs` changes only player `pi` and leaves at most three stables.
pub open spec fn limit_steps(cs: Seq<StateView>, s: StateView, pi: int) -> bool {
    forall|k: int|
        0 <= k < cs.len() ==> player_step(#[trigger] cs[k], s, pi) && stables(
            cs[k].players[pi].outdoor,
        ) <= 3
}

proof fn lemma_popped_limit_steps(cs: Seq<StateView>, s: StateView, pi: int)
    requires
        within_stable_limit(s),
        limit_steps(cs, s, pi),
    ensures
        all_within_limit(cs.map_values(crate::turn::pop_fn())),
{
    assert forall|k: int| 0 <= k < cs.map_values(crate::turn::pop_fn()).len() implies within_stable_limit(
        #[trigger] cs.map_values(crate::turn::pop_fn())[k],
    ) by {
        lemma_step_within(cs[k], s, pi);
        lemma_popped_within(cs[k]);
    }
}

/// Positions that change player `pi` alone and keep the outdoor board keep the limit.
proof fn lemma_same_outdoor_limit(cs: Seq<StateView>, s: StateView, pi: int)
    requires
        within_stable_limit(s),
        0 <= pi < s.players.len(),
        player_steps(cs, s, pi),
        forall|k: int| 0 <= k < cs.len() ==> (#[trigger] cs[k]).players[pi].outdoor == s.players[pi].outdoor,
    ensures
        limit_steps(cs, s, pi),
{
    assert forall|k: int| 0 <= k < cs.len() implies player_step(#[trigger] cs[k], s, pi) && stables(
        cs[k].players[pi].outdoor,
    ) <= 3 by {
        assert(player_step(cs[k], s, pi));
    }
}

proof fn lemma_stable_limit_steps(s: StateView, pi: int)
    requires
        s.wf(),
        within_stable_limit(s),
        0 <= pi < s.players.len(),
    ensures
        limit_steps(s.stable_options(pi), s, pi),
{
    crate::invariants::lemma_stable_steps(s, pi);
    let p = s.players[pi];
    let cs = s.stable_options(pi);
    lemma_stables_count(p.outdoor);
    crate::board::lemma_filtered_cells_in_bounds(crate::state::stable_cell(p.outdoor));
    assert forall|k: int| 0 <= k < cs.len() implies player_step(#[trigger] cs[k], s, pi) && stables(
        cs[k].players[pi].outdoor,
    ) <= 3 by {
        if k > 0 {
            let ms = crate::board::all_cells().filter(crate::state::stable_cell(p.outdoor));
            let c = ms[k - 1];
            assert(cs[k] == s.stable_child(pi, c));
            lemma_stables_put(p.outdoor, c, crate::state::stabled(tile_at(p.outdoor, c)));
        }
    }
}

/// Fencing a meadow keeps its stable, if any, and adds none.
proof fn lemma_stables_fence(b: Seq<Tile>, c: (usize, usize))
    requires
        b.len() == 12,
        in_bounds(c),
        tile_at(b, c).is_fenceable(),
    ensures
        put(b, c, crate::state::fenced(tile_at(b, c))).len() == 12,
        stables(put(b, c, crate::state::fenced(tile_at(b, c)))) <= stables(b),
{
    lemma_stables_put(b, c, crate::state::fenced(tile_at(b, c)));
}

proof fn lemma_fence_pairs_limit(s: StateView, pi: int, ms: Seq<(usize, usize)>, n: nat)
    requires
        s.wf(),
        within_stable_limit(s),
        0 <= pi < s.players.len(),
        n <= ms.len(),
        forall|k: int| 0 <= k < ms.len() ==> in_bounds(#[trigger] ms[k]),
        forall|k: int|
            0 <= k < ms.len() ==> tile_at(s.players[pi].outdoor, #[trigger] ms[k]).is_fenceable(),
    ensures
        limit_steps(s.fence_pairs_upto(pi, ms, n), s, pi),
    decreases n,
{
    if n > 0 {
        lemma_fence_pairs_limit(s, pi, ms, (n - 1) as nat);
        crate::invariants::lemma_fence_pairs_steps(s, pi, ms, n);
        let c = ms[n - 1];
        assert(in_bounds(c));
        assert(tile_at(s.players[pi].outdoor, c).is_fenceable());
        let p = s.players[pi];
        let b1 = put(p.outdoor, c, crate::state::fenced(tile_at(p.outdoor, c)));
        lemma_stables_fence(p.outdoor, c);
        let all = s.fence_pairs_upto(pi, ms, n);
        let prev = s.fence_pairs_upto(pi, ms, (n - 1) as nat);
        let c_r = ((c.0 + 1) as usize, c.1);
        let c_b = (c.0, (c.1 + 1) as usize);
        let a = s.fence_pair_at(pi, c, c_r);
        let b = s.fence_pair_at(pi, c, c_b);
        assert(all == prev + a + b);
        assert forall|k: int| 0 <= k < all.len() implies player_step(#[trigger] all[k], s, pi)
            && stables(all[k].players[pi].outdoor) <= 3 by {
            assert(player_step(all[k], s, pi));
            if k < prev.len() {
                assert(all[k] == prev[k]);
            } else {
                let c2 = if k < prev.len() + a.len() {
                    c_r
                } else {
                    c_b
                };
                assert(all[k] == s.fence_two(pi, c, c2));
                assert(in_bounds(c2));
                assert(tile_at(b1, c2) == tile_at(p.outdoor, c2));
                lemma_stables_put(b1, c2, crate::state::fenced(tile_at(p.outdoor, c2)));
            }
        }
    }
}

proof fn lemma_pasture_limit_steps(s: StateView, pi: int)
    requires
        s.wf(),
        within_stable_limit(s),
        0 <= pi < s.players.len(),
    ensures
        limit_steps(s.pasture_options(pi), s, pi),
{
    crate::invariants::lemma_pasture_steps(s, pi);
    let p = s.players[pi];
    let ms = crate::board::all_cells().filter(crate::state::fenceable_cell(p.outdoor));
    crate::board::lemma_filtered_cells_in_bounds(crate::state::fenceable_cell(p.outdoor));
    assert forall|k: int| 0 <= k < ms.len() implies tile_at(p.outdoor, #[trigger] ms[k]).is_fenceable() by {
        let c = ms[k];
        assert(ms.contains(c));
        crate::board::all_cells().lemma_filter_contains_rev(crate::state::fenceable_cell(p.outdoor), c);
    }
    let singles = if p.resources.wood >= 2 {
        ms.map_values(s.fence_one_fn(pi))
    } else {
        Seq::empty()
    };
    let pairs = if p.resources.wood >= 4 {
        s.fence_pairs_upto(pi, ms, ms.len())
    } else {
        Seq::empty()
    };
    if p.resources.wood >= 4 {
        lemma_fence_pairs_limit(s, pi, ms, ms.len());
    }
    let cs = s.pasture_options(pi);
    assert(cs == seq![s] + singles + pairs);
    assert forall|k: int| 0 <= k < cs.len() implies player_step(#[trigger] cs[k], s, pi) && stables(
        cs[k].players[pi].outdoor,
    ) <= 3 by {
        if 1 <= k < 1 + singles.len() {
            let c = ms[k - 1];
            assert(cs[k] == s.fence_one(pi, c));
            lemma_stables_fence(p.outdoor, c);
        } else if k >= 1 + singles.len() {
            assert(cs[k] == pairs[k - 1 - singles.len()]);
        }
    }
}

proof fn lemma_sow_row_limit(s: StateView, pi: int, w: int, nv: nat)
    requires
        s.wf(),
        within_stable_limit(s),
        0 <= pi < s.players.len(),
        0 <= w,
    ensures
        forall|k: int|
            0 <= k < s.sow_row(pi, w, nv).len() ==> stables(
                (#[trigger] s.sow_row(pi, w, nv)[k]).players[pi].outdoor,
            ) <= 3,
    decreases nv,
{
    if nv > 0 {
        lemma_sow_row_limit(s, pi, w, (nv - 1) as nat);
        let v = nv - 1;
        let prev = s.sow_row(pi, w, (nv - 1) as nat);
        let one = if s.sow_valid(pi, w, v) {
            seq![s.sowed(pi, w, v)]
        } else {
            Seq::empty()
        };
        if s.sow_valid(pi, w, v) {
            let p = s.players[pi];
            let fs = s.empty_fields(pi);
            crate::board::lemma_filtered_cells_in_bounds(crate::state::empty_field_cell(p.outdoor));
            lemma_stables_lay_on(p.outdoor, fs, 0, w, crate::state::grain_sown());
            lemma_stables_lay_on(
                lay_on(p.outdoor, fs, 0, w, crate::state::grain_sown()),
                fs,
                w,
                w + v,
                crate::state::veg_sown(),
            );
        }
        assert(s.sow_row(pi, w, nv) == prev + one);
        assert forall|k: int| 0 <= k < (prev + one).len() implies stables(
            (#[trigger] (prev + one)[k]).players[pi].outdoor,
        ) <= 3 by {
            if k < prev.len() {
                assert((prev + one)[k] == prev[k]);
            } else {
                assert((prev + one)[k] == one[k - prev.len()]);
            }
        }
    }
}

proof fn lemma_sow_limit(s: StateView, pi: int, nw: nat)
    requires
        s.wf(),
        within_stable_limit(s),
        0 <= pi < s.players.len(),
    ensures
        forall|k: int|
            0 <= k < s.sow_upto(pi, nw).len() ==> stables(
                (#[trigger] s.sow_upto(pi, nw)[k]).players[pi].outdoor,
            ) <= 3,
    decreases nw,
{
    if nw > 0 {
        lemma_sow_limit(s, pi, (nw - 1) as nat);
        let nv = (crate::state::min_usize(s.players[pi].resources.vegetables, 2) + 1) as nat;
        lemma_sow_row_limit(s, pi, nw - 1, nv);
        let a = s.sow_upto(pi, (nw - 1) as nat);
        let b = s.sow_row(pi, nw - 1, nv);
        assert(s.sow_upto(pi, nw) == a + b);
        assert forall|k: int| 0 <= k < (a + b).len() implies stables(
            (#[trigger] (a + b)[k]).players[pi].outdoor,
        ) <= 3 by {
            if k < a.len() {
                assert((a + b)[k] == a[k]);
            } else {
                assert((a + b)[k] == b[k - a.len()]);
            }
        }
    }
}


proof fn lemma_furnish_same_outdoor(s: StateView, pi: int, n: nat)
    requires
        0 <= pi < s.players.len(),
    ensures
        forall|k: int|
            0 <= k < s.furnish_upto(pi, n).len() ==> (#[trigger] s.furnish_upto(pi, n)[k]).players[pi].outdoor
                == s.players[pi].outdoor,
    decreases n,
{
    if n > 0 {
        lemma_furnish_same_outdoor(s, pi, (n - 1) as nat);
        let a = s.furnish_upto(pi, (n - 1) as nat);
        let b = s.furnish_cell(pi, n - 1);
        let fs = crate::state::furnishings_spec().filter(s.furnish_ok_fn(pi));
        assert(s.furnish_upto(pi, n) == a + b);
        assert forall|k: int| 0 <= k < (a + b).len() implies (#[trigger] (a + b)[k]).players[pi].outdoor
            == s.players[pi].outdoor by {
            if k < a.len() {
                assert((a + b)[k] == a[k]);
            } else {
                assert((a + b)[k] == b[k - a.len()]);
                assert(b[k - a.len()] == s.furnished(pi, crate::board::cell_at(n - 1), fs[k - a.len()]));
            }
        }
    }
}

proof fn lemma_trades_same_outdoor(s: StateView, pi: int, gap: int, n: nat)
    requires
        0 <= pi < s.players.len(),
    ensures
        forall|k: int|
            0 <= k < s.trades_upto(pi, gap, n).len() ==> (#[trigger] s.trades_upto(pi, gap, n)[k]).players[pi].outdoor
                == s.players[pi].outdoor,
    decreases n,
{
    if n > 0 {
        lemma_trades_same_outdoor(s, pi, gap, (n - 1) as nat);
        let g = (n - 1) as u8;
        let a = s.trades_upto(pi, gap, (n - 1) as nat);
        let b = s.trades(pi, g, crate::turn::trade_count(s.players[pi], g, gap));
        assert(s.trades_upto(pi, gap, n) == a + b);
        assert forall|k: int| 0 <= k < (a + b).len() implies (#[trigger] (a + b)[k]).players[pi].outdoor
            == s.players[pi].outdoor by {
            if k < a.len() {
                assert((a + b)[k] == a[k]);
            } else {
                assert((a + b)[k] == b[k - a.len()]);
                assert(b[k - a.len()] == s.traded(pi, g, k - a.len() + 1));
            }
        }
    }
}

proof fn lemma_loot_same_outdoor(s: StateView, pi: int, weapon: u8, used: u16, n: nat)
    requires
        0 <= pi < s.players.len(),
    ensures
        forall|k: int|
            0 <= k < s.loot_upto(pi, weapon, used, n).len() ==> (#[trigger] s.loot_upto(
                pi,
                weapon,
                used,
                n,
            )[k]).0.players[pi].outdoor == s.players[pi].outdoor,
    decreases n,
{
    if n > 0 {
        lemma_loot_same_outdoor(s, pi, weapon, used, (n - 1) as nat);
        let i = crate::state::loot_items()[n - 1];
        let a = s.loot_upto(pi, weapon, used, (n - 1) as nat);
        let b = if crate::state::loot_available(weapon, used, i) {
            seq![(s.loot(pi, i), 1u16 << i, false)]
        } else {
            Seq::empty()
        };
        assert(s.loot_upto(pi, weapon, used, n) == a + b);
        assert forall|k: int| 0 <= k < (a + b).len() implies (#[trigger] (a + b)[k]).0.players[pi].outdoor
            == s.players[pi].outdoor by {
            if k < a.len() {
                assert((a + b)[k] == a[k]);
            } else {
                assert((a + b)[k] == b[k - a.len()]);
            }
        }
    }
}

/// The moves of an expedition step keep the limit.
proof fn lemma_expedition_within(s: StateView, space: crate::action::ActionSpace, picks: usize, used: u16)
    requires
        s.wf(),
        within_stable_limit(s),
    ensures
        all_within_limit(s.expedition_children(space, picks, used)),
{
    let cur = s.current_player as int;
    let w = s.weapon_on(cur, space);
    let opts = s.expedition_options(cur, w, used);
    crate::invariants::lemma_expedition_steps(s, cur, w, used);
    lemma_loot_same_outdoor(s, cur, w, used, 10);
    assert forall|k: int| 0 <= k < opts.len() implies (#[trigger] opts[k]).0.players[cur].outdoor
        == s.players[cur].outdoor by {
        if w != 0 {
            let a = s.loot_upto(cur, w, used, 10);
            let b = if crate::state::loot_available(w, used, 13) && s.furnish_cave_options(cur).len()
                > 0 {
                seq![(s, 1u16 << 13u16, true)]
            } else {
                Seq::empty()
            };
            if (a + b).len() > 0 {
                assert(opts == a + b);
                if k < a.len() {
                    assert((a + b)[k] == a[k]);
                } else {
                    assert((a + b)[k] == b[k - a.len()]);
                }
            }
        }
    }
    let cs = s.expedition_children(space, picks, used);
    assert forall|k: int| 0 <= k < cs.len() implies within_stable_limit(#[trigger] cs[k]) by {
        let pick = opts[k];
        assert(cs[k] == s.expedition_child(space, picks, used, pick));
        let st = pick.0;
        assert(player_step(st, s, cur));
        lemma_step_within(st, s, cur);
        let c0 = st.with_pending(st.pending.drop_last());
        assert(plain_steps(c0.pending)) by {
            assert forall|m: int| 0 <= m < c0.pending.len() implies match #[trigger] c0.pending[m] {
                SubAction::PlaceTile(g) => plain_group(g),
                _ => true,
            } by {
                assert(c0.pending[m] == st.pending[m]);
            }
        }
        let x = cs[k];
        assert forall|i: int| 0 <= i < x.players.len() implies stables(#[trigger] x.players[i].outdoor)
            <= 3 by {
            assert(x.players[i].outdoor == c0.players[i].outdoor);
        }
        assert forall|m: int| 0 <= m < x.pending.len() implies match #[trigger] x.pending[m] {
            SubAction::PlaceTile(g) => plain_group(g),
            _ => true,
        } by {
            if m < c0.pending.len() {
                assert(x.pending[m] == c0.pending[m]);
            }
        }
    }
}

proof fn lemma_placement_stables(b: Seq<Tile>, tile: TileGroup)
    requires
        b.len() == 12,
        plain_group(tile),
    ensures
        forall|k: int|
            0 <= k < crate::board::tile_placements_spec(b, tile).len() ==> stables(
                #[trigger] crate::board::tile_placements_spec(b, tile)[k],
            ) <= stables(b),
{
    match tile {
        TileGroup::Single(t) => {
            let anchors = crate::board::single_anchors(b, t);
            assert forall|k: int|
                0 <= k < crate::board::tile_placements_spec(b, tile).len() implies stables(
                #[trigger] crate::board::tile_placements_spec(b, tile)[k],
            ) <= stables(b) by {
                crate::board::lemma_single_anchor(b, t, k);
                lemma_stables_put_plain(b, anchors[k], t);
            }
        },
        TileGroup::Twin((t1, t2)) => {
            let req = t1.requires_adjacency();
            let anchors = if req {
                crate::board::cells_adjacent_to_developed_spec(b)
            } else {
                Seq::empty()
            };
            lemma_twin_stables(b, t1, t2, anchors, req, 12);
        },
    }
}

proof fn lemma_twin_stables(
    b: Seq<Tile>,
    t1: Tile,
    t2: Tile,
    anchors: Seq<(usize, usize)>,
    req: bool,
    n: nat,
)
    requires
        b.len() == 12,
        n <= 12,
        !is_stable(t1),
        !is_stable(t2),
    ensures
        forall|k: int|
            0 <= k < crate::board::twin_placements_upto(b, t1, t2, anchors, req, n).len() ==> stables(
                #[trigger] crate::board::twin_placements_upto(b, t1, t2, anchors, req, n)[k],
            ) <= stables(b),
    decreases n,
{
    if n > 0 {
        lemma_twin_stables(b, t1, t2, anchors, req, (n - 1) as nat);
        let c = crate::board::cell_at(n - 1);
        crate::board::lemma_cell_at(n - 1);
        let a = crate::board::twin_placements_upto(b, t1, t2, anchors, req, (n - 1) as nat);
        let cr = ((c.0 + 1) as usize, c.1);
        let cb = (c.0, (c.1 + 1) as usize);
        let r = crate::board::twin_pair(b, t1, t2, anchors, req, c, cr);
        let d = crate::board::twin_pair(b, t1, t2, anchors, req, c, cb);
        lemma_stables_put_plain(b, c, t1);
        lemma_stables_put_plain(b, c, t2);
        if in_bounds(cr) {
            lemma_stables_put_plain(put(b, c, t1), cr, t2);
            lemma_stables_put_plain(put(b, c, t2), cr, t1);
        }
        if in_bounds(cb) {
            lemma_stables_put_plain(put(b, c, t1), cb, t2);
            lemma_stables_put_plain(put(b, c, t2), cb, t1);
        }
        let all = a + (r + d);
        assert(crate::board::twin_placements_upto(b, t1, t2, anchors, req, n) == all);
        assert forall|k: int| 0 <= k < all.len() implies stables(#[trigger] all[k]) <= stables(b) by {
            if k < a.len() {
                assert(all[k] == a[k]);
            } else if k < a.len() + r.len() {
                assert(all[k] == r[k - a.len()]);
            } else {
                assert(all[k] == d[k - a.len() - r.len()]);
            }
        }
    }
}

/// The moves of a tile step keep the limit.
proof fn lemma_place_within(s: StateView, tile: TileGroup)
    requires
        s.wf(),
        within_stable_limit(s),
        plain_group(tile),
    ensures
        all_within_limit(s.place_children(tile)),
{
    let cur = s.current_player as int;
    let p = s.players[cur];
    let pl = p.tile_placements(tile);
    lemma_popped_within(s);
    if pl.len() > 0 {
        let cs = pl.map_values(s.place_child_fn());
        crate::invariants::lemma_placements_len(p.board_for(tile), tile);
        lemma_placement_stables(p.board_for(tile), tile);
        assert forall|k: int| 0 <= k < cs.len() implies within_stable_limit(#[trigger] cs[k]) by {
            let e = pl[k];
            let nb = e.1;
            assert(nb == crate::board::tile_placements_spec(p.board_for(tile), tile)[k]);
            assert(cs[k] == s.place_child(e.0, nb));
            let c = s.with_player(cur, s.place_child(e.0, nb).players[cur]);
            let q = cs[k].players[cur];
            assert(q.outdoor == p.outdoor || (q.outdoor == nb && p.board_for(tile) == p.outdoor));
            let before = s.with_player(cur, q);
            assert forall|i: int| 0 <= i < before.players.len() implies stables(
                #[trigger] before.players[i].outdoor,
            ) <= 3 by {
                if i != cur {
                    assert(before.players[i] == s.players[i]);
                }
            }
            lemma_popped_within(before);
            assert(cs[k] == before.popped());
        }
    }
}


/// The end of the placement phase keeps the limit: the harvest leaves every
/// stable where it is.
proof fn lemma_advanced_within(s: StateView)
    requires
        s.wf(),
        within_stable_limit(s),
    ensures
        within_stable_limit(s.advanced()),
{
    let a = s.advanced();
    assert forall|i: int| 0 <= i < a.players.len() implies stables(#[trigger] a.players[i].outdoor)
        <= 3 by {
        let b = s.players[i].outdoor;
        assert(s.players[i].wf());
        let hb = crate::farm_laws::harvested_board(b);
        assert(a.players[i].outdoor =~= hb);
        crate::farm_laws::lemma_harvest_counts(b, Tile::ForestStable, 12);
        crate::farm_laws::lemma_harvest_counts(b, Tile::MeadowStable, 12);
        crate::farm_laws::lemma_harvest_counts(b, Tile::PastureStable, 12);
        assert(b.take(12) =~= b);
        assert(hb.take(12) =~= hb);
        lemma_stables_count(b);
        lemma_stables_count(hb);
    }
    let n = s.players.len();
    assert forall|k: int| 0 <= k < a.pending.len() implies match #[trigger] a.pending[k] {
        SubAction::PlaceTile(g) => plain_group(g),
        _ => true,
    } by {
        if k > 0 {
            assert(a.pending[k] == SubAction::TradeFood { player_idx: (n - 1 - (k - 1)) as usize });
        }
    }
}

/// The end of a round keeps the limit.
proof fn lemma_finished_within(s: StateView)
    requires
        within_stable_limit(s),
    ensures
        within_stable_limit(s.finished_round()),
{
    let f = s.finished_round();
    assert forall|i: int| 0 <= i < f.players.len() implies stables(#[trigger] f.players[i].outdoor)
        <= 3 by {
        assert(f.players[i].outdoor == s.players[i].outdoor);
    }
}

/// The moves of a trading step keep the limit.
proof fn lemma_trade_within(s: StateView, pi: int)
    requires
        s.wf(),
        within_stable_limit(s),
        0 <= pi < s.players.len(),
        s.pending.last() is TradeFood,
    ensures
        all_within_limit(s.trade_children(pi)),
{
    let d = s.trade_done();
    let rest = s.pending.drop_last();
    assert forall|m: int| 0 <= m < rest.len() implies match #[trigger] rest[m] {
        SubAction::PlaceTile(g) => plain_group(g),
        _ => true,
    } by {
        assert(rest[m] == s.pending[m]);
    }
    assert(within_stable_limit(d));
    let gap = s.food_gap(pi);
    let ts = if gap > 0 {
        s.trades_upto(pi, gap, 8)
    } else {
        Seq::empty()
    };
    if gap > 0 {
        crate::invariants::lemma_trades_steps(s, pi, gap, 8);
        lemma_trades_same_outdoor(s, pi, gap, 8);
        lemma_same_outdoor_limit(ts, s, pi);
        assert forall|k: int| 0 <= k < ts.len() implies within_stable_limit(#[trigger] ts[k]) by {
            lemma_step_within(ts[k], s, pi);
        }
    }
    lemma_all_within_concat(seq![d], ts);
}

/// Every candidate of `cs` keeps the outdoor board of player `pi` of `s`, and
/// its steps lay no stable.
pub open spec fn cands_plain(cs: Seq<(StateView, Seq<SubAction>)>, s: StateView, pi: int) -> bool {
    forall|k: int|
        0 <= k < cs.len() ==> (#[trigger] cs[k]).0.players[pi].outdoor == s.players[pi].outdoor
            && plain_steps(cs[k].1)
}

proof fn lemma_cands_plain_concat(
    a: Seq<(StateView, Seq<SubAction>)>,
    b: Seq<(StateView, Seq<SubAction>)>,
    s: StateView,
    pi: int,
)
    requires
        cands_plain(a, s, pi),
        cands_plain(b, s, pi),
    ensures
        cands_plain(a + b, s, pi),
{
    assert forall|k: int| 0 <= k < (a + b).len() implies (#[trigger] (a + b)[k]).0.players[pi].outdoor
        == s.players[pi].outdoor && plain_steps((a + b)[k].1) by {
        if k < a.len() {
            assert((a + b)[k] == a[k]);
        } else {
            assert((a + b)[k] == b[k - a.len()]);
        }
    }
}

proof fn lemma_forge_plain(
    s: StateView,
    pi: int,
    space: crate::action::ActionSpace,
    stack: Seq<SubAction>,
)
    requires
        0 <= pi < s.players.len(),
        plain_steps(stack),
    ensures
        cands_plain(s.forge_options(pi, space).map_values(crate::turn::with_stack_fn(stack)), s, pi),
{
    let fs = s.forge_options(pi, space);
    assert forall|k: int| 0 <= k < fs.len() implies (#[trigger] fs.map_values(
        crate::turn::with_stack_fn(stack),
    )[k]).0.players[pi].outdoor == s.players[pi].outdoor && plain_steps(
        fs.map_values(crate::turn::with_stack_fn(stack))[k].1,
    ) by {
        assert(fs[k] == s.forged(pi, space, k + 1));
    }
}

/// The candidates of an action space keep the mover's outdoor board and lay no stable.
proof fn lemma_sub_actions_plain(s: StateView, space: crate::action::ActionSpace, cur: int)
    requires
        0 <= cur < s.players.len(),
    ensures
        cands_plain(s.sub_actions(space, cur), s, cur),
{
    let e: Seq<SubAction> = Seq::empty();
    match space {
        crate::action::ActionSpace::Blacksmithing => {
            lemma_forge_plain(s, cur, space, seq![crate::turn::exp_pick(space, 3)]);
        },
        crate::action::ActionSpace::Adventure => {
            let exp = seq![crate::turn::exp_pick(space, 1), crate::turn::exp_pick(space, 1)];
            assert(cands_plain(seq![(s, exp)], s, cur));
            if !s.armed_on(cur, space) {
                lemma_forge_plain(s, cur, space, exp);
                lemma_cands_plain_concat(
                    seq![(s, exp)],
                    s.forge_options(cur, space).map_values(crate::turn::with_stack_fn(exp)),
                    s,
                    cur,
                );
            }
        },
        crate::action::ActionSpace::WishForChildren => {
            let g = match s.family_growth_option(cur) {
                Some(g) => seq![(g, e)],
                None => Seq::empty(),
            };
            assert(cands_plain(g, s, cur));
            assert(cands_plain(seq![(s, seq![SubAction::Furnish])], s, cur));
            lemma_cands_plain_concat(g, seq![(s, seq![SubAction::Furnish])], s, cur);
        },
        crate::action::ActionSpace::FamilyLife => {
            let g = match s.family_growth_option(cur) {
                Some(g) => seq![(g, e), (g, seq![SubAction::Sow])],
                None => Seq::empty(),
            };
            let t = seq![(s, seq![SubAction::Sow]), (s, e)];
            assert(cands_plain(g, s, cur));
            assert(cands_plain(t, s, cur));
            lemma_cands_plain_concat(g, t, s, cur);
        },
        _ => {
            let cs = s.sub_actions(space, cur);
            assert forall|k: int| 0 <= k < cs.len() implies (#[trigger] cs[k]).0.players[cur].outdoor
                == s.players[cur].outdoor && plain_steps(cs[k].1) by {
                assert(cs[k].0 == s);
            }
        },
    }
}

proof fn lemma_cands_plain_filter(
    cs: Seq<(StateView, Seq<SubAction>)>,
    s: StateView,
    pi: int,
    p: spec_fn((StateView, Seq<SubAction>)) -> bool,
)
    requires
        cands_plain(cs, s, pi),
    ensures
        cands_plain(cs.filter(p), s, pi),
{
    assert forall|k: int| 0 <= k < cs.filter(p).len() implies (#[trigger] cs.filter(p)[k]).0.players[pi].outdoor
        == s.players[pi].outdoor && plain_steps(cs.filter(p)[k].1) by {
        let x = cs.filter(p)[k];
        assert(cs.filter(p).contains(x));
        cs.lemma_filter_contains_rev(p, x);
        let m = choose|m: int| 0 <= m < cs.len() && cs[m] == x;
        assert(cs[m].0.players[pi].outdoor == s.players[pi].outdoor);
    }
}

/// Taking an action space keeps the limit.
proof fn lemma_space_within(s: StateView, space: crate::action::ActionSpace)
    requires
        s.wf(),
        within_stable_limit(s),
        !s.is_round_over(),
    ensures
        all_within_limit(s.space_children(space)),
{
    if s.space_available(space) && !s.occupied(space) {
        let cur = s.current_player as int;
        let placed = s.placed(space);
        let p = s.players[cur];
        let p1 = PlayerView { dwarfs: crate::player::dwarfs_after_placing(p.dwarfs, space), ..p };
        let p2 = p1.with_gains(space, s.accumulated[space.index() as int] as int);
        assert(p2.wf());
        crate::invariants::lemma_with_player_step(s, cur, p2);
        crate::invariants::lemma_player_step_wf(s.with_player(cur, p2), s, cur);
        assert(placed.wf());
        assert(within_stable_limit(placed)) by {
            assert forall|i: int| 0 <= i < placed.players.len() implies stables(
                #[trigger] placed.players[i].outdoor,
            ) <= 3 by {
                if i != cur {
                    assert(placed.players[i] == s.players[i]);
                }
            }
        }
        let all = placed.sub_actions(space, cur);
        crate::invariants::lemma_sub_actions_ok(placed, space, cur);
        lemma_sub_actions_plain(placed, space, cur);
        let c1 = all.filter(crate::turn::keep_cand_fn());
        crate::invariants::lemma_cands_filter(all, placed, cur, crate::turn::keep_cand_fn());
        lemma_cands_plain_filter(all, placed, cur, crate::turn::keep_cand_fn());
        let c2 = if crate::turn::some_lays_tile(c1) {
            c1.filter(crate::turn::lays_tile_fn()).take(1)
        } else {
            c1
        };
        if crate::turn::some_lays_tile(c1) {
            crate::invariants::lemma_cands_filter(c1, placed, cur, crate::turn::lays_tile_fn());
            lemma_cands_plain_filter(c1, placed, cur, crate::turn::lays_tile_fn());
            crate::turn::lemma_some_tile_filter_nonempty(c1);
            let f = c1.filter(crate::turn::lays_tile_fn());
            assert(c2[0] == f[0]);
            assert(crate::invariants::cands_ok(c2, placed, cur));
            assert(cands_plain(c2, placed, cur));
        }
        let cs = c2.map_values(crate::turn::finish_cand_fn());
        assert forall|k: int| 0 <= k < cs.len() implies within_stable_limit(#[trigger] cs[k]) by {
            let c = c2[k];
            assert(player_step(c.0, placed, cur));
            lemma_step_within(c.0, placed, cur);
            if c.1.len() == 0 {
                lemma_popped_within(c.0);
            } else {
                assert(within_stable_limit(c.0.with_pending(c.1)));
            }
        }
    }
}

proof fn lemma_select_within(s: StateView, n: nat)
    requires
        s.wf(),
        within_stable_limit(s),
        !s.is_round_over(),
    ensures
        all_within_limit(s.select_children_upto(n)),
    decreases n,
{
    if n > 0 {
        lemma_select_within(s, (n - 1) as nat);
        lemma_space_within(s, crate::action::space_at(n - 1));
        lemma_all_within_concat(
            s.select_children_upto((n - 1) as nat),
            s.space_children(crate::action::space_at(n - 1)),
        );
    }
}

/// No move gives a player more than three stables: from a well-formed
/// position where no player has more than three stables and no pending tile
/// step lays a stable, every successor position is such a position too.
pub proof fn lemma_children_stable_limit(s: StateView)
    requires
        s.wf(),
        within_stable_limit(s),
    ensures
        forall|k: int| 0 <= k < s.children().len() ==> within_stable_limit(#[trigger] s.children()[k]),
        forall|k: int, i: int|
            0 <= k < s.children().len() && 0 <= i < s.children()[k].players.len() ==> (
            #[trigger] s.children()[k].players[i]).stable_count() <= 3,
{
    let cur = s.current_player as int;
    if !s.done() {
        assert(s.pending[s.pending.len() - 1] == s.pending.last());
        match s.pending.last() {
            SubAction::SelectActionSpace => {
                if s.is_round_over() {
                    lemma_advanced_within(s);
                } else {
                    lemma_select_within(s, 22);
                }
            },
            SubAction::PlaceTile(tile) => {
                lemma_place_within(s, tile);
            },
            SubAction::Pasture => {
                lemma_pasture_limit_steps(s, cur);
                lemma_popped_limit_steps(s.pasture_options(cur), s, cur);
            },
            SubAction::Stable => {
                lemma_stable_limit_steps(s, cur);
                lemma_popped_limit_steps(s.stable_options(cur), s, cur);
            },
            SubAction::Furnish => {
                crate::invariants::lemma_furnish_steps(s, cur, 12);
                lemma_furnish_same_outdoor(s, cur, 12);
                lemma_same_outdoor_limit(s.furnish_cave_options(cur), s, cur);
                lemma_popped_limit_steps(s.furnish_cave_options(cur), s, cur);
                lemma_popped_within(s);
            },
            SubAction::Sow => {
                let nw = (crate::state::min_usize(s.players[cur].resources.wheat, 2) + 1) as nat;
                crate::invariants::lemma_sow_steps(s, cur, nw);
                lemma_sow_limit(s, cur, nw);
                lemma_popped_limit_steps(s.sow_options(cur), s, cur);
                lemma_popped_within(s);
            },
            SubAction::ExpeditionPick { space, picks_remaining, used_items } => {
                lemma_expedition_within(s, space, picks_remaining, used_items);
            },
            SubAction::TradeFood { player_idx } => {
                lemma_trade_within(s, player_idx as int);
            },
            SubAction::FinishRound => {
                lemma_finished_within(s);
            },
        }
    }
    assert forall|k: int, i: int|
        0 <= k < s.children().len() && 0 <= i < s.children()[k].players.len() implies (
    #[trigger] s.children()[k].players[i]).stable_count() <= 3 by {
        assert(within_stable_limit(s.children()[k]));
        lemma_stables_count(s.children()[k].players[i].outdoor);
    }
}

/// A new game is within the stable limit.
pub proof fn lemma_initial_stable_limit(count: u32)
    ensures
        within_stable_limit(crate::state::initial_state(count)),
{
    let s = crate::state::initial_state(count);
    assert forall|i: int| 0 <= i < s.players.len() implies stables(#[trigger] s.players[i].outdoor)
        <= 3 by {
        let b = s.players[i].outdoor;
        assert(b == crate::player::filled(Tile::Forest));
        assert(b.filter(stable_fn()).len() == 0) by {
            if b.filter(stable_fn()).len() > 0 {
                let x = b.filter(stable_fn())[0];
                assert(b.filter(stable_fn()).contains(x));
                b.lemma_filter_contains_rev(stable_fn(), x);
            }
        }
    }
}

} // verus!
