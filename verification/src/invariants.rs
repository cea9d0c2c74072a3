//! What every move keeps: the successors of a well-formed position are
//! well formed and seat the same players.
use vstd::prelude::*;
use crate::board::{
    Tile, all_cells, cell_at, in_bounds, lemma_cell_at, lemma_filtered_cells_in_bounds, put,
};
use crate::player::{PastureView, PlayerView};
use crate::state::{StateView, SubAction, lay_on, next_placement_from};

verus! {

/// Position `c` is `s` with player `pi` alone changed, who stays well formed.
pub open spec fn player_step(c: StateView, s: StateView, pi: int) -> bool {
    &&& 0 <= pi < s.players.len()
    &&& c == s.with_player(pi, c.players[pi])
    &&& c.players[pi].wf()
}

/// Every position of `cs` is `s` with player `pi` alone changed, who stays well formed.
pub open spec fn player_steps(cs: Seq<StateView>, s: StateView, pi: int) -> bool {
    forall|k: int| 0 <= k < cs.len() ==> player_step(#[trigger] cs[k], s, pi)
}

/// Every position of `cs` is well formed, seats the players of `s` and is
/// in the round of `s`.
pub open spec fn all_wf(cs: Seq<StateView>, s: StateView) -> bool {
    forall|k: int|
        0 <= k < cs.len() ==> (#[trigger] cs[k]).wf() && cs[k].players.len() == s.players.len()
            && cs[k].round == s.round
}

pub(crate) proof fn lemma_player_step_wf(c: StateView, s: StateView, pi: int)
    requires
        s.wf(),
        player_step(c, s, pi),
    ensures
        c.wf(),
        c.players.len() == s.players.len(),
        c.pending == s.pending,
        c.current_player == s.current_player,
{
    assert forall|i: int| 0 <= i < c.players.len() implies (#[trigger] c.players[i]).wf() by {
        if i != pi {
            assert(c.players[i] == s.players[i]);
        }
    }
}

pub(crate) proof fn lemma_self_step(s: StateView, pi: int)
    requires
        s.wf(),
        0 <= pi < s.players.len(),
    ensures
        player_step(s, s, pi),
{
    assert(s.players.update(pi, s.players[pi]) =~= s.players);
}

pub(crate) proof fn lemma_with_player_step(s: StateView, pi: int, q: PlayerView)
    requires
        0 <= pi < s.players.len(),
        q.wf(),
    ensures
        player_step(s.with_player(pi, q), s, pi),
{
}

pub(crate) proof fn lemma_steps_concat(a: Seq<StateView>, b: Seq<StateView>, s: StateView, pi: int)
    requires
        player_steps(a, s, pi),
        player_steps(b, s, pi),
    ensures
        player_steps(a + b, s, pi),
{
    assert forall|k: int| 0 <= k < (a + b).len() implies player_step(#[trigger] (a + b)[k], s, pi) by {
        if k < a.len() {
            assert((a + b)[k] == a[k]);
        } else {
            assert((a + b)[k] == b[k - a.len()]);
        }
    }
}

pub(crate) proof fn lemma_all_wf_concat(a: Seq<StateView>, b: Seq<StateView>, s: StateView)
    requires
        all_wf(a, s),
        all_wf(b, s),
    ensures
        all_wf(a + b, s),
{
    assert forall|k: int| 0 <= k < (a + b).len() implies (#[trigger] (a + b)[k]).wf() && (a
        + b)[k].players.len() == s.players.len() && (a + b)[k].round == s.round by {
        if k < a.len() {
            assert((a + b)[k] == a[k]);
        } else {
            assert((a + b)[k] == b[k - a.len()]);
        }
    }
}

/// Laying a tile on a cell of the board keeps the board's size.
pub(crate) proof fn lemma_put_len(b: Seq<Tile>, c: (usize, usize), t: Tile)
    requires
        b.len() == 12,
        in_bounds(c),
    ensures
        put(b, c, t).len() == 12,
{
}

/// Laying tiles on cells of a board keeps the board's size.
pub(crate) proof fn lemma_lay_on_len(b: Seq<Tile>, cells: Seq<(usize, usize)>, from: int, to: int, t: Tile)
    requires
        b.len() == 12,
        0 <= from,
        to <= cells.len(),
        forall|k: int| 0 <= k < cells.len() ==> in_bounds(#[trigger] cells[k]),
    ensures
        lay_on(b, cells, from, to, t).len() == 12,
    decreases to - from,
{
    if to > from {
        lemma_lay_on_len(b, cells, from, to - 1, t);
        assert(in_bounds(cells[to - 1]));
    }
}

/// The next player with a dwarf to place is a seated player.
pub(crate) proof fn lemma_next_placement_seated(players: Seq<PlayerView>, current: usize, i: int)
    ensures
        next_placement_from(players, current, i) matches Some(n) ==> n < players.len(),
    decreases players.len() + 1 - i,
{
    let n = players.len();
    if !(i > n || i < 1) {
        let next = ((current + i) % (n as int)) as usize;
        lemma_next_placement_seated(players, current, i + 1);
    }
}

/// The pending steps of a well-formed position: some step, no trading step
/// at the bottom, and every trading step naming a seated player.
pub open spec fn steps_ok(pending: Seq<SubAction>, n: nat) -> bool {
    &&& pending.len() >= 1
    &&& !(pending[0] is TradeFood)
    &&& forall|k: int|
        0 <= k < pending.len() ==> match #[trigger] pending[k] {
            SubAction::TradeFood { player_idx } => player_idx < n,
            _ => true,
        }
}

/// Steps with no trading step in them are fine steps when there are some.
pub open spec fn no_trade(stack: Seq<SubAction>) -> bool {
    forall|k: int| 0 <= k < stack.len() ==> !((#[trigger] stack[k]) is TradeFood)
}

pub(crate) proof fn lemma_no_trade_steps_ok(stack: Seq<SubAction>, n: nat)
    requires
        stack.len() >= 1,
        no_trade(stack),
    ensures
        steps_ok(stack, n),
{
    assert(!(stack[0] is TradeFood));
}

/// A well-formed position with other fine steps pending is well formed.
pub(crate) proof fn lemma_with_pending_wf(s: StateView, stack: Seq<SubAction>)
    requires
        s.wf(),
        steps_ok(stack, s.players.len()),
    ensures
        s.with_pending(stack).wf(),
{
}

/// Dropping the last step keeps a position well formed.
pub proof fn lemma_popped_wf(s: StateView)
    requires
        s.wf(),
    ensures
        s.popped().wf(),
        s.popped().players == s.players,
{
    let rest = s.pending.drop_last();
    lemma_next_placement_seated(s.players, s.current_player, 1);
    if rest.len() > 0 {
        assert(rest[0] == s.pending[0]);
        assert forall|k: int| 0 <= k < rest.len() implies match #[trigger] rest[k] {
            SubAction::TradeFood { player_idx } => player_idx < s.players.len(),
            _ => true,
        } by {
            assert(rest[k] == s.pending[k]);
        }
    }
}


pub(crate) proof fn lemma_stable_steps(s: StateView, pi: int)
    requires
        s.wf(),
        0 <= pi < s.players.len(),
    ensures
        player_steps(s.stable_options(pi), s, pi),
{
    let p = s.players[pi];
    let ms = all_cells().filter(crate::state::stable_cell(p.outdoor));
    lemma_filtered_cells_in_bounds(crate::state::stable_cell(p.outdoor));
    let rest = if p.resources.stone < 1 || p.stable_count() >= 3 {
        Seq::empty()
    } else {
        ms.map_values(s.stable_child_fn(pi))
    };
    lemma_self_step(s, pi);
    assert forall|k: int| 0 <= k < rest.len() implies player_step(#[trigger] rest[k], s, pi) by {
        let c = ms[k];
        assert(rest[k] == s.stable_child(pi, c));
        lemma_put_len(p.outdoor, c, crate::state::stabled(crate::board::tile_at(p.outdoor, c)));
    }
    lemma_steps_concat(seq![s], rest, s, pi);
    assert(s.stable_options(pi) == seq![s] + rest);
}

pub(crate) proof fn lemma_fence_pairs_steps(s: StateView, pi: int, ms: Seq<(usize, usize)>, n: nat)
    requires
        s.wf(),
        0 <= pi < s.players.len(),
        n <= ms.len(),
        forall|k: int| 0 <= k < ms.len() ==> in_bounds(#[trigger] ms[k]),
    ensures
        player_steps(s.fence_pairs_upto(pi, ms, n), s, pi),
    decreases n,
{
    if n > 0 {
        let c = ms[n - 1];
        assert(in_bounds(c));
        lemma_fence_pairs_steps(s, pi, ms, (n - 1) as nat);
        let p = s.players[pi];
        let c_r = ((c.0 + 1) as usize, c.1);
        let c_b = (c.0, (c.1 + 1) as usize);
        let a = s.fence_pair_at(pi, c, c_r);
        let b = s.fence_pair_at(pi, c, c_b);
        assert forall|k: int| 0 <= k < a.len() implies player_step(#[trigger] a[k], s, pi) by {
            let b1 = put(p.outdoor, c, crate::state::fenced(crate::board::tile_at(p.outdoor, c)));
            lemma_put_len(p.outdoor, c, crate::state::fenced(crate::board::tile_at(p.outdoor, c)));
            lemma_put_len(b1, c_r, crate::state::fenced(crate::board::tile_at(p.outdoor, c_r)));
            let q = s.fence_two(pi, c, c_r).players[pi];
            assert forall|m: int| 0 <= m < q.pastures.len() implies {
                let cells = #[trigger] q.pastures[m].cells;
                &&& 1 <= cells.len() <= 2
                &&& forall|j: int| 0 <= j < cells.len() ==> in_bounds(#[trigger] cells[j])
            } by {
                if m < p.pastures.len() {
                    assert(q.pastures[m] == p.pastures[m]);
                }
            }
        }
        assert forall|k: int| 0 <= k < b.len() implies player_step(#[trigger] b[k], s, pi) by {
            let b1 = put(p.outdoor, c, crate::state::fenced(crate::board::tile_at(p.outdoor, c)));
            lemma_put_len(p.outdoor, c, crate::state::fenced(crate::board::tile_at(p.outdoor, c)));
            lemma_put_len(b1, c_b, crate::state::fenced(crate::board::tile_at(p.outdoor, c_b)));
            let q = s.fence_two(pi, c, c_b).players[pi];
            assert forall|m: int| 0 <= m < q.pastures.len() implies {
                let cells = #[trigger] q.pastures[m].cells;
                &&& 1 <= cells.len() <= 2
                &&& forall|j: int| 0 <= j < cells.len() ==> in_bounds(#[trigger] cells[j])
            } by {
                if m < p.pastures.len() {
                    assert(q.pastures[m] == p.pastures[m]);
                }
            }
        }
        lemma_steps_concat(s.fence_pairs_upto(pi, ms, (n - 1) as nat), a, s, pi);
        lemma_steps_concat(s.fence_pairs_upto(pi, ms, (n - 1) as nat) + a, b, s, pi);
    }
}

pub(crate) proof fn lemma_pasture_steps(s: StateView, pi: int)
    requires
        s.wf(),
        0 <= pi < s.players.len(),
    ensures
        player_steps(s.pasture_options(pi), s, pi),
{
    let p = s.players[pi];
    let ms = all_cells().filter(crate::state::fenceable_cell(p.outdoor));
    lemma_filtered_cells_in_bounds(crate::state::fenceable_cell(p.outdoor));
    let singles = if p.resources.wood >= 2 {
        ms.map_values(s.fence_one_fn(pi))
    } else {
        Seq::empty()
    };
    let pairs = if p.resources.wood >= 4 {
        s.fence_pairs_upto(pi, ms, ms.len())
    } else {
        Seq::empty()
    };
    lemma_self_step(s, pi);
    assert forall|k: int| 0 <= k < singles.len() implies player_step(#[trigger] singles[k], s, pi) by {
        let c = ms[k];
        assert(in_bounds(c));
        assert(singles[k] == s.fence_one(pi, c));
        lemma_put_len(p.outdoor, c, crate::state::fenced(crate::board::tile_at(p.outdoor, c)));
        let q = s.fence_one(pi, c).players[pi];
        assert forall|m: int| 0 <= m < q.pastures.len() implies {
            let cells = #[trigger] q.pastures[m].cells;
            &&& 1 <= cells.len() <= 2
            &&& forall|j: int| 0 <= j < cells.len() ==> in_bounds(#[trigger] cells[j])
        } by {
            if m < p.pastures.len() {
                assert(q.pastures[m] == p.pastures[m]);
            }
        }
    }
    if p.resources.wood >= 4 {
        lemma_fence_pairs_steps(s, pi, ms, ms.len());
    }
    lemma_steps_concat(seq![s], singles, s, pi);
    lemma_steps_concat(seq![s] + singles, pairs, s, pi);
    assert(s.pasture_options(pi) == seq![s] + singles + pairs);
}

pub(crate) proof fn lemma_furnish_steps(s: StateView, pi: int, n: nat)
    requires
        s.wf(),
        0 <= pi < s.players.len(),
        n <= 12,
    ensures
        player_steps(s.furnish_upto(pi, n), s, pi),
    decreases n,
{
    if n > 0 {
        lemma_furnish_steps(s, pi, (n - 1) as nat);
        let c = cell_at(n - 1);
        lemma_cell_at(n - 1);
        let p = s.players[pi];
        let fs = crate::state::furnishings_spec().filter(s.furnish_ok_fn(pi));
        let cell = s.furnish_cell(pi, n - 1);
        assert forall|k: int| 0 <= k < cell.len() implies player_step(#[trigger] cell[k], s, pi) by {
            let f = fs[k];
            assert(cell[k] == s.furnished(pi, c, f));
            lemma_put_len(p.indoor, c, f.tile);
        }
        lemma_steps_concat(s.furnish_upto(pi, (n - 1) as nat), cell, s, pi);
    }
}

pub(crate) proof fn lemma_forge_steps(s: StateView, pi: int, space: crate::action::ActionSpace)
    requires
        s.wf(),
        0 <= pi < s.players.len(),
    ensures
        player_steps(s.forge_options(pi, space), s, pi),
{
}

pub(crate) proof fn lemma_growth_step(s: StateView, pi: int)
    requires
        s.wf(),
        0 <= pi < s.players.len(),
    ensures
        s.family_growth_option(pi) matches Some(g) ==> player_step(g, s, pi),
{
}

pub(crate) proof fn lemma_sow_row_steps(s: StateView, pi: int, w: int, nv: nat)
    requires
        s.wf(),
        0 <= pi < s.players.len(),
        0 <= w,
    ensures
        player_steps(s.sow_row(pi, w, nv), s, pi),
    decreases nv,
{
    if nv > 0 {
        lemma_sow_row_steps(s, pi, w, (nv - 1) as nat);
        let v = nv - 1;
        let one = if s.sow_valid(pi, w, v) {
            seq![s.sowed(pi, w, v)]
        } else {
            Seq::empty()
        };
        if s.sow_valid(pi, w, v) {
            let p = s.players[pi];
            let fs = s.empty_fields(pi);
            lemma_filtered_cells_in_bounds(crate::state::empty_field_cell(p.outdoor));
            lemma_lay_on_len(p.outdoor, fs, 0, w, crate::state::grain_sown());
            lemma_lay_on_len(
                lay_on(p.outdoor, fs, 0, w, crate::state::grain_sown()),
                fs,
                w,
                w + v,
                crate::state::veg_sown(),
            );
        }
        lemma_steps_concat(s.sow_row(pi, w, (nv - 1) as nat), one, s, pi);
    }
}

pub(crate) proof fn lemma_sow_steps(s: StateView, pi: int, nw: nat)
    requires
        s.wf(),
        0 <= pi < s.players.len(),
    ensures
        player_steps(s.sow_upto(pi, nw), s, pi),
    decreases nw,
{
    if nw > 0 {
        lemma_sow_steps(s, pi, (nw - 1) as nat);
        let nv = (crate::state::min_usize(s.players[pi].resources.vegetables, 2) + 1) as nat;
        lemma_sow_row_steps(s, pi, nw - 1, nv);
        lemma_steps_concat(s.sow_upto(pi, (nw - 1) as nat), s.sow_row(pi, nw - 1, nv), s, pi);
    }
}


/// Dropping the top of two or more fine steps leaves fine steps.
pub(crate) proof fn lemma_drop_last_ok(pending: Seq<SubAction>, n: nat)
    requires
        steps_ok(pending, n),
        pending.len() >= 2,
    ensures
        steps_ok(pending.drop_last(), n),
{
    let rest = pending.drop_last();
    assert(rest[0] == pending[0]);
    assert forall|k: int| 0 <= k < rest.len() implies match #[trigger] rest[k] {
        SubAction::TradeFood { player_idx } => player_idx < n,
        _ => true,
    } by {
        assert(rest[k] == pending[k]);
    }
}

/// Pushing a step other than trading on fine steps, or on none, gives fine steps.
pub(crate) proof fn lemma_push_ok(pending: Seq<SubAction>, a: SubAction, n: nat)
    requires
        pending.len() == 0 || steps_ok(pending, n),
        !(a is TradeFood),
    ensures
        steps_ok(pending.push(a), n),
{
    let q = pending.push(a);
    assert forall|k: int| 0 <= k < q.len() implies match #[trigger] q[k] {
        SubAction::TradeFood { player_idx } => player_idx < n,
        _ => true,
    } by {
        if k < pending.len() {
            assert(q[k] == pending[k]);
        }
    }
    if pending.len() > 0 {
        assert(q[0] == pending[0]);
    }
}

/// A position whose seats and players are fine and whose steps are fine or
/// none: after `popped` when none, it is well formed.
pub(crate) proof fn lemma_finish_pending_wf(c: StateView)
    requires
        1 <= c.players.len() <= 256,
        forall|i: int| 0 <= i < c.players.len() ==> (#[trigger] c.players[i]).wf(),
        c.current_player < c.players.len(),
        (c.starting_player as int) < c.players.len(),
        c.accumulated.len() == 22,
        c.pending.len() == 0 || steps_ok(c.pending, c.players.len()),
    ensures
        (if c.pending.len() == 0 {
            c.popped()
        } else {
            c
        }).wf(),
        c.popped().players == c.players,
{
    lemma_next_placement_seated(c.players, c.current_player, 1);
}

/// Every pick of an expedition changes only player `pi`, who stays well formed.
pub open spec fn pick_steps(cs: Seq<(StateView, u16, bool)>, s: StateView, pi: int) -> bool {
    forall|k: int| 0 <= k < cs.len() ==> player_step((#[trigger] cs[k]).0, s, pi)
}

pub(crate) proof fn lemma_loot_steps(s: StateView, pi: int, weapon: u8, used: u16, n: nat)
    requires
        s.wf(),
        0 <= pi < s.players.len(),
        n <= 10,
    ensures
        pick_steps(s.loot_upto(pi, weapon, used, n), s, pi),
    decreases n,
{
    if n > 0 {
        lemma_loot_steps(s, pi, weapon, used, (n - 1) as nat);
        let i = crate::state::loot_items()[n - 1];
        let a = s.loot_upto(pi, weapon, used, (n - 1) as nat);
        let b = if crate::state::loot_available(weapon, used, i) {
            seq![(s.loot(pi, i), 1u16 << i, false)]
        } else {
            Seq::empty()
        };
        assert forall|k: int| 0 <= k < (a + b).len() implies player_step(
            (#[trigger] (a + b)[k]).0,
            s,
            pi,
        ) by {
            if k < a.len() {
                assert((a + b)[k] == a[k]);
            } else {
                assert((a + b)[k] == b[k - a.len()]);
            }
        }
    }
}

pub(crate) proof fn lemma_expedition_steps(s: StateView, pi: int, weapon: u8, used: u16)
    requires
        s.wf(),
        0 <= pi < s.players.len(),
    ensures
        pick_steps(s.expedition_options(pi, weapon, used), s, pi),
{
    lemma_self_step(s, pi);
    if weapon != 0 {
        lemma_loot_steps(s, pi, weapon, used, 10);
        let a = s.loot_upto(pi, weapon, used, 10);
        let b = if crate::state::loot_available(weapon, used, 13) && s.furnish_cave_options(pi).len()
            > 0 {
            seq![(s, 1u16 << 13u16, true)]
        } else {
            Seq::empty()
        };
        assert forall|k: int| 0 <= k < (a + b).len() implies player_step(
            (#[trigger] (a + b)[k]).0,
            s,
            pi,
        ) by {
            if k < a.len() {
                assert((a + b)[k] == a[k]);
            } else {
                assert((a + b)[k] == b[k - a.len()]);
            }
        }
    }
}

/// The moves of an expedition step keep a position well formed.
pub(crate) proof fn lemma_expedition_children_wf(
    s: StateView,
    space: crate::action::ActionSpace,
    picks: usize,
    used: u16,
)
    requires
        s.wf(),
        s.pending.last() is ExpeditionPick,
    ensures
        all_wf(s.expedition_children(space, picks, used), s),
{
    let cur = s.current_player as int;
    let opts = s.expedition_options(cur, s.weapon_on(cur, space), used);
    lemma_expedition_steps(s, cur, s.weapon_on(cur, space), used);
    let cs = s.expedition_children(space, picks, used);
    let n = s.players.len();
    assert forall|k: int| 0 <= k < cs.len() implies (#[trigger] cs[k]).wf() && cs[k].players.len()
        == s.players.len() && cs[k].round == s.round by {
        let pick = opts[k];
        assert(cs[k] == s.expedition_child(space, picks, used, pick));
        let st = pick.0;
        assert(player_step(st, s, cur));
        lemma_player_step_wf(st, s, cur);
        let c0 = st.with_pending(st.pending.drop_last());
        if st.pending.len() >= 2 {
            lemma_drop_last_ok(st.pending, n);
        }
        assert(c0.pending.len() == 0 || steps_ok(c0.pending, n));
        let c1 = if picks > 1 {
            c0.with_pending(
                c0.pending.push(
                    SubAction::ExpeditionPick {
                        space,
                        picks_remaining: (picks - 1) as usize,
                        used_items: used | pick.1,
                    },
                ),
            )
        } else if crate::turn::expedition_pending(c0.pending, space) {
            c0
        } else {
            let p = c0.players[cur];
            let ds = p.dwarfs;
            if crate::state::has_dwarf_on(ds, space) && ds[crate::state::first_on(ds, space)].weapon
                > 0 {
                let j = crate::state::first_on(ds, space);
                c0.with_player(
                    cur,
                    PlayerView {
                        dwarfs: ds.update(
                            j,
                            crate::player::Dwarf {
                                weapon: crate::turn::sharpened(ds[j].weapon),
                                ..ds[j]
                            },
                        ),
                        ..p
                    },
                )
            } else {
                c0
            }
        };
        if picks > 1 {
            lemma_push_ok(
                c0.pending,
                SubAction::ExpeditionPick {
                    space,
                    picks_remaining: (picks - 1) as usize,
                    used_items: used | pick.1,
                },
                n,
            );
        }
        assert forall|i: int| 0 <= i < c1.players.len() implies (#[trigger] c1.players[i]).wf() by {
            assert(c0.players[i].wf());
        }
        assert(c1.pending.len() == 0 || steps_ok(c1.pending, n));
        let c2 = if pick.2 && c1.furnish_cave_options(cur).len() > 0 {
            c1.with_pending(c1.pending.push(SubAction::Furnish))
        } else {
            c1
        };
        if pick.2 && c1.furnish_cave_options(cur).len() > 0 {
            lemma_push_ok(c1.pending, SubAction::Furnish, n);
        }
        lemma_finish_pending_wf(c2);
    }
}

pub(crate) proof fn lemma_trades_steps(s: StateView, pi: int, gap: int, n: nat)
    requires
        s.wf(),
        0 <= pi < s.players.len(),
        n <= 8,
    ensures
        player_steps(s.trades_upto(pi, gap, n), s, pi),
    decreases n,
{
    if n > 0 {
        lemma_trades_steps(s, pi, gap, (n - 1) as nat);
        let g = (n - 1) as u8;
        let t = s.trades(pi, g, crate::turn::trade_count(s.players[pi], g, gap));
        assert forall|k: int| 0 <= k < t.len() implies player_step(#[trigger] t[k], s, pi) by {
            assert(t[k] == s.traded(pi, g, k + 1));
        }
        lemma_steps_concat(s.trades_upto(pi, gap, (n - 1) as nat), t, s, pi);
    }
}

/// The moves of a trading step keep a position well formed.
pub(crate) proof fn lemma_trade_children_wf(s: StateView, pi: int)
    requires
        s.wf(),
        0 <= pi < s.players.len(),
        s.pending.last() is TradeFood,
    ensures
        all_wf(s.trade_children(pi), s),
{
    let n = s.players.len();
    assert(s.pending.len() >= 2);
    lemma_drop_last_ok(s.pending, n);
    let c0 = s.with_pending(s.pending.drop_last());
    assert(c0.wf());
    let d = s.trade_done();
    if c0.pending.last() is TradeFood {
        assert(c0.pending[c0.pending.len() - 1] == c0.pending.last());
    }
    assert(d.wf());
    let gap = s.food_gap(pi);
    let ts = if gap > 0 {
        s.trades_upto(pi, gap, 8)
    } else {
        Seq::empty()
    };
    if gap > 0 {
        lemma_trades_steps(s, pi, gap, 8);
    }
    assert forall|k: int| 0 <= k < ts.len() implies (#[trigger] ts[k]).wf() && ts[k].players.len()
        == s.players.len() && ts[k].round == s.round by {
        lemma_player_step_wf(ts[k], s, pi);
    }
    lemma_all_wf_concat(seq![d], ts, s);
}

/// The end of a round keeps a position well formed.
pub(crate) proof fn lemma_finished_round_wf(s: StateView)
    requires
        s.wf(),
    ensures
        s.finished_round().wf(),
        s.finished_round().players.len() == s.players.len(),
{
    let f = s.finished_round();
    assert forall|i: int| 0 <= i < f.players.len() implies (#[trigger] f.players[i]).wf() by {
        assert(s.players[i].wf());
    }
}

/// The end of the placement phase keeps a position well formed.
pub(crate) proof fn lemma_advanced_wf(s: StateView)
    requires
        s.wf(),
    ensures
        s.advanced().wf(),
        s.advanced().players.len() == s.players.len(),
{
    let a = s.advanced();
    assert forall|i: int| 0 <= i < a.players.len() implies (#[trigger] a.players[i]).wf() by {
        assert(s.players[i].wf());
    }
    let n = s.players.len();
    assert forall|k: int| 0 <= k < a.pending.len() implies match #[trigger] a.pending[k] {
        SubAction::TradeFood { player_idx } => player_idx < n,
        _ => true,
    } by {
        if k > 0 {
            assert(a.pending[k] == SubAction::TradeFood { player_idx: (n - 1 - (k - 1)) as usize });
        }
    }
    assert(a.pending[0] == SubAction::FinishRound);
}

/// A well-formed position after popped, as a function.
pub(crate) proof fn lemma_popped_all_wf(cs: Seq<StateView>, s: StateView, pi: int)
    requires
        s.wf(),
        player_steps(cs, s, pi),
    ensures
        all_wf(cs.map_values(crate::turn::pop_fn()), s),
{
    assert forall|k: int| 0 <= k < cs.map_values(crate::turn::pop_fn()).len() implies (
    #[trigger] cs.map_values(crate::turn::pop_fn())[k]).wf() && cs.map_values(
        crate::turn::pop_fn(),
    )[k].players.len() == s.players.len() && cs.map_values(crate::turn::pop_fn())[k].round
        == s.round by {
        lemma_player_step_wf(cs[k], s, pi);
        lemma_popped_wf(cs[k]);
    }
}


pub(crate) proof fn lemma_twin_len(
    b: Seq<Tile>,
    t1: Tile,
    t2: Tile,
    anchors: Seq<(usize, usize)>,
    req: bool,
    n: nat,
)
    requires
        b.len() == 12,
        n <= 12,
    ensures
        forall|k: int|
            0 <= k < crate::board::twin_placements_upto(b, t1, t2, anchors, req, n).len()
                ==> (#[trigger] crate::board::twin_placements_upto(b, t1, t2, anchors, req, n)[k]).len()
                == 12,
    decreases n,
{
    if n > 0 {
        lemma_twin_len(b, t1, t2, anchors, req, (n - 1) as nat);
        let c = cell_at(n - 1);
        lemma_cell_at(n - 1);
        let a = crate::board::twin_placements_upto(b, t1, t2, anchors, req, (n - 1) as nat);
        let r = crate::board::twin_pair(b, t1, t2, anchors, req, c, ((c.0 + 1) as usize, c.1));
        let d = crate::board::twin_pair(b, t1, t2, anchors, req, c, (c.0, (c.1 + 1) as usize));
        assert forall|k: int| 0 <= k < r.len() implies (#[trigger] r[k]).len() == 12 by {
            lemma_put_len(b, c, t1);
            lemma_put_len(b, c, t2);
            lemma_put_len(put(b, c, t1), ((c.0 + 1) as usize, c.1), t2);
            lemma_put_len(put(b, c, t2), ((c.0 + 1) as usize, c.1), t1);
        }
        assert forall|k: int| 0 <= k < d.len() implies (#[trigger] d[k]).len() == 12 by {
            lemma_put_len(b, c, t1);
            lemma_put_len(b, c, t2);
            lemma_put_len(put(b, c, t1), (c.0, (c.1 + 1) as usize), t2);
            lemma_put_len(put(b, c, t2), (c.0, (c.1 + 1) as usize), t1);
        }
        let all = a + (r + d);
        assert(crate::board::twin_placements_upto(b, t1, t2, anchors, req, n) == all);
        assert forall|k: int| 0 <= k < all.len() implies (#[trigger] all[k]).len() == 12 by {
            if k < a.len() {
                assert(all[k] == a[k]);
            } else if k < a.len() + r.len() {
                assert(all[k] == r[k - a.len()]);
            } else {
                assert(all[k] == d[k - a.len() - r.len()]);
            }
        }
    }
}

/// Every placement of a tile group is a full board.
pub(crate) proof fn lemma_placements_len(b: Seq<Tile>, tile: crate::board::TileGroup)
    requires
        b.len() == 12,
    ensures
        forall|k: int|
            0 <= k < crate::board::tile_placements_spec(b, tile).len()
                ==> (#[trigger] crate::board::tile_placements_spec(b, tile)[k]).len() == 12,
{
    match tile {
        crate::board::TileGroup::Single(t) => {
            let anchors = crate::board::single_anchors(b, t);
            assert forall|k: int|
                0 <= k < crate::board::tile_placements_spec(b, tile).len() implies (
            #[trigger] crate::board::tile_placements_spec(b, tile)[k]).len() == 12 by {
                crate::board::lemma_single_anchor(b, t, k);
                lemma_put_len(b, anchors[k], t);
            }
        },
        crate::board::TileGroup::Twin((t1, t2)) => {
            let req = t1.requires_adjacency();
            let anchors = if req {
                crate::board::cells_adjacent_to_developed_spec(b)
            } else {
                Seq::empty()
            };
            lemma_twin_len(b, t1, t2, anchors, req, 12);
        },
    }
}

/// The bonuses of a placement keep the animal table's size.
pub(crate) proof fn lemma_bonus_fold_len(
    side: crate::board::Side,
    cells: Seq<(usize, usize)>,
    r: crate::resources::Resources,
    a: Seq<usize>,
    n: nat,
)
    requires
        a.len() == 4,
    ensures
        crate::turn::bonus_fold(side, cells, r, a, n).1.len() == 4,
    decreases n,
{
    if n > 0 {
        lemma_bonus_fold_len(side, cells, r, a, (n - 1) as nat);
    }
}

/// The moves of a tile step keep a position well formed.
pub(crate) proof fn lemma_place_children_wf(s: StateView, tile: crate::board::TileGroup)
    requires
        s.wf(),
    ensures
        all_wf(s.place_children(tile), s),
{
    let cur = s.current_player as int;
    let p = s.players[cur];
    let pl = p.tile_placements(tile);
    lemma_popped_wf(s);
    if pl.len() > 0 {
        let cs = pl.map_values(s.place_child_fn());
        lemma_placements_len(p.board_for(tile), tile);
        assert forall|k: int| 0 <= k < cs.len() implies (#[trigger] cs[k]).wf()
            && cs[k].players.len() == s.players.len() && cs[k].round == s.round by {
            let e = pl[k];
            let side = e.0;
            let nb = e.1;
            assert(nb == crate::board::tile_placements_spec(p.board_for(tile), tile)[k]);
            assert(nb.len() == 12);
            assert(cs[k] == s.place_child(side, nb));
            let before = match side {
                crate::board::Side::Outdoor => p.outdoor,
                crate::board::Side::Indoor => p.indoor,
            };
            let changed = crate::board::changed_cells_spec(before, nb);
            let r0 = p.resources;
            let r1 = if crate::turn::places(nb, changed, Tile::OreMine) {
                crate::resources::Resources { coal: (r0.coal + 3) as usize, ..r0 }
            } else {
                r0
            };
            let r2 = if crate::turn::places(nb, changed, Tile::RubyMine)
                && crate::board::board_delta_spec(before, nb) == crate::board::TileGroup::Single(
                Tile::DeepTunnel,
            ) {
                crate::resources::Resources { rubies: (r1.rubies + 1) as usize, ..r1 }
            } else {
                r1
            };
            lemma_bonus_fold_len(side, changed, r2, p.animals, changed.len());
            let (r3, a3) = crate::turn::bonus_fold(side, changed, r2, p.animals, changed.len());
            let np = PlayerView {
                resources: r3,
                animals: a3,
                outdoor: match side {
                    crate::board::Side::Outdoor => nb,
                    crate::board::Side::Indoor => p.outdoor,
                },
                indoor: match side {
                    crate::board::Side::Outdoor => p.indoor,
                    crate::board::Side::Indoor => nb,
                },
                ..p
            };
            assert(np.wf());
            let c = s.with_player(cur, np);
            lemma_with_player_step(s, cur, np);
            lemma_player_step_wf(c, s, cur);
            lemma_popped_wf(c);
        }
    }
}


/// Every candidate of `cs` changes only player `pi` of `s`, who stays well
/// formed, and has no trading step among its steps.
pub open spec fn cands_ok(cs: Seq<(StateView, Seq<SubAction>)>, s: StateView, pi: int) -> bool {
    forall|k: int|
        0 <= k < cs.len() ==> player_step((#[trigger] cs[k]).0, s, pi) && no_trade(cs[k].1)
}

pub(crate) proof fn lemma_cands_concat(
    a: Seq<(StateView, Seq<SubAction>)>,
    b: Seq<(StateView, Seq<SubAction>)>,
    s: StateView,
    pi: int,
)
    requires
        cands_ok(a, s, pi),
        cands_ok(b, s, pi),
    ensures
        cands_ok(a + b, s, pi),
{
    assert forall|k: int| 0 <= k < (a + b).len() implies player_step((#[trigger] (a + b)[k]).0, s, pi)
        && no_trade((a + b)[k].1) by {
        if k < a.len() {
            assert((a + b)[k] == a[k]);
        } else {
            assert((a + b)[k] == b[k - a.len()]);
        }
    }
}

pub(crate) proof fn lemma_forge_cands(
    s: StateView,
    pi: int,
    space: crate::action::ActionSpace,
    stack: Seq<SubAction>,
)
    requires
        s.wf(),
        0 <= pi < s.players.len(),
        no_trade(stack),
    ensures
        cands_ok(s.forge_options(pi, space).map_values(crate::turn::with_stack_fn(stack)), s, pi),
{
    lemma_forge_steps(s, pi, space);
    let fs = s.forge_options(pi, space);
    assert forall|k: int| 0 <= k < fs.len() implies player_step(
        (#[trigger] fs.map_values(crate::turn::with_stack_fn(stack))[k]).0,
        s,
        pi,
    ) && no_trade(fs.map_values(crate::turn::with_stack_fn(stack))[k].1) by {
        assert(player_step(fs[k], s, pi));
    }
}

/// The candidates of an action space change only the current player and
/// hold no trading step.
pub(crate) proof fn lemma_sub_actions_ok(s: StateView, space: crate::action::ActionSpace, cur: int)
    requires
        s.wf(),
        0 <= cur < s.players.len(),
    ensures
        cands_ok(s.sub_actions(space, cur), s, cur),
{
    lemma_self_step(s, cur);
    lemma_growth_step(s, cur);
    let e: Seq<SubAction> = Seq::empty();
    match space {
        crate::action::ActionSpace::Blacksmithing => {
            lemma_forge_cands(s, cur, space, seq![crate::turn::exp_pick(space, 3)]);
        },
        crate::action::ActionSpace::Adventure => {
            let exp = seq![crate::turn::exp_pick(space, 1), crate::turn::exp_pick(space, 1)];
            assert(cands_ok(seq![(s, exp)], s, cur));
            if !s.armed_on(cur, space) {
                lemma_forge_cands(s, cur, space, exp);
                lemma_cands_concat(
                    seq![(s, exp)],
                    s.forge_options(cur, space).map_values(crate::turn::with_stack_fn(exp)),
                    s,
                    cur,
                );
            }
        },
        crate::action::ActionSpace::WishForChildren => {
            let g = match s.family_growth_option(cur) {
                Some(g) => seq![(g, e)],
                None => Seq::empty(),
            };
            assert(cands_ok(g, s, cur));
            assert(cands_ok(seq![(s, seq![SubAction::Furnish])], s, cur));
            lemma_cands_concat(g, seq![(s, seq![SubAction::Furnish])], s, cur);
        },
        crate::action::ActionSpace::FamilyLife => {
            let g = match s.family_growth_option(cur) {
                Some(g) => seq![(g, e), (g, seq![SubAction::Sow])],
                None => Seq::empty(),
            };
            let t = seq![(s, seq![SubAction::Sow]), (s, e)];
            assert(cands_ok(g, s, cur));
            assert(cands_ok(t, s, cur));
            lemma_cands_concat(g, t, s, cur);
        },
        _ => {
            let cs = s.sub_actions(space, cur);
            assert forall|k: int| 0 <= k < cs.len() implies player_step((#[trigger] cs[k]).0, s, cur)
                && no_trade(cs[k].1) by {
                assert(cs[k].0 == s);
            }
        },
    }
}

pub(crate) proof fn lemma_cands_filter(
    cs: Seq<(StateView, Seq<SubAction>)>,
    s: StateView,
    pi: int,
    p: spec_fn((StateView, Seq<SubAction>)) -> bool,
)
    requires
        cands_ok(cs, s, pi),
    ensures
        cands_ok(cs.filter(p), s, pi),
{
    assert forall|k: int| 0 <= k < cs.filter(p).len() implies player_step(
        (#[trigger] cs.filter(p)[k]).0,
        s,
        pi,
    ) && no_trade(cs.filter(p)[k].1) by {
        let x = cs.filter(p)[k];
        assert(cs.filter(p).contains(x));
        cs.lemma_filter_contains_rev(p, x);
        let m = choose|m: int| 0 <= m < cs.len() && cs[m] == x;
        assert(player_step(cs[m].0, s, pi));
    }
}

/// Taking an action space keeps a position well formed.
pub(crate) proof fn lemma_space_children_wf(s: StateView, space: crate::action::ActionSpace)
    requires
        s.wf(),
        !s.is_round_over(),
    ensures
        all_wf(s.space_children(space), s),
{
    if s.space_available(space) && !s.occupied(space) {
        let cur = s.current_player as int;
        let placed = s.placed(space);
        let p = s.players[cur];
        let p1 = PlayerView { dwarfs: crate::player::dwarfs_after_placing(p.dwarfs, space), ..p };
        let p2 = p1.with_gains(space, s.accumulated[space.index() as int] as int);
        assert(p2.wf());
        let s1 = s.with_player(cur, p2);
        lemma_with_player_step(s, cur, p2);
        lemma_player_step_wf(s1, s, cur);
        assert(placed.wf());
        lemma_sub_actions_ok(placed, space, cur);
        let c1 = placed.sub_actions(space, cur).filter(crate::turn::keep_cand_fn());
        lemma_cands_filter(placed.sub_actions(space, cur), placed, cur, crate::turn::keep_cand_fn());
        let c2 = if crate::turn::some_lays_tile(c1) {
            c1.filter(crate::turn::lays_tile_fn()).take(1)
        } else {
            c1
        };
        if crate::turn::some_lays_tile(c1) {
            lemma_cands_filter(c1, placed, cur, crate::turn::lays_tile_fn());
            crate::turn::lemma_some_tile_filter_nonempty(c1);
            let f = c1.filter(crate::turn::lays_tile_fn());
            assert(c2[0] == f[0]);
            assert(cands_ok(c2, placed, cur));
        }
        let cs = c2.map_values(crate::turn::finish_cand_fn());
        assert forall|k: int| 0 <= k < cs.len() implies (#[trigger] cs[k]).wf()
            && cs[k].players.len() == s.players.len() && cs[k].round == s.round by {
            let c = c2[k];
            assert(player_step(c.0, placed, cur));
            lemma_player_step_wf(c.0, placed, cur);
            if c.1.len() == 0 {
                lemma_popped_wf(c.0);
            } else {
                lemma_no_trade_steps_ok(c.1, placed.players.len());
                lemma_with_pending_wf(c.0, c.1);
            }
        }
    }
}

pub(crate) proof fn lemma_select_upto_wf(s: StateView, n: nat)
    requires
        s.wf(),
        !s.is_round_over(),
    ensures
        all_wf(s.select_children_upto(n), s),
    decreases n,
{
    if n > 0 {
        lemma_select_upto_wf(s, (n - 1) as nat);
        lemma_space_children_wf(s, crate::action::space_at(n - 1));
        lemma_all_wf_concat(
            s.select_children_upto((n - 1) as nat),
            s.space_children(crate::action::space_at(n - 1)),
            s,
        );
    }
}

/// Every successor position of a well-formed position is well formed and
/// seats the same number of players: whatever sequence of moves is played
/// from a new game, the position stays well formed. Every move keeps the
/// round, but the end of a round, which moves on to the next round.
pub proof fn lemma_children_wf(s: StateView)
    requires
        s.wf(),
    ensures
        forall|k: int|
            0 <= k < s.children().len() ==> (#[trigger] s.children()[k]).wf()
                && s.children()[k].players.len() == s.players.len(),
        forall|k: int|
            0 <= k < s.children().len() ==> if s.pending.last() is FinishRound {
                (#[trigger] s.children()[k]).round == s.round + 1
            } else {
                s.children()[k].round == s.round
            },
{
    let cur = s.current_player as int;
    let cs = s.children();
    if !s.done() {
        assert(s.pending[s.pending.len() - 1] == s.pending.last());
        match s.pending.last() {
            SubAction::SelectActionSpace => {
                if s.is_round_over() {
                    lemma_advanced_wf(s);
                } else {
                    lemma_select_upto_wf(s, 22);
                }
            },
            SubAction::PlaceTile(tile) => {
                lemma_place_children_wf(s, tile);
            },
            SubAction::Pasture => {
                lemma_pasture_steps(s, cur);
                lemma_popped_all_wf(s.pasture_options(cur), s, cur);
            },
            SubAction::Stable => {
                lemma_stable_steps(s, cur);
                lemma_popped_all_wf(s.stable_options(cur), s, cur);
            },
            SubAction::Furnish => {
                lemma_furnish_steps(s, cur, 12);
                lemma_popped_all_wf(s.furnish_cave_options(cur), s, cur);
                lemma_popped_wf(s);
            },
            SubAction::Sow => {
                lemma_sow_steps(
                    s,
                    cur,
                    (crate::state::min_usize(s.players[cur].resources.wheat, 2) + 1) as nat,
                );
                lemma_popped_all_wf(s.sow_options(cur), s, cur);
                lemma_popped_wf(s);
            },
            SubAction::ExpeditionPick { space, picks_remaining, used_items } => {
                lemma_expedition_children_wf(s, space, picks_remaining, used_items);
            },
            SubAction::TradeFood { player_idx } => {
                lemma_trade_children_wf(s, player_idx as int);
            },
            SubAction::FinishRound => {
                lemma_finished_round_wf(s);
            },
        }
    }
}


/// The first unplaced dwarf with the lowest weapon among the first `n`, when
/// one of them is unplaced.
pub(crate) proof fn lemma_best_upto(ds: Seq<crate::player::Dwarf>, n: int) -> (b: int)
    requires
        0 < n <= ds.len(),
        exists|k: int| 0 <= k < n && (#[trigger] ds[k]).placed_on is None,
    ensures
        0 <= b < n,
        ds[b].placed_on is None,
        forall|k: int| 0 <= k < n && (#[trigger] ds[k]).placed_on is None ==> ds[b].weapon <= ds[k].weapon,
        forall|k: int| 0 <= k < b && (#[trigger] ds[k]).placed_on is None ==> ds[b].weapon < ds[k].weapon,
    decreases n,
{
    if exists|k: int| 0 <= k < n - 1 && (#[trigger] ds[k]).placed_on is None {
        let b1 = lemma_best_upto(ds, n - 1);
        if ds[n - 1].placed_on is None && ds[n - 1].weapon < ds[b1].weapon {
            n - 1
        } else {
            b1
        }
    } else {
        n - 1
    }
}

/// A player with an unplaced dwarf has a lowest unplaced one.
pub proof fn lemma_lowest_unplaced_exists(ds: Seq<crate::player::Dwarf>)
    requires
        crate::player::has_unplaced(ds),
    ensures
        crate::player::is_lowest_unplaced(ds, crate::player::lowest_unplaced(ds)),
{
    let j = choose|j: int| 0 <= j < ds.len() && !((#[trigger] ds[j]).placed_on is Some);
    assert(ds[j].placed_on is None);
    let b = lemma_best_upto(ds, ds.len() as int);
    crate::player::lemma_lowest_unplaced_unique(ds, b);
}

/// A dwarf on `space` has a first dwarf on `space` before or at it.
pub proof fn lemma_first_on_exists(ds: Seq<crate::player::Dwarf>, space: crate::action::ActionSpace, k: int)
    requires
        0 <= k < ds.len(),
        ds[k].placed_on == Some(space),
    ensures
        crate::state::is_first_on(ds, space, crate::state::first_on(ds, space)),
    decreases k,
{
    if exists|m: int| 0 <= m < k && (#[trigger] ds[m]).placed_on == Some(space) {
        let m = choose|m: int| 0 <= m < k && (#[trigger] ds[m]).placed_on == Some(space);
        lemma_first_on_exists(ds, space, m);
    } else {
        crate::state::lemma_first_on_unique(ds, space, k);
    }
}

/// Two lists of dwarfs of one length whose dwarfs stand in the same places.
pub open spec fn same_places(a: Seq<crate::player::Dwarf>, b: Seq<crate::player::Dwarf>) -> bool {
    &&& a.len() == b.len()
    &&& forall|m: int| 0 <= m < a.len() ==> (#[trigger] a[m]).placed_on == b[m].placed_on
}

/// Every candidate of `cs` leaves the dwarfs of player `pi` of `s` where they stand.
pub open spec fn cands_keep_places(cs: Seq<(StateView, Seq<SubAction>)>, s: StateView, pi: int) -> bool {
    forall|k: int|
        0 <= k < cs.len() ==> same_places((#[trigger] cs[k]).0.players[pi].dwarfs, s.players[pi].dwarfs)
}

pub(crate) proof fn lemma_keep_places_concat(
    a: Seq<(StateView, Seq<SubAction>)>,
    b: Seq<(StateView, Seq<SubAction>)>,
    s: StateView,
    pi: int,
)
    requires
        cands_keep_places(a, s, pi),
        cands_keep_places(b, s, pi),
    ensures
        cands_keep_places(a + b, s, pi),
{
    assert forall|k: int| 0 <= k < (a + b).len() implies same_places(
        (#[trigger] (a + b)[k]).0.players[pi].dwarfs,
        s.players[pi].dwarfs,
    ) by {
        if k < a.len() {
            assert((a + b)[k] == a[k]);
        } else {
            assert((a + b)[k] == b[k - a.len()]);
        }
    }
}

pub(crate) proof fn lemma_forge_keeps_places(
    s: StateView,
    pi: int,
    space: crate::action::ActionSpace,
    stack: Seq<SubAction>,
)
    requires
        0 <= pi < s.players.len(),
        crate::state::has_dwarf_on(s.players[pi].dwarfs, space),
    ensures
        cands_keep_places(
            s.forge_options(pi, space).map_values(crate::turn::with_stack_fn(stack)),
            s,
            pi,
        ),
{
    let ds = s.players[pi].dwarfs;
    let k0 = choose|k: int| 0 <= k < ds.len() && (#[trigger] ds[k]).placed_on == Some(space);
    lemma_first_on_exists(ds, space, k0);
    let fs = s.forge_options(pi, space);
    assert forall|k: int| 0 <= k < fs.len() implies same_places(
        (#[trigger] fs.map_values(crate::turn::with_stack_fn(stack))[k]).0.players[pi].dwarfs,
        ds,
    ) by {
        let f = fs[k];
        assert(f == s.forged(pi, space, k + 1));
        let j = crate::state::first_on(ds, space);
        assert forall|m: int| 0 <= m < ds.len() implies (#[trigger] f.players[pi].dwarfs[m]).placed_on
            == ds[m].placed_on by {
            if m == j {
            }
        }
    }
}

/// The candidates of an action space leave the mover's dwarfs where they stand.
pub(crate) proof fn lemma_sub_actions_keep_places(s: StateView, space: crate::action::ActionSpace, cur: int)
    requires
        0 <= cur < s.players.len(),
        crate::state::has_dwarf_on(s.players[cur].dwarfs, space),
    ensures
        cands_keep_places(s.sub_actions(space, cur), s, cur),
{
    let e: Seq<SubAction> = Seq::empty();
    match space {
        crate::action::ActionSpace::Blacksmithing => {
            lemma_forge_keeps_places(s, cur, space, seq![crate::turn::exp_pick(space, 3)]);
        },
        crate::action::ActionSpace::Adventure => {
            let exp = seq![crate::turn::exp_pick(space, 1), crate::turn::exp_pick(space, 1)];
            assert(cands_keep_places(seq![(s, exp)], s, cur));
            if !s.armed_on(cur, space) {
                lemma_forge_keeps_places(s, cur, space, exp);
                lemma_keep_places_concat(
                    seq![(s, exp)],
                    s.forge_options(cur, space).map_values(crate::turn::with_stack_fn(exp)),
                    s,
                    cur,
                );
            }
        },
        crate::action::ActionSpace::WishForChildren => {
            let g = match s.family_growth_option(cur) {
                Some(g) => seq![(g, e)],
                None => Seq::empty(),
            };
            assert(cands_keep_places(g, s, cur));
            assert(cands_keep_places(seq![(s, seq![SubAction::Furnish])], s, cur));
            lemma_keep_places_concat(g, seq![(s, seq![SubAction::Furnish])], s, cur);
        },
        crate::action::ActionSpace::FamilyLife => {
            let g = match s.family_growth_option(cur) {
                Some(g) => seq![(g, e), (g, seq![SubAction::Sow])],
                None => Seq::empty(),
            };
            let t = seq![(s, seq![SubAction::Sow]), (s, e)];
            assert(cands_keep_places(g, s, cur));
            assert(cands_keep_places(t, s, cur));
            lemma_keep_places_concat(g, t, s, cur);
        },
        _ => {
            let cs = s.sub_actions(space, cur);
            assert forall|k: int| 0 <= k < cs.len() implies same_places(
                (#[trigger] cs[k]).0.players[cur].dwarfs,
                s.players[cur].dwarfs,
            ) by {
                assert(cs[k].0 == s);
            }
        },
    }
}

pub(crate) proof fn lemma_keep_places_filter(
    cs: Seq<(StateView, Seq<SubAction>)>,
    s: StateView,
    pi: int,
    p: spec_fn((StateView, Seq<SubAction>)) -> bool,
)
    requires
        cands_keep_places(cs, s, pi),
    ensures
        cands_keep_places(cs.filter(p), s, pi),
{
    assert forall|k: int| 0 <= k < cs.filter(p).len() implies same_places(
        (#[trigger] cs.filter(p)[k]).0.players[pi].dwarfs,
        s.players[pi].dwarfs,
    ) by {
        let x = cs.filter(p)[k];
        assert(cs.filter(p).contains(x));
        cs.lemma_filter_contains_rev(p, x);
        let m = choose|m: int| 0 <= m < cs.len() && cs[m] == x;
        assert(same_places(cs[m].0.players[pi].dwarfs, s.players[pi].dwarfs));
    }
}

/// Dwarf `j` of `ds`, free before, stands on a space in `cs`, and every
/// other dwarf stands where it stood.
pub open spec fn moved_only(ds: Seq<crate::player::Dwarf>, cs: Seq<crate::player::Dwarf>, j: int) -> bool {
    &&& cs.len() == ds.len()
    &&& 0 <= j < ds.len()
    &&& ds[j].placed_on is None
    &&& cs[j].placed_on is Some
    &&& forall|m: int| 0 <= m < ds.len() && m != j ==> (#[trigger] cs[m]).placed_on == ds[m].placed_on
}

/// A move of the action-space choice from `s` to `c`: the round stays, no
/// other player changes, and exactly one dwarf of the mover, free before,
/// now stands on an action space that was open and free.
pub open spec fn places_one_dwarf(s: StateView, c: StateView) -> bool {
    let cur = s.current_player as int;
    let ds = s.players[cur].dwarfs;
    let cs = c.players[cur].dwarfs;
    &&& c.round == s.round
    &&& c.players.len() == s.players.len()
    &&& forall|i: int| 0 <= i < s.players.len() && i != cur ==> #[trigger] c.players[i] == s.players[i]
    &&& exists|j: int|
        #[trigger] moved_only(ds, cs, j) && s.space_available(cs[j].placed_on.unwrap())
            && !s.occupied(cs[j].placed_on.unwrap())
}

pub(crate) proof fn lemma_space_children_place_one(s: StateView, space: crate::action::ActionSpace)
    requires
        s.wf(),
        !s.is_round_over(),
    ensures
        forall|k: int|
            0 <= k < s.space_children(space).len() ==> places_one_dwarf(
                s,
                #[trigger] s.space_children(space)[k],
            ),
{
    if s.space_available(space) && !s.occupied(space) {
        let cur = s.current_player as int;
        let placed = s.placed(space);
        let p = s.players[cur];
        let ds = p.dwarfs;
        assert(crate::player::has_unplaced(ds)) by {
            let j = choose|j: int| 0 <= j < ds.len() && !((#[trigger] ds[j]).placed_on is Some);
            assert(ds[j].placed_on is None);
        }
        lemma_lowest_unplaced_exists(ds);
        let j = crate::player::lowest_unplaced(ds);
        let pds = placed.players[cur].dwarfs;
        assert(pds == crate::player::dwarfs_after_placing(ds, space));
        assert(pds[j].placed_on == Some(space));
        let p2 = placed.players[cur];
        assert(p2.wf());
        lemma_with_player_step(s, cur, p2);
        lemma_player_step_wf(s.with_player(cur, p2), s, cur);
        assert(placed.wf());
        lemma_sub_actions_ok(placed, space, cur);
        lemma_sub_actions_keep_places(placed, space, cur);
        let all = placed.sub_actions(space, cur);
        let c1 = all.filter(crate::turn::keep_cand_fn());
        lemma_cands_filter(all, placed, cur, crate::turn::keep_cand_fn());
        lemma_keep_places_filter(all, placed, cur, crate::turn::keep_cand_fn());
        let c2 = if crate::turn::some_lays_tile(c1) {
            c1.filter(crate::turn::lays_tile_fn()).take(1)
        } else {
            c1
        };
        if crate::turn::some_lays_tile(c1) {
            lemma_cands_filter(c1, placed, cur, crate::turn::lays_tile_fn());
            lemma_keep_places_filter(c1, placed, cur, crate::turn::lays_tile_fn());
            crate::turn::lemma_some_tile_filter_nonempty(c1);
            let f = c1.filter(crate::turn::lays_tile_fn());
            assert(c2[0] == f[0]);
            assert(cands_ok(c2, placed, cur));
            assert(cands_keep_places(c2, placed, cur));
        }
        let cs = c2.map_values(crate::turn::finish_cand_fn());
        assert forall|k: int| 0 <= k < cs.len() implies places_one_dwarf(s, #[trigger] cs[k]) by {
            let c = c2[k];
            assert(player_step(c.0, placed, cur));
            assert(same_places(c.0.players[cur].dwarfs, pds));
            let x = cs[k];
            assert(x.players == c.0.players);
            assert(x.round == s.round);
            let xd = x.players[cur].dwarfs;
            assert(xd[j].placed_on == Some(space));
            assert(moved_only(ds, xd, j));
            assert forall|i: int| 0 <= i < s.players.len() && i != cur implies #[trigger] x.players[i]
                == s.players[i] by {
                assert(placed.players[i] == s.players[i]);
            }
        }
    }
}

pub(crate) proof fn lemma_select_upto_place_one(s: StateView, n: nat)
    requires
        s.wf(),
        !s.is_round_over(),
    ensures
        forall|k: int|
            0 <= k < s.select_children_upto(n).len() ==> places_one_dwarf(
                s,
                #[trigger] s.select_children_upto(n)[k],
            ),
    decreases n,
{
    if n > 0 {
        lemma_select_upto_place_one(s, (n - 1) as nat);
        let a = s.select_children_upto((n - 1) as nat);
        let b = s.space_children(crate::action::space_at(n - 1));
        lemma_space_children_place_one(s, crate::action::space_at(n - 1));
        assert(s.select_children_upto(n) == a + b);
        assert forall|k: int| 0 <= k < (a + b).len() implies places_one_dwarf(s, #[trigger] (a + b)[k]) by {
            if k < a.len() {
                assert((a + b)[k] == a[k]);
            } else {
                assert((a + b)[k] == b[k - a.len()]);
            }
        }
    }
}

/// Every move of the action-space choice, while the mover has a dwarf to
/// place, places exactly one dwarf of the mover on an open, free action
/// space, keeps the round, and changes no other player.
pub proof fn lemma_selection_places_one_dwarf(s: StateView)
    requires
        s.wf(),
        s.pending.last() is SelectActionSpace,
        !s.is_round_over(),
    ensures
        forall|k: int| 0 <= k < s.children().len() ==> places_one_dwarf(s, #[trigger] s.children()[k]),
{
    if !s.done() {
        lemma_select_upto_place_one(s, 22);
    }
}


/// Whether taking an action space always leaves a move: all but
/// Blacksmithing, Wish for Children and Slash and Burn offer a candidate that
/// is never dropped.
pub open spec fn always_playable(space: crate::action::ActionSpace) -> bool {
    !(space is Blacksmithing || space is WishForChildren || space is SlashAndBurn)
}

/// An always-playable action space that is open and free gives a move.
pub(crate) proof fn lemma_space_children_nonempty(s: StateView, space: crate::action::ActionSpace)
    requires
        s.shape(),
        always_playable(space),
        s.space_available(space),
        !s.occupied(space),
    ensures
        s.space_children(space).len() >= 1,
{
    let cur = s.current_player as int;
    let placed = s.placed(space);
    let cs = placed.sub_actions(space, cur);
    let k: int = match space {
        crate::action::ActionSpace::Excavation => 2,
        crate::action::ActionSpace::FamilyLife => cs.len() - 1,
        crate::action::ActionSpace::Housework => 1,
        crate::action::ActionSpace::OreMineConstruction => 1,
        crate::action::ActionSpace::DriftMining => 1,
        crate::action::ActionSpace::Clearing => 1,
        crate::action::ActionSpace::Sustenance => 1,
        crate::action::ActionSpace::RubyMineConstruction => 1,
        _ => 0,
    };
    assert(0 <= k < cs.len() && crate::turn::keep_cand(cs[k]));
    cs.lemma_filter_contains(crate::turn::keep_cand_fn(), k);
    let c1 = cs.filter(crate::turn::keep_cand_fn());
    assert(c1.len() >= 1);
    if crate::turn::some_lays_tile(c1) {
        crate::turn::lemma_some_tile_filter_nonempty(c1);
    }
}

pub(crate) proof fn lemma_select_upto_len(s: StateView, n: nat, i: int)
    requires
        0 <= i < n,
    ensures
        s.select_children_upto(n).len() >= s.space_children(crate::action::space_at(i)).len(),
    decreases n,
{
    if i < n - 1 {
        lemma_select_upto_len(s, (n - 1) as nat, i);
    }
}

/// A position that is not over has a move, but for the action-space choice
/// of a player with a dwarf to place when no open, free action space is
/// always playable.
pub proof fn lemma_has_move(s: StateView)
    requires
        s.shape(),
        !s.done(),
        s.pending.last() is SelectActionSpace && !s.is_round_over() ==> exists|i: int|
            0 <= i < 22 && always_playable(#[trigger] crate::action::space_at(i))
                && s.space_available(crate::action::space_at(i)) && !s.occupied(
                crate::action::space_at(i),
            ),
    ensures
        s.children().len() >= 1,
{
    let cur = s.current_player as int;
    match s.pending.last() {
        SubAction::SelectActionSpace => {
            if !s.is_round_over() {
                let i = choose|i: int|
                    0 <= i < 22 && always_playable(#[trigger] crate::action::space_at(i))
                        && s.space_available(crate::action::space_at(i)) && !s.occupied(
                        crate::action::space_at(i),
                    );
                lemma_space_children_nonempty(s, crate::action::space_at(i));
                lemma_select_upto_len(s, 22, i);
            }
        },
        SubAction::PlaceTile(tile) => {},
        SubAction::Pasture => {},
        SubAction::Stable => {},
        SubAction::Furnish => {},
        SubAction::Sow => {},
        SubAction::ExpeditionPick { space, picks_remaining, used_items } => {},
        SubAction::TradeFood { player_idx } => {},
        SubAction::FinishRound => {},
    }
}


/// Among the first `n` players, the last one with the most points.
pub(crate) proof fn lemma_best_player_upto(s: StateView, n: int) -> (b: int)
    requires
        1 <= n <= s.players.len(),
    ensures
        0 <= b < n,
        forall|j: int| 0 <= j < n ==> (#[trigger] s.players[j]).points() <= s.players[b].points(),
        forall|j: int| b < j < n ==> (#[trigger] s.players[j]).points() < s.players[b].points(),
    decreases n,
{
    if n == 1 {
        0
    } else {
        let b1 = lemma_best_player_upto(s, n - 1);
        if s.players[n - 1].points() >= s.players[b1].points() {
            n - 1
        } else {
            b1
        }
    }
}

/// Before the game is over there is no winner; once it is over, the winner
/// is a player with the most points, and no later player has as many.
pub proof fn lemma_winner(s: StateView)
    requires
        s.shape(),
    ensures
        s.winner() is Some <==> s.done(),
        s.done() ==> s.is_winner(s.winner().unwrap() as int),
{
    let b = lemma_best_player_upto(s, s.players.len() as int);
    assert(s.is_winner(b));
    let c = choose|i: int| s.is_winner(i);
    assert(s.is_winner(c));
}



/// Every trade of `trades_upto` leaves player `pi` below the food needed
/// plus the food of one unit of the good traded.
proof fn lemma_trades_food_bound(s: StateView, pi: int, n: nat)
    requires
        0 <= pi < s.players.len(),
        crate::turn::trade_fits(s.players[pi]),
        s.players[pi].animals.len() == 4,
        s.food_gap(pi) > 0,
        n <= 8,
    ensures
        forall|k: int|
            0 <= k < s.trades_upto(pi, s.food_gap(pi), n).len() ==> (#[trigger] s.trades_upto(
                pi,
                s.food_gap(pi),
                n,
            )[k]).players[pi].resources.food < s.players[pi].food_needed() + 3,
    decreases n,
{
    let gap = s.food_gap(pi);
    let p = s.players[pi];
    assert(gap == crate::turn::trade_gap(p));
    assert(gap > 0 && p.resources.food + gap == p.food_needed());
    if n > 0 {
        lemma_trades_food_bound(s, pi, (n - 1) as nat);
        let g = (n - 1) as u8;
        let count = crate::turn::trade_count(p, g, gap);
        assert(p.resources.food + crate::turn::trade_food(g) * count <= usize::MAX);
        let a = s.trades_upto(pi, gap, (n - 1) as nat);
        let b = s.trades(pi, g, count);
        assert(s.trades_upto(pi, gap, n) == a + b);
        assert forall|k: int| 0 <= k < (a + b).len() implies (#[trigger] (a + b)[k]).players[pi].resources.food
            < p.food_needed() + 3 by {
            if k < a.len() {
                assert((a + b)[k] == a[k]);
            } else {
                let j = k - a.len();
                assert((a + b)[k] == b[j]);
                assert(b[j] == s.traded(pi, g, j + 1));
                let m = j + 1;
                assert(1 <= m <= count);
                let rate = crate::turn::trade_food(g);
                let food = p.resources.food as int;
                let need = p.food_needed();
                assert(food + gap == need);
                if g == 0 || g == 5 {
                    assert(m <= gap);
                    assert(rate == 1);
                    assert(food + rate * m < need + 3) by (nonlinear_arith)
                        requires
                            rate == 1,
                            m <= gap,
                            food + gap == need,
                    ;
                } else if g == 1 || g == 6 || g == 7 {
                    assert(m <= (gap + 1) / 2);
                    assert(2 * m <= gap + 1);
                    assert(rate == 2);
                    assert(food + rate * m < need + 3) by (nonlinear_arith)
                        requires
                            rate == 2,
                            2 * m <= gap + 1,
                            food + gap == need,
                    ;
                } else if g == 2 || g == 4 {
                    assert(m <= (gap + 2) / 3);
                    assert(3 * m <= gap + 2);
                    assert(rate == 3);
                    assert(food + rate * m < need + 3) by (nonlinear_arith)
                        requires
                            rate == 3,
                            3 * m <= gap + 2,
                            food + gap == need,
                    ;
                } else {
                    assert(m == 1);
                    assert(rate == 1);
                    assert(food + rate * m < need + 3) by (nonlinear_arith)
                        requires
                            rate == 1,
                            m == 1,
                            gap > 0,
                            food + gap == need,
                    ;
                }
                assert(0 <= rate <= 3);
                assert(rate * m <= rate * count) by (nonlinear_arith)
                    requires
                        m <= count,
                        0 <= rate,
                ;
                assert(p.resources.food + rate * count <= usize::MAX);
            }
        }
    }
}

/// Trading never buys a family three or more food beyond what it eats: the
/// first move passes and changes no player, and every other move trades no
/// more units of a good than close the food gap, rounded up.
pub proof fn lemma_trading_stops_at_need(s: StateView, pi: int)
    requires
        s.shape(),
        0 <= pi < s.players.len(),
        crate::turn::trade_fits(s.players[pi]),
    ensures
        s.trade_children(pi).len() >= 1,
        s.trade_children(pi)[0].players == s.players,
        forall|k: int|
            1 <= k < s.trade_children(pi).len() ==> (#[trigger] s.trade_children(
                pi,
            )[k]).players[pi].resources.food < s.players[pi].food_needed() + 3,
{
    let gap = s.food_gap(pi);
    let d = s.trade_done();
    let ts = if gap > 0 {
        s.trades_upto(pi, gap, 8)
    } else {
        Seq::empty()
    };
    if gap > 0 {
        assert(s.players[pi].wf());
        lemma_trades_food_bound(s, pi, 8);
    }
    let cs = s.trade_children(pi);
    assert(cs == seq![d] + ts);
    assert(cs[0] == d);
    assert forall|k: int| 1 <= k < cs.len() implies (#[trigger] cs[k]).players[pi].resources.food
        < s.players[pi].food_needed() + 3 by {
        assert(cs[k] == ts[k - 1]);
    }
}


/// A board has an empty field exactly when some cell of it, row by row, is one.
proof fn lemma_empty_fields_count(b: Seq<Tile>)
    requires
        b.len() == 12,
    ensures
        all_cells().filter(crate::state::empty_field_cell(b)).len() > 0 <==> crate::board::count_tile(
            b,
            Tile::Field(0, 0),
        ) > 0,
{
    let pred = crate::state::empty_field_cell(b);
    let fs = all_cells().filter(pred);
    let ts = b.filter(crate::board::is_tile(Tile::Field(0, 0)));
    if fs.len() > 0 {
        assert(fs.contains(fs[0]));
        all_cells().lemma_filter_contains_rev(pred, fs[0]);
        let i = choose|i: int| 0 <= i < all_cells().len() && all_cells()[i] == fs[0];
        lemma_cell_at(i);
        assert(b[i] == Tile::Field(0, 0));
        b.lemma_filter_contains(crate::board::is_tile(Tile::Field(0, 0)), i);
    }
    if ts.len() > 0 {
        assert(ts.contains(ts[0]));
        b.lemma_filter_contains_rev(crate::board::is_tile(Tile::Field(0, 0)), ts[0]);
        let i = choose|i: int| 0 <= i < b.len() && b[i] == ts[0];
        lemma_cell_at(i);
        all_cells().lemma_filter_contains(pred, i);
    }
}

proof fn lemma_sow_row_nonempty(s: StateView, pi: int, w: int, nv: nat)
    ensures
        s.sow_row(pi, w, nv).len() > 0 <==> exists|v: int| 0 <= v < nv && #[trigger] s.sow_valid(pi, w, v),
    decreases nv,
{
    if nv > 0 {
        lemma_sow_row_nonempty(s, pi, w, (nv - 1) as nat);
        if s.sow_valid(pi, w, nv - 1) {
            assert(exists|v: int| 0 <= v < nv && #[trigger] s.sow_valid(pi, w, v));
        }
        if exists|v: int| 0 <= v < nv && #[trigger] s.sow_valid(pi, w, v) {
            let v = choose|v: int| 0 <= v < nv && #[trigger] s.sow_valid(pi, w, v);
            if v < nv - 1 {
                assert(exists|u: int| 0 <= u < nv - 1 && #[trigger] s.sow_valid(pi, w, u));
            }
        }
    }
}

proof fn lemma_sow_upto_nonempty(s: StateView, pi: int, nw: nat, nv: nat)
    requires
        nv == (crate::state::min_usize(s.players[pi].resources.vegetables, 2) + 1) as nat,
    ensures
        s.sow_upto(pi, nw).len() > 0 <==> exists|w: int, v: int|
            0 <= w < nw && 0 <= v < nv && #[trigger] s.sow_valid(pi, w, v),
    decreases nw,
{
    if nw > 0 {
        lemma_sow_upto_nonempty(s, pi, (nw - 1) as nat, nv);
        lemma_sow_row_nonempty(s, pi, nw - 1, nv);
        if exists|w: int, v: int| 0 <= w < nw && 0 <= v < nv && #[trigger] s.sow_valid(pi, w, v) {
            let (w, v) = choose|w: int, v: int|
                0 <= w < nw && 0 <= v < nv && #[trigger] s.sow_valid(pi, w, v);
            if w == nw - 1 {
                assert(exists|u: int| 0 <= u < nv && #[trigger] s.sow_valid(pi, nw - 1, u));
            } else {
                assert(exists|a: int, u: int|
                    0 <= a < nw - 1 && 0 <= u < nv && #[trigger] s.sow_valid(pi, a, u));
            }
        }
        if s.sow_row(pi, nw - 1, nv).len() > 0 {
            let v = choose|v: int| 0 <= v < nv && #[trigger] s.sow_valid(pi, nw - 1, v);
            assert(s.sow_valid(pi, nw - 1, v));
        }
        if s.sow_upto(pi, (nw - 1) as nat).len() > 0 {
            let (w, v) = choose|w: int, v: int|
                0 <= w < nw - 1 && 0 <= v < nv && #[trigger] s.sow_valid(pi, w, v);
            assert(s.sow_valid(pi, w, v));
        }
    }
}

/// The sowing step has a move exactly when there is a way to sow: as the
/// step's feasibility check says, an empty field and some grain or
/// vegetable to sow on it.
pub proof fn lemma_has_children_sow(s: StateView)
    requires
        s.shape(),
        s.pending.last() is Sow,
    ensures
        s.has_children() <==> s.sow_options(s.current_player as int).len() > 0,
{
    let pi = s.current_player as int;
    let p = s.players[pi];
    let nv = (crate::state::min_usize(p.resources.vegetables, 2) + 1) as nat;
    let nw = (crate::state::min_usize(p.resources.wheat, 2) + 1) as nat;
    lemma_sow_upto_nonempty(s, pi, nw, nv);
    lemma_empty_fields_count(p.outdoor);
    let f = s.empty_fields(pi).len();
    if f > 0 && p.resources.wheat > 0 {
        assert(s.sow_valid(pi, 1, 0));
    }
    if f > 0 && p.resources.vegetables > 0 {
        assert(s.sow_valid(pi, 0, 1));
    }
    if s.sow_options(pi).len() > 0 {
        let (w, v) = choose|w: int, v: int| 0 <= w < nw && 0 <= v < nv && #[trigger] s.sow_valid(pi, w, v);
        assert(s.sow_valid(pi, w, v));
    }
}

} // verus!
