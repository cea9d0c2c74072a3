//! The moves of a position: the candidates of each action space, trading
//! for food, the end of a round, and every successor position.
use vstd::prelude::*;
use crate::action::{ActionSpace, space_at};
use crate::board::{
    Board, Side, Tile, TileGroup, board_delta_spec, changed_cells_spec, in_bounds, tile_at,
};
use crate::resources::{indoor_bonus_spec, outdoor_bonus_spec};
use crate::player::{
    Dwarf, Player, PlayerView, dwarfs_after_placing, is_lowest_unplaced, lowest_unplaced,
};
use crate::resources::Resources;
use crate::state::{
    State, StateView, SubAction, first_on, find_on, has_dwarf_on, lemma_states_view_push,
    states_view,
};

verus! {

/// A candidate after taking an action space: a position and the steps still
/// to play, the last one first.
pub open spec fn cands_view(s: Seq<(State, Vec<SubAction>)>) -> Seq<(StateView, Seq<SubAction>)> {
    s.map_values(|e: (State, Vec<SubAction>)| (e.0@, e.1@))
}

pub proof fn lemma_cands_view_push(s: Seq<(State, Vec<SubAction>)>, e: (State, Vec<SubAction>))
    ensures
        cands_view(s.push(e)) == cands_view(s).push((e.0@, e.1@)),
{
    assert(cands_view(s.push(e)) =~= cands_view(s).push((e.0@, e.1@)));
}

/// An expedition step on `space` with `picks` picks and nothing taken yet.
pub open spec fn exp_pick(space: ActionSpace, picks: usize) -> SubAction {
    SubAction::ExpeditionPick { space, picks_remaining: picks, used_items: 0 }
}

/// Pairs a position with the steps `stack`.
pub open spec fn with_stack_fn(stack: Seq<SubAction>) -> spec_fn(StateView) -> (
    StateView,
    Seq<SubAction>,
) {
    |c: StateView| (c, stack)
}

/// The pair of tiles laid on the mining spaces that open a cave.
pub open spec fn tunnel_cave() -> TileGroup {
    TileGroup::Twin((Tile::Tunnel, Tile::Cave))
}

/// The pair of tiles laid on the clearing spaces.
pub open spec fn meadow_field() -> TileGroup {
    TileGroup::Twin((Tile::Meadow, Tile::Field(0, 0)))
}

impl StateView {
    /// Whether the first dwarf of player `cur` on `space` carries a weapon.
    pub open spec fn armed_on(self, cur: int, space: ActionSpace) -> bool {
        let ds = self.players[cur].dwarfs;
        has_dwarf_on(ds, space) && ds[first_on(ds, space)].weapon > 0
    }

    /// The candidates after player `cur` has taken `space` and its goods:
    /// each a position and the steps still to play.
    pub open spec fn sub_actions(self, space: ActionSpace, cur: int) -> Seq<
        (StateView, Seq<SubAction>),
    > {
        match space {
            ActionSpace::Excavation => seq![
                (self, seq![SubAction::PlaceTile(tunnel_cave())]),
                (self, seq![SubAction::PlaceTile(TileGroup::Twin((Tile::Cave, Tile::Cave)))]),
                (self, Seq::empty()),
            ],
            ActionSpace::Blacksmithing => self.forge_options(cur, space).map_values(
                with_stack_fn(seq![exp_pick(space, 3)]),
            ),
            ActionSpace::Adventure => {
                let exp = seq![exp_pick(space, 1), exp_pick(space, 1)];
                if self.armed_on(cur, space) {
                    seq![(self, exp)]
                } else {
                    seq![(self, exp)] + self.forge_options(cur, space).map_values(
                        with_stack_fn(exp),
                    )
                }
            },
            ActionSpace::WishForChildren => (match self.family_growth_option(cur) {
                Some(g) => seq![(g, Seq::<SubAction>::empty())],
                None => Seq::empty(),
            }) + seq![(self, seq![SubAction::Furnish])],
            ActionSpace::FamilyLife => (match self.family_growth_option(cur) {
                Some(g) => seq![(g, Seq::<SubAction>::empty()), (g, seq![SubAction::Sow])],
                None => Seq::empty(),
            }) + seq![(self, seq![SubAction::Sow]), (self, Seq::empty())],
            ActionSpace::SheepFarming | ActionSpace::DonkeyFarming => seq![
                (self, seq![SubAction::Stable, SubAction::Pasture]),
            ],
            ActionSpace::Housework => seq![
                (self, seq![SubAction::Furnish]),
                (self, Seq::empty()),
            ],
            ActionSpace::Logging => seq![(self, seq![exp_pick(space, 1)])],
            ActionSpace::OreMineConstruction => {
                let tile = TileGroup::Twin((Tile::DeepTunnel, Tile::OreMine));
                seq![
                    (self, seq![exp_pick(space, 1), SubAction::PlaceTile(tile)]),
                    (self, seq![exp_pick(space, 1)]),
                ]
            },
            ActionSpace::SlashAndBurn => seq![
                (self, seq![SubAction::Sow, SubAction::PlaceTile(meadow_field())]),
                (self, seq![SubAction::PlaceTile(meadow_field())]),
                (self, seq![SubAction::Sow]),
            ],
            ActionSpace::DriftMining => seq![
                (self, seq![SubAction::PlaceTile(tunnel_cave())]),
                (self, Seq::empty()),
            ],
            ActionSpace::Clearing | ActionSpace::Sustenance => seq![
                (self, seq![SubAction::PlaceTile(meadow_field())]),
                (self, Seq::empty()),
            ],
            ActionSpace::RubyMineConstruction => seq![
                (self, seq![SubAction::PlaceTile(TileGroup::Single(Tile::RubyMine))]),
                (self, Seq::empty()),
            ],
            _ => seq![(self, Seq::empty())],
        }
    }
}

/// Pairs every position of `states` with a copy of the steps `stack`.
fn with_stack(states: Vec<State>, stack: &Vec<SubAction>) -> (r: Vec<(State, Vec<SubAction>)>)
    ensures
        cands_view(r@) == states_view(states@).map_values(with_stack_fn(stack@)),
{
    let ghost f = with_stack_fn(stack@);
    let mut res: Vec<(State, Vec<SubAction>)> = Vec::new();
    let mut states = states;
    let ghost all = states@;
    let mut i: usize = 0;
    let n = states.len();
    while i < n
        invariant
            n == all.len(),
            i <= n,
            f == with_stack_fn(stack@),
            states@.len() == n - i,
            forall|k: int| 0 <= k < n - i ==> #[trigger] states@[k] == all[k + i as int],
            cands_view(res@) == states_view(all.take(i as int)).map_values(f),
        decreases n - i,
    {
        let c = states.remove(0);
        let st = stack.clone();
        assert(st@ =~= stack@);
        proof {
            lemma_cands_view_push(res@, (c, st));
            crate::board::lemma_take_push(all, i as int);
            lemma_states_view_push(all.take(i as int), all[i as int]);
            crate::state::lemma_map_push(states_view(all.take(i as int)), all[i as int]@, f);
        }
        res.push((c, st));
        i += 1;
    }
    assert(all.take(n as int) =~= all);
    res
}

/// The steps `[a]`.
fn stack1(a: SubAction) -> (r: Vec<SubAction>)
    ensures
        r@ == seq![a],
{
    let mut v: Vec<SubAction> = Vec::new();
    v.push(a);
    assert(v@ =~= seq![a]);
    v
}

/// The steps `[a, b]`: `b` is played first.
fn stack2(a: SubAction, b: SubAction) -> (r: Vec<SubAction>)
    ensures
        r@ == seq![a, b],
{
    let mut v: Vec<SubAction> = Vec::new();
    v.push(a);
    v.push(b);
    assert(v@ =~= seq![a, b]);
    v
}

/// No steps.
fn stack0() -> (r: Vec<SubAction>)
    ensures
        r@ == Seq::<SubAction>::empty(),
{
    Vec::new()
}

/// Appends the candidate `(c, stack)`.
fn push_cand(v: &mut Vec<(State, Vec<SubAction>)>, c: State, stack: Vec<SubAction>)
    ensures
        cands_view(final(v)@) == cands_view(old(v)@).push((c@, stack@)),
{
    proof {
        lemma_cands_view_push(v@, (c, stack));
    }
    v.push((c, stack));
}

impl ActionSpace {
    /// The candidates after player `current` has taken this space (see
    /// `StateView::sub_actions`).
    pub fn sub_actions(self, base: State, current: usize) -> (r: Vec<(State, Vec<SubAction>)>)
        requires
            current < base@.players.len(),
            (self is Blacksmithing || self is Adventure) ==> has_dwarf_on(
                base@.players[current as int].dwarfs,
                self,
            ),
            (self is WishForChildren || self is FamilyLife) ==> base@.players[current as int].dwellings_needed()
                <= usize::MAX,
        ensures
            cands_view(r@) == base@.sub_actions(self, current as int),
    {
        let ghost b = base@;
        let mut r: Vec<(State, Vec<SubAction>)> = Vec::new();
        let exp1 = SubAction::ExpeditionPick { space: self, picks_remaining: 1, used_items: 0 };
        match self {
            ActionSpace::Excavation => {
                push_cand(&mut r, base.clone(), stack1(SubAction::PlaceTile(TileGroup::Twin((Tile::Tunnel, Tile::Cave)))));
                push_cand(&mut r, base.clone(), stack1(SubAction::PlaceTile(TileGroup::Twin((Tile::Cave, Tile::Cave)))));
                push_cand(&mut r, base, stack0());
            },
            ActionSpace::Blacksmithing => {
                let stack = stack1(
                    SubAction::ExpeditionPick { space: self, picks_remaining: 3, used_items: 0 },
                );
                r = with_stack(base.forge_options(current, self), &stack);
            },
            ActionSpace::Adventure => {
                let exp_stack = stack2(exp1, exp1);
                assert(b.players[current as int] == base.players@[current as int]@);
                let armed = match find_on(&base.players[current].dwarfs, self) {
                    Some(j) => base.players[current].dwarfs[j].weapon > 0,
                    None => false,
                };
                if armed {
                    push_cand(&mut r, base, stack2(exp1, exp1));
                } else {
                    let forged = base.forge_options(current, self);
                    let mut rest = with_stack(forged, &exp_stack);
                    push_cand(&mut r, base.clone(), stack2(exp1, exp1));
                    let ghost first = cands_view(r@);
                    let ghost rest_all = cands_view(rest@);
                    r.append(&mut rest);
                    assert(cands_view(r@) =~= first + rest_all);
                }
            },
            ActionSpace::WishForChildren => {
                if let Some(grown) = base.family_growth_option(current) {
                    push_cand(&mut r, grown, stack0());
                }
                push_cand(&mut r, base, stack1(SubAction::Furnish));
            },
            ActionSpace::FamilyLife => {
                if let Some(grown) = base.family_growth_option(current) {
                    push_cand(&mut r, grown.clone(), stack0());
                    push_cand(&mut r, grown, stack1(SubAction::Sow));
                }
                push_cand(&mut r, base.clone(), stack1(SubAction::Sow));
                push_cand(&mut r, base, stack0());
            },
            ActionSpace::SheepFarming | ActionSpace::DonkeyFarming => {
                push_cand(&mut r, base, stack2(SubAction::Stable, SubAction::Pasture));
            },
            ActionSpace::Housework => {
                push_cand(&mut r, base.clone(), stack1(SubAction::Furnish));
                push_cand(&mut r, base, stack0());
            },
            ActionSpace::Logging => {
                push_cand(&mut r, base, stack1(exp1));
            },
            ActionSpace::OreMineConstruction => {
                let tile = TileGroup::Twin((Tile::DeepTunnel, Tile::OreMine));
                push_cand(&mut r, base.clone(), stack2(exp1, SubAction::PlaceTile(tile)));
                push_cand(&mut r, base, stack1(exp1));
            },
            ActionSpace::SlashAndBurn => {
                let tile = TileGroup::Twin((Tile::Meadow, Tile::Field(0, 0)));
                push_cand(&mut r, base.clone(), stack2(SubAction::Sow, SubAction::PlaceTile(tile)));
                push_cand(&mut r, base.clone(), stack1(SubAction::PlaceTile(tile)));
                push_cand(&mut r, base, stack1(SubAction::Sow));
            },
            ActionSpace::DriftMining => {
                push_cand(&mut r, base.clone(), stack1(SubAction::PlaceTile(TileGroup::Twin((Tile::Tunnel, Tile::Cave)))));
                push_cand(&mut r, base, stack0());
            },
            ActionSpace::Clearing | ActionSpace::Sustenance => {
                let tile = TileGroup::Twin((Tile::Meadow, Tile::Field(0, 0)));
                push_cand(&mut r, base.clone(), stack1(SubAction::PlaceTile(tile)));
                push_cand(&mut r, base, stack0());
            },
            ActionSpace::RubyMineConstruction => {
                push_cand(&mut r, base.clone(), stack1(SubAction::PlaceTile(TileGroup::Single(Tile::RubyMine))));
                push_cand(&mut r, base, stack0());
            },
            _ => {
                push_cand(&mut r, base, stack0());
            },
        }
        assert(cands_view(r@) =~= b.sub_actions(self, current as int));
        r
    }
}

/// Whether a list of steps lays a tile.
pub open spec fn lays_tile(stack: Seq<SubAction>) -> bool {
    exists|k: int| 0 <= k < stack.len() && (#[trigger] stack[k]) is PlaceTile
}

/// Whether a candidate's first step has a move (no steps count as a move).
pub open spec fn keep_cand(c: (StateView, Seq<SubAction>)) -> bool {
    c.1.len() == 0 || c.0.with_pending(c.1).has_children()
}

/// `keep_cand` as a predicate.
pub open spec fn keep_cand_fn() -> spec_fn((StateView, Seq<SubAction>)) -> bool {
    |c: (StateView, Seq<SubAction>)| keep_cand(c)
}

/// Whether a candidate lays a tile, as a predicate.
pub open spec fn lays_tile_fn() -> spec_fn((StateView, Seq<SubAction>)) -> bool {
    |c: (StateView, Seq<SubAction>)| lays_tile(c.1)
}

/// The position a candidate leads to: its steps pending, or, with no steps
/// left, the turn passed on.
pub open spec fn finish_cand(c: (StateView, Seq<SubAction>)) -> StateView {
    if c.1.len() == 0 {
        c.0.popped()
    } else {
        c.0.with_pending(c.1)
    }
}

/// `finish_cand` as a function.
pub open spec fn finish_cand_fn() -> spec_fn((StateView, Seq<SubAction>)) -> StateView {
    |c: (StateView, Seq<SubAction>)| finish_cand(c)
}

/// Whether some candidate lays a tile.
pub open spec fn some_lays_tile(cs: Seq<(StateView, Seq<SubAction>)>) -> bool {
    exists|k: int| 0 <= k < cs.len() && lays_tile((#[trigger] cs[k]).1)
}

impl StateView {
    /// The position after the current player puts a dwarf (the first unplaced
    /// one with the lowest weapon) on `space` and takes its goods; taking the
    /// starting player space makes the player the starting player.
    pub open spec fn placed(self, space: ActionSpace) -> StateView {
        let cur = self.current_player as int;
        let p = self.players[cur];
        let p1 = PlayerView { dwarfs: dwarfs_after_placing(p.dwarfs, space), ..p };
        let p2 = p1.with_gains(space, self.accumulated[space.index() as int] as int);
        let s1 = self.with_player(cur, p2);
        if space is StartingPlayer {
            StateView { starting_player: self.current_player as u8, ..s1 }
        } else {
            s1
        }
    }

    /// The positions after the current player takes `space`: none if the
    /// space is not open or taken; else the candidates whose first step has a
    /// move, or, if any of them lays a tile, only the first that does, each
    /// led to its position.
    pub open spec fn space_children(self, space: ActionSpace) -> Seq<StateView> {
        if !self.space_available(space) || self.occupied(space) {
            Seq::empty()
        } else {
            let c1 = self.placed(space).sub_actions(space, self.current_player as int).filter(
                keep_cand_fn(),
            );
            let c2 = if some_lays_tile(c1) {
                c1.filter(lays_tile_fn()).take(1)
            } else {
                c1
            };
            c2.map_values(finish_cand_fn())
        }
    }

    /// Whether taking `space` fits: when the space is open and free, the
    /// mover's gains fit, and on a space that lets the family grow, the
    /// places the family needs stay at most `usize::MAX`.
    pub open spec fn space_fits(self, space: ActionSpace) -> bool {
        let p = self.players[self.current_player as int];
        self.space_available(space) && !self.occupied(space) ==> {
            &&& p.gains_fit(space, self.accumulated[space.index() as int] as int)
            &&& (space is WishForChildren || space is FamilyLife) ==> p.dwellings_needed()
                <= usize::MAX
        }
    }

    /// Whether the action-space choice fits: the end of the placement phase
    /// when the mover has no dwarf left, else taking any action space.
    pub open spec fn select_fits(self) -> bool {
        if self.is_round_over() {
            self.advance_fits()
        } else {
            forall|i: int| 0 <= i < 22 ==> #[trigger] self.space_fits(space_at(i))
        }
    }

    /// The positions after taking one of the first `n` action spaces.
    pub open spec fn select_children_upto(self, n: nat) -> Seq<StateView>
        decreases n,
    {
        if n == 0 {
            Seq::empty()
        } else {
            self.select_children_upto((n - 1) as nat) + self.space_children(space_at(n - 1))
        }
    }

    /// The moves of the action-selection step: the end of the placement
    /// phase when the current player has no dwarf left, else every way of
    /// taking an action space, in space order.
    pub open spec fn select_children(self) -> Seq<StateView> {
        if self.is_round_over() {
            seq![self.advanced()]
        } else {
            self.select_children_upto(22)
        }
    }
}

/// Whether a list of steps lays a tile.
fn stack_lays_tile(stack: &Vec<SubAction>) -> (r: bool)
    ensures
        r == lays_tile(stack@),
{
    let mut k: usize = 0;
    while k < stack.len()
        invariant
            k <= stack@.len(),
            forall|m: int| 0 <= m < k ==> !((#[trigger] stack@[m]) is PlaceTile),
        decreases stack@.len() - k,
    {
        match stack[k] {
            SubAction::PlaceTile(_) => {
                return true;
            },
            _ => {},
        }
        k += 1;
    }
    false
}

/// A copy of a candidate.
fn copy_cand(c: &(State, Vec<SubAction>)) -> (r: (State, Vec<SubAction>))
    ensures
        r.0@ == c.0@,
        r.1@ == c.1@,
{
    let st = c.1.clone();
    assert(st@ =~= c.1@);
    (c.0.clone(), st)
}

/// The candidate positions have the players and the current player of `s`.
pub open spec fn cands_seated(cs: Seq<(StateView, Seq<SubAction>)>, s: StateView) -> bool {
    forall|k: int|
        0 <= k < cs.len() ==> (#[trigger] cs[k]).0.players.len() == s.players.len()
            && cs[k].0.current_player == s.current_player
}

pub proof fn lemma_sub_actions_seated(s: StateView, space: ActionSpace, cur: int)
    requires
        0 <= cur < s.players.len(),
    ensures
        cands_seated(s.sub_actions(space, cur), s),
{
    let cs = s.sub_actions(space, cur);
    assert forall|k: int| 0 <= k < cs.len() implies (#[trigger] cs[k]).0.players.len()
        == s.players.len() && cs[k].0.current_player == s.current_player by {
        if space is Blacksmithing {
            assert(cs[k].0 == s.forge_options(cur, space)[k]);
        } else if space is Adventure && !s.armed_on(cur, space) {
            if k > 0 {
                assert(cs[k].0 == s.forge_options(cur, space)[k - 1]);
            }
        }
    }
}

/// When some candidate lays a tile, the tile-laying candidates are not none.
pub proof fn lemma_some_tile_filter_nonempty(cs: Seq<(StateView, Seq<SubAction>)>)
    requires
        some_lays_tile(cs),
    ensures
        cs.filter(lays_tile_fn()).len() >= 1,
{
    let k = choose|k: int| 0 <= k < cs.len() && lays_tile((#[trigger] cs[k]).1);
    cs.lemma_filter_contains(lays_tile_fn(), k);
}

pub proof fn lemma_filter_seated(
    cs: Seq<(StateView, Seq<SubAction>)>,
    s: StateView,
    p: spec_fn((StateView, Seq<SubAction>)) -> bool,
)
    requires
        cands_seated(cs, s),
    ensures
        cands_seated(cs.filter(p), s),
{
    broadcast use vstd::seq_lib::group_filter_ensures;

    assert forall|k: int| 0 <= k < cs.filter(p).len() implies (#[trigger] cs.filter(p)[k]).0.players.len()
        == s.players.len() && cs.filter(p)[k].0.current_player == s.current_player by {
        let e = cs.filter(p)[k];
        assert(cs.filter(p).contains(e));
        cs.lemma_filter_contains_rev(p, e);
        let m = choose|m: int| 0 <= m < cs.len() && cs[m] == e;
        assert(cs[m].0.players.len() == s.players.len());
    }
}

impl State {
    /// The positions after the current player takes `space` (see
    /// `StateView::space_children`).
    pub fn space_children(&self, space: ActionSpace) -> (r: Vec<State>)
        requires
            self@.shape(),
            self@.space_fits(space),
            !self@.is_round_over(),
        ensures
            states_view(r@) == self@.space_children(space),
    {
        if !self.space_available(space) || self.occupied(space) {
            let r: Vec<State> = Vec::new();
            assert(states_view(r@) =~= Seq::<StateView>::empty());
            return r;
        }
        let current = self.current_player;
        let ghost p = self@.players[current as int];
        assert(p == self.players@[current as int]@);
        assert(crate::player::has_unplaced(p.dwarfs)) by {
            assert(!self@.is_round_over());
            let j = choose|j: int|
                0 <= j < p.dwarfs.len() && !((#[trigger] p.dwarfs[j]).placed_on is Some);
            assert(p.dwarfs[j].placed_on is None);
        }
        let mut base = self.clone();
        base.players[current].place_dwarf(space);
        let acc = base.accumulated[space.index()];
        assert(base.players@[current as int]@.gains_fit(space, acc as int));
        space.apply_gains(acc, &mut base.players[current]);
        if space == ActionSpace::StartingPlayer {
            base.starting_player = current as u8;
        }
        let ghost placed = self@.placed(space);
        assert(base@.players =~= placed.players);
        assert(base@ == placed);
        let ghost j = lowest_unplaced(p.dwarfs);
        assert(is_lowest_unplaced(p.dwarfs, j));
        assert(placed.players[current as int].dwarfs[j].placed_on == Some(space));
        let candidates = space.sub_actions(base, current);
        let ghost all = cands_view(candidates@);
        proof {
            lemma_sub_actions_seated(placed, space, current as int);
        }
        // keep the candidates whose first step has a move
        let mut c1: Vec<(State, Vec<SubAction>)> = Vec::new();
        let mut i: usize = 0;
        while i < candidates.len()
            invariant
                i <= candidates@.len(),
                all == cands_view(candidates@),
                all == placed.sub_actions(space, current as int),
                cands_seated(all, placed),
                placed.seats_ok(),
                placed.current_player == current,
                cands_view(c1@) == all.take(i as int).filter(keep_cand_fn()),
            decreases candidates@.len() - i,
        {
            let cand = copy_cand(&candidates[i]);
            assert(all[i as int] == (cand.0@, cand.1@));
            proof {
                crate::board::lemma_take_push(all, i as int);
                all.take(i as int).lemma_filter_push(all[i as int], keep_cand_fn());
            }
            let keep = if cand.1.len() == 0 {
                true
            } else {
                let mut test = cand.0.clone();
                let st = cand.1.clone();
                assert(st@ =~= cand.1@);
                test.pending = st;
                assert(test@ == cand.0@.with_pending(cand.1@));
                test.has_children()
            };
            if keep {
                push_cand(&mut c1, cand.0, cand.1);
            }
            i += 1;
        }
        assert(all.take(all.len() as int) =~= all);
        let ghost f1 = cands_view(c1@);
        proof {
            lemma_filter_seated(all, placed, keep_cand_fn());
        }
        // does some candidate lay a tile?
        let mut any_tile = false;
        let mut i: usize = 0;
        while i < c1.len()
            invariant
                i <= c1@.len(),
                f1 == cands_view(c1@),
                any_tile == (exists|k: int| 0 <= k < i && lays_tile((#[trigger] f1[k]).1)),
            decreases c1@.len() - i,
        {
            assert(f1[i as int].1 == c1@[i as int].1@);
            if stack_lays_tile(&c1[i].1) {
                any_tile = true;
            }
            i += 1;
        }
        assert(any_tile == some_lays_tile(f1));
        let ghost f2 = if some_lays_tile(f1) {
            f1.filter(lays_tile_fn()).take(1)
        } else {
            f1
        };
        let mut c2: Vec<(State, Vec<SubAction>)> = Vec::new();
        if any_tile {
            let mut i: usize = 0;
            while i < c1.len()
                invariant
                    i <= c1@.len(),
                    f1 == cands_view(c1@),
                    cands_view(c2@) == f1.take(i as int).filter(lays_tile_fn()),
                decreases c1@.len() - i,
            {
                let cand = copy_cand(&c1[i]);
                assert(f1[i as int] == (cand.0@, cand.1@));
                proof {
                    crate::board::lemma_take_push(f1, i as int);
                    f1.take(i as int).lemma_filter_push(f1[i as int], lays_tile_fn());
                }
                if stack_lays_tile(&cand.1) {
                    push_cand(&mut c2, cand.0, cand.1);
                }
                i += 1;
            }
            assert(f1.take(f1.len() as int) =~= f1);
            proof {
                lemma_filter_seated(f1, placed, lays_tile_fn());
                lemma_some_tile_filter_nonempty(f1);
            }
            // only the first tile-laying candidate stays
            c2.truncate(1);
            assert(cands_view(c2@) =~= f1.filter(lays_tile_fn()).take(1));
        } else {
            c2 = c1;
        }
        assert(cands_view(c2@) == f2);
        // lead every candidate to its position
        let ghost g = finish_cand_fn();
        let mut res: Vec<State> = Vec::new();
        let mut i: usize = 0;
        while i < c2.len()
            invariant
                i <= c2@.len(),
                f2 == cands_view(c2@),
                cands_seated(f2, placed),
                placed.seats_ok(),
                g == finish_cand_fn(),
                states_view(res@) == f2.take(i as int).map_values(g),
            decreases c2@.len() - i,
        {
            let cand = copy_cand(&c2[i]);
            assert(f2[i as int] == (cand.0@, cand.1@));
            let (mut c, stack) = cand;
            if stack.len() == 0 {
                c = c.pop_subaction();
            } else {
                c.pending = stack;
            }
            assert(c@ == g(f2[i as int]));
            proof {
                crate::board::lemma_take_push(f2, i as int);
                crate::state::lemma_map_push(f2.take(i as int), f2[i as int], g);
                lemma_states_view_push(res@, c);
            }
            res.push(c);
            i += 1;
        }
        assert(f2.take(f2.len() as int) =~= f2);
        res
    }
}

/// Every position of `cs` has the players and the current player of `s`.
pub open spec fn seated(cs: Seq<StateView>, s: StateView) -> bool {
    forall|k: int|
        0 <= k < cs.len() ==> (#[trigger] cs[k]).players.len() == s.players.len()
            && cs[k].current_player == s.current_player
}

pub proof fn lemma_seated_concat(a: Seq<StateView>, b: Seq<StateView>, s: StateView)
    requires
        seated(a, s),
        seated(b, s),
    ensures
        seated(a + b, s),
{
    assert forall|k: int| 0 <= k < (a + b).len() implies (#[trigger] (a + b)[k]).players.len()
        == s.players.len() && (a + b)[k].current_player == s.current_player by {
        if k < a.len() {
            assert((a + b)[k] == a[k]);
        } else {
            assert((a + b)[k] == b[k - a.len()]);
        }
    }
}

pub proof fn lemma_fence_pairs_seated(s: StateView, pi: int, ms: Seq<(usize, usize)>, n: nat)
    requires
        0 <= pi < s.players.len(),
    ensures
        seated(s.fence_pairs_upto(pi, ms, n), s),
    decreases n,
{
    if n > 0 {
        let c = ms[n - 1];
        lemma_fence_pairs_seated(s, pi, ms, (n - 1) as nat);
        let a = s.fence_pair_at(pi, c, ((c.0 + 1) as usize, c.1));
        let b = s.fence_pair_at(pi, c, (c.0, (c.1 + 1) as usize));
        lemma_seated_concat(s.fence_pairs_upto(pi, ms, (n - 1) as nat), a, s);
        lemma_seated_concat(s.fence_pairs_upto(pi, ms, (n - 1) as nat) + a, b, s);
    }
}

pub proof fn lemma_pasture_options_seated(s: StateView, pi: int)
    requires
        0 <= pi < s.players.len(),
    ensures
        seated(s.pasture_options(pi), s),
{
    let p = s.players[pi];
    let ms = crate::board::all_cells().filter(crate::state::fenceable_cell(p.outdoor));
    let singles = if p.resources.wood >= 2 {
        ms.map_values(s.fence_one_fn(pi))
    } else {
        Seq::empty()
    };
    let pairs = if p.resources.wood >= 4 {
        s.fence_pairs_upto(pi, ms, ms.len())
    } else {
        Seq::empty()
    };
    lemma_fence_pairs_seated(s, pi, ms, ms.len());
    assert(seated(seq![s], s));
    assert(seated(singles, s));
    lemma_seated_concat(seq![s], singles, s);
    lemma_seated_concat(seq![s] + singles, pairs, s);
}

pub proof fn lemma_stable_options_seated(s: StateView, pi: int)
    requires
        0 <= pi < s.players.len(),
    ensures
        seated(s.stable_options(pi), s),
{
    let opts = s.stable_options(pi);
    assert forall|k: int| 0 <= k < opts.len() implies (#[trigger] opts[k]).players.len()
        == s.players.len() && opts[k].current_player == s.current_player by {
        if k > 0 {
            let p = s.players[pi];
            let cs = crate::board::all_cells().filter(crate::state::stable_cell(p.outdoor));
            assert(opts[k] == s.stable_child(pi, cs[k - 1]));
        }
    }
}

pub proof fn lemma_furnish_seated(s: StateView, pi: int, n: nat)
    requires
        0 <= pi < s.players.len(),
    ensures
        seated(s.furnish_upto(pi, n), s),
    decreases n,
{
    if n > 0 {
        lemma_furnish_seated(s, pi, (n - 1) as nat);
        let cell = s.furnish_cell(pi, n - 1);
        assert(seated(cell, s));
        lemma_seated_concat(s.furnish_upto(pi, (n - 1) as nat), cell, s);
    }
}

pub proof fn lemma_sow_row_seated(s: StateView, pi: int, w: int, nv: nat)
    requires
        0 <= pi < s.players.len(),
    ensures
        seated(s.sow_row(pi, w, nv), s),
    decreases nv,
{
    if nv > 0 {
        lemma_sow_row_seated(s, pi, w, (nv - 1) as nat);
        let last = if s.sow_valid(pi, w, nv - 1) {
            seq![s.sowed(pi, w, nv - 1)]
        } else {
            Seq::empty()
        };
        assert(seated(last, s));
        lemma_seated_concat(s.sow_row(pi, w, (nv - 1) as nat), last, s);
    }
}

pub proof fn lemma_sow_seated(s: StateView, pi: int, nw: nat)
    requires
        0 <= pi < s.players.len(),
    ensures
        seated(s.sow_upto(pi, nw), s),
    decreases nw,
{
    if nw > 0 {
        lemma_sow_seated(s, pi, (nw - 1) as nat);
        let nv = (crate::state::min_usize(s.players[pi].resources.vegetables, 2) + 1) as nat;
        lemma_sow_row_seated(s, pi, nw - 1, nv);
        lemma_seated_concat(s.sow_upto(pi, (nw - 1) as nat), s.sow_row(pi, nw - 1, nv), s);
    }
}

/// The turn passed on after a position's last step, as a function.
pub open spec fn pop_fn() -> spec_fn(StateView) -> StateView {
    |c: StateView| c.popped()
}

/// Passes the turn on after every position of `v`.
fn pop_all(v: Vec<State>, Ghost(s): Ghost<StateView>) -> (r: Vec<State>)
    requires
        s.seats_ok(),
        seated(states_view(v@), s),
    ensures
        states_view(r@) == states_view(v@).map_values(pop_fn()),
{
    let ghost all = states_view(v@);
    let mut v = v;
    let n = v.len();
    let mut res: Vec<State> = Vec::new();
    let mut i: usize = 0;
    while i < n
        invariant
            n == all.len(),
            i <= n,
            s.seats_ok(),
            seated(all, s),
            v@.len() == n - i,
            forall|k: int| 0 <= k < n - i ==> (#[trigger] v@[k])@ == all[k + i as int],
            states_view(res@) == all.take(i as int).map_values(pop_fn()),
        decreases n - i,
    {
        let c = v.remove(0);
        assert(c@ == all[i as int]);
        let c = c.pop_subaction();
        proof {
            crate::board::lemma_take_push(all, i as int);
            crate::state::lemma_map_push(all.take(i as int), all[i as int], pop_fn());
            lemma_states_view_push(res@, c);
        }
        res.push(c);
        i += 1;
    }
    assert(all.take(n as int) =~= all);
    res
}

/// The food a trade of good `good` pays per unit.
pub open spec fn trade_food(good: u8) -> int {
    if good == 0 {
        1
    } else if good == 1 {
        2
    } else if good == 2 {
        3
    } else if good == 3 {
        1
    } else if good == 4 {
        3
    } else if good == 5 {
        1
    } else if good == 6 {
        2
    } else {
        2
    }
}

/// The player after trading `n` units of good `good` for food. The goods are,
/// in order: sheep, boar, cow, a single donkey, a pair of donkeys, grain,
/// vegetable, ruby; they pay 1, 2, 3, 1, 3, 1, 2, 2 food.
pub open spec fn after_trade(p: PlayerView, good: u8, n: int) -> PlayerView {
    let r = Resources { food: (p.resources.food + trade_food(good) * n) as usize, ..p.resources };
    let a = p.animals;
    if good == 0 {
        PlayerView { animals: a.update(3, (a[3] - n) as usize), resources: r, ..p }
    } else if good == 1 {
        PlayerView { animals: a.update(1, (a[1] - n) as usize), resources: r, ..p }
    } else if good == 2 {
        PlayerView { animals: a.update(0, (a[0] - n) as usize), resources: r, ..p }
    } else if good == 3 {
        PlayerView { animals: a.update(2, (a[2] - n) as usize), resources: r, ..p }
    } else if good == 4 {
        PlayerView { animals: a.update(2, (a[2] - 2 * n) as usize), resources: r, ..p }
    } else if good == 5 {
        PlayerView { resources: Resources { wheat: (r.wheat - n) as usize, ..r }, ..p }
    } else if good == 6 {
        PlayerView { resources: Resources { vegetables: (r.vegetables - n) as usize, ..r }, ..p }
    } else {
        PlayerView { resources: Resources { rubies: (r.rubies - n) as usize, ..r }, ..p }
    }
}

/// How many units of good `good` the player holds.
pub open spec fn stock(p: PlayerView, good: u8) -> int {
    if good == 0 {
        p.animals[3] as int
    } else if good == 1 {
        p.animals[1] as int
    } else if good == 2 {
        p.animals[0] as int
    } else if good == 3 {
        p.animals[2] as int
    } else if good == 4 {
        p.animals[2] as int / 2
    } else if good == 5 {
        p.resources.wheat as int
    } else if good == 6 {
        p.resources.vegetables as int
    } else {
        p.resources.rubies as int
    }
}

/// The smaller of two integers.
pub open spec fn min_of(a: int, b: int) -> int {
    if a <= b {
        a
    } else {
        b
    }
}

/// How many trades of good `good` are offered for a food gap `gap`: never
/// more units than the stock nor more than close the gap, rounded up; a
/// single donkey trades only when it is the only one.
pub open spec fn trade_count(p: PlayerView, good: u8, gap: int) -> int {
    if good == 0 {
        min_of(stock(p, 0), gap)
    } else if good == 1 {
        min_of(stock(p, 1), (gap + 1) / 2)
    } else if good == 2 {
        min_of(stock(p, 2), (gap + 2) / 3)
    } else if good == 3 {
        if p.animals[2] == 1 {
            1
        } else {
            0
        }
    } else if good == 4 {
        min_of(stock(p, 4), (gap + 2) / 3)
    } else if good == 5 {
        min_of(stock(p, 5), gap)
    } else if good == 6 {
        min_of(stock(p, 6), (gap + 1) / 2)
    } else {
        min_of(stock(p, 7), (gap + 1) / 2)
    }
}

impl StateView {
    /// The position after player `pi` trades `n` units of good `good` for food.
    pub open spec fn traded(self, pi: int, good: u8, n: int) -> StateView {
        self.with_player(pi, after_trade(self.players[pi], good, n))
    }

    /// The trades of 1 to `count` units of good `good`, in order.
    pub open spec fn trades(self, pi: int, good: u8, count: int) -> Seq<StateView> {
        Seq::new(count as nat, |k: int| self.traded(pi, good, k + 1))
    }

    /// The position after player `pi` passes on trading: the step is dropped
    /// and the next trading player, if any, is to move.
    pub open spec fn trade_done(self) -> StateView {
        let c0 = self.with_pending(self.pending.drop_last());
        if c0.pending.len() > 0 {
            match c0.pending.last() {
                SubAction::TradeFood { player_idx } => StateView {
                    current_player: player_idx,
                    ..c0
                },
                _ => c0,
            }
        } else {
            c0
        }
    }

    /// The food player `pi` still lacks to feed the family.
    pub open spec fn food_gap(self, pi: int) -> int {
        let p = self.players[pi];
        if p.food_needed() > p.resources.food {
            p.food_needed() - p.resources.food
        } else {
            0
        }
    }

    /// The trades of goods `0..n`, good by good.
    pub open spec fn trades_upto(self, pi: int, gap: int, n: nat) -> Seq<StateView>
        decreases n,
    {
        if n == 0 {
            Seq::empty()
        } else {
            self.trades_upto(pi, gap, (n - 1) as nat) + self.trades(
                pi,
                (n - 1) as u8,
                trade_count(self.players[pi], (n - 1) as u8, gap),
            )
        }
    }

    /// The moves of player `pi`'s trading step: passing; then, if food is
    /// lacking, trading 1, 2, ... units of one good, good by good (see
    /// `trade_count` for how many).
    pub open spec fn trade_children(self, pi: int) -> Seq<StateView> {
        let gap = self.food_gap(pi);
        seq![self.trade_done()] + if gap > 0 {
            self.trades_upto(pi, gap, 8)
        } else {
            Seq::empty()
        }
    }

    /// The position after the end of the round: the step is dropped, every
    /// player feeds the family and breeds animals, the children grow up, the
    /// round count goes up and the starting player selects an action space.
    pub open spec fn finished_round(self) -> StateView {
        let c0 = self.with_pending(self.pending.drop_last());
        let c1 = StateView {
            players: c0.players.map_values(|p: PlayerView| p.fed().bred()),
            ..c0
        };
        let c2 = c1.children_grown();
        StateView {
            round: (self.round + 1) as u32,
            current_player: self.starting_player as usize,
            pending: seq![SubAction::SelectActionSpace],
            ..c2
        }
    }
}

/// The food player `p` still lacks to feed the family.
pub open spec fn trade_gap(p: PlayerView) -> int {
    if p.food_needed() > p.resources.food {
        p.food_needed() - p.resources.food
    } else {
        0
    }
}

/// Whether player `p`'s trading step fits: the food needed, the food gap
/// rounded up to whole units, and the food after the largest trade of
/// every good stay at most `usize::MAX`.
pub open spec fn trade_fits(p: PlayerView) -> bool {
    let gap = trade_gap(p);
    &&& p.food_needed() <= usize::MAX
    &&& gap > 0 ==> {
        &&& gap + 2 <= usize::MAX
        &&& forall|g: u8|
            g < 8 ==> p.resources.food + trade_food(g) * #[trigger] trade_count(p, g, gap)
                <= usize::MAX
    }
}

impl StateView {
    /// Whether the end of the round fits: every player's feeding and
    /// breeding, and the round count.
    pub open spec fn finish_fits(self) -> bool {
        &&& forall|i: int|
            0 <= i < self.players.len() ==> (#[trigger] self.players[i]).feed_fits()
                && self.players[i].breed_fits()
        &&& self.round + 1 <= u32::MAX
    }
}

impl State {
    /// The position after player `pi` trades `n` units of good `good` for food.
    fn traded(&self, pi: usize, good: u8, n: usize) -> (r: State)
        requires
            pi < self@.players.len(),
            self@.players[pi as int].resources.food + trade_food(good) * n <= usize::MAX,
            good <= 7,
            1 <= n,
            (if good == 4 {
                2 * n
            } else {
                n as int
            }) <= (if good == 4 {
                self@.players[pi as int].animals[2] as int
            } else {
                stock(self@.players[pi as int], good)
            }),
        ensures
            r@ == self@.traded(pi as int, good, n as int),
    {
        let ghost p = self@.players[pi as int];
        let mut np = self.player_copy(pi);
        let ghost a = np.animals@;
        if good == 0 {
            np.animals[3] = np.animals[3] - n;
            np.resources.food = np.resources.food + n;
        } else if good == 1 {
            np.animals[1] = np.animals[1] - n;
            np.resources.food = np.resources.food + n * 2;
        } else if good == 2 {
            np.animals[0] = np.animals[0] - n;
            np.resources.food = np.resources.food + n * 3;
        } else if good == 3 {
            np.animals[2] = np.animals[2] - n;
            np.resources.food = np.resources.food + n;
        } else if good == 4 {
            np.animals[2] = np.animals[2] - n * 2;
            np.resources.food = np.resources.food + n * 3;
        } else if good == 5 {
            np.resources.wheat = np.resources.wheat - n;
            np.resources.food = np.resources.food + n;
        } else if good == 6 {
            np.resources.vegetables = np.resources.vegetables - n;
            np.resources.food = np.resources.food + n * 2;
        } else {
            np.resources.rubies = np.resources.rubies - n;
            np.resources.food = np.resources.food + n * 2;
        }
        assert(np@.animals =~= after_trade(p, good, n as int).animals);
        assert(np@ == after_trade(p, good, n as int));
        self.with_player(pi, np)
    }

    /// Appends the trades of 1 to `count` units of good `good`.
    fn push_trades(&self, res: &mut Vec<State>, pi: usize, good: u8, count: usize)
        requires
            pi < self@.players.len(),
            self@.players[pi as int].resources.food + trade_food(good) * count <= usize::MAX,
            good <= 7,
            (if good == 4 {
                2 * count
            } else {
                count as int
            }) <= (if good == 4 {
                self@.players[pi as int].animals[2] as int
            } else {
                stock(self@.players[pi as int], good)
            }),
        ensures
            states_view(final(res)@) == states_view(old(res)@) + self@.trades(
                pi as int,
                good,
                count as int,
            ),
    {
        let ghost start = states_view(res@);
        let ghost all = self@.trades(pi as int, good, count as int);
        let mut k: usize = 0;
        while k < count
            invariant
                k <= count,
                all == self@.trades(pi as int, good, count as int),
                pi < self@.players.len(),
                self@.players[pi as int].resources.food + trade_food(good) * count <= usize::MAX,
                good <= 7,
                (if good == 4 {
                    2 * count
                } else {
                    count as int
                }) <= (if good == 4 {
                    self@.players[pi as int].animals[2] as int
                } else {
                    stock(self@.players[pi as int], good)
                }),
                states_view(res@) == start + all.take(k as int),
            decreases count - k,
        {
            let n = k + 1;
            assert(0 <= trade_food(good) <= 3);
            assert(trade_food(good) * n <= trade_food(good) * count) by (nonlinear_arith)
                requires
                    n <= count,
                    0 <= trade_food(good),
            ;
            let c = self.traded(pi, good, n);
            proof {
                lemma_states_view_push(res@, c);
                assert(all.take(n as int) =~= all.take(n - 1).push(c@));
            }
            res.push(c);
            assert(states_view(res@) =~= start + all.take(n as int));
            k += 1;
        }
        assert(all.take(count as int) =~= all);
    }

    /// The position after passing on trading (see `StateView::trade_done`).
    fn trade_done(&self) -> (r: State)
        requires
            self@.pending.len() >= 1,
        ensures
            r@ == self@.trade_done(),
    {
        let mut done = self.clone();
        done.pending.pop();
        if done.pending.len() > 0 {
            match done.pending[done.pending.len() - 1] {
                SubAction::TradeFood { player_idx: next } => {
                    done.current_player = next;
                },
                _ => {},
            }
        }
        done
    }

    /// How many trades of good `good` are offered (see `trade_count`).
    fn trade_count(&self, pi: usize, good: u8, food_gap: usize) -> (r: usize)
        requires
            pi < self@.players.len(),
            food_gap + 2 <= usize::MAX,
        ensures
            r == trade_count(self@.players[pi as int], good, food_gap as int),
            (if good == 4 {
                2 * r
            } else {
                r as int
            }) <= (if good == 4 {
                self@.players[pi as int].animals[2] as int
            } else {
                stock(self@.players[pi as int], good)
            }),
    {
        let ghost p = self@.players[pi as int];
        assert(p == self.players@[pi as int]@);
        let half = (food_gap + 1) / 2;
        let third = (food_gap + 2) / 3;
        let pl = &self.players[pi];
        let (have, cap) = if good == 0 {
            (pl.animals[3], food_gap)
        } else if good == 1 {
            (pl.animals[1], half)
        } else if good == 2 {
            (pl.animals[0], third)
        } else if good == 3 {
            return if pl.animals[2] == 1 {
                1
            } else {
                0
            };
        } else if good == 4 {
            (pl.animals[2] / 2, third)
        } else if good == 5 {
            (pl.resources.wheat, food_gap)
        } else if good == 6 {
            (pl.resources.vegetables, half)
        } else {
            (pl.resources.rubies, half)
        };
        if have < cap {
            have
        } else {
            cap
        }
    }

    /// The moves of player `pi`'s trading step (see `StateView::trade_children`).
    pub fn trade_children(&self, pi: usize) -> (r: Vec<State>)
        requires
            self@.shape(),
            pi < self@.players.len(),
            trade_fits(self@.players[pi as int]),
        ensures
            states_view(r@) == self@.trade_children(pi as int),
    {
        let ghost p = self@.players[pi as int];
        assert(p == self.players@[pi as int]@);
        let food_needed = self.players[pi].food_needed();
        let food_have = self.players[pi].resources.food;
        let food_gap = if food_needed > food_have {
            food_needed - food_have
        } else {
            0
        };
        assert(food_gap == self@.food_gap(pi as int));
        let mut children: Vec<State> = Vec::new();
        let done = self.trade_done();
        proof {
            lemma_states_view_push(children@, done);
        }
        children.push(done);
        let ghost c0 = states_view(children@);
        assert(c0 =~= seq![self@.trade_done()]);
        if food_gap > 0 {
            let mut good: u8 = 0;
            while good < 8
                invariant
                    good <= 8,
                    pi < self@.players.len(),
                    p == self@.players[pi as int],
                    trade_fits(p),
                    food_gap > 0,
                    food_gap as int == trade_gap(p),
                    food_gap == self@.food_gap(pi as int),
                    states_view(children@) == c0 + self@.trades_upto(
                        pi as int,
                        food_gap as int,
                        good as nat,
                    ),
                decreases 8 - good,
            {
                let count = self.trade_count(pi, good, food_gap);
                assert(food_gap as int == trade_gap(p));
                assert(p.resources.food + trade_food(good) * trade_count(p, good, food_gap as int)
                    <= usize::MAX);
                self.push_trades(&mut children, pi, good, count);
                assert(states_view(children@) =~= c0 + self@.trades_upto(
                    pi as int,
                    food_gap as int,
                    (good + 1) as nat,
                ));
                good += 1;
            }
        }
        children
    }

    /// The position after the end of the round (see `StateView::finished_round`).
    pub fn finish_round(&self) -> (r: State)
        requires
            self@.shape(),
            self@.finish_fits(),
        ensures
            r@ == self@.finished_round(),
    {
        let mut c = self.clone();
        c.pending.pop();
        let ghost c0 = c@;
        let mut i: usize = 0;
        while i < c.players.len()
            invariant
                i <= c.players@.len(),
                c.players@.len() == c0.players.len(),
                c0.players == self@.players,
                self@.shape(),
                self@.finish_fits(),
                forall|k: int|
                    0 <= k < i ==> (#[trigger] c.players@[k])@ == c0.players[k].fed().bred(),
                forall|k: int| i <= k < c.players@.len() ==> (#[trigger] c.players@[k])@ == c0.players[k],
                c.round == c0.round,
                c.starting_player == c0.starting_player,
                c.accumulated@ == c0.accumulated,
                c.current_player == c0.current_player,
                c.pending@ == c0.pending,
            decreases c.players@.len() - i,
        {
            assert(c0.players[i as int].feed_fits() && c0.players[i as int].breed_fits());
            assert(c0.players[i as int].wf());
            c.players[i].feed();
            c.players[i].breed();
            i += 1;
        }
        let ghost c1 = c@;
        assert(c1.players =~= c0.players.map_values(|p: PlayerView| p.fed().bred()));
        c.grow_children();
        c.round = c.round + 1;
        c.current_player = c.starting_player as usize;
        let mut fresh: Vec<SubAction> = Vec::new();
        fresh.push(SubAction::SelectActionSpace);
        assert(fresh@ =~= seq![SubAction::SelectActionSpace]);
        c.pending = fresh;
        c
    }
}

/// The weapon one step stronger, at most 255.
pub open spec fn sharpened(w: u8) -> u8 {
    if w < 255 {
        (w + 1) as u8
    } else {
        255
    }
}

/// Whether an expedition step on `space` is still pending.
pub open spec fn expedition_pending(pending: Seq<SubAction>, space: ActionSpace) -> bool {
    exists|k: int|
        0 <= k < pending.len() && match #[trigger] pending[k] {
            SubAction::ExpeditionPick { space: s2, .. } => s2 == space,
            _ => false,
        }
}

/// The picks of an expedition, each with the item bit and whether a furnishing follows.
pub open spec fn picks_seated(cs: Seq<(StateView, u16, bool)>, s: StateView) -> bool {
    forall|k: int|
        0 <= k < cs.len() ==> (#[trigger] cs[k]).0.players.len() == s.players.len()
            && cs[k].0.current_player == s.current_player && cs[k].0.pending == s.pending
}

impl StateView {
    /// The weapon of the first dwarf of player `cur` on `space`, or 0.
    pub open spec fn weapon_on(self, cur: int, space: ActionSpace) -> u8 {
        let ds = self.players[cur].dwarfs;
        if has_dwarf_on(ds, space) {
            ds[first_on(ds, space)].weapon
        } else {
            0
        }
    }

    /// The position after one pick of the expedition step on `space` with
    /// `picks` picks left and `used` items taken: the step is dropped; with
    /// picks left, a step for the rest follows with the item marked taken;
    /// after the last pick of the last step on the space the dwarf's weapon
    /// grows by one (if armed); a furnishing step follows a furnishing pick
    /// when a cave can be furnished; with no step left the turn passes on.
    pub open spec fn expedition_child(
        self,
        space: ActionSpace,
        picks: usize,
        used: u16,
        pick: (StateView, u16, bool),
    ) -> StateView {
        let cur = self.current_player as int;
        let st = pick.0;
        let c0 = st.with_pending(st.pending.drop_last());
        let c1 = if picks > 1 {
            c0.with_pending(
                c0.pending.push(
                    SubAction::ExpeditionPick {
                        space,
                        picks_remaining: (picks - 1) as usize,
                        used_items: used | pick.1,
                    },
                ),
            )
        } else if expedition_pending(c0.pending, space) {
            c0
        } else {
            let p = c0.players[cur];
            let ds = p.dwarfs;
            if has_dwarf_on(ds, space) && ds[first_on(ds, space)].weapon > 0 {
                let j = first_on(ds, space);
                c0.with_player(
                    cur,
                    PlayerView {
                        dwarfs: ds.update(j, Dwarf { weapon: sharpened(ds[j].weapon), ..ds[j] }),
                        ..p
                    },
                )
            } else {
                c0
            }
        };
        let c2 = if pick.2 && c1.furnish_cave_options(cur).len() > 0 {
            c1.with_pending(c1.pending.push(SubAction::Furnish))
        } else {
            c1
        };
        if c2.pending.len() == 0 {
            c2.popped()
        } else {
            c2
        }
    }

    /// `expedition_child` as a function of the pick.
    pub open spec fn expedition_child_fn(self, space: ActionSpace, picks: usize, used: u16) -> spec_fn(
        (StateView, u16, bool),
    ) -> StateView {
        |pick: (StateView, u16, bool)| self.expedition_child(space, picks, used, pick)
    }

    /// The moves of an expedition step: one per pick (see `expedition_options`).
    pub open spec fn expedition_children(self, space: ActionSpace, picks: usize, used: u16) -> Seq<
        StateView,
    > {
        let cur = self.current_player as int;
        self.expedition_options(cur, self.weapon_on(cur, space), used).map_values(
            self.expedition_child_fn(space, picks, used),
        )
    }
}

pub proof fn lemma_loot_seated(s: StateView, pi: int, weapon: u8, used: u16, n: nat)
    requires
        0 <= pi < s.players.len(),
    ensures
        picks_seated(s.loot_upto(pi, weapon, used, n), s),
    decreases n,
{
    if n > 0 {
        lemma_loot_seated(s, pi, weapon, used, (n - 1) as nat);
        let a = s.loot_upto(pi, weapon, used, (n - 1) as nat);
        let i = crate::state::loot_items()[n - 1];
        let b = if crate::state::loot_available(weapon, used, i) {
            seq![(s.loot(pi, i), 1u16 << i, false)]
        } else {
            Seq::empty()
        };
        assert forall|k: int| 0 <= k < (a + b).len() implies (#[trigger] (a + b)[k]).0.players.len()
            == s.players.len() && (a + b)[k].0.current_player == s.current_player && (a
            + b)[k].0.pending == s.pending by {
            if k < a.len() {
                assert((a + b)[k] == a[k]);
            } else {
                assert((a + b)[k] == b[k - a.len()]);
            }
        }
    }
}

pub proof fn lemma_expedition_seated(s: StateView, pi: int, weapon: u8, used: u16)
    requires
        0 <= pi < s.players.len(),
    ensures
        picks_seated(s.expedition_options(pi, weapon, used), s),
{
    lemma_loot_seated(s, pi, weapon, used, 10);
    let a = s.loot_upto(pi, weapon, used, 10);
    let b = if crate::state::loot_available(weapon, used, 13) && s.furnish_cave_options(pi).len()
        > 0 {
        seq![(s, 1u16 << 13u16, true)]
    } else {
        Seq::empty()
    };
    assert forall|k: int| 0 <= k < (a + b).len() implies (#[trigger] (a + b)[k]).0.players.len()
        == s.players.len() && (a + b)[k].0.current_player == s.current_player && (a
        + b)[k].0.pending == s.pending by {
        if k < a.len() {
            assert((a + b)[k] == a[k]);
        } else {
            assert((a + b)[k] == b[k - a.len()]);
        }
    }
}

impl State {
    /// The position after one pick of an expedition step (see
    /// `StateView::expedition_child`).
    fn expedition_child(
        &self,
        space: ActionSpace,
        picks_remaining: usize,
        used_items: u16,
        pick: (State, u16, bool),
    ) -> (r: State)
        requires
            self@.seats_ok(),
            self@.pending.len() >= 1,
            pick.0@.players.len() == self@.players.len(),
            pick.0@.current_player == self@.current_player,
            pick.0@.pending == self@.pending,
        ensures
            r@ == self@.expedition_child(space, picks_remaining, used_items, (pick.0@, pick.1, pick.2)),
    {
        let current = self.current_player;
        let (state, item_bit, needs_furnish) = pick;
        let mut c = state;
        c.pending.pop();
        if picks_remaining > 1 {
            c.pending.push(
                SubAction::ExpeditionPick {
                    space,
                    picks_remaining: picks_remaining - 1,
                    used_items: used_items | item_bit,
                },
            );
        } else {
            let ghost pend = c.pending@;
            let mut has_more = false;
            let mut k: usize = 0;
            while k < c.pending.len()
                invariant
                    k <= pend.len(),
                    pend == c.pending@,
                    has_more == (exists|m: int|
                        0 <= m < k && match #[trigger] pend[m] {
                            SubAction::ExpeditionPick { space: s2, .. } => s2 == space,
                            _ => false,
                        }),
                decreases pend.len() - k,
            {
                match c.pending[k] {
                    SubAction::ExpeditionPick { space: s2, .. } => {
                        if s2 == space {
                            has_more = true;
                        }
                    },
                    _ => {},
                }
                k += 1;
            }
            if !has_more {
                assert(c@.players[current as int] == c.players@[current as int]@);
                match find_on(&c.players[current].dwarfs, space) {
                    Some(j) => {
                        let mut d = c.players[current].dwarfs[j];
                        if d.weapon > 0 {
                            d.weapon = if d.weapon < 255 {
                                d.weapon + 1
                            } else {
                                255
                            };
                            let ghost before = c@;
                            let ghost p = before.players[current as int];
                            c.players[current].dwarfs.set(j, d);
                            assert(c@.players =~= before.players.update(
                                current as int,
                                PlayerView {
                                    dwarfs: p.dwarfs.update(
                                        j as int,
                                        Dwarf { weapon: sharpened(p.dwarfs[j as int].weapon), ..p.dwarfs[j as int] },
                                    ),
                                    ..p
                                },
                            ));
                        }
                    },
                    None => {},
                }
            }
        }
        if needs_furnish {
            let opts = c.furnish_cave_options(current);
            assert(states_view(opts@).len() == opts@.len());
            if opts.len() > 0 {
                c.pending.push(SubAction::Furnish);
            }
        }
        if c.pending.len() == 0 {
            return c.pop_subaction();
        }
        c
    }

    /// The moves of an expedition step (see `StateView::expedition_children`).
    pub fn expedition_children(&self, space: ActionSpace, picks_remaining: usize, used_items: u16) -> (r: Vec<State>)
        requires
            self@.shape(),
            crate::state::expedition_fits(
                self@.players[self@.current_player as int],
                self@.weapon_on(self@.current_player as int, space),
                used_items,
            ),
        ensures
            states_view(r@) == self@.expedition_children(space, picks_remaining, used_items),
    {
        let current = self.current_player;
        assert(self@.players[current as int] == self.players@[current as int]@);
        let weapon = match find_on(&self.players[current].dwarfs, space) {
            Some(j) => self.players[current].dwarfs[j].weapon,
            None => 0,
        };
        assert(weapon == self@.weapon_on(current as int, space));
        let opts = self.expedition_options(current, weapon, used_items);
        let ghost all = crate::state::picks_view(opts@);
        proof {
            lemma_expedition_seated(self@, current as int, weapon, used_items);
        }
        let ghost f = self@.expedition_child_fn(space, picks_remaining, used_items);
        let mut opts = opts;
        let n = opts.len();
        let mut res: Vec<State> = Vec::new();
        let mut i: usize = 0;
        while i < n
            invariant
                n == all.len(),
                i <= n,
                self@.shape(),
                picks_seated(all, self@),
                f == self@.expedition_child_fn(space, picks_remaining, used_items),
                opts@.len() == n - i,
                forall|k: int|
                    0 <= k < n - i ==> ((#[trigger] opts@[k]).0@, opts@[k].1, opts@[k].2) == all[k
                        + i as int],
                states_view(res@) == all.take(i as int).map_values(f),
            decreases n - i,
        {
            let pick = opts.remove(0);
            assert((pick.0@, pick.1, pick.2) == all[i as int]);
            let c = self.expedition_child(space, picks_remaining, used_items, pick);
            proof {
                crate::board::lemma_take_push(all, i as int);
                crate::state::lemma_map_push(all.take(i as int), all[i as int], f);
                lemma_states_view_push(res@, c);
            }
            res.push(c);
            i += 1;
        }
        assert(all.take(n as int) =~= all);
        res
    }
}

/// The goods and animals earned by the first `n` changed cells of a placement.
pub open spec fn bonus_fold(
    side: Side,
    cells: Seq<(usize, usize)>,
    r: Resources,
    a: Seq<usize>,
    n: nat,
) -> (Resources, Seq<usize>)
    decreases n,
{
    if n == 0 {
        (r, a)
    } else {
        let (r1, a1) = bonus_fold(side, cells, r, a, (n - 1) as nat);
        match side {
            Side::Outdoor => outdoor_bonus_spec(cells[n - 1], r1, a1),
            Side::Indoor => (indoor_bonus_spec(cells[n - 1], r1), a1),
        }
    }
}

/// Whether a placement puts tile `t` on one of the changed cells.
pub open spec fn places(nb: Seq<Tile>, changed: Seq<(usize, usize)>, t: Tile) -> bool {
    exists|k: int| 0 <= k < changed.len() && tile_at(nb, #[trigger] changed[k]) == t
}

/// The food that laying a tile on cell `c` of `side` earns.
pub open spec fn cell_food(side: Side, c: (usize, usize)) -> int {
    match side {
        Side::Outdoor => if c == (1usize, 3usize) {
            1
        } else {
            0
        },
        Side::Indoor => if c == (2usize, 0usize) {
            2
        } else if c == (1usize, 3usize) {
            1
        } else {
            0
        },
    }
}

/// The boars that laying a tile on cell `c` of `side` earns.
pub open spec fn cell_boars(side: Side, c: (usize, usize)) -> int {
    match side {
        Side::Outdoor => if c == (0usize, 2usize) || c == (2usize, 0usize) {
            1
        } else {
            0
        },
        Side::Indoor => 0,
    }
}

/// The food earned by the first `n` of `cells`.
pub open spec fn food_bonus(side: Side, cells: Seq<(usize, usize)>, n: nat) -> int
    decreases n,
{
    if n == 0 {
        0
    } else {
        food_bonus(side, cells, (n - 1) as nat) + cell_food(side, cells[n - 1])
    }
}

/// The boars earned by the first `n` of `cells`.
pub open spec fn boar_bonus(side: Side, cells: Seq<(usize, usize)>, n: nat) -> int
    decreases n,
{
    if n == 0 {
        0
    } else {
        boar_bonus(side, cells, (n - 1) as nat) + cell_boars(side, cells[n - 1])
    }
}

proof fn lemma_bonus_nonneg(side: Side, cells: Seq<(usize, usize)>, n: nat)
    ensures
        0 <= food_bonus(side, cells, n),
        0 <= boar_bonus(side, cells, n),
    decreases n,
{
    if n > 0 {
        lemma_bonus_nonneg(side, cells, (n - 1) as nat);
    }
}

proof fn lemma_bonus_monotone(side: Side, cells: Seq<(usize, usize)>, k: nat, n: nat)
    requires
        k <= n,
    ensures
        0 <= food_bonus(side, cells, k) <= food_bonus(side, cells, n),
        0 <= boar_bonus(side, cells, k) <= boar_bonus(side, cells, n),
    decreases n - k,
{
    lemma_bonus_nonneg(side, cells, k);
    if k < n {
        lemma_bonus_monotone(side, cells, k, (n - 1) as nat);
    }
}

impl StateView {
    /// The position after the current player lays tiles to make board `nb`
    /// on `side`: three coal for an ore mine, a ruby for a ruby mine laid
    /// on a deep tunnel alone, the bonus of each changed cell; then the turn
    /// moves on.
    pub open spec fn place_child(self, side: Side, nb: Seq<Tile>) -> StateView {
        let cur = self.current_player as int;
        let p = self.players[cur];
        let before = match side {
            Side::Outdoor => p.outdoor,
            Side::Indoor => p.indoor,
        };
        let replaced = board_delta_spec(before, nb);
        let changed = changed_cells_spec(before, nb);
        let r0 = p.resources;
        let r1 = if places(nb, changed, Tile::OreMine) {
            Resources { coal: (r0.coal + 3) as usize, ..r0 }
        } else {
            r0
        };
        let r2 = if places(nb, changed, Tile::RubyMine) && replaced == TileGroup::Single(
            Tile::DeepTunnel,
        ) {
            Resources { rubies: (r1.rubies + 1) as usize, ..r1 }
        } else {
            r1
        };
        let (r3, a3) = bonus_fold(side, changed, r2, p.animals, changed.len());
        let np = PlayerView {
            resources: r3,
            animals: a3,
            outdoor: match side {
                Side::Outdoor => nb,
                Side::Indoor => p.outdoor,
            },
            indoor: match side {
                Side::Outdoor => p.indoor,
                Side::Indoor => nb,
            },
            ..p
        };
        self.with_player(cur, np).popped()
    }

    /// Whether laying tiles to make board `nb` on `side` fits: the coal of
    /// an ore mine, the ruby of a ruby mine on a deep tunnel, and the food
    /// and boars of the changed cells stay at most `usize::MAX`.
    pub open spec fn place_fits(self, side: Side, nb: Seq<Tile>) -> bool {
        let p = self.players[self.current_player as int];
        let before = match side {
            Side::Outdoor => p.outdoor,
            Side::Indoor => p.indoor,
        };
        let changed = changed_cells_spec(before, nb);
        &&& places(nb, changed, Tile::OreMine) ==> p.resources.coal + 3 <= usize::MAX
        &&& (places(nb, changed, Tile::RubyMine) && board_delta_spec(before, nb)
            == TileGroup::Single(Tile::DeepTunnel)) ==> p.resources.rubies + 1 <= usize::MAX
        &&& p.resources.food + food_bonus(side, changed, changed.len()) <= usize::MAX
        &&& p.animals[1] + boar_bonus(side, changed, changed.len()) <= usize::MAX
    }

    /// Whether every placement of `tile` by the mover fits.
    pub open spec fn place_all_fit(self, tile: TileGroup) -> bool {
        let pl = self.players[self.current_player as int].tile_placements(tile);
        forall|k: int| 0 <= k < pl.len() ==> self.place_fits((#[trigger] pl[k]).0, pl[k].1)
    }

    /// `place_child` as a function of the placement.
    pub open spec fn place_child_fn(self) -> spec_fn((Side, Seq<Tile>)) -> StateView {
        |e: (Side, Seq<Tile>)| self.place_child(e.0, e.1)
    }

    /// The moves of a tile step: one per placement; if the tile fits
    /// nowhere, the step is skipped.
    pub open spec fn place_children(self, tile: TileGroup) -> Seq<StateView> {
        let pl = self.players[self.current_player as int].tile_placements(tile);
        if pl.len() == 0 {
            seq![self.popped()]
        } else {
            pl.map_values(self.place_child_fn())
        }
    }
}

impl State {
    /// The position after the current player lays tiles to make board
    /// `new_board` on `side` (see `StateView::place_child`).
    fn place_child(&self, side: Side, new_board: Board) -> (r: State)
        requires
            self@.shape(),
            self@.place_fits(side, new_board@),
            crate::board::one_or_two_changed(
                match side {
                    Side::Outdoor => self@.players[self@.current_player as int].outdoor,
                    Side::Indoor => self@.players[self@.current_player as int].indoor,
                },
                new_board@,
            ),
        ensures
            r@ == self@.place_child(side, new_board@),
    {
        let current = self.current_player;
        let ghost p = self@.players[current as int];
        assert(p == self.players@[current as int]@);
        let mut np = self.player_copy(current);
        let old_board = match side {
            Side::Outdoor => np.outdoor,
            Side::Indoor => np.indoor,
        };
        let replaced = crate::board::board_delta(&old_board, &new_board);
        let changed = crate::board::changed_cells(&old_board, &new_board);
        let ghost ch = changed@;
        proof {
            crate::board::lemma_filtered_cells_in_bounds(
                crate::board::differs(old_board@, new_board@),
            );
        }
        let mut has_ore = false;
        let mut has_ruby = false;
        let mut k: usize = 0;
        while k < changed.len()
            invariant
                k <= ch.len(),
                ch == changed@,
                ch.len() <= 2,
                forall|m: int| 0 <= m < ch.len() ==> in_bounds(#[trigger] ch[m]),
                has_ore == (exists|m: int| 0 <= m < k && tile_at(new_board@, #[trigger] ch[m]) == Tile::OreMine),
                has_ruby == (exists|m: int| 0 <= m < k && tile_at(new_board@, #[trigger] ch[m]) == Tile::RubyMine),
            decreases ch.len() - k,
        {
            let (x, y) = changed[k];
            if new_board[y * 3 + x] == Tile::OreMine {
                has_ore = true;
            }
            if new_board[y * 3 + x] == Tile::RubyMine {
                has_ruby = true;
            }
            k += 1;
        }
        if has_ore {
            np.resources.coal = np.resources.coal + 3;
        }
        let on_deep_tunnel = match replaced {
            TileGroup::Single(Tile::DeepTunnel) => true,
            _ => false,
        };
        if has_ruby && on_deep_tunnel {
            np.resources.rubies = np.resources.rubies + 1;
        }
        let ghost r2 = np.resources;
        let ghost a0 = np.animals@;
        let ghost np0 = np@;
        assert(r2.food == p.resources.food);
        assert(ch == changed_cells_spec(
            match side {
                Side::Outdoor => p.outdoor,
                Side::Indoor => p.indoor,
            },
            new_board@,
        ));
        let mut k: usize = 0;
        while k < changed.len()
            invariant
                k <= ch.len(),
                ch == changed@,
                ch.len() <= 2,
                a0.len() == 4,
                r2.food + food_bonus(side, ch, ch.len()) <= usize::MAX,
                a0[1] + boar_bonus(side, ch, ch.len()) <= usize::MAX,
                (np.resources, np.animals@) == bonus_fold(side, ch, r2, a0, k as nat),
                np.resources.food == r2.food + food_bonus(side, ch, k as nat),
                np.animals@[1] == a0[1] + boar_bonus(side, ch, k as nat),
                np@ == (PlayerView { resources: np.resources, animals: np.animals@, ..np0 }),
            decreases ch.len() - k,
        {
            let pos = changed[k];
            proof {
                lemma_bonus_monotone(side, ch, (k + 1) as nat, ch.len());
                lemma_bonus_monotone(side, ch, k as nat, (k + 1) as nat);
            }
            match side {
                Side::Outdoor => crate::resources::apply_outdoor_location_bonus(
                    pos,
                    &mut np.resources,
                    &mut np.animals,
                ),
                Side::Indoor => crate::resources::apply_indoor_location_bonus(
                    pos,
                    &mut np.resources,
                    &mut np.animals,
                ),
            }
            k += 1;
        }
        match side {
            Side::Outdoor => np.outdoor = new_board,
            Side::Indoor => np.indoor = new_board,
        }
        let c = self.with_player(current, np);
        c.pop_subaction()
    }
}

impl StateView {
    /// Every successor position of the game: none once the game is over;
    /// else the moves of the pending step.
    pub open spec fn children(self) -> Seq<StateView> {
        let cur = self.current_player as int;
        if self.done() {
            Seq::empty()
        } else {
            match self.pending.last() {
                SubAction::SelectActionSpace => self.select_children(),
                SubAction::PlaceTile(tile) => self.place_children(tile),
                SubAction::Pasture => self.pasture_options(cur).map_values(pop_fn()),
                SubAction::Stable => self.stable_options(cur).map_values(pop_fn()),
                SubAction::Furnish => {
                    let opts = self.furnish_cave_options(cur);
                    if opts.len() == 0 {
                        seq![self.popped()]
                    } else {
                        opts.map_values(pop_fn())
                    }
                },
                SubAction::Sow => {
                    let opts = self.sow_options(cur);
                    if opts.len() == 0 {
                        seq![self.popped()]
                    } else {
                        opts.map_values(pop_fn())
                    }
                },
                SubAction::ExpeditionPick { space, picks_remaining, used_items } => self.expedition_children(
                    space,
                    picks_remaining,
                    used_items,
                ),
                SubAction::TradeFood { player_idx } => self.trade_children(player_idx as int),
                SubAction::FinishRound => seq![self.finished_round()],
            }
        }
    }

    /// Whether the moves of the position fit: no count that a move of the
    /// pending step raises goes past its type's largest value.
    pub open spec fn children_fit(self) -> bool {
        let cur = self.current_player as int;
        !self.done() ==> match self.pending.last() {
            SubAction::SelectActionSpace => self.select_fits(),
            SubAction::PlaceTile(tile) => self.place_all_fit(tile),
            SubAction::ExpeditionPick { space, picks_remaining, used_items } => crate::state::expedition_fits(
                self.players[cur],
                self.weapon_on(cur, space),
                used_items,
            ),
            SubAction::TradeFood { player_idx } => trade_fits(self.players[player_idx as int]),
            SubAction::FinishRound => self.finish_fits(),
            _ => true,
        }
    }

    /// Whether the scores fit once the game is over.
    pub open spec fn winner_fits(self) -> bool {
        self.done() ==> forall|i: int| 0 <= i < self.players.len() ==> (
        #[trigger] self.players[i]).points_fit()
    }

    /// Whether player `i` has the most points, and more than every later player.
    pub open spec fn is_winner(self, i: int) -> bool {
        &&& 0 <= i < self.players.len()
        &&& forall|j: int|
            0 <= j < self.players.len() ==> (#[trigger] self.players[j]).points()
                <= self.players[i].points()
        &&& forall|j: int|
            i < j < self.players.len() ==> (#[trigger] self.players[j]).points()
                < self.players[i].points()
    }

    /// The winner once the game is over: the last of the players with the most points.
    pub open spec fn winner(self) -> Option<usize> {
        if !self.done() || self.players.len() == 0 {
            None
        } else {
            Some((choose|i: int| self.is_winner(i)) as usize)
        }
    }
}

/// A single position.
fn single(c: State) -> (r: Vec<State>)
    ensures
        states_view(r@) == seq![c@],
{
    let mut v: Vec<State> = Vec::new();
    proof {
        lemma_states_view_push(v@, c);
    }
    v.push(c);
    assert(states_view(v@) =~= seq![c@]);
    v
}

impl State {
    /// The moves of a tile step (see `StateView::place_children`).
    pub fn place_children(&self, tile: TileGroup) -> (r: Vec<State>)
        requires
            self@.shape(),
            self@.place_all_fit(tile),
        ensures
            states_view(r@) == self@.place_children(tile),
    {
        let current = self.current_player;
        let ghost p = self@.players[current as int];
        assert(p == self.players@[current as int]@);
        let placements = self.players[current].tile_placements(tile);
        let ghost all = crate::player::placements_view(placements@);
        assert(all.len() == placements@.len());
        if placements.len() == 0 {
            return single(self.clone().pop_subaction());
        }
        proof {
            crate::board::lemma_placements_changed(p.board_for(tile), tile);
        }
        let ghost f = self@.place_child_fn();
        let mut res: Vec<State> = Vec::new();
        let mut i: usize = 0;
        while i < placements.len()
            invariant
                i <= placements@.len(),
                all == crate::player::placements_view(placements@),
                all == p.tile_placements(tile),
                all.len() == placements@.len(),
                p == self@.players[current as int],
                current == self@.current_player,
                self@.shape(),
                self@.place_all_fit(tile),
                f == self@.place_child_fn(),
                forall|k: int|
                    0 <= k < crate::board::tile_placements_spec(p.board_for(tile), tile).len()
                        ==> crate::board::one_or_two_changed(
                        p.board_for(tile),
                        #[trigger] crate::board::tile_placements_spec(p.board_for(tile), tile)[k],
                    ),
                states_view(res@) == all.take(i as int).map_values(f),
            decreases placements@.len() - i,
        {
            let (side, nb) = placements[i];
            assert(all[i as int] == (side, nb@));
            assert(crate::board::tile_placements_spec(p.board_for(tile), tile)[i as int] == nb@);
            let c = self.place_child(side, nb);
            proof {
                crate::board::lemma_take_push(all, i as int);
                crate::state::lemma_map_push(all.take(i as int), all[i as int], f);
                lemma_states_view_push(res@, c);
            }
            res.push(c);
            i += 1;
        }
        assert(all.take(all.len() as int) =~= all);
        res
    }

    /// The moves of the action-selection step (see `StateView::select_children`).
    pub fn select_children(&self) -> (r: Vec<State>)
        requires
            self@.shape(),
            self@.select_fits(),
        ensures
            states_view(r@) == self@.select_children(),
    {
        if self.is_round_over() {
            return single(self.clone().advance_round());
        }
        let mut children: Vec<State> = Vec::new();
        let mut i: usize = 0;
        while i < crate::action::SPACE_COUNT
            invariant
                i <= 22,
                self@.shape(),
                self@.select_fits(),
                !self@.is_round_over(),
                states_view(children@) == self@.select_children_upto(i as nat),
            decreases 22 - i,
        {
            let space = ActionSpace::from_index(i);
            assert(self@.space_fits(space_at(i as int)));
            let mut more = self.space_children(space);
            let ghost before = states_view(children@);
            let ghost extra = states_view(more@);
            children.append(&mut more);
            assert(states_view(children@) =~= before + extra);
            i += 1;
        }
        children
    }

    /// Every successor position of the game (see `StateView::children`).
    pub fn children(&self) -> (r: Vec<State>)
        requires
            !self@.done() ==> self@.shape(),
            self@.children_fit(),
        ensures
            states_view(r@) == self@.children(),
    {
        if self.done() {
            let r: Vec<State> = Vec::new();
            assert(states_view(r@) =~= Seq::<StateView>::empty());
            return r;
        }
        let current = self.current_player;
        proof {
            lemma_pasture_options_seated(self@, current as int);
            lemma_stable_options_seated(self@, current as int);
            lemma_furnish_seated(self@, current as int, 12);
            lemma_sow_seated(
                self@,
                current as int,
                (crate::state::min_usize(self@.players[current as int].resources.wheat, 2)
                    + 1) as nat,
            );
        }
        match self.pending[self.pending.len() - 1] {
            SubAction::SelectActionSpace => self.select_children(),
            SubAction::PlaceTile(tile) => self.place_children(tile),
            SubAction::Pasture => pop_all(self.pasture_options(current), Ghost(self@)),
            SubAction::Stable => pop_all(self.stable_options(current), Ghost(self@)),
            SubAction::Furnish => {
                let opts = self.furnish_cave_options(current);
                assert(states_view(opts@).len() == opts@.len());
                if opts.len() == 0 {
                    single(self.clone().pop_subaction())
                } else {
                    pop_all(opts, Ghost(self@))
                }
            },
            SubAction::Sow => {
                let opts = self.sow_options(current);
                assert(states_view(opts@).len() == opts@.len());
                if opts.len() == 0 {
                    single(self.clone().pop_subaction())
                } else {
                    pop_all(opts, Ghost(self@))
                }
            },
            SubAction::ExpeditionPick { space, picks_remaining, used_items } => {
                self.expedition_children(space, picks_remaining, used_items)
            },
            SubAction::TradeFood { player_idx } => {
                assert(self@.pending[self@.pending.len() - 1] == SubAction::TradeFood { player_idx });
                self.trade_children(player_idx)
            },
            SubAction::FinishRound => single(self.finish_round()),
        }
    }

    /// The player to move.
    pub fn current_player(&self) -> (r: usize)
        ensures
            r == self@.current_player,
    {
        self.current_player
    }

    /// The number of players.
    pub fn num_players(&self) -> (r: usize)
        ensures
            r == self@.players.len(),
    {
        self.players.len()
    }

    /// The winner once the game is over (see `StateView::winner`).
    pub fn winner(&self) -> (r: Option<usize>)
        requires
            self@.winner_fits(),
        ensures
            r == self@.winner(),
    {
        if !self.done() || self.players.len() == 0 {
            return None;
        }
        let n = self.players.len();
        let mut best: usize = 0;
        assert(self@.players[0] == self.players@[0]@);
        assert(self@.players[0].points_fit());
        let mut best_points = self.players[0].points();
        let mut i: usize = 1;
        while i < n
            invariant
                1 <= i <= n,
                n == self@.players.len(),
                self@.winner_fits(),
                self@.done(),
                best < i,
                best_points == self@.players[best as int].points(),
                forall|j: int| 0 <= j < i ==> (#[trigger] self@.players[j]).points() <= best_points,
                forall|j: int| best < j < i ==> (#[trigger] self@.players[j]).points() < best_points,
            decreases n - i,
        {
            assert(self@.players[i as int] == self.players@[i as int]@);
            assert(self@.players[i as int].points_fit());
            let pts = self.players[i].points();
            if pts >= best_points {
                best = i;
                best_points = pts;
            }
            i += 1;
        }
        assert(self@.is_winner(best as int));
        proof {
            let c = choose|k: int| self@.is_winner(k);
            assert(self@.is_winner(c));
            if c < best {
                assert(self@.players[best as int].points() < self@.players[c].points());
            }
            if best < c {
                assert(self@.players[c].points() < self@.players[best as int].points());
            }
        }
        Some(best)
    }
}


/// The food that laying a tile on cell `c` of `side` earns.
fn cell_food_of(side: Side, c: (usize, usize)) -> (r: u128)
    ensures
        r == cell_food(side, c),
        r <= 2,
{
    match side {
        Side::Outdoor => if c.0 == 1 && c.1 == 3 {
            1
        } else {
            0
        },
        Side::Indoor => if c.0 == 2 && c.1 == 0 {
            2
        } else if c.0 == 1 && c.1 == 3 {
            1
        } else {
            0
        },
    }
}

/// The boars that laying a tile on cell `c` of `side` earns.
fn cell_boars_of(side: Side, c: (usize, usize)) -> (r: u128)
    ensures
        r == cell_boars(side, c),
        r <= 1,
{
    match side {
        Side::Outdoor => if (c.0 == 0 && c.1 == 2) || (c.0 == 2 && c.1 == 0) {
            1
        } else {
            0
        },
        Side::Indoor => 0,
    }
}

/// The food and the boars that laying tiles on `cells` of `side` earns.
fn bonuses(side: Side, cells: &Vec<(usize, usize)>) -> (r: (u128, u128))
    ensures
        r.0 == food_bonus(side, cells@, cells@.len()),
        r.1 == boar_bonus(side, cells@, cells@.len()),
        r.0 <= 2 * cells@.len(),
        r.1 <= cells@.len(),
{
    let mut f: u128 = 0;
    let mut b: u128 = 0;
    let mut k: usize = 0;
    while k < cells.len()
        invariant
            k <= cells@.len(),
            f == food_bonus(side, cells@, k as nat),
            b == boar_bonus(side, cells@, k as nat),
            f <= 2 * k,
            b <= k,
        decreases cells@.len() - k,
    {
        f = f + cell_food_of(side, cells[k]);
        b = b + cell_boars_of(side, cells[k]);
        k += 1;
    }
    (f, b)
}

impl State {
    /// Whether laying tiles to make board `nb` on `side` fits (see
    /// `StateView::place_fits`).
    fn place_fits(&self, side: Side, nb: &Board) -> (r: bool)
        requires
            self@.shape(),
        ensures
            r == self@.place_fits(side, nb@),
    {
        let cur = self.current_player;
        let p = &self.players[cur];
        assert(self@.players[cur as int] == p@);
        let before = match side {
            Side::Outdoor => &p.outdoor,
            Side::Indoor => &p.indoor,
        };
        let changed = crate::board::changed_cells(before, nb);
        let ghost ch = changed@;
        proof {
            crate::board::lemma_filtered_cells_in_bounds(crate::board::differs(before@, nb@));
        }
        let mut has_ore = false;
        let mut has_ruby = false;
        let mut k: usize = 0;
        while k < changed.len()
            invariant
                k <= ch.len(),
                ch == changed@,
                nb@.len() == 12,
                forall|m: int| 0 <= m < ch.len() ==> in_bounds(#[trigger] ch[m]),
                has_ore == (exists|m: int| 0 <= m < k && tile_at(nb@, #[trigger] ch[m]) == Tile::OreMine),
                has_ruby == (exists|m: int| 0 <= m < k && tile_at(nb@, #[trigger] ch[m]) == Tile::RubyMine),
            decreases ch.len() - k,
        {
            let (x, y) = changed[k];
            if nb[y * 3 + x] == Tile::OreMine {
                has_ore = true;
            }
            if nb[y * 3 + x] == Tile::RubyMine {
                has_ruby = true;
            }
            k += 1;
        }
        let on_deep_tunnel = if changed.len() == 1 {
            let (x, y) = changed[0];
            before[y * 3 + x] == Tile::DeepTunnel
        } else {
            false
        };
        assert(on_deep_tunnel == (board_delta_spec(before@, nb@) == TileGroup::Single(
            Tile::DeepTunnel,
        )));
        let (f, b) = bonuses(side, &changed);
        let m = usize::MAX as u128;
        (!has_ore || p.resources.coal as u128 + 3 <= m) && (!(has_ruby && on_deep_tunnel)
            || p.resources.rubies < usize::MAX) && p.resources.food as u128 + f <= m
            && p.animals[1] as u128 + b <= m
    }

    /// Whether every placement of `tile` by the mover fits (see
    /// `StateView::place_all_fit`).
    fn place_all_fit(&self, tile: TileGroup) -> (r: bool)
        requires
            self@.shape(),
        ensures
            r == self@.place_all_fit(tile),
    {
        let cur = self.current_player;
        assert(self@.players[cur as int] == self.players@[cur as int]@);
        let pl = self.players[cur].tile_placements(tile);
        let ghost pv = crate::player::placements_view(pl@);
        assert(pv.len() == pl@.len());
        let mut i: usize = 0;
        while i < pl.len()
            invariant
                i <= pl@.len(),
                self@.shape(),
                pv == crate::player::placements_view(pl@),
                pv == self@.players[self@.current_player as int].tile_placements(tile),
                pv.len() == pl@.len(),
                forall|k: int| 0 <= k < i ==> self@.place_fits((#[trigger] pv[k]).0, pv[k].1),
            decreases pl@.len() - i,
        {
            assert(pv[i as int] == (pl@[i as int].0, pl@[i as int].1@));
            if !self.place_fits(pl[i].0, &pl[i].1) {
                assert(!self@.place_fits(pv[i as int].0, pv[i as int].1));
                return false;
            }
            i += 1;
        }
        true
    }

    /// Whether taking `space` fits (see `StateView::space_fits`).
    fn space_fits(&self, space: ActionSpace) -> (r: bool)
        requires
            self@.shape(),
        ensures
            r == self@.space_fits(space),
    {
        if !self.space_available(space) || self.occupied(space) {
            return true;
        }
        let cur = self.current_player;
        let p = &self.players[cur];
        assert(self@.players[cur as int] == p@);
        let grows = match space {
            ActionSpace::WishForChildren | ActionSpace::FamilyLife => true,
            _ => false,
        };
        p.gains_fit(space, self.accumulated[space.index()]) && (!grows || p.dwellings_fit())
    }

    /// Whether the action-space choice fits (see `StateView::select_fits`).
    fn select_fits(&self) -> (r: bool)
        requires
            self@.shape(),
        ensures
            r == self@.select_fits(),
    {
        if self.is_round_over() {
            return self.advance_fits();
        }
        let mut i: usize = 0;
        while i < 22
            invariant
                i <= 22,
                self@.shape(),
                !self@.is_round_over(),
                forall|k: int| 0 <= k < i ==> #[trigger] self@.space_fits(space_at(k)),
            decreases 22 - i,
        {
            if !self.space_fits(ActionSpace::from_index(i)) {
                assert(!self@.space_fits(space_at(i as int)));
                return false;
            }
            i += 1;
        }
        true
    }

    /// Whether player `pi`'s trading step fits (see `trade_fits`).
    fn trade_fits(&self, pi: usize) -> (r: bool)
        requires
            self@.shape(),
            pi < self@.players.len(),
        ensures
            r == trade_fits(self@.players[pi as int]),
    {
        let p = &self.players[pi];
        assert(self@.players[pi as int] == p@);
        let m = usize::MAX as u128;
        let need: u128 = p.dwarfs.len() as u128 * 2 + p.children as u128;
        let food = p.resources.food as u128;
        if need > m {
            return false;
        }
        if need <= food {
            return true;
        }
        if need - food + 2 > m {
            return false;
        }
        let gap = (need - food) as usize;
        assert(gap == trade_gap(p@));
        let mut g: u8 = 0;
        while g < 8
            invariant
                g <= 8,
                pi < self@.players.len(),
                gap == trade_gap(self@.players[pi as int]),
                gap + 2 <= usize::MAX,
                gap > 0,
                self@.players[pi as int].food_needed() <= usize::MAX,
                m == usize::MAX,
                food == self@.players[pi as int].resources.food,
                forall|h: u8|
                    h < g ==> self@.players[pi as int].resources.food + trade_food(h)
                        * #[trigger] trade_count(self@.players[pi as int], h, gap as int) <= usize::MAX,
            decreases 8 - g,
        {
            let c = self.trade_count(pi, g, gap) as u128;
            let rate: u128 = if g == 1 || g == 6 || g == 7 {
                2
            } else if g == 2 || g == 4 {
                3
            } else {
                1
            };
            assert(rate == trade_food(g));
            assert(rate * c == trade_food(g) * trade_count(self@.players[pi as int], g, gap as int));
            if food + rate * c > m {
                assert(!(self@.players[pi as int].resources.food + trade_food(g) * trade_count(
                    self@.players[pi as int],
                    g,
                    gap as int,
                ) <= usize::MAX));
                return false;
            }
            assert(self@.players[pi as int].resources.food + trade_food(g) * trade_count(
                self@.players[pi as int],
                g,
                gap as int,
            ) <= usize::MAX);
            g += 1;
        }
        true
    }

    /// Whether the end of the round fits (see `StateView::finish_fits`).
    fn finish_fits(&self) -> (r: bool)
        requires
            self@.shape(),
        ensures
            r == self@.finish_fits(),
    {
        if self.round == u32::MAX {
            return false;
        }
        let mut i: usize = 0;
        while i < self.players.len()
            invariant
                i <= self@.players.len(),
                self@.shape(),
                forall|k: int|
                    0 <= k < i ==> (#[trigger] self@.players[k]).feed_fits()
                        && self@.players[k].breed_fits(),
            decreases self@.players.len() - i,
        {
            assert(self@.players[i as int] == self.players@[i as int]@);
            if !self.players[i].feed_fits() || !self.players[i].breed_fits() {
                return false;
            }
            i += 1;
        }
        true
    }

    /// Whether the moves of the position fit: no count that a move of the
    /// pending step raises goes past its type's largest value (see
    /// `StateView::children_fit`).
    pub fn moves_fit(&self) -> (r: bool)
        requires
            self@.shape(),
        ensures
            r == self@.children_fit(),
    {
        if self.done() {
            return true;
        }
        let cur = self.current_player;
        match self.pending[self.pending.len() - 1] {
            SubAction::SelectActionSpace => self.select_fits(),
            SubAction::PlaceTile(tile) => self.place_all_fit(tile),
            SubAction::ExpeditionPick { space, picks_remaining, used_items } => {
                let p = &self.players[cur];
                assert(self@.players[cur as int] == p@);
                let weapon = match find_on(&p.dwarfs, space) {
                    Some(j) => p.dwarfs[j].weapon,
                    None => 0,
                };
                assert(weapon == self@.weapon_on(cur as int, space));
                p.expedition_fits(weapon, used_items)
            },
            SubAction::TradeFood { player_idx } => {
                assert(self@.pending[self@.pending.len() - 1] == SubAction::TradeFood { player_idx });
                self.trade_fits(player_idx)
            },
            SubAction::FinishRound => self.finish_fits(),
            _ => true,
        }
    }

    /// Whether the scores fit once the game is over (see
    /// `StateView::winner_fits`).
    pub fn scores_fit(&self) -> (r: bool)
        ensures
            r == self@.winner_fits(),
    {
        if !self.done() {
            return true;
        }
        let mut i: usize = 0;
        while i < self.players.len()
            invariant
                i <= self@.players.len(),
                self@.done(),
                forall|k: int| 0 <= k < i ==> (#[trigger] self@.players[k]).points_fit(),
            decreases self@.players.len() - i,
        {
            assert(self@.players[i as int] == self.players@[i as int]@);
            if !self.players[i].points_fit() {
                assert(!self@.players[i as int].points_fit());
                return false;
            }
            i += 1;
        }
        true
    }
}

} // verus!
