//! Game positions: the pending steps, the round structure, and the
//! options of each kind of step (fencing, stables, furnishing, forging,
//! sowing, expeditions).
use vstd::prelude::*;
use crate::action::{ActionSpace, SPACE_COUNT, space_at};
use crate::board::{
    TileGroup, Tile, all_cells, cell_at, count_tile, count_tiles, in_bounds, lemma_cell_at,
    lemma_take_push, put, tile_at,
};
use crate::player::{Dwarf, PastureView, Player, PlayerView, has_unplaced, initial_player};
use crate::resources::Resources;

verus! {

broadcast use vstd::array::group_array_axioms;

/// A step of a turn that is still to be played.
#[derive(Clone, Copy, Debug)]
pub enum SubAction {
    SelectActionSpace,
    PlaceTile(TileGroup),
    Pasture,
    Stable,
    Furnish,
    Sow,
    ExpeditionPick { space: ActionSpace, picks_remaining: usize, used_items: u16 },
    TradeFood { player_idx: usize },
    FinishRound,
}

/// A game position. The last element of `pending` is the step to play next.
#[derive(Debug)]
pub struct State {
    pub players: Vec<Player>,
    pub round: u32,
    pub starting_player: u8,
    /// Rounds each action space has gone untaken, indexed by `ActionSpace::index`.
    pub accumulated: [u32; 22],
    pub current_player: usize,
    pub pending: Vec<SubAction>,
}

/// The mathematical value of a game position.
pub struct StateView {
    pub players: Seq<PlayerView>,
    pub round: u32,
    pub starting_player: u8,
    pub accumulated: Seq<u32>,
    pub current_player: usize,
    pub pending: Seq<SubAction>,
}

/// The views of a list of players.
pub open spec fn players_view(s: Seq<Player>) -> Seq<PlayerView> {
    s.map_values(|p: Player| p@)
}

impl View for State {
    type V = StateView;

    open spec fn view(&self) -> StateView {
        StateView {
            players: players_view(self.players@),
            round: self.round,
            starting_player: self.starting_player,
            accumulated: self.accumulated@,
            current_player: self.current_player,
            pending: self.pending@,
        }
    }
}

/// Copies a list of players.
fn clone_players(ps: &Vec<Player>) -> (r: Vec<Player>)
    ensures
        players_view(r@) == players_view(ps@),
{
    let mut res: Vec<Player> = Vec::new();
    let mut i: usize = 0;
    while i < ps.len()
        invariant
            i <= ps@.len(),
            res@.len() == i,
            players_view(res@) == players_view(ps@.take(i as int)),
        decreases ps@.len() - i,
    {
        let p = ps[i].clone();
        let ghost prev = res@;
        res.push(p);
        assert forall|k: int| 0 <= k < i + 1 implies #[trigger] players_view(res@)[k]
            == players_view(ps@.take(i + 1))[k] by {
            if k < i {
                assert(players_view(prev)[k] == players_view(ps@.take(i as int))[k]);
            }
        }
        assert(players_view(res@) =~= players_view(ps@.take(i + 1)));
        i += 1;
    }
    assert(ps@.take(ps@.len() as int) =~= ps@);
    res
}

impl Clone for State {
    fn clone(&self) -> (r: Self)
        ensures
            r@ == self@,
    {
        let pending = self.pending.clone();
        assert(pending@ =~= self.pending@);
        State {
            players: clone_players(&self.players),
            round: self.round,
            starting_player: self.starting_player,
            accumulated: self.accumulated,
            current_player: self.current_player,
            pending,
        }
    }
}

impl StateView {
    /// The position is well formed: it has the shape the moves ask of it,
    /// and its bottom step is no trading step, so that passing on a trade
    /// always leaves a step to play.
    pub open spec fn wf(self) -> bool {
        &&& self.shape()
        &&& !(self.pending[0] is TradeFood)
    }

    /// The shape that the moves ask of a position: one to 256 players, each
    /// well formed; the current and the starting player exist; the
    /// accumulation table has one entry per action space; a step is pending,
    /// and every trading step names an existing player.
    pub open spec fn shape(self) -> bool {
        &&& 1 <= self.players.len() <= 256
        &&& forall|i: int| 0 <= i < self.players.len() ==> (#[trigger] self.players[i]).wf()
        &&& self.current_player < self.players.len()
        &&& (self.starting_player as int) < self.players.len()
        &&& self.accumulated.len() == 22
        &&& self.pending.len() >= 1
        &&& forall|k: int|
            0 <= k < self.pending.len() ==> match #[trigger] self.pending[k] {
                SubAction::TradeFood { player_idx } => player_idx < self.players.len(),
                _ => true,
            }
    }

    /// There are one to 256 players and the current player exists.
    pub open spec fn seats_ok(self) -> bool {
        &&& 1 <= self.players.len() <= 256
        &&& self.current_player < self.players.len()
    }

    /// Whether the new round of accumulation fits: every open space left
    /// free stays at most `u32::MAX` rounds.
    pub open spec fn replenish_fits(self) -> bool {
        forall|i: int|
            0 <= i < 22 && self.space_available(space_at(i)) && !self.occupied(space_at(i))
                ==> #[trigger] self.accumulated[i] + 1 <= u32::MAX
    }

    /// Whether the end of the placement phase fits: the accumulation and
    /// every player's harvest.
    pub open spec fn advance_fits(self) -> bool {
        &&& self.replenish_fits()
        &&& forall|i: int| 0 <= i < self.players.len() ==> (#[trigger] self.players[i]).harvest_fits()
    }

    /// The position with player `i` replaced by `p`.
    pub open spec fn with_player(self, i: int, p: PlayerView) -> StateView {
        StateView { players: self.players.update(i, p), ..self }
    }

    /// The position with `pending` as the steps still to play.
    pub open spec fn with_pending(self, pending: Seq<SubAction>) -> StateView {
        StateView { pending, ..self }
    }

    /// Number of rounds of a game: 11 with two players, else 12.
    pub open spec fn rounds(self) -> u32 {
        if self.players.len() == 2 {
            11
        } else {
            12
        }
    }

    /// The game is over.
    pub open spec fn done(self) -> bool {
        self.round >= self.rounds()
    }

    /// The action space is open in the current round.
    pub open spec fn space_available(self, space: ActionSpace) -> bool {
        space.index() <= 12 + self.round
    }

    /// Some dwarf of some player stands on the action space.
    pub open spec fn occupied(self, space: ActionSpace) -> bool {
        exists|i: int, j: int|
            0 <= i < self.players.len() && 0 <= j < self.players[i].dwarfs.len() && (
            #[trigger] self.players[i].dwarfs[j]).placed_on == Some(space)
    }

    /// Every dwarf of the current player stands on an action space.
    pub open spec fn is_round_over(self) -> bool {
        forall|j: int|
            0 <= j < self.players[self.current_player as int].dwarfs.len() ==> (
            #[trigger] self.players[self.current_player as int].dwarfs[j]).placed_on is Some
    }
}

/// The position at the start of a game: `count` players with two food each,
/// round 0, the first player to move and to start, nothing accumulated, and
/// an action space to select.
pub open spec fn initial_state(count: u32) -> StateView {
    StateView {
        players: Seq::new(count as nat, |i: int| initial_player(2)),
        round: 0,
        starting_player: 0,
        accumulated: Seq::new(22, |i: int| 0u32),
        current_player: 0,
        pending: seq![SubAction::SelectActionSpace],
    }
}

impl State {
    /// A new game for `count` players.
    pub fn new(count: u32) -> (r: Self)
        ensures
            r@ == initial_state(count),
            1 <= count <= 256 ==> r@.wf(),
    {
        let mut players: Vec<Player> = Vec::new();
        let mut i: u32 = 0;
        while i < count
            invariant
                i <= count,
                players_view(players@) == Seq::new(i as nat, |k: int| initial_player(2)),
                players@.len() == i,
            decreases count - i,
        {
            let ghost prev = players@;
            players.push(Player::new(2));
            assert forall|k: int| 0 <= k < i + 1 implies #[trigger] players_view(players@)[k]
                == initial_player(2) by {
                if k < i {
                    assert(players_view(prev)[k] == initial_player(2));
                }
            }
            assert(players_view(players@) =~= Seq::new((i + 1) as nat, |k: int| initial_player(2)));
            i += 1;
        }
        let s = State {
            players,
            round: 0,
            starting_player: 0,
            accumulated: [0u32;22],
            current_player: 0,
            pending: vec![SubAction::SelectActionSpace],
        };
        assert(s.accumulated@ =~= Seq::new(22, |k: int| 0u32));
        assert(s.pending@ =~= seq![SubAction::SelectActionSpace]);
        s
    }

    /// Number of rounds of a game: 11 with two players, else 12.
    pub fn rounds(&self) -> (r: u32)
        ensures
            r == self@.rounds(),
    {
        match self.players.len() {
            2 => 11,
            _ => 12,
        }
    }

    /// The game is over.
    pub fn done(&self) -> (r: bool)
        ensures
            r == self@.done(),
    {
        self.round >= self.rounds()
    }

    /// The action space is open in the current round.
    pub fn space_available(&self, space: ActionSpace) -> (r: bool)
        ensures
            r == self@.space_available(space),
    {
        space.index() <= 12 || space.index() - 12 <= self.round as usize
    }
}

/// The player with every dwarf taken back from the action spaces.
pub open spec fn dwarfs_returned(p: PlayerView) -> PlayerView {
    PlayerView {
        dwarfs: p.dwarfs.map_values(|d: crate::player::Dwarf| crate::player::Dwarf { placed_on: None, ..d }),
        ..p
    }
}

impl Player {
    /// Takes every dwarf back from the action spaces.
    pub fn return_dwarfs(&mut self)
        ensures
            final(self)@ == dwarfs_returned(old(self)@),
    {
        let mut j: usize = 0;
        while j < self.dwarfs.len()
            invariant
                j <= self.dwarfs@.len(),
                self.dwarfs@.len() == old(self).dwarfs@.len(),
                forall|k: int| 0 <= k < j ==> #[trigger] self.dwarfs@[k] == (crate::player::Dwarf { placed_on: None, ..old(self).dwarfs@[k] }),
                forall|k: int| j <= k < self.dwarfs@.len() ==> #[trigger] self.dwarfs@[k] == old(self).dwarfs@[k],
                self.children == old(self).children,
                self.outdoor == old(self).outdoor,
                self.indoor == old(self).indoor,
                self.resources == old(self).resources,
                self.dogs == old(self).dogs,
                self.animals == old(self).animals,
                self.pastures == old(self).pastures,
            decreases self.dwarfs@.len() - j,
        {
            let mut d = self.dwarfs[j];
            d.placed_on = None;
            self.dwarfs.set(j, d);
            j += 1;
        }
        assert(self@.dwarfs =~= dwarfs_returned(old(self)@).dwarfs);
    }
}

impl StateView {
    /// The position with every dwarf taken back from the action spaces.
    pub open spec fn dwarfs_returned(self) -> StateView {
        StateView { players: self.players.map_values(|p: PlayerView| dwarfs_returned(p)), ..self }
    }
}

impl State {
    /// Takes every dwarf of every player back from the action spaces.
    pub fn return_dwarfs(&mut self)
        ensures
            final(self)@ == old(self)@.dwarfs_returned(),
    {
        let mut i: usize = 0;
        while i < self.players.len()
            invariant
                i <= self.players@.len(),
                self.players@.len() == old(self).players@.len(),
                forall|k: int|
                    0 <= k < i ==> (#[trigger] self.players@[k])@ == dwarfs_returned(
                        old(self).players@[k]@,
                    ),
                forall|k: int|
                    i <= k < self.players@.len() ==> #[trigger] self.players@[k] == old(
                        self,
                    ).players@[k],
                self.round == old(self).round,
                self.starting_player == old(self).starting_player,
                self.accumulated == old(self).accumulated,
                self.current_player == old(self).current_player,
                self.pending == old(self).pending,
            decreases self.players@.len() - i,
        {
            self.players[i].return_dwarfs();
            i += 1;
        }
        assert(self@.players =~= old(self)@.dwarfs_returned().players);
    }
}

/// Whether the dwarf stands on `space`.
pub fn on_space(d: &crate::player::Dwarf, space: ActionSpace) -> (r: bool)
    ensures
        r == (d.placed_on == Some(space)),
{
    match d.placed_on {
        Some(s) => s == space,
        None => false,
    }
}

/// Whether some dwarf of the list is not placed.
pub fn any_unplaced(ds: &Vec<crate::player::Dwarf>) -> (r: bool)
    ensures
        r == has_unplaced(ds@),
{
    let mut j: usize = 0;
    while j < ds.len()
        invariant
            j <= ds@.len(),
            forall|k: int| 0 <= k < j ==> (#[trigger] ds@[k]).placed_on is Some,
        decreases ds@.len() - j,
    {
        if ds[j].placed_on.is_none() {
            assert(ds@[j as int].placed_on is None);
            return true;
        }
        j += 1;
    }
    false
}

/// Looks for the next player, counting `i` seats on from player `current`,
/// who still has a dwarf to place.
pub open spec fn next_placement_from(players: Seq<PlayerView>, current: usize, i: int) -> Option<
    usize,
>
    decreases players.len() + 1 - i,
{
    let n = players.len();
    if i > n || i < 1 {
        None
    } else {
        let next = ((current + i) % (n as int)) as usize;
        if has_unplaced(players[next as int].dwarfs) {
            Some(next)
        } else {
            next_placement_from(players, current, i + 1)
        }
    }
}

impl StateView {
    /// The accumulation table after a round: an open space that was taken
    /// starts again from 0, an open space left free gains one round.
    pub open spec fn replenished(self) -> StateView {
        StateView {
            accumulated: Seq::new(
                22,
                |i: int|
                    if !self.space_available(space_at(i)) {
                        self.accumulated[i]
                    } else if self.occupied(space_at(i)) {
                        0u32
                    } else {
                        (self.accumulated[i] + 1) as u32
                    },
            ),
            ..self
        }
    }

    /// Every player's children have grown up.
    pub open spec fn children_grown(self) -> StateView {
        StateView { players: self.players.map_values(|p: PlayerView| p.grown()), ..self }
    }

    /// The next player after the current one (the current one last) who still
    /// has a dwarf to place.
    pub open spec fn next_placement_player(self) -> Option<usize> {
        next_placement_from(self.players, self.current_player, 1)
    }

    /// The position after the last step of a turn: the step is dropped; when
    /// no step is left, the next player with a dwarf to place (else the
    /// starting player) is to select an action space.
    pub open spec fn popped(self) -> StateView {
        let rest = if self.pending.len() > 0 {
            self.pending.drop_last()
        } else {
            self.pending
        };
        if rest.len() == 0 {
            StateView {
                pending: seq![SubAction::SelectActionSpace],
                current_player: match self.next_placement_player() {
                    Some(n) => n,
                    None => self.starting_player as usize,
                },
                ..self
            }
        } else {
            StateView { pending: rest, ..self }
        }
    }

    /// The position at the end of the placement phase: the spaces are
    /// replenished, the dwarfs come home, the fields are harvested, and each
    /// player in turn, from the first, may trade goods for food before the
    /// round is finished.
    pub open spec fn advanced(self) -> StateView {
        let s1 = self.replenished().dwarfs_returned();
        let n = self.players.len();
        StateView {
            players: s1.players.map_values(|p: PlayerView| p.harvested()),
            pending: seq![SubAction::FinishRound] + Seq::new(
                n,
                |k: int| SubAction::TradeFood { player_idx: (n - 1 - k) as usize },
            ),
            current_player: 0,
            ..s1
        }
    }
}

impl State {
    /// Whether some dwarf of some player stands on `space`.
    pub fn occupied(&self, space: ActionSpace) -> (r: bool)
        ensures
            r == self@.occupied(space),
    {
        let mut i: usize = 0;
        while i < self.players.len()
            invariant
                i <= self.players@.len(),
                forall|a: int, b: int|
                    0 <= a < i && 0 <= b < self.players@[a].dwarfs@.len() ==> (
                    #[trigger] self.players@[a].dwarfs@[b]).placed_on != Some(space),
            decreases self.players@.len() - i,
        {
            let ds = &self.players[i].dwarfs;
            let mut j: usize = 0;
            while j < ds.len()
                invariant
                    i < self.players@.len(),
                    j <= ds@.len(),
                    ds@ == self.players@[i as int].dwarfs@,
                    forall|b: int| 0 <= b < j ==> (#[trigger] ds@[b]).placed_on != Some(space),
                decreases ds@.len() - j,
            {
                if on_space(&ds[j], space) {
                    assert(self@.players[i as int] == self.players@[i as int]@);
                    assert(self@.players[i as int].dwarfs[j as int].placed_on == Some(space));
                    return true;
                }
                j += 1;
            }
            i += 1;
        }
        assert forall|a: int, b: int|
            0 <= a < self@.players.len() && 0 <= b < self@.players[a].dwarfs.len() implies (
            #[trigger] self@.players[a].dwarfs[b]).placed_on != Some(space) by {
            assert(self@.players[a] == self.players@[a]@);
            assert(self@.players[a].dwarfs[b] == self.players@[a].dwarfs@[b]);
        }
        false
    }

    /// Starts a new round of accumulation: an open space that was taken starts
    /// again from 0, an open space left free gains one round.
    pub fn replenish(&mut self)
        requires
            old(self)@.replenish_fits(),
        ensures
            final(self)@ == old(self)@.replenished(),
    {
        let mut i: usize = 0;
        while i < SPACE_COUNT
            invariant
                i <= SPACE_COUNT,
                self.players == old(self).players,
                self.round == old(self).round,
                self.starting_player == old(self).starting_player,
                self.current_player == old(self).current_player,
                self.pending == old(self).pending,
                old(self)@.replenish_fits(),
                forall|k: int| 0 <= k < i ==> #[trigger] self.accumulated@[k] == old(
                    self,
                )@.replenished().accumulated[k],
                forall|k: int| i <= k < 22 ==> #[trigger] self.accumulated@[k] == old(
                    self,
                ).accumulated@[k],
            decreases SPACE_COUNT - i,
        {
            let space = ActionSpace::from_index(i);
            if self.space_available(space) {
                if self.occupied(space) {
                    self.accumulated[i] = 0;
                } else {
                    assert(old(self)@.space_available(space_at(i as int)));
                    assert(self@.players == old(self)@.players);
                    assert(old(self)@.accumulated[i as int] + 1 <= u32::MAX);
                    self.accumulated[i] = self.accumulated[i] + 1;
                }
            }
            i += 1;
        }
        assert(self@.accumulated =~= old(self)@.replenished().accumulated);
    }

    /// Every player's children grow up.
    pub fn grow_children(&mut self)
        ensures
            final(self)@ == old(self)@.children_grown(),
    {
        let mut i: usize = 0;
        while i < self.players.len()
            invariant
                i <= self.players@.len(),
                self.players@.len() == old(self).players@.len(),
                forall|k: int|
                    0 <= k < i ==> (#[trigger] self.players@[k])@ == old(self).players@[k]@.grown(),
                forall|k: int|
                    i <= k < self.players@.len() ==> #[trigger] self.players@[k] == old(
                        self,
                    ).players@[k],
                self.round == old(self).round,
                self.starting_player == old(self).starting_player,
                self.accumulated == old(self).accumulated,
                self.current_player == old(self).current_player,
                self.pending == old(self).pending,
            decreases self.players@.len() - i,
        {
            self.players[i].grow_children();
            i += 1;
        }
        assert(self@.players =~= old(self)@.children_grown().players);
    }

    /// The next player after the current one (the current one last) who still
    /// has a dwarf to place.
    pub fn next_placement_player(&self) -> (r: Option<usize>)
        ensures
            r == self@.next_placement_player(),
    {
        let n = self.players.len();
        if n == 0 {
            return None;
        }
        let c = self.current_player % n;
        let mut i: usize = 0;
        while i < n
            invariant
                i <= n,
                n == self@.players.len(),
                n > 0,
                c == self.current_player % n,
                next_placement_from(self@.players, self.current_player, i + 1)
                    == self@.next_placement_player(),
            decreases n - i,
        {
            let j = i + 1;
            let next = if c >= n - j {
                c - (n - j)
            } else {
                c + j
            };
            proof {
                lemma_wrap_index(self.current_player as int, j as int, n as int);
            }
            assert(next == (self.current_player + j) % (n as int));
            assert(self@.players[next as int] == self.players@[next as int]@);
            if any_unplaced(&self.players[next].dwarfs) {
                return Some(next);
            }
            i += 1;
        }
        None
    }

    /// Whether every dwarf of the current player stands on an action space.
    pub fn is_round_over(&self) -> (r: bool)
        requires
            self@.shape(),
        ensures
            r == self@.is_round_over(),
    {
        let ds = &self.players[self.current_player].dwarfs;
        assert(self@.players[self.current_player as int] == self.players@[self.current_player as int]@);
        !any_unplaced(ds)
    }

    /// Ends the placement phase (see `StateView::advanced`).
    pub fn advance_round(self) -> (r: Self)
        requires
            self@.advance_fits(),
        ensures
            r@ == self@.advanced(),
    {
        let mut s = self;
        let ghost s0 = s@;
        s.replenish();
        s.return_dwarfs();
        let ghost s1 = s@;
        assert(s1 == s0.replenished().dwarfs_returned());
        assert(s0.replenished().players == s0.players);
        assert forall|k: int| 0 <= k < s1.players.len() implies #[trigger] s1.players[k]
            == dwarfs_returned(s0.players[k]) && s1.players[k].harvest_fits() by {
            assert(s0.players[k].harvest_fits());
        }
        let mut i: usize = 0;
        while i < s.players.len()
            invariant
                i <= s.players@.len(),
                s.players@.len() == s1.players.len(),
                s1.players.len() == s0.players.len(),
                forall|k: int| 0 <= k < s1.players.len() ==> (#[trigger] s1.players[k]).harvest_fits(),
                forall|k: int|
                    0 <= k < i ==> (#[trigger] s.players@[k])@ == s1.players[k].harvested(),
                forall|k: int| i <= k < s.players@.len() ==> (#[trigger] s.players@[k])@ == s1.players[k],
                s.round == s1.round,
                s.starting_player == s1.starting_player,
                s.accumulated@ == s1.accumulated,
                s.current_player == s1.current_player,
            decreases s.players@.len() - i,
        {
            s.players[i].harvest();
            i += 1;
        }
        let n = s.players.len();
        let mut pending: Vec<SubAction> = Vec::new();
        pending.push(SubAction::FinishRound);
        let mut k: usize = n;
        while k > 0
            invariant
                k <= n,
                pending@ == seq![SubAction::FinishRound] + Seq::new(
                    (n - k) as nat,
                    |m: int| SubAction::TradeFood { player_idx: (n - 1 - m) as usize },
                ),
            decreases k,
        {
            k -= 1;
            pending.push(SubAction::TradeFood { player_idx: k });
            assert(pending@ =~= seq![SubAction::FinishRound] + Seq::new(
                (n - k) as nat,
                |m: int| SubAction::TradeFood { player_idx: (n - 1 - m) as usize },
            ));
        }
        s.pending = pending;
        s.current_player = 0;
        assert(s@.players =~= s0.advanced().players);
        s
    }

    /// Drops the step just played; when no step is left, the next player with a
    /// dwarf to place (else the starting player) is to select an action space.
    pub fn pop_subaction(self) -> (r: Self)
        ensures
            r@ == self@.popped(),
    {
        let mut s = self;
        let ghost s0 = s@;
        if s.pending.len() > 0 {
            s.pending.pop();
        }
        assert(s@.players == s0.players);
        if s.pending.len() == 0 {
            s.current_player = match s.next_placement_player() {
                Some(n) => n,
                None => s.starting_player as usize,
            };
            let mut fresh: Vec<SubAction> = Vec::new();
            fresh.push(SubAction::SelectActionSpace);
            assert(fresh@ =~= seq![SubAction::SelectActionSpace]);
            s.pending = fresh;
        }
        s
    }
}

/// Stepping `j` places on from `c` round a table of `n`: wrapping once at
/// most gives the remainder.
pub proof fn lemma_wrap_index(c: int, j: int, n: int)
    requires
        0 <= c,
        0 < j <= n,
    ensures
        (c % n >= n - j) ==> (c + j) % n == c % n - (n - j),
        (c % n < n - j) ==> (c + j) % n == c % n + j,
{
    vstd::arithmetic::div_mod::lemma_add_mod_noop(c, j, n);
    vstd::arithmetic::div_mod::lemma_mod_bound(c, n);
    let m = c % n;
    if j == n {
        vstd::arithmetic::div_mod::lemma_mod_self_0(n);
    } else {
        vstd::arithmetic::div_mod::lemma_small_mod(j as nat, n as nat);
    }
    if m + j % n >= n {
        vstd::arithmetic::div_mod::lemma_mod_sub_multiples_vanish(m + j % n, n);
        vstd::arithmetic::div_mod::lemma_small_mod((m + j % n - n) as nat, n as nat);
    } else {
        vstd::arithmetic::div_mod::lemma_small_mod((m + j % n) as nat, n as nat);
    }
}

/// The views of a list of positions.
pub open spec fn states_view(s: Seq<State>) -> Seq<StateView> {
    s.map_values(|c: State| c@)
}

pub proof fn lemma_states_view_push(s: Seq<State>, c: State)
    ensures
        states_view(s.push(c)) == states_view(s).push(c@),
{
    assert(states_view(s.push(c)) =~= states_view(s).push(c@));
}

pub proof fn lemma_players_view_update(ps: Seq<Player>, i: int, p: Player)
    requires
        0 <= i < ps.len(),
    ensures
        players_view(ps.update(i, p)) == players_view(ps).update(i, p@),
{
    assert(players_view(ps.update(i, p)) =~= players_view(ps).update(i, p@));
}

pub proof fn lemma_map_push<A, B>(s: Seq<A>, a: A, f: spec_fn(A) -> B)
    ensures
        s.push(a).map_values(f) == s.map_values(f).push(f(a)),
{
    assert(s.push(a).map_values(f) =~= s.map_values(f).push(f(a)));
}

impl State {
    /// A copy of the position with player `pi` replaced by `p`.
    pub fn with_player(&self, pi: usize, p: Player) -> (r: State)
        requires
            pi < self@.players.len(),
        ensures
            r@ == self@.with_player(pi as int, p@),
    {
        let mut c = self.clone();
        proof {
            lemma_players_view_update(c.players@, pi as int, p);
        }
        c.players.set(pi, p);
        c
    }

    /// A copy of player `pi`.
    pub fn player_copy(&self, pi: usize) -> (r: Player)
        requires
            pi < self@.players.len(),
        ensures
            r@ == self@.players[pi as int],
    {
        self.players[pi].clone()
    }
}

/// The stabled version of a tile on which a stable can be built.
pub open spec fn stabled(t: Tile) -> Tile {
    match t.maybe_add_stable() {
        Some(u) => u,
        None => t,
    }
}

/// The cells on which a stable can be built, as a predicate.
pub open spec fn stable_cell(b: Seq<Tile>) -> spec_fn((usize, usize)) -> bool {
    |c: (usize, usize)| tile_at(b, c).maybe_add_stable() is Some
}

/// The fenced version of a fenceable tile.
pub open spec fn fenced(t: Tile) -> Tile {
    if t is Meadow {
        Tile::Pasture
    } else {
        Tile::PastureStable
    }
}

/// The cells that can be fenced, as a predicate.
pub open spec fn fenceable_cell(b: Seq<Tile>) -> spec_fn((usize, usize)) -> bool {
    |c: (usize, usize)| tile_at(b, c).is_fenceable()
}

/// A cave furnishing: the tile it becomes, its price, and how many of it
/// all players together may build.
#[derive(Clone, Copy, Debug)]
pub struct Furnishing {
    pub tile: Tile,
    pub cost_wood: usize,
    pub cost_stone: usize,
    pub max_count: usize,
}

/// Every cave furnishing.
pub open spec fn furnishings_spec() -> Seq<Furnishing> {
    seq![Furnishing { tile: Tile::Dwelling, cost_wood: 4, cost_stone: 3, max_count: 16 }]
}

/// Every cave furnishing.
pub fn furnishings() -> (r: Vec<Furnishing>)
    ensures
        r@ == furnishings_spec(),
{
    let r = vec![Furnishing { tile: Tile::Dwelling, cost_wood: 4, cost_stone: 3, max_count: 16 }];
    assert(r@ =~= furnishings_spec());
    r
}

/// The number of tiles `t` on the indoor boards of the first `n` players.
pub open spec fn total_tile_upto(players: Seq<PlayerView>, t: Tile, n: nat) -> nat
    decreases n,
{
    if n == 0 {
        0
    } else {
        total_tile_upto(players, t, (n - 1) as nat) + count_tile(players[n - 1].indoor, t)
    }
}

/// The number of tiles `t` on the indoor boards of all players.
pub open spec fn total_tile(players: Seq<PlayerView>, t: Tile) -> nat {
    total_tile_upto(players, t, players.len())
}

/// A sown field of grain.
pub open spec fn grain_sown() -> Tile {
    Tile::Field(3, 0)
}

/// A sown field of vegetables.
pub open spec fn veg_sown() -> Tile {
    Tile::Field(0, 2)
}

/// The cells holding an empty field, as a predicate.
pub open spec fn empty_field_cell(b: Seq<Tile>) -> spec_fn((usize, usize)) -> bool {
    |c: (usize, usize)| tile_at(b, c) == Tile::Field(0, 0)
}

/// Board `b` with tile `t` laid on the cells `cells[from..to]`.
pub open spec fn lay_on(b: Seq<Tile>, cells: Seq<(usize, usize)>, from: int, to: int, t: Tile) -> Seq<
    Tile,
>
    decreases to - from,
{
    if to <= from {
        b
    } else {
        put(lay_on(b, cells, from, to - 1, t), cells[to - 1], t)
    }
}

/// The smallest of two counts.
pub open spec fn min_usize(a: usize, b: usize) -> usize {
    if a <= b {
        a
    } else {
        b
    }
}

/// The least weapon strength that reaches loot item `i`.
pub open spec fn min_weapon(i: u16) -> int {
    if (i + 1) / 2 >= 1 {
        (i + 1) / 2
    } else {
        1
    }
}

/// Whether loot item `i` is within reach of `weapon` and not yet taken in `used`.
pub open spec fn loot_available(weapon: u8, used: u16, i: u16) -> bool {
    weapon >= min_weapon(i) && used & (1u16 << i) == 0u16
}

/// The loot items that add goods or animals, in order.
pub open spec fn loot_items() -> Seq<u16> {
    seq![1u16, 2u16, 3u16, 4u16, 5u16, 6u16, 7u16, 8u16, 9u16, 11u16]
}

/// Whether the first dwarf standing on `space` is dwarf `j`.
pub open spec fn is_first_on(ds: Seq<Dwarf>, space: ActionSpace, j: int) -> bool {
    &&& 0 <= j < ds.len()
    &&& ds[j].placed_on == Some(space)
    &&& forall|k: int| 0 <= k < j ==> (#[trigger] ds[k]).placed_on != Some(space)
}

/// Whether some dwarf stands on `space`.
pub open spec fn has_dwarf_on(ds: Seq<Dwarf>, space: ActionSpace) -> bool {
    exists|k: int| 0 <= k < ds.len() && (#[trigger] ds[k]).placed_on == Some(space)
}

/// The first dwarf standing on `space`.
pub open spec fn first_on(ds: Seq<Dwarf>, space: ActionSpace) -> int {
    choose|j: int| is_first_on(ds, space, j)
}

pub proof fn lemma_first_on_unique(ds: Seq<Dwarf>, space: ActionSpace, j: int)
    requires
        is_first_on(ds, space, j),
    ensures
        first_on(ds, space) == j,
{
    let c = first_on(ds, space);
    assert(is_first_on(ds, space, c));
    if c < j {
        assert(ds[c].placed_on != Some(space));
    }
    if j < c {
        assert(ds[j].placed_on != Some(space));
    }
}

/// The index of the first dwarf standing on `space`, if any.
pub fn find_on(ds: &Vec<Dwarf>, space: ActionSpace) -> (r: Option<usize>)
    ensures
        r is Some <==> has_dwarf_on(ds@, space),
        r matches Some(j) ==> is_first_on(ds@, space, j as int) && first_on(ds@, space) == j,
{
    let mut j: usize = 0;
    while j < ds.len()
        invariant
            j <= ds@.len(),
            forall|k: int| 0 <= k < j ==> (#[trigger] ds@[k]).placed_on != Some(space),
        decreases ds@.len() - j,
    {
        if on_space(&ds[j], space) {
            proof {
                lemma_first_on_unique(ds@, space, j as int);
            }
            return Some(j);
        }
        j += 1;
    }
    None
}

impl StateView {
    /// The position after player `pi` builds a stable on cell `c` for a stone.
    pub open spec fn stable_child(self, pi: int, c: (usize, usize)) -> StateView {
        let p = self.players[pi];
        self.with_player(
            pi,
            PlayerView {
                outdoor: put(p.outdoor, c, stabled(tile_at(p.outdoor, c))),
                resources: Resources { stone: (p.resources.stone - 1) as usize, ..p.resources },
                ..p
            },
        )
    }

    /// The ways of building a stable: building none, then, if the player has a
    /// stone and fewer than three stables, one stable on any forest, meadow or
    /// pasture, row by row.
    pub open spec fn stable_options(self, pi: int) -> Seq<StateView> {
        let p = self.players[pi];
        seq![self] + if p.resources.stone < 1 || p.stable_count() >= 3 {
            Seq::empty()
        } else {
            all_cells().filter(stable_cell(p.outdoor)).map_values(self.stable_child_fn(pi))
        }
    }

    /// `stable_child` as a function of the cell.
    pub open spec fn stable_child_fn(self, pi: int) -> spec_fn((usize, usize)) -> StateView {
        |c: (usize, usize)| self.stable_child(pi, c)
    }

    /// `fence_one` as a function of the cell.
    pub open spec fn fence_one_fn(self, pi: int) -> spec_fn((usize, usize)) -> StateView {
        |c: (usize, usize)| self.fence_one(pi, c)
    }

    /// The position after fencing the single meadow `c` for two wood.
    pub open spec fn fence_one(self, pi: int, c: (usize, usize)) -> StateView {
        let p = self.players[pi];
        self.with_player(
            pi,
            PlayerView {
                outdoor: put(p.outdoor, c, fenced(tile_at(p.outdoor, c))),
                resources: Resources { wood: (p.resources.wood - 2) as usize, ..p.resources },
                pastures: p.pastures.push(PastureView { cells: seq![c], animals: None }),
                ..p
            },
        )
    }

    /// The position after fencing the meadows `c` and `c2` together for four wood.
    pub open spec fn fence_two(self, pi: int, c: (usize, usize), c2: (usize, usize)) -> StateView {
        let p = self.players[pi];
        self.with_player(
            pi,
            PlayerView {
                outdoor: put(
                    put(p.outdoor, c, fenced(tile_at(p.outdoor, c))),
                    c2,
                    fenced(tile_at(p.outdoor, c2)),
                ),
                resources: Resources { wood: (p.resources.wood - 4) as usize, ..p.resources },
                pastures: p.pastures.push(PastureView { cells: seq![c, c2], animals: None }),
                ..p
            },
        )
    }

    /// The two-cell fence of `c` with its neighbour `c2`, where `c2` is a meadow.
    pub open spec fn fence_pair_at(self, pi: int, c: (usize, usize), c2: (usize, usize)) -> Seq<
        StateView,
    > {
        if in_bounds(c2) && tile_at(self.players[pi].outdoor, c2).is_fenceable() {
            seq![self.fence_two(pi, c, c2)]
        } else {
            Seq::empty()
        }
    }

    /// The two-cell fences of the first `n` meadows of `ms`, each with its
    /// neighbour to the right and then with its neighbour below.
    pub open spec fn fence_pairs_upto(self, pi: int, ms: Seq<(usize, usize)>, n: nat) -> Seq<
        StateView,
    >
        decreases n,
    {
        if n == 0 {
            Seq::empty()
        } else {
            let c = ms[n - 1];
            self.fence_pairs_upto(pi, ms, (n - 1) as nat) + self.fence_pair_at(
                pi,
                c,
                ((c.0 + 1) as usize, c.1),
            ) + self.fence_pair_at(pi, c, (c.0, (c.1 + 1) as usize))
        }
    }

    /// The ways of fencing: fencing nothing; with two wood, any single
    /// meadow, row by row; with four wood, any meadow together with a meadow
    /// to its right or below it.
    pub open spec fn pasture_options(self, pi: int) -> Seq<StateView> {
        let p = self.players[pi];
        let ms = all_cells().filter(fenceable_cell(p.outdoor));
        seq![self] + (if p.resources.wood >= 2 {
            ms.map_values(self.fence_one_fn(pi))
        } else {
            Seq::empty()
        }) + (if p.resources.wood >= 4 {
            self.fence_pairs_upto(pi, ms, ms.len())
        } else {
            Seq::empty()
        })
    }
}

impl State {
    /// The ways for player `pi` to build a stable (see `StateView::stable_options`).
    pub fn stable_options(&self, pi: usize) -> (r: Vec<State>)
        requires
            pi < self@.players.len(),
        ensures
            states_view(r@) == self@.stable_options(pi as int),
    {
        let mut results: Vec<State> = Vec::new();
        results.push(self.clone());
        assert(states_view(results@) =~= seq![self@]);
        let stone = self.players[pi].resources.stone;
        let count = self.players[pi].stable_count();
        assert(self@.players[pi as int] == self.players@[pi as int]@);
        if stone < 1 || count >= 3 {
            assert(states_view(results@) =~= self@.stable_options(pi as int));
            return results;
        }
        let ghost p = self@.players[pi as int];
        let ghost pred = stable_cell(p.outdoor);
        let ghost f = self@.stable_child_fn(pi as int);
        let mut i: usize = 0;
        while i < 12
            invariant
                i <= 12,
                pi < self@.players.len(),
                p == self@.players[pi as int],
                p == self.players@[pi as int]@,
                p.resources.stone >= 1,
                pred == stable_cell(p.outdoor),
                f == self@.stable_child_fn(pi as int),
                states_view(results@) == seq![self@] + all_cells().take(i as int).filter(
                    pred,
                ).map_values(f),
            decreases 12 - i,
        {
            proof {
                lemma_cell_at(i as int);
                lemma_take_push(all_cells(), i as int);
                all_cells().take(i as int).lemma_filter_push(all_cells()[i as int], pred);
            }
            let ghost before = states_view(results@);
            match self.players[pi].outdoor[i].maybe_add_stable() {
                Some(t) => {
                    let mut np = self.player_copy(pi);
                    np.outdoor[i] = t;
                    np.resources.stone = np.resources.stone - 1;
                    let child = self.with_player(pi, np);
                    assert(np@ == (PlayerView {
                        outdoor: put(p.outdoor, cell_at(i as int), stabled(tile_at(p.outdoor, cell_at(i as int)))),
                        resources: Resources { stone: (p.resources.stone - 1) as usize, ..p.resources },
                        ..p
                    })) by {
                        assert(np@.outdoor =~= put(p.outdoor, cell_at(i as int), stabled(tile_at(p.outdoor, cell_at(i as int)))));
                    }
                    proof {
                        lemma_states_view_push(results@, child);
                        lemma_map_push(all_cells().take(i as int).filter(pred), cell_at(i as int), f);
                    }
                    results.push(child);
                },
                None => {},
            }
            assert(states_view(results@) =~= seq![self@] + all_cells().take(i + 1).filter(
                pred,
            ).map_values(f));
            i += 1;
        }
        assert(all_cells().take(12) =~= all_cells());
        results
    }
}

/// The fenced version of a fenceable tile.
fn fence(t: Tile) -> (r: Tile)
    requires
        t.is_fenceable(),
    ensures
        r == fenced(t),
{
    match t {
        Tile::Meadow => Tile::Pasture,
        _ => Tile::PastureStable,
    }
}

/// The cells of `board` that can be fenced, row by row.
fn fenceable_cells(board: &crate::board::Board) -> (r: Vec<(usize, usize)>)
    ensures
        r@ == all_cells().filter(fenceable_cell(board@)),
        forall|k: int| 0 <= k < r@.len() ==> in_bounds(#[trigger] r@[k]),
{
    let ghost pred = fenceable_cell(board@);
    let mut res: Vec<(usize, usize)> = Vec::new();
    let mut i: usize = 0;
    while i < 12
        invariant
            i <= 12,
            pred == fenceable_cell(board@),
            res@ == all_cells().take(i as int).filter(pred),
        decreases 12 - i,
    {
        proof {
            lemma_cell_at(i as int);
            lemma_take_push(all_cells(), i as int);
            all_cells().take(i as int).lemma_filter_push(all_cells()[i as int], pred);
        }
        if board[i].is_fenceable() {
            res.push((i % 3, i / 3));
        }
        i += 1;
    }
    assert(all_cells().take(12) =~= all_cells());
    proof {
        crate::board::lemma_filtered_cells_in_bounds(pred);
    }
    res
}

impl State {
    /// Appends the fence of meadow `(x, y)` together with its neighbour
    /// `(x2, y2)`, where that neighbour is a meadow.
    fn push_fence_pair(
        &self,
        results: &mut Vec<State>,
        pi: usize,
        x: usize,
        y: usize,
        x2: usize,
        y2: usize,
    )
        requires
            pi < self@.players.len(),
            in_bounds((x, y)),
            self@.players[pi as int].resources.wood >= 4,
            tile_at(self@.players[pi as int].outdoor, (x, y)).is_fenceable(),
        ensures
            states_view(final(results)@) == states_view(old(results)@) + self@.fence_pair_at(
                pi as int,
                (x, y),
                (x2, y2),
            ),
    {
        let ghost start = states_view(results@);
        assert(self@.players[pi as int] == self.players@[pi as int]@);
        if x2 >= 3 || y2 >= 4 {
            assert(states_view(results@) =~= start + Seq::<StateView>::empty());
            return ;
        }
        if !self.players[pi].outdoor[y2 * 3 + x2].is_fenceable() {
            assert(states_view(results@) =~= start + Seq::<StateView>::empty());
            return ;
        }
        let ghost p = self@.players[pi as int];
        let mut np = self.player_copy(pi);
        let t1 = fence(np.outdoor[y * 3 + x]);
        let t2 = fence(np.outdoor[y2 * 3 + x2]);
        np.outdoor[y * 3 + x] = t1;
        np.outdoor[y2 * 3 + x2] = t2;
        np.resources.wood = np.resources.wood - 4;
        np.pastures.push(crate::player::Pasture { cells: vec![(x, y), (x2, y2)], animals: None });
        assert(np@.outdoor =~= put(
            put(p.outdoor, (x, y), fenced(tile_at(p.outdoor, (x, y)))),
            (x2, y2),
            fenced(tile_at(p.outdoor, (x2, y2))),
        ));
        assert(np@.pastures =~= p.pastures.push(PastureView { cells: seq![(x, y), (x2, y2)], animals: None }));
        let child = self.with_player(pi, np);
        proof {
            lemma_states_view_push(results@, child);
        }
        results.push(child);
        assert(states_view(results@) =~= start + self@.fence_pair_at(pi as int, (x, y), (x2, y2)));
    }

    /// The ways for player `pi` to fence meadows (see `StateView::pasture_options`).
    pub fn pasture_options(&self, pi: usize) -> (r: Vec<State>)
        requires
            pi < self@.players.len(),
        ensures
            states_view(r@) == self@.pasture_options(pi as int),
    {
        let ghost p = self@.players[pi as int];
        assert(p == self.players@[pi as int]@);
        let mut results: Vec<State> = Vec::new();
        results.push(self.clone());
        assert(states_view(results@) =~= seq![self@]);
        let meadows = fenceable_cells(&self.players[pi].outdoor);
        let ghost ms = meadows@;
        let ghost f = self@.fence_one_fn(pi as int);
        let wood = self.players[pi].resources.wood;
        let ghost singles = if p.resources.wood >= 2 {
            ms.map_values(f)
        } else {
            Seq::<StateView>::empty()
        };
        if wood >= 2 {
            let mut k: usize = 0;
            while k < meadows.len()
                invariant
                    k <= meadows@.len(),
                    ms == meadows@,
                    pi < self@.players.len(),
                    p == self@.players[pi as int],
                    p == self.players@[pi as int]@,
                    p.resources.wood >= 2,
                    ms == all_cells().filter(fenceable_cell(p.outdoor)),
                    forall|m: int| 0 <= m < ms.len() ==> in_bounds(#[trigger] ms[m]),
                    f == self@.fence_one_fn(pi as int),
                    states_view(results@) == seq![self@] + ms.take(k as int).map_values(f),
                decreases meadows@.len() - k,
            {
                let (x, y) = meadows[k];
                proof {
                    all_cells().lemma_filter_pred(fenceable_cell(p.outdoor), k as int);
                    lemma_take_push(ms, k as int);
                    lemma_map_push(ms.take(k as int), ms[k as int], f);
                }
                let mut np = self.player_copy(pi);
                let t = fence(np.outdoor[y * 3 + x]);
                np.outdoor[y * 3 + x] = t;
                np.resources.wood = np.resources.wood - 2;
                let cells = vec![(x, y)];
                assert(cells@ =~= seq![(x, y)]);
                let ghost before_pastures = np.pastures@;
                np.pastures.push(crate::player::Pasture { cells, animals: None });
                assert(crate::player::pastures_view(np.pastures@) =~= crate::player::pastures_view(
                    before_pastures,
                ).push(PastureView { cells: seq![(x, y)], animals: None }));
                assert(np@.outdoor =~= put(p.outdoor, (x, y), fenced(tile_at(p.outdoor, (x, y)))));
                assert(np@.pastures =~= p.pastures.push(PastureView { cells: seq![(x, y)], animals: None }));
                let child = self.with_player(pi, np);
                proof {
                    lemma_states_view_push(results@, child);
                }
                results.push(child);
                assert(states_view(results@) =~= seq![self@] + ms.take(k + 1).map_values(f));
                k += 1;
            }
            assert(ms.take(ms.len() as int) =~= ms);
        }
        assert(states_view(results@) == seq![self@] + singles);
        let ghost pairs_start = states_view(results@);
        if wood >= 4 {
            let mut k: usize = 0;
            while k < meadows.len()
                invariant
                    k <= meadows@.len(),
                    ms == meadows@,
                    pi < self@.players.len(),
                    p == self@.players[pi as int],
                    p.resources.wood >= 4,
                    ms == all_cells().filter(fenceable_cell(p.outdoor)),
                    forall|m: int| 0 <= m < ms.len() ==> in_bounds(#[trigger] ms[m]),
                    states_view(results@) == pairs_start + self@.fence_pairs_upto(
                        pi as int,
                        ms,
                        k as nat,
                    ),
                decreases meadows@.len() - k,
            {
                let (x, y) = meadows[k];
                proof {
                    all_cells().lemma_filter_pred(fenceable_cell(p.outdoor), k as int);
                }
                self.push_fence_pair(&mut results, pi, x, y, x + 1, y);
                self.push_fence_pair(&mut results, pi, x, y, x, y + 1);
                assert(states_view(results@) =~= pairs_start + self@.fence_pairs_upto(
                    pi as int,
                    ms,
                    (k + 1) as nat,
                ));
                k += 1;
            }
        }
        assert(states_view(results@) =~= self@.pasture_options(pi as int));
        results
    }
}

impl StateView {
    /// Whether player `pi` can build furnishing `f` now: enough wood and stone,
    /// and fewer than its maximum built by all players together.
    pub open spec fn furnish_ok(self, pi: int, f: Furnishing) -> bool {
        let p = self.players[pi];
        &&& p.resources.wood >= f.cost_wood
        &&& p.resources.stone >= f.cost_stone
        &&& total_tile(self.players, f.tile) < f.max_count
    }

    /// `furnish_ok` as a predicate on furnishings.
    pub open spec fn furnish_ok_fn(self, pi: int) -> spec_fn(Furnishing) -> bool {
        |f: Furnishing| self.furnish_ok(pi, f)
    }

    /// The position after player `pi` builds furnishing `f` in the cave at `c`.
    pub open spec fn furnished(self, pi: int, c: (usize, usize), f: Furnishing) -> StateView {
        let p = self.players[pi];
        self.with_player(
            pi,
            PlayerView {
                resources: Resources {
                    wood: (p.resources.wood - f.cost_wood) as usize,
                    stone: (p.resources.stone - f.cost_stone) as usize,
                    ..p.resources
                },
                indoor: put(p.indoor, c, f.tile),
                ..p
            },
        )
    }

    /// `furnished` as a function of the furnishing.
    pub open spec fn furnished_fn(self, pi: int, c: (usize, usize)) -> spec_fn(Furnishing) -> StateView {
        |f: Furnishing| self.furnished(pi, c, f)
    }

    /// The furnishings player `pi` can build in the `i`-th cell, if it is a cave.
    pub open spec fn furnish_cell(self, pi: int, i: int) -> Seq<StateView> {
        if tile_at(self.players[pi].indoor, cell_at(i)) == Tile::Cave {
            furnishings_spec().filter(self.furnish_ok_fn(pi)).map_values(
                self.furnished_fn(pi, cell_at(i)),
            )
        } else {
            Seq::empty()
        }
    }

    /// The furnishings player `pi` can build in the first `n` cells.
    pub open spec fn furnish_upto(self, pi: int, n: nat) -> Seq<StateView>
        decreases n,
    {
        if n == 0 {
            Seq::empty()
        } else {
            self.furnish_upto(pi, (n - 1) as nat) + self.furnish_cell(pi, n - 1)
        }
    }

    /// Every way for player `pi` to furnish a cave, row by row.
    pub open spec fn furnish_cave_options(self, pi: int) -> Seq<StateView> {
        self.furnish_upto(pi, 12)
    }

    /// The position after player `pi` has a child, if the family has room for one.
    pub open spec fn family_growth_option(self, pi: int) -> Option<StateView> {
        let p = self.players[pi];
        if p.dwellings_needed() < p.dwelling_capacity() {
            Some(self.with_player(pi, PlayerView { children: (p.children + 1) as usize, ..p }))
        } else {
            None
        }
    }

    /// The position after player `pi` forges a weapon of `strength` for the
    /// first dwarf on `space`, paying that much coal.
    pub open spec fn forged(self, pi: int, space: ActionSpace, strength: int) -> StateView {
        let p = self.players[pi];
        let j = first_on(p.dwarfs, space);
        self.with_player(
            pi,
            PlayerView {
                resources: Resources { coal: (p.resources.coal - strength) as usize, ..p.resources },
                dwarfs: p.dwarfs.update(j, Dwarf { weapon: strength as u8, ..p.dwarfs[j] }),
                ..p
            },
        )
    }

    /// The ways of forging: none if the first dwarf on `space` is armed, else
    /// one per strength from 1 to the coal held, at most 8.
    pub open spec fn forge_options(self, pi: int, space: ActionSpace) -> Seq<StateView> {
        let p = self.players[pi];
        if p.dwarfs[first_on(p.dwarfs, space)].weapon != 0 {
            Seq::empty()
        } else {
            Seq::new(
                min_usize(p.resources.coal, 8) as nat,
                |k: int| self.forged(pi, space, k + 1),
            )
        }
    }

    /// The empty fields of player `pi`, row by row.
    pub open spec fn empty_fields(self, pi: int) -> Seq<(usize, usize)> {
        all_cells().filter(empty_field_cell(self.players[pi].outdoor))
    }

    /// The position after player `pi` sows `w` grain on the first empty
    /// fields and `v` vegetables on the next.
    pub open spec fn sowed(self, pi: int, w: int, v: int) -> StateView {
        let p = self.players[pi];
        let fs = self.empty_fields(pi);
        self.with_player(
            pi,
            PlayerView {
                resources: Resources {
                    wheat: (p.resources.wheat - w) as usize,
                    vegetables: (p.resources.vegetables - v) as usize,
                    ..p.resources
                },
                outdoor: lay_on(lay_on(p.outdoor, fs, 0, w, grain_sown()), fs, w, w + v, veg_sown()),
                ..p
            },
        )
    }

    /// Whether sowing `w` grain and `v` vegetables is a move: something is
    /// sown and there are enough empty fields.
    pub open spec fn sow_valid(self, pi: int, w: int, v: int) -> bool {
        !(w == 0 && v == 0) && w + v <= self.empty_fields(pi).len()
    }

    /// The sowings with `w` grain and fewer than `nv` vegetables.
    pub open spec fn sow_row(self, pi: int, w: int, nv: nat) -> Seq<StateView>
        decreases nv,
    {
        if nv == 0 {
            Seq::empty()
        } else {
            self.sow_row(pi, w, (nv - 1) as nat) + if self.sow_valid(pi, w, nv - 1) {
                seq![self.sowed(pi, w, nv - 1)]
            } else {
                Seq::empty()
            }
        }
    }

    /// The sowings with fewer than `nw` grain.
    pub open spec fn sow_upto(self, pi: int, nw: nat) -> Seq<StateView>
        decreases nw,
    {
        if nw == 0 {
            Seq::empty()
        } else {
            self.sow_upto(pi, (nw - 1) as nat) + self.sow_row(
                pi,
                nw - 1,
                (min_usize(self.players[pi].resources.vegetables, 2) + 1) as nat,
            )
        }
    }

    /// Every way for player `pi` to sow: up to two grain and up to two
    /// vegetables from the stock, grain first, on the empty fields in row
    /// order; by grain, then by vegetables, ascending.
    pub open spec fn sow_options(self, pi: int) -> Seq<StateView> {
        self.sow_upto(pi, (min_usize(self.players[pi].resources.wheat, 2) + 1) as nat)
    }

    /// The position after player `pi` takes loot item `i`.
    pub open spec fn loot(self, pi: int, i: u16) -> StateView {
        let p = self.players[pi];
        let r = p.resources;
        let np = if i == 1 {
            PlayerView { resources: Resources { wood: (r.wood + 1) as usize, ..r }, ..p }
        } else if i == 2 {
            PlayerView { dogs: (p.dogs + 1) as usize, ..p }
        } else if i == 3 {
            PlayerView { resources: Resources { wheat: (r.wheat + 1) as usize, ..r }, ..p }
        } else if i == 4 {
            PlayerView { animals: p.animals.update(3, (p.animals[3] + 1) as usize), ..p }
        } else if i == 5 {
            PlayerView { resources: Resources { stone: (r.stone + 1) as usize, ..r }, ..p }
        } else if i == 6 {
            PlayerView { animals: p.animals.update(2, (p.animals[2] + 1) as usize), ..p }
        } else if i == 7 {
            PlayerView { resources: Resources { vegetables: (r.vegetables + 1) as usize, ..r }, ..p }
        } else if i == 8 {
            PlayerView { resources: Resources { coal: (r.coal + 2) as usize, ..r }, ..p }
        } else if i == 9 {
            PlayerView { animals: p.animals.update(1, (p.animals[1] + 1) as usize), ..p }
        } else {
            PlayerView { resources: Resources { gold: (r.gold + 2) as usize, ..r }, ..p }
        };
        self.with_player(pi, np)
    }

    /// The loot among the first `n` loot items that is within reach.
    pub open spec fn loot_upto(self, pi: int, weapon: u8, used: u16, n: nat) -> Seq<
        (StateView, u16, bool),
    >
        decreases n,
    {
        if n == 0 {
            Seq::empty()
        } else {
            let i = loot_items()[n - 1];
            self.loot_upto(pi, weapon, used, (n - 1) as nat) + if loot_available(weapon, used, i) {
                seq![(self.loot(pi, i), 1u16 << i, false)]
            } else {
                Seq::empty()
            }
        }
    }

    /// The picks of one expedition step, each with the bit of the item taken
    /// and whether a furnishing follows: without a weapon, a pass; else every
    /// item within reach and not yet taken, in item order, then the furnishing
    /// item where a cave can be furnished; a pass where nothing is left.
    pub open spec fn expedition_options(self, pi: int, weapon: u8, used: u16) -> Seq<
        (StateView, u16, bool),
    > {
        if weapon == 0 {
            seq![(self, 0u16, false)]
        } else {
            let r = self.loot_upto(pi, weapon, used, 10) + if loot_available(weapon, used, 13)
                && self.furnish_cave_options(pi).len() > 0 {
                seq![(self, 1u16 << 13u16, true)]
            } else {
                Seq::empty()
            };
            if r.len() == 0 {
                seq![(self, 0u16, false)]
            } else {
                r
            }
        }
    }

    /// Whether the pending step has a move: a tile that fits somewhere, a sowing
    /// with an empty field and seed, a cave to furnish; any other step has one.
    pub open spec fn has_children(self) -> bool {
        let cur = self.current_player as int;
        if self.pending.len() == 0 {
            true
        } else {
            match self.pending.last() {
                SubAction::PlaceTile(tile) => self.players[cur].tile_placements(tile).len() > 0,
                SubAction::Sow => count_tile(self.players[cur].outdoor, Tile::Field(0, 0)) > 0 && (
                self.players[cur].resources.wheat > 0 || self.players[cur].resources.vegetables
                    > 0),
                SubAction::Furnish => self.furnish_cave_options(cur).len() > 0,
                _ => true,
            }
        }
    }
}

/// The views of a list of expedition picks.
pub open spec fn picks_view(s: Seq<(State, u16, bool)>) -> Seq<(StateView, u16, bool)> {
    s.map_values(|e: (State, u16, bool)| (e.0@, e.1, e.2))
}

pub proof fn lemma_picks_view_push(s: Seq<(State, u16, bool)>, e: (State, u16, bool))
    ensures
        picks_view(s.push(e)) == picks_view(s).push((e.0@, e.1, e.2)),
{
    assert(picks_view(s.push(e)) =~= picks_view(s).push((e.0@, e.1, e.2)));
}

/// The number of tiles `t` on the indoor boards of all players.
fn total_tiles(players: &Vec<Player>, t: Tile) -> (r: usize)
    requires
        players@.len() <= 256,
    ensures
        r == total_tile(players_view(players@), t),
        r <= 12 * 256,
{
    let mut n: usize = 0;
    let mut i: usize = 0;
    while i < players.len()
        invariant
            i <= players@.len() <= 256,
            n == total_tile_upto(players_view(players@), t, i as nat),
            n <= 12 * i,
        decreases players@.len() - i,
    {
        assert(players_view(players@)[i as int] == players@[i as int]@);
        n += count_tiles(&players[i].indoor, t);
        i += 1;
    }
    n
}

impl State {
    /// Every way for player `pi` to furnish a cave (see `StateView::furnish_cave_options`).
    pub fn furnish_cave_options(&self, pi: usize) -> (r: Vec<State>)
        requires
            pi < self@.players.len() <= 256,
        ensures
            states_view(r@) == self@.furnish_cave_options(pi as int),
    {
        let ghost p = self@.players[pi as int];
        assert(p == self.players@[pi as int]@);
        let fs = furnishings();
        let mut opts: Vec<State> = Vec::new();
        let mut i: usize = 0;
        while i < 12
            invariant
                i <= 12,
                pi < self@.players.len() <= 256,
                p == self@.players[pi as int],
                p == self.players@[pi as int]@,
                fs@ == furnishings_spec(),
                states_view(opts@) == self@.furnish_upto(pi as int, i as nat),
            decreases 12 - i,
        {
            proof {
                lemma_cell_at(i as int);
            }
            let ghost start = states_view(opts@);
            if self.players[pi].indoor[i] == Tile::Cave {
                let ghost ok = self@.furnish_ok_fn(pi as int);
                let ghost mk = self@.furnished_fn(pi as int, cell_at(i as int));
                let mut k: usize = 0;
                while k < fs.len()
                    invariant
                        k <= fs@.len(),
                        i < 12,
                        pi < self@.players.len() <= 256,
                        p == self@.players[pi as int],
                        p == self.players@[pi as int]@,
                        fs@ == furnishings_spec(),
                        ok == self@.furnish_ok_fn(pi as int),
                        mk == self@.furnished_fn(pi as int, cell_at(i as int)),
                        states_view(opts@) == start + fs@.take(k as int).filter(ok).map_values(mk),
                    decreases fs@.len() - k,
                {
                    let f = fs[k];
                    proof {
                        lemma_take_push(fs@, k as int);
                        fs@.take(k as int).lemma_filter_push(f, ok);
                        lemma_map_push(fs@.take(k as int).filter(ok), f, mk);
                    }
                    let wood = self.players[pi].resources.wood;
                    let stone = self.players[pi].resources.stone;
                    if wood >= f.cost_wood && stone >= f.cost_stone {
                        let used = total_tiles(&self.players, f.tile);
                        if used < f.max_count {
                            let mut np = self.player_copy(pi);
                            np.resources.wood = np.resources.wood - f.cost_wood;
                            np.resources.stone = np.resources.stone - f.cost_stone;
                            np.indoor[i] = f.tile;
                            assert(np@.indoor =~= put(p.indoor, cell_at(i as int), f.tile));
                            let c = self.with_player(pi, np);
                            proof {
                                lemma_states_view_push(opts@, c);
                            }
                            opts.push(c);
                        }
                    }
                    k += 1;
                }
                assert(fs@.take(fs@.len() as int) =~= fs@);
            }
            assert(states_view(opts@) =~= self@.furnish_upto(pi as int, (i + 1) as nat));
            i += 1;
        }
        opts
    }

    /// The position after player `pi` has a child, if the family has room for one.
    pub fn family_growth_option(&self, pi: usize) -> (r: Option<State>)
        requires
            pi < self@.players.len(),
            self@.players[pi as int].dwellings_needed() <= usize::MAX,
        ensures
            r matches Some(c) ==> self@.family_growth_option(pi as int) == Some(c@),
            r is None ==> self@.family_growth_option(pi as int) is None,
    {
        let ghost p = self@.players[pi as int];
        assert(p == self.players@[pi as int]@);
        if self.players[pi].dwellings_needed() < self.players[pi].dwelling_capacity() {
            let mut np = self.player_copy(pi);
            np.children = np.children + 1;
            Some(self.with_player(pi, np))
        } else {
            None
        }
    }

    /// The ways for player `pi` to forge a weapon for the first dwarf on
    /// `space` (see `StateView::forge_options`).
    pub fn forge_options(&self, pi: usize, space: ActionSpace) -> (r: Vec<State>)
        requires
            pi < self@.players.len(),
            has_dwarf_on(self@.players[pi as int].dwarfs, space),
        ensures
            states_view(r@) == self@.forge_options(pi as int, space),
    {
        let ghost p = self@.players[pi as int];
        assert(p == self.players@[pi as int]@);
        let j = match find_on(&self.players[pi].dwarfs, space) {
            Some(j) => j,
            None => {
                assert(false);
                0
            },
        };
        if self.players[pi].dwarfs[j].weapon != 0 {
            let r: Vec<State> = Vec::new();
            assert(states_view(r@) =~= self@.forge_options(pi as int, space));
            return r;
        }
        let coal = self.players[pi].resources.coal;
        let top = if coal < 8 {
            coal
        } else {
            8
        };
        let ghost target = self@.forge_options(pi as int, space);
        let mut res: Vec<State> = Vec::new();
        let mut strength: usize = 1;
        while strength <= top
            invariant
                1 <= strength <= top + 1,
                top <= 8,
                top == min_usize(p.resources.coal, 8),
                pi < self@.players.len(),
                p == self@.players[pi as int],
                p == self.players@[pi as int]@,
                j == first_on(p.dwarfs, space),
                j < p.dwarfs.len(),
                p.dwarfs[j as int].weapon == 0,
                target == self@.forge_options(pi as int, space),
                states_view(res@) == target.take(strength - 1),
            decreases top + 1 - strength,
        {
            let mut np = self.player_copy(pi);
            np.resources.coal = np.resources.coal - strength;
            let mut d = np.dwarfs[j];
            d.weapon = strength as u8;
            np.dwarfs.set(j, d);
            let c = self.with_player(pi, np);
            assert(c@ == self@.forged(pi as int, space, strength as int)) by {
                assert(np@.dwarfs =~= p.dwarfs.update(
                    j as int,
                    Dwarf { weapon: strength as u8, ..p.dwarfs[j as int] },
                ));
            }
            proof {
                lemma_states_view_push(res@, c);
                assert(target.take(strength as int) =~= target.take(strength - 1).push(c@));
            }
            res.push(c);
            strength += 1;
        }
        assert(target.take(top as int) =~= target);
        res
    }

    /// Every way for player `pi` to sow (see `StateView::sow_options`).
    pub fn sow_options(&self, pi: usize) -> (r: Vec<State>)
        requires
            pi < self@.players.len(),
        ensures
            states_view(r@) == self@.sow_options(pi as int),
    {
        let ghost p = self@.players[pi as int];
        assert(p == self.players@[pi as int]@);
        let ghost pred = empty_field_cell(p.outdoor);
        let mut fields: Vec<(usize, usize)> = Vec::new();
        let mut i: usize = 0;
        while i < 12
            invariant
                i <= 12,
                pi < self@.players.len(),
                p == self.players@[pi as int]@,
                pred == empty_field_cell(p.outdoor),
                fields@ == all_cells().take(i as int).filter(pred),
            decreases 12 - i,
        {
            proof {
                lemma_cell_at(i as int);
                lemma_take_push(all_cells(), i as int);
                all_cells().take(i as int).lemma_filter_push(all_cells()[i as int], pred);
            }
            if self.players[pi].outdoor[i] == Tile::Field(0, 0) {
                fields.push((i % 3, i / 3));
            }
            i += 1;
        }
        assert(all_cells().take(12) =~= all_cells());
        assert(fields@ == self@.empty_fields(pi as int));
        proof {
            crate::board::lemma_filtered_cells_in_bounds(pred);
        }
        let wheat = self.players[pi].resources.wheat;
        let veg = self.players[pi].resources.vegetables;
        let max_wheat = if wheat < 2 {
            wheat
        } else {
            2
        };
        let max_veg = if veg < 2 {
            veg
        } else {
            2
        };
        let mut results: Vec<State> = Vec::new();
        let mut w: usize = 0;
        while w <= max_wheat
            invariant
                w <= max_wheat + 1,
                max_wheat == min_usize(p.resources.wheat, 2),
                max_veg == min_usize(p.resources.vegetables, 2),
                pi < self@.players.len(),
                p == self@.players[pi as int],
                p == self.players@[pi as int]@,
                fields@ == self@.empty_fields(pi as int),
                forall|m: int| 0 <= m < fields@.len() ==> in_bounds(#[trigger] fields@[m]),
                fields@.len() <= 12,
                states_view(results@) == self@.sow_upto(pi as int, w as nat),
            decreases max_wheat + 1 - w,
        {
            let ghost row_start = states_view(results@);
            let mut v: usize = 0;
            while v <= max_veg
                invariant
                    v <= max_veg + 1,
                    max_wheat <= 2,
                    max_veg <= 2,
                    w <= max_wheat,
                    max_wheat == min_usize(p.resources.wheat, 2),
                    max_veg == min_usize(p.resources.vegetables, 2),
                    pi < self@.players.len(),
                    p == self@.players[pi as int],
                    p == self.players@[pi as int]@,
                    fields@ == self@.empty_fields(pi as int),
                    forall|m: int| 0 <= m < fields@.len() ==> in_bounds(#[trigger] fields@[m]),
                    fields@.len() <= 12,
                    states_view(results@) == row_start + self@.sow_row(pi as int, w as int, v as nat),
                decreases max_veg + 1 - v,
            {
                if !(w == 0 && v == 0) && w + v <= fields.len() {
                    let mut np = self.player_copy(pi);
                    np.resources.wheat = np.resources.wheat - w;
                    np.resources.vegetables = np.resources.vegetables - v;
                    assert(np@.resources == (Resources {
                        wheat: (p.resources.wheat - w) as usize,
                        vegetables: (p.resources.vegetables - v) as usize,
                        ..p.resources
                    }));
                    let ghost np0 = np@;
                    let mut k: usize = 0;
                    while k < w
                        invariant
                            k <= w,
                            w <= 2,
                            v <= 2,
                            w + v <= fields@.len(),
                            forall|m: int| 0 <= m < fields@.len() ==> in_bounds(#[trigger] fields@[m]),
                            np.outdoor@ == lay_on(p.outdoor, fields@, 0, k as int, grain_sown()),
                            np@ == (PlayerView { outdoor: np@.outdoor, ..np0 }),
                        decreases w - k,
                    {
                        let (x, y) = fields[k];
                        np.outdoor[y * 3 + x] = Tile::Field(3, 0);
                        k += 1;
                    }
                    while k < w + v
                        invariant
                            w <= k <= w + v,
                            w <= 2,
                            v <= 2,
                            w + v <= fields@.len(),
                            forall|m: int| 0 <= m < fields@.len() ==> in_bounds(#[trigger] fields@[m]),
                            np.outdoor@ == lay_on(
                                lay_on(p.outdoor, fields@, 0, w as int, grain_sown()),
                                fields@,
                                w as int,
                                k as int,
                                veg_sown(),
                            ),
                            np@ == (PlayerView { outdoor: np@.outdoor, ..np0 }),
                        decreases w + v - k,
                    {
                        let (x, y) = fields[k];
                        np.outdoor[y * 3 + x] = Tile::Field(0, 2);
                        k += 1;
                    }
                    let c = self.with_player(pi, np);
                    assert(c@ == self@.sowed(pi as int, w as int, v as int));
                    proof {
                        lemma_states_view_push(results@, c);
                    }
                    results.push(c);
                }
                assert(states_view(results@) =~= row_start + self@.sow_row(
                    pi as int,
                    w as int,
                    (v + 1) as nat,
                ));
                v += 1;
            }
            assert(states_view(results@) =~= self@.sow_upto(pi as int, (w + 1) as nat));
            w += 1;
        }
        results
    }
}

/// Whether loot item `i` is within reach of `weapon` and not yet taken in `used`.
fn loot_within_reach(weapon: u8, used: u16, i: u16) -> (r: bool)
    requires
        i <= 13,
    ensures
        r == loot_available(weapon, used, i),
{
    let half = (i + 1) / 2;
    let min_weapon: u16 = if half >= 1 {
        half
    } else {
        1
    };
    weapon as u16 >= min_weapon && used & (1u16 << i) == 0
}

/// Whether taking loot item `i` fits: the count it raises stays at most `usize::MAX`.
pub open spec fn loot_fits(p: PlayerView, i: u16) -> bool {
    let m = usize::MAX as int;
    let r = p.resources;
    if i == 1 {
        r.wood + 1 <= m
    } else if i == 2 {
        p.dogs + 1 <= m
    } else if i == 3 {
        r.wheat + 1 <= m
    } else if i == 4 {
        p.animals[3] + 1 <= m
    } else if i == 5 {
        r.stone + 1 <= m
    } else if i == 6 {
        p.animals[2] + 1 <= m
    } else if i == 7 {
        r.vegetables + 1 <= m
    } else if i == 8 {
        r.coal + 2 <= m
    } else if i == 9 {
        p.animals[1] + 1 <= m
    } else {
        r.gold + 2 <= m
    }
}

/// Whether one expedition step with `weapon` and the items in `used` taken
/// fits: every item within reach can be taken.
pub open spec fn expedition_fits(p: PlayerView, weapon: u8, used: u16) -> bool {
    weapon != 0 ==> forall|k: int|
        0 <= k < 10 && loot_available(weapon, used, #[trigger] loot_items()[k]) ==> loot_fits(
            p,
            loot_items()[k],
        )
}

impl State {
    /// The position after player `pi` takes loot item `i`.
    fn loot(&self, pi: usize, i: u16) -> (r: State)
        requires
            pi < self@.players.len(),
            loot_fits(self@.players[pi as int], i),
        ensures
            r@ == self@.loot(pi as int, i),
    {
        let ghost p = self@.players[pi as int];
        let mut np = self.player_copy(pi);
        let ghost a = np.animals@;
        if i == 1 {
            np.resources.wood = np.resources.wood + 1;
        } else if i == 2 {
            np.dogs = np.dogs + 1;
        } else if i == 3 {
            np.resources.wheat = np.resources.wheat + 1;
        } else if i == 4 {
            np.animals[3] = np.animals[3] + 1;
        } else if i == 5 {
            np.resources.stone = np.resources.stone + 1;
        } else if i == 6 {
            np.animals[2] = np.animals[2] + 1;
        } else if i == 7 {
            np.resources.vegetables = np.resources.vegetables + 1;
        } else if i == 8 {
            np.resources.coal = np.resources.coal + 2;
        } else if i == 9 {
            np.animals[1] = np.animals[1] + 1;
        } else {
            np.resources.gold = np.resources.gold + 2;
        }
        assert(i == 4 ==> np.animals@ =~= a.update(3, (a[3] + 1) as usize));
        assert(i == 6 ==> np.animals@ =~= a.update(2, (a[2] + 1) as usize));
        assert(i == 9 ==> np.animals@ =~= a.update(1, (a[1] + 1) as usize));
        self.with_player(pi, np)
    }

    /// The picks of one expedition step for player `pi` with `weapon`, the
    /// items in `used_items` being taken already (see `StateView::expedition_options`).
    pub fn expedition_options(&self, pi: usize, weapon: u8, used_items: u16) -> (r: Vec<
        (State, u16, bool),
    >)
        requires
            pi < self@.players.len() <= 256,
            expedition_fits(self@.players[pi as int], weapon, used_items),
        ensures
            picks_view(r@) == self@.expedition_options(pi as int, weapon, used_items),
    {
        if weapon == 0 {
            let r = vec![(self.clone(), 0u16, false)];
            assert(picks_view(r@) =~= seq![(self@, 0u16, false)]);
            return r;
        }
        let items: [u16; 10] = [1, 2, 3, 4, 5, 6, 7, 8, 9, 11];
        assert(items@ =~= loot_items());
        let mut results: Vec<(State, u16, bool)> = Vec::new();
        let mut k: usize = 0;
        while k < 10
            invariant
                k <= 10,
                items@ == loot_items(),
                pi < self@.players.len() <= 256,
                weapon != 0,
                expedition_fits(self@.players[pi as int], weapon, used_items),
                picks_view(results@) == self@.loot_upto(pi as int, weapon, used_items, k as nat),
            decreases 10 - k,
        {
            let i = items[k];
            if loot_within_reach(weapon, used_items, i) {
                assert(loot_available(weapon, used_items, loot_items()[k as int]));
                let c = self.loot(pi, i);
                proof {
                    lemma_picks_view_push(results@, (c, 1u16 << i, false));
                }
                results.push((c, 1u16 << i, false));
            }
            assert(picks_view(results@) =~= self@.loot_upto(
                pi as int,
                weapon,
                used_items,
                (k + 1) as nat,
            ));
            k += 1;
        }
        let ghost looted = picks_view(results@);
        if loot_within_reach(weapon, used_items, 13) {
            let furnish = self.furnish_cave_options(pi);
            if furnish.len() > 0 {
                let c = self.clone();
                proof {
                    lemma_picks_view_push(results@, (c, 1u16 << 13u16, true));
                }
                results.push((c, 1u16 << 13u16, true));
            }
        }
        assert(picks_view(results@) =~= looted + if loot_available(weapon, used_items, 13)
            && self@.furnish_cave_options(pi as int).len() > 0 {
            seq![(self@, 1u16 << 13u16, true)]
        } else {
            Seq::empty()
        });
        if results.len() == 0 {
            let c = self.clone();
            proof {
                lemma_picks_view_push(results@, (c, 0u16, false));
            }
            results.push((c, 0u16, false));
        }
        results
    }

    /// Whether the pending step has a move (see `StateView::has_children`).
    pub fn has_children(&self) -> (r: bool)
        requires
            self@.current_player < self@.players.len() <= 256,
        ensures
            r == self@.has_children(),
    {
        let current = self.current_player;
        if self.pending.len() == 0 {
            return true;
        }
        assert(self@.players[current as int] == self.players@[current as int]@);
        match self.pending[self.pending.len() - 1] {
            SubAction::PlaceTile(tile) => {
                let placements = self.players[current].tile_placements(tile);
                assert(crate::player::placements_view(placements@).len() == placements@.len());
                placements.len() > 0
            },
            SubAction::Sow => {
                let p = &self.players[current];
                let has_field = crate::board::has_tile(&p.outdoor, Tile::Field(0, 0));
                has_field && (p.resources.wheat > 0 || p.resources.vegetables > 0)
            },
            SubAction::Furnish => {
                let opts = self.furnish_cave_options(current);
                assert(states_view(opts@).len() == opts@.len());
                opts.len() > 0
            },
            _ => true,
        }
    }
}


impl Player {
    /// Whether every pasture covers one or two cells of the board.
    pub fn is_valid(&self) -> (r: bool)
        ensures
            r == self@.wf(),
    {
        let mut k: usize = 0;
        while k < self.pastures.len()
            invariant
                k <= self@.pastures.len(),
                forall|m: int|
                    0 <= m < k ==> {
                        let cells = #[trigger] self@.pastures[m].cells;
                        &&& 1 <= cells.len() <= 2
                        &&& forall|j: int| 0 <= j < cells.len() ==> in_bounds(#[trigger] cells[j])
                    },
            decreases self@.pastures.len() - k,
        {
            let cells = &self.pastures[k].cells;
            assert(self@.pastures[k as int].cells == cells@);
            if cells.len() < 1 || cells.len() > 2 {
                assert(!(1 <= self@.pastures[k as int].cells.len() <= 2));
                return false;
            }
            let mut j: usize = 0;
            while j < cells.len()
                invariant
                    j <= cells@.len(),
                    k < self@.pastures.len(),
                    cells@ == self@.pastures[k as int].cells,
                    forall|i: int| 0 <= i < j ==> in_bounds(#[trigger] cells@[i]),
                decreases cells@.len() - j,
            {
                if cells[j].0 >= 3 || cells[j].1 >= 4 {
                    assert(!in_bounds(self@.pastures[k as int].cells[j as int]));
                    return false;
                }
                j += 1;
            }
            k += 1;
        }
        true
    }
}

impl State {
    /// Whether the position has the shape that `children` asks of it.
    pub fn is_valid(&self) -> (r: bool)
        ensures
            r == self@.shape(),
    {
        let n = self.players.len();
        if n < 1 || n > 256 || self.current_player >= n || self.starting_player as usize >= n
            || self.pending.len() < 1 {
            return false;
        }
        let mut i: usize = 0;
        while i < n
            invariant
                i <= n,
                n == self@.players.len(),
                forall|k: int| 0 <= k < i ==> (#[trigger] self@.players[k]).wf(),
            decreases n - i,
        {
            assert(self@.players[i as int] == self.players@[i as int]@);
            if !self.players[i].is_valid() {
                return false;
            }
            i += 1;
        }
        let mut k: usize = 0;
        while k < self.pending.len()
            invariant
                k <= self@.pending.len(),
                n == self@.players.len(),
                forall|m: int|
                    0 <= m < k ==> match #[trigger] self@.pending[m] {
                        SubAction::TradeFood { player_idx } => player_idx < n,
                        _ => true,
                    },
            decreases self@.pending.len() - k,
        {
            match self.pending[k] {
                SubAction::TradeFood { player_idx } => {
                    if player_idx >= n {
                        return false;
                    }
                },
                _ => {},
            }
            k += 1;
        }
        true
    }
}


impl Player {
    /// Whether an expedition with `weapon` and the items `used` taken fits
    /// (see `expedition_fits`).
    pub fn expedition_fits(&self, weapon: u8, used: u16) -> (r: bool)
        requires
            self@.wf(),
        ensures
            r == expedition_fits(self@, weapon, used),
    {
        if weapon == 0 {
            return true;
        }
        let items: [u16; 10] = [1, 2, 3, 4, 5, 6, 7, 8, 9, 11];
        assert(items@ =~= loot_items());
        let mut k: usize = 0;
        while k < 10
            invariant
                k <= 10,
                items@ == loot_items(),
                self@.wf(),
                forall|j: int|
                    0 <= j < k && loot_available(weapon, used, #[trigger] loot_items()[j])
                        ==> loot_fits(self@, loot_items()[j]),
            decreases 10 - k,
        {
            let i = items[k];
            if loot_within_reach(weapon, used, i) && !self.loot_fits(i) {
                return false;
            }
            k += 1;
        }
        true
    }
}

impl State {
    /// Whether the new round of accumulation fits (see
    /// `StateView::replenish_fits`).
    pub fn replenish_fits(&self) -> (r: bool)
        ensures
            r == self@.replenish_fits(),
    {
        let mut i: usize = 0;
        while i < SPACE_COUNT
            invariant
                i <= SPACE_COUNT,
                SPACE_COUNT == 22,
                self@.accumulated.len() == 22,
                forall|k: int|
                    0 <= k < i && self@.space_available(space_at(k)) && !self@.occupied(space_at(k))
                        ==> #[trigger] self@.accumulated[k] + 1 <= u32::MAX,
            decreases SPACE_COUNT - i,
        {
            let sp = ActionSpace::from_index(i);
            if self.space_available(sp) && !self.occupied(sp) && self.accumulated[i] == u32::MAX {
                return false;
            }
            i += 1;
        }
        true
    }

    /// Whether the end of the placement phase fits (see
    /// `StateView::advance_fits`).
    pub fn advance_fits(&self) -> (r: bool)
        ensures
            r == self@.advance_fits(),
    {
        if !self.replenish_fits() {
            return false;
        }
        let mut i: usize = 0;
        while i < self.players.len()
            invariant
                i <= self@.players.len(),
                forall|k: int| 0 <= k < i ==> (#[trigger] self@.players[k]).harvest_fits(),
            decreases self@.players.len() - i,
        {
            assert(self@.players[i as int] == self.players@[i as int]@);
            if !self.players[i].harvest_fits() {
                return false;
            }
            i += 1;
        }
        true
    }
}

} // verus!
