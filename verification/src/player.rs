//! Players: the family, feeding, harvest, breeding and the trimming of the
//! herd to what the farm holds, tile placements and final points.
use vstd::prelude::*;
use crate::action::ActionSpace;
use crate::board::{
    Board, Side, Tile, TileGroup, count_tile, count_tiles, field_crops, field_veg_upto,
    field_wheat_upto, in_bounds, tile_points_sum, tile_points_upto, tile_at,
};
use crate::resources::{AnimalType, Animals, Resources, BOAR, COW, DONKEY, SHEEP};

verus! {

broadcast use vstd::array::group_array_axioms;

/// A worker of a player; `placed_on` is the action space it stands on this round.
#[derive(Clone, Copy, Debug)]
pub struct Dwarf {
    pub weapon: u8,
    pub placed_on: Option<ActionSpace>,
}

/// A fenced area of one or two outdoor cells.
#[derive(Debug)]
pub struct Pasture {
    pub cells: Vec<(usize, usize)>,
    pub animals: Option<(AnimalType, u8)>,
}

/// The mathematical value of a pasture.
pub struct PastureView {
    pub cells: Seq<(usize, usize)>,
    pub animals: Option<(AnimalType, u8)>,
}

impl View for Pasture {
    type V = PastureView;

    open spec fn view(&self) -> PastureView {
        PastureView { cells: self.cells@, animals: self.animals }
    }
}

impl Clone for Pasture {
    fn clone(&self) -> (r: Self)
        ensures
            r@ == self@,
    {
        let mut cells: Vec<(usize, usize)> = Vec::new();
        let mut i: usize = 0;
        while i < self.cells.len()
            invariant
                i <= self.cells@.len(),
                cells@ == self.cells@.take(i as int),
            decreases self.cells@.len() - i,
        {
            cells.push(self.cells[i]);
            assert(cells@ =~= self.cells@.take(i + 1));
            i += 1;
        }
        assert(cells@ =~= self.cells@);
        Pasture { cells, animals: self.animals }
    }
}

/// One player's home boards, workers and goods.
#[derive(Debug)]
pub struct Player {
    pub dwarfs: Vec<Dwarf>,
    pub children: usize,
    pub outdoor: Board,
    pub indoor: Board,
    pub resources: Resources,
    pub dogs: usize,
    /// Indexed by `AnimalType::index`.
    pub animals: Animals,
    pub pastures: Vec<Pasture>,
}

/// The mathematical value of a player.
pub struct PlayerView {
    pub dwarfs: Seq<Dwarf>,
    pub children: usize,
    pub outdoor: Seq<Tile>,
    pub indoor: Seq<Tile>,
    pub resources: Resources,
    pub dogs: usize,
    pub animals: Seq<usize>,
    pub pastures: Seq<PastureView>,
}

impl View for Player {
    type V = PlayerView;

    open spec fn view(&self) -> PlayerView {
        PlayerView {
            dwarfs: self.dwarfs@,
            children: self.children,
            outdoor: self.outdoor@,
            indoor: self.indoor@,
            resources: self.resources,
            dogs: self.dogs,
            animals: self.animals@,
            pastures: pastures_view(self.pastures@),
        }
    }
}

/// The views of a list of pastures.
pub open spec fn pastures_view(s: Seq<Pasture>) -> Seq<PastureView> {
    s.map_values(|p: Pasture| p@)
}

/// Copies a list of pastures.
fn clone_pastures(ps: &Vec<Pasture>) -> (r: Vec<Pasture>)
    ensures
        pastures_view(r@) == pastures_view(ps@),
{
    let mut res: Vec<Pasture> = Vec::new();
    let mut i: usize = 0;
    while i < ps.len()
        invariant
            i <= ps@.len(),
            res@.len() == i,
            pastures_view(res@) == pastures_view(ps@.take(i as int)),
        decreases ps@.len() - i,
    {
        let p = ps[i].clone();
        assert(p@ == ps@[i as int]@);
        let ghost prev = res@;
        res.push(p);
        assert(res@ =~= prev.push(p));
        assert forall|k: int| 0 <= k < i + 1 implies #[trigger] pastures_view(res@)[k]
            == pastures_view(ps@.take(i + 1))[k] by {
            if k < i {
                assert(pastures_view(prev)[k] == pastures_view(ps@.take(i as int))[k]);
            }
        }
        assert(pastures_view(res@) =~= pastures_view(ps@.take(i + 1)));
        i += 1;
    }
    assert(ps@.take(ps@.len() as int) =~= ps@);
    res
}

impl Clone for Player {
    fn clone(&self) -> (r: Self)
        ensures
            r@ == self@,
    {
        let dwarfs = self.dwarfs.clone();
        assert(dwarfs@ =~= self.dwarfs@);
        Player {
            dwarfs,
            children: self.children,
            outdoor: self.outdoor,
            indoor: self.indoor,
            resources: self.resources,
            dogs: self.dogs,
            animals: self.animals,
            pastures: clone_pastures(&self.pastures),
        }
    }
}

impl PlayerView {
    /// The boards and the animal table have their sizes, and every pasture
    /// covers one or two cells of the outdoor board.
    pub open spec fn wf(self) -> bool {
        &&& self.outdoor.len() == 12
        &&& self.indoor.len() == 12
        &&& self.animals.len() == 4
        &&& forall|k: int|
            0 <= k < self.pastures.len() ==> {
                let cells = #[trigger] self.pastures[k].cells;
                &&& 1 <= cells.len() <= 2
                &&& forall|j: int| 0 <= j < cells.len() ==> in_bounds(#[trigger] cells[j])
            }
    }

    /// Whether feeding fits: the food needed and, when food is short, the
    /// begging markers after feeding stay at most `usize::MAX`.
    pub open spec fn feed_fits(self) -> bool {
        &&& self.food_needed() <= usize::MAX
        &&& self.resources.food < self.food_needed() ==> self.resources.begging + self.food_needed()
            - self.resources.food <= usize::MAX
    }

    /// Whether the harvest fits: the grain and the vegetables in stock plus
    /// the fields harvested stay at most `usize::MAX`.
    pub open spec fn harvest_fits(self) -> bool {
        &&& self.resources.wheat + self.outdoor.filter(grain_field()).len() <= usize::MAX
        &&& self.resources.vegetables + self.outdoor.filter(veg_field()).len() <= usize::MAX
    }

    /// Whether trimming a herd fits: the number of ways to give the pastures
    /// their kinds, and the places for sheep on a meadow, stay at most
    /// `usize::MAX`.
    pub open spec fn trim_fits(self) -> bool {
        &&& combos(self.pastures.len()) <= usize::MAX
        &&& count_tile(self.outdoor, Tile::Meadow) > 0 ==> self.dogs + 1 <= usize::MAX
    }

    /// Whether breeding fits: trimming fits, and every kind that breeds
    /// stays at most `usize::MAX`.
    pub open spec fn breed_fits(self) -> bool {
        &&& self.trim_fits()
        &&& forall|i: int| 0 <= i < 4 && self.animals[i] >= 2 ==> #[trigger] self.animals[i] + 1
            <= usize::MAX
    }

    /// Whether the score fits: the sums of crops and of animals stay at most
    /// `usize::MAX`, every term that is added or taken stays at most
    /// `i32::MAX`, and the sum stays within `i32` as it is added up.
    pub open spec fn points_fit(self) -> bool {
        let wheat = self.resources.wheat + field_wheat_upto(self.outdoor, 12);
        let veg = self.resources.vegetables + field_veg_upto(self.outdoor, 12);
        let crops = (wheat + 1) / 2 + veg;
        let up = self.dwarfs.len() + self.resources.gold + self.resources.rubies + crops
            + self.dogs + self.animal_total();
        &&& wheat + 1 <= usize::MAX
        &&& crops <= usize::MAX
        &&& self.animal_total() <= usize::MAX
        &&& self.dwarfs.len() <= i32::MAX
        &&& self.resources.gold <= i32::MAX
        &&& self.resources.rubies <= i32::MAX
        &&& crops <= i32::MAX
        &&& self.dogs <= i32::MAX
        &&& self.animal_total() <= i32::MAX
        &&& self.resources.begging * 3 <= i32::MAX
        &&& up <= i32::MAX
        &&& up + count_tile(self.indoor, Tile::Dwelling) * 3 - 3 <= i32::MAX
        &&& self.points() >= i32::MIN
    }

    /// Food the family eats at the end of a round.
    pub open spec fn food_needed(self) -> int {
        self.dwarfs.len() * 2 + self.children
    }

    /// Places the family needs to live.
    pub open spec fn dwellings_needed(self) -> int {
        self.dwarfs.len() + self.children
    }

    /// Places to live: one per dwelling plus one.
    pub open spec fn dwelling_capacity(self) -> int {
        count_tile(self.indoor, Tile::Dwelling) + 1int
    }

    /// Number of stables on the outdoor board.
    pub open spec fn stable_count(self) -> int {
        count_tile(self.outdoor, Tile::ForestStable) as int + count_tile(
            self.outdoor,
            Tile::MeadowStable,
        ) as int + count_tile(self.outdoor, Tile::PastureStable) as int
    }

    /// Number of animals of every kind together.
    pub open spec fn animal_total(self) -> int {
        self.animals[0] + self.animals[1] + self.animals[2] + self.animals[3]
    }

    /// Number of animal kinds of which the player has none.
    pub open spec fn missing_kinds(self) -> int {
        (if self.animals[0] == 0 { 1int } else { 0int }) + (if self.animals[1] == 0 {
            1int
        } else {
            0int
        }) + (if self.animals[2] == 0 { 1int } else { 0int }) + (if self.animals[3] == 0 {
            1int
        } else {
            0int
        })
    }

    /// The player's score: one per dwarf, gold and ruby; half a point per grain
    /// (rounded up) and a point per vegetable, counting the crops on the fields;
    /// one per dog and animal; three per dwelling beyond the first; minus the
    /// points of pastures and mines, three per begging marker, one per
    /// undeveloped cell and one per animal kind missing.
    pub open spec fn points(self) -> int {
        let wheat = self.resources.wheat + field_wheat_upto(self.outdoor, 12);
        let veg = self.resources.vegetables + field_veg_upto(self.outdoor, 12);
        self.dwarfs.len() + self.resources.gold + self.resources.rubies + ((wheat + 1) / 2 + veg)
            + self.dogs + self.animal_total() + (count_tile(self.indoor, Tile::Dwelling) * 3 - 3)
            - tile_points_upto(self.outdoor, 12) - tile_points_upto(self.indoor, 12)
            - self.resources.begging * 3 - (count_tile(self.outdoor, Tile::Forest) + count_tile(
            self.outdoor,
            Tile::Mountain,
        )) - (count_tile(self.indoor, Tile::Forest) + count_tile(self.indoor, Tile::Mountain))
            - self.missing_kinds()
    }
}

/// A board on which every cell holds tile `t`.
pub open spec fn filled(t: Tile) -> Seq<Tile> {
    Seq::new(12, |i: int| t)
}

/// The player at the start of a game: two unarmed dwarfs, an all-forest
/// outdoor board, a mountain indoor board with a dwelling in the bottom-left
/// cell and a cave above it, and `food` food.
pub open spec fn initial_player(food: usize) -> PlayerView {
    PlayerView {
        dwarfs: seq![Dwarf { weapon: 0, placed_on: None }, Dwarf { weapon: 0, placed_on: None }],
        children: 0,
        outdoor: filled(Tile::Forest),
        indoor: filled(Tile::Mountain).update(9, Tile::Dwelling).update(6, Tile::Cave),
        resources: Resources { food, ..Resources::spec_zero() },
        dogs: 0,
        animals: seq![0usize, 0usize, 0usize, 0usize],
        pastures: Seq::empty(),
    }
}

impl Player {
    /// A new player with `food` food.
    pub fn new(food: usize) -> (r: Self)
        ensures
            r@ == initial_player(food),
    {
        let outdoor = [Tile::Forest;12];
        let mut indoor = [Tile::Mountain;12];
        indoor[9] = Tile::Dwelling;
        indoor[6] = Tile::Cave;
        let mut player = Player {
            dwarfs: vec![Dwarf { weapon: 0, placed_on: None }, Dwarf { weapon: 0, placed_on: None }],
            children: 0,
            outdoor,
            indoor,
            resources: Resources::zero(),
            dogs: 0,
            animals: [0;4],
            pastures: Vec::new(),
        };
        player.resources.food = food;
        assert(player.outdoor@ =~= filled(Tile::Forest));
        assert(player.indoor@ =~= filled(Tile::Mountain).update(9, Tile::Dwelling).update(
            6,
            Tile::Cave,
        ));
        assert(player.animals@ =~= seq![0usize, 0usize, 0usize, 0usize]);
        assert(player.dwarfs@ =~= seq![
            Dwarf { weapon: 0, placed_on: None },
            Dwarf { weapon: 0, placed_on: None },
        ]);
        assert(player@.pastures =~= Seq::<PastureView>::empty());
        player
    }

    /// Food the family eats at the end of a round: two per dwarf, one per child.
    pub fn food_needed(&self) -> (r: usize)
        requires
            self@.food_needed() <= usize::MAX,
        ensures
            r == self@.food_needed(),
    {
        self.dwarfs.len() * 2 + self.children
    }

    /// Places the family needs to live: one per dwarf and per child.
    pub fn dwellings_needed(&self) -> (r: usize)
        requires
            self@.dwellings_needed() <= usize::MAX,
        ensures
            r == self@.dwellings_needed(),
    {
        self.dwarfs.len() + self.children
    }

    /// Places to live: one per dwelling plus one.
    pub fn dwelling_capacity(&self) -> (r: usize)
        ensures
            r == self@.dwelling_capacity(),
    {
        count_tiles(&self.indoor, Tile::Dwelling) + 1
    }

    /// Number of stables on the outdoor board.
    pub fn stable_count(&self) -> (r: usize)
        ensures
            r == self@.stable_count(),
    {
        count_tiles(&self.outdoor, Tile::ForestStable) + count_tiles(
            &self.outdoor,
            Tile::MeadowStable,
        ) + count_tiles(&self.outdoor, Tile::PastureStable)
    }
}

/// A dwarf that has not been placed and carries no weapon.
pub open spec fn fresh_dwarf() -> Dwarf {
    Dwarf { weapon: 0, placed_on: None }
}

/// A prefix holds no more items of a kind than the whole list.
pub proof fn lemma_filter_take_le<A>(s: Seq<A>, p: spec_fn(A) -> bool, i: int)
    requires
        0 <= i <= s.len(),
    ensures
        s.take(i).filter(p).len() <= s.filter(p).len(),
    decreases s.len() - i,
{
    if i < s.len() {
        lemma_filter_take_le(s, p, i + 1);
        crate::board::lemma_take_push(s, i);
        s.take(i).lemma_filter_push(s[i], p);
    } else {
        assert(s.take(i) =~= s);
    }
}

/// `2` to the power `n`.
pub open spec fn two_pow(n: nat) -> nat
    decreases n,
{
    if n == 0 {
        1
    } else {
        2 * two_pow((n - 1) as nat)
    }
}

/// `4` to the power `n`: the number of ways to give each of `n` pastures one
/// of the four animal kinds.
pub open spec fn combos(n: nat) -> nat
    decreases n,
{
    if n == 0 {
        1
    } else {
        4 * combos((n - 1) as nat)
    }
}

pub proof fn lemma_combos_monotone(m: nat, n: nat)
    requires
        m <= n,
    ensures
        1 <= combos(m) <= combos(n),
    decreases n - m,
{
    if m < n {
        lemma_combos_monotone(m, (n - 1) as nat);
    } else {
        lemma_combos_positive(m);
    }
}

pub proof fn lemma_combos_positive(n: nat)
    ensures
        combos(n) >= 1,
    decreases n,
{
    if n > 0 {
        lemma_combos_positive((n - 1) as nat);
    }
}

/// The smaller of two integers.
pub open spec fn min_int(a: int, b: int) -> int {
    if a <= b {
        a
    } else {
        b
    }
}

/// The animal counts as integers.
pub open spec fn ints(a: Seq<usize>) -> Seq<int> {
    a.map_values(|x: usize| x as int)
}

/// Gives the pastures from the `k`-th on, one after the other, to the animal
/// kind named by the next base-4 digit of `code`; each takes as many of the
/// animals of its kind still waiting as it can hold.
/// Returns the animals still waiting and the animals kept, per kind.
pub open spec fn assign_pastures(
    remaining: Seq<int>,
    kept: Seq<int>,
    caps: Seq<int>,
    code: int,
    k: int,
) -> (Seq<int>, Seq<int>)
    decreases caps.len() - k,
{
    if k >= caps.len() || k < 0 {
        (remaining, kept)
    } else {
        let t = code % 4;
        let took = min_int(remaining[t], caps[k]);
        assign_pastures(
            remaining.update(t, remaining[t] - took),
            kept.update(t, kept[t] + took),
            caps,
            code / 4,
            k + 1,
        )
    }
}

/// Fills the flexible places with the animals still waiting, kind by kind from
/// kind `t` on, in the order cow, boar, donkey, sheep. Returns the animals kept.
pub open spec fn fill_flex(remaining: Seq<int>, kept: Seq<int>, flex_left: int, t: int) -> Seq<int>
    decreases 4 - t,
{
    if t >= 4 || t < 0 {
        kept
    } else {
        let took = min_int(remaining[t], flex_left);
        fill_flex(remaining, kept.update(t, kept[t] + took), flex_left - took, t + 1)
    }
}

/// The animals kept, per kind, when the pastures get the kinds that the base-4
/// digits of `combo` name and the flexible places are then filled.
pub open spec fn kept_for(need: Seq<int>, caps: Seq<int>, flex: int, combo: int) -> Seq<int> {
    let (remaining, kept) = assign_pastures(need, seq![0int, 0int, 0int, 0int], caps, combo, 0);
    fill_flex(remaining, kept, flex, 0)
}

/// Number of animals kept.
pub open spec fn score(kept: Seq<int>) -> int {
    kept[0] + kept[1] + kept[2] + kept[3]
}

/// The best of the first `n` assignments: the first that keeps the most
/// animals, or nothing kept where none keeps any; with the number it keeps.
pub open spec fn best_upto(need: Seq<int>, caps: Seq<int>, flex: int, n: nat) -> (Seq<int>, int)
    decreases n,
{
    if n == 0 {
        (seq![0int, 0int, 0int, 0int], 0)
    } else {
        let (best, best_score) = best_upto(need, caps, flex, (n - 1) as nat);
        let kept = kept_for(need, caps, flex, n - 1);
        if score(kept) > best_score {
            (kept, score(kept))
        } else {
            (best, best_score)
        }
    }
}

/// Whether an outdoor cell holds a pasture with a stable, as a predicate.
pub open spec fn stable_pasture_cell(outdoor: Seq<Tile>) -> spec_fn((usize, usize)) -> bool {
    |c: (usize, usize)| tile_at(outdoor, c) == Tile::PastureStable
}

impl PlayerView {
    /// The dwarfs after the children have grown up: one unplaced, unarmed
    /// dwarf per child, added at the end.
    pub open spec fn grown(self) -> PlayerView {
        PlayerView {
            dwarfs: self.dwarfs + Seq::new(self.children as nat, |i: int| fresh_dwarf()),
            children: 0,
            ..self
        }
    }

    /// The player after feeding the family: the food needed is paid from the
    /// food; what is missing becomes begging markers.
    pub open spec fn fed(self) -> PlayerView {
        let needed = self.food_needed();
        if self.resources.food >= needed {
            PlayerView {
                resources: Resources {
                    food: (self.resources.food - needed) as usize,
                    ..self.resources
                },
                ..self
            }
        } else {
            PlayerView {
                resources: Resources {
                    begging: (self.resources.begging + needed - self.resources.food) as usize,
                    food: 0,
                    ..self.resources
                },
                ..self
            }
        }
    }

    /// Capacity for boars: one per forest stable.
    pub open spec fn boar_fixed(self) -> int {
        count_tile(self.outdoor, Tile::ForestStable) as int
    }

    /// Capacity for sheep on unfenced meadows: the dogs plus one, if there is a meadow.
    pub open spec fn sheep_meadow(self) -> int {
        if count_tile(self.outdoor, Tile::Meadow) > 0 {
            self.dogs + 1
        } else {
            0
        }
    }

    /// Places for any animal: one per meadow stable, two in the dwelling.
    pub open spec fn flex(self) -> int {
        (count_tile(self.outdoor, Tile::MeadowStable) + 2) as int
    }

    /// Capacity for donkeys in the mines: one per ore or ruby mine.
    pub open spec fn donkey_cap(self) -> int {
        (count_tile(self.indoor, Tile::OreMine) + count_tile(self.indoor, Tile::RubyMine)) as int
    }

    /// Capacity of a pasture: two per cell, doubled for each stable in it.
    pub open spec fn pasture_cap(self, p: PastureView) -> int {
        (p.cells.len() * 2 * two_pow(p.cells.filter(stable_pasture_cell(self.outdoor)).len())) as int
    }

    /// The capacity of every pasture, in order.
    pub open spec fn pasture_caps(self) -> Seq<int> {
        Seq::new(self.pastures.len(), |k: int| self.pasture_cap(self.pastures[k]))
    }

    /// The animals of `a` that still need a place after the fixed places for
    /// boars, donkeys and sheep are used, per kind.
    pub open spec fn need(self, a: Seq<usize>) -> Seq<int> {
        seq![
            a[0] as int,
            a[1] - min_int(a[1] as int, self.boar_fixed()),
            a[2] - min_int(a[2] as int, self.donkey_cap()),
            a[3] - min_int(a[3] as int, self.sheep_meadow()),
        ]
    }

    /// The animals of `a` that the farm can hold: the fixed places are used
    /// first, then every way of giving each pasture one kind is tried and the
    /// first one that keeps the most animals wins.
    pub open spec fn trimmed(self, a: Seq<usize>) -> Seq<usize> {
        let (best, _) = best_upto(
            self.need(a),
            self.pasture_caps(),
            self.flex(),
            combos(self.pastures.len()),
        );
        seq![
            best[0] as usize,
            (min_int(a[1] as int, self.boar_fixed()) + best[1]) as usize,
            (min_int(a[2] as int, self.donkey_cap()) + best[2]) as usize,
            (min_int(a[3] as int, self.sheep_meadow()) + best[3]) as usize,
        ]
    }

    /// Each kind with two or more animals gets one more.
    pub open spec fn bred_animals(self) -> Seq<usize> {
        Seq::new(
            4,
            |i: int|
                if self.animals[i] >= 2 {
                    (self.animals[i] + 1) as usize
                } else {
                    self.animals[i]
                },
        )
    }

    /// The player after breeding: the bred animals, trimmed to what the farm holds.
    pub open spec fn bred(self) -> PlayerView {
        PlayerView { animals: self.trimmed(self.bred_animals()), ..self }
    }
}

/// Whether dwarf `j` is the first unplaced dwarf with the lowest weapon.
pub open spec fn is_lowest_unplaced(ds: Seq<Dwarf>, j: int) -> bool {
    &&& 0 <= j < ds.len()
    &&& ds[j].placed_on is None
    &&& forall|k: int|
        0 <= k < ds.len() && (#[trigger] ds[k]).placed_on is None ==> ds[j].weapon <= ds[k].weapon
    &&& forall|k: int| 0 <= k < j && (#[trigger] ds[k]).placed_on is None ==> ds[j].weapon < ds[k].weapon
}

/// Whether some dwarf is not placed.
pub open spec fn has_unplaced(ds: Seq<Dwarf>) -> bool {
    exists|k: int| 0 <= k < ds.len() && (#[trigger] ds[k]).placed_on is None
}

/// The first unplaced dwarf with the lowest weapon.
pub open spec fn lowest_unplaced(ds: Seq<Dwarf>) -> int {
    choose|j: int| is_lowest_unplaced(ds, j)
}

pub proof fn lemma_lowest_unplaced_unique(ds: Seq<Dwarf>, j: int)
    requires
        is_lowest_unplaced(ds, j),
    ensures
        lowest_unplaced(ds) == j,
{
    let c = lowest_unplaced(ds);
    assert(is_lowest_unplaced(ds, c));
    assert(ds[c].weapon <= ds[j].weapon);
    assert(ds[j].weapon <= ds[c].weapon);
    if c < j {
        assert(ds[j].weapon < ds[c].weapon);
    }
    if j < c {
        assert(ds[c].weapon < ds[j].weapon);
    }
}

/// The dwarfs after the first unplaced dwarf with the lowest weapon is placed on `space`.
pub open spec fn dwarfs_after_placing(ds: Seq<Dwarf>, space: ActionSpace) -> Seq<Dwarf> {
    let j = lowest_unplaced(ds);
    ds.update(j, Dwarf { placed_on: Some(space), ..ds[j] })
}

/// The tile left on a cell by the harvest: a field with grain gives up one
/// grain and loses its vegetables; else a field with vegetables gives one up.
pub open spec fn harvested_tile(t: Tile) -> Tile {
    match t {
        Tile::Field(w, v) => if w > 0 {
            Tile::Field((w - 1) as u8, 0)
        } else if v > 0 {
            Tile::Field(0, (v - 1) as u8)
        } else {
            t
        },
        _ => t,
    }
}

/// A field with grain on it, as a predicate.
pub open spec fn grain_field() -> spec_fn(Tile) -> bool {
    |t: Tile|
        match t {
            Tile::Field(w, _) => w > 0,
            _ => false,
        }
}

/// A field with vegetables and no grain on it, as a predicate.
pub open spec fn veg_field() -> spec_fn(Tile) -> bool {
    |t: Tile|
        match t {
            Tile::Field(w, v) => w == 0 && v > 0,
            _ => false,
        }
}

impl PlayerView {
    /// The player after the harvest: one grain or vegetable from each sown field.
    pub open spec fn harvested(self) -> PlayerView {
        PlayerView {
            outdoor: Seq::new(12, |i: int| harvested_tile(self.outdoor[i])),
            resources: Resources {
                wheat: (self.resources.wheat + self.outdoor.filter(grain_field()).len()) as usize,
                vegetables: (self.resources.vegetables + self.outdoor.filter(veg_field()).len()) as usize,
                ..self.resources
            },
            ..self
        }
    }
}

impl Player {
    /// Every child grows up into an unplaced, unarmed dwarf.
    pub fn grow_children(&mut self)
        ensures
            final(self)@ == old(self)@.grown(),
    {
        let n = self.children;
        let mut i: usize = 0;
        while i < n
            invariant
                i <= n,
                n == old(self).children,
                self.children == n,
                self.dwarfs@ == old(self).dwarfs@ + Seq::new(i as nat, |k: int| fresh_dwarf()),
                self.outdoor == old(self).outdoor,
                self.indoor == old(self).indoor,
                self.resources == old(self).resources,
                self.dogs == old(self).dogs,
                self.animals == old(self).animals,
                self.pastures@ == old(self).pastures@,
            decreases n - i,
        {
            self.dwarfs.push(Dwarf { placed_on: None, weapon: 0 });
            assert(self.dwarfs@ =~= old(self).dwarfs@ + Seq::new((i + 1) as nat, |k: int| fresh_dwarf()));
            i += 1;
        }
        self.children = 0;
        assert(self@.dwarfs =~= old(self)@.grown().dwarfs);
    }

    /// Pays the food the family eats; what is missing becomes begging markers.
    pub fn feed(&mut self)
        requires
            old(self)@.feed_fits(),
        ensures
            final(self)@ == old(self)@.fed(),
    {
        let needed = self.food_needed();
        if self.resources.food >= needed {
            self.resources.food -= needed;
        } else {
            self.resources.begging += needed - self.resources.food;
            self.resources.food = 0;
        }
    }

    /// Takes one grain or vegetable from each sown field.
    pub fn harvest(&mut self)
        requires
            old(self)@.harvest_fits(),
        ensures
            final(self)@ == old(self)@.harvested(),
    {
        let ghost start = self@;
        let mut i: usize = 0;
        while i < 12
            invariant
                i <= 12,
                start == old(self)@,
                start.harvest_fits(),
                start.outdoor.len() == 12,
                forall|k: int| 0 <= k < i ==> self.outdoor@[k] == harvested_tile(start.outdoor[k]),
                forall|k: int| i <= k < 12 ==> self.outdoor@[k] == start.outdoor[k],
                self.resources == (Resources {
                    wheat: (start.resources.wheat + start.outdoor.take(i as int).filter(
                        grain_field(),
                    ).len()) as usize,
                    vegetables: (start.resources.vegetables + start.outdoor.take(i as int).filter(
                        veg_field(),
                    ).len()) as usize,
                    ..start.resources
                }),
                start.outdoor.take(i as int).filter(grain_field()).len() <= start.outdoor.filter(
                    grain_field(),
                ).len(),
                start.outdoor.take(i as int).filter(veg_field()).len() <= start.outdoor.filter(
                    veg_field(),
                ).len(),
                self.dwarfs == old(self).dwarfs,
                self.children == old(self).children,
                self.indoor == old(self).indoor,
                self.dogs == old(self).dogs,
                self.animals == old(self).animals,
                self.pastures == old(self).pastures,
            decreases 12 - i,
        {
            proof {
                crate::board::lemma_take_push(start.outdoor, i as int);
                start.outdoor.take(i as int).lemma_filter_push(start.outdoor[i as int], grain_field());
                start.outdoor.take(i as int).lemma_filter_push(start.outdoor[i as int], veg_field());
                lemma_filter_take_le(start.outdoor, grain_field(), i as int + 1);
                lemma_filter_take_le(start.outdoor, veg_field(), i as int + 1);
            }
            match self.outdoor[i] {
                Tile::Field(w, v) => {
                    if w > 0 {
                        self.resources.wheat += 1;
                        self.outdoor[i] = Tile::Field(w - 1, 0);
                    } else if v > 0 {
                        self.resources.vegetables += 1;
                        self.outdoor[i] = Tile::Field(0, v - 1);
                    }
                },
                _ => {},
            }
            i += 1;
        }
        assert(start.outdoor.take(12) =~= start.outdoor);
        assert(self.outdoor@ =~= Seq::new(12, |k: int| harvested_tile(start.outdoor[k])));
    }

    /// Places the first unplaced dwarf with the lowest weapon on `space`.
    pub fn place_dwarf(&mut self, space: ActionSpace)
        requires
            has_unplaced(old(self).dwarfs@),
        ensures
            is_lowest_unplaced(old(self).dwarfs@, lowest_unplaced(old(self).dwarfs@)),
            final(self)@ == (PlayerView {
                dwarfs: dwarfs_after_placing(old(self)@.dwarfs, space),
                ..old(self)@
            }),
    {
        let ghost ds = self.dwarfs@;
        let mut best: usize = 0;
        let mut found = false;
        let mut i: usize = 0;
        while i < self.dwarfs.len()
            invariant
                ds == self.dwarfs@,
                ds == old(self).dwarfs@,
                has_unplaced(ds),
                i <= ds.len(),
                found ==> best < i && ds[best as int].placed_on is None,
                found ==> forall|k: int|
                    0 <= k < i && (#[trigger] ds[k]).placed_on is None ==> ds[best as int].weapon
                        <= ds[k].weapon,
                found ==> forall|k: int|
                    0 <= k < best && (#[trigger] ds[k]).placed_on is None ==> ds[best as int].weapon
                        < ds[k].weapon,
                !found ==> forall|k: int| 0 <= k < i ==> (#[trigger] ds[k]).placed_on is Some,
            decreases ds.len() - i,
        {
            let d = self.dwarfs[i];
            if d.placed_on.is_none() {
                if !found || d.weapon < self.dwarfs[best].weapon {
                    best = i;
                    found = true;
                }
            }
            i += 1;
        }
        assert(is_lowest_unplaced(ds, best as int));
        proof {
            lemma_lowest_unplaced_unique(ds, best as int);
        }
        let mut d = self.dwarfs[best];
        d.placed_on = Some(space);
        self.dwarfs.set(best, d);
        assert(self.dwarfs@ =~= dwarfs_after_placing(ds, space));
    }
}

/// The views of a list of placements.
pub open spec fn placements_view(s: Seq<(Side, Board)>) -> Seq<(Side, Seq<Tile>)> {
    s.map_values(|p: (Side, Board)| (p.0, p.1@))
}

impl PlayerView {
    /// The board a tile group goes on.
    pub open spec fn board_for(self, tile: TileGroup) -> Seq<Tile> {
        match tile.first_tile().side() {
            Side::Outdoor => self.outdoor,
            Side::Indoor => self.indoor,
        }
    }

    /// Every way of laying a tile group, each with the board it goes on.
    pub open spec fn tile_placements(self, tile: TileGroup) -> Seq<(Side, Seq<Tile>)> {
        crate::board::tile_placements_spec(self.board_for(tile), tile).map_values(
            |b: Seq<Tile>| (tile.first_tile().side(), b),
        )
    }

    /// Whether taking `space` after `acc` untaken rounds fits: every count
    /// it raises stays at most `usize::MAX`.
    pub open spec fn gains_fit(self, space: ActionSpace, acc: int) -> bool {
        let res1 = space.gain_resources_spec(acc, self.resources);
        &&& space.gain_resources_fit(acc, self.resources)
        &&& space.gain_animals_fit(acc, self.animals)
        &&& (space is OreMining || space is OreDelivery) ==> res1.coal + count_tile(
            self.indoor,
            Tile::OreMine,
        ) * 2 <= usize::MAX
        &&& (space is RubyMining && count_tile(self.indoor, Tile::RubyMine) > 0) ==> res1.rubies + 1
            <= usize::MAX
        &&& (space is RubyDelivery && count_tile(self.indoor, Tile::RubyMine) >= 2) ==> res1.rubies
            + 1 <= usize::MAX
        &&& space is Housework ==> self.dogs + 1 <= usize::MAX
    }

    /// The player after taking `space` when it went untaken for `acc`
    /// rounds: the space's goods and animals, two coal per ore mine on the ore
    /// spaces, a ruby for owning a ruby mine on Ruby Mining, a ruby for two
    /// ruby mines on Ruby Delivery, and a dog on Housework.
    pub open spec fn with_gains(self, space: ActionSpace, acc: int) -> PlayerView {
        let res1 = space.gain_resources_spec(acc, self.resources);
        let res2 = if space is OreMining || space is OreDelivery {
            Resources {
                coal: (res1.coal + count_tile(self.indoor, Tile::OreMine) * 2) as usize,
                ..res1
            }
        } else {
            res1
        };
        let res3 = if space is RubyMining && count_tile(self.indoor, Tile::RubyMine) > 0 {
            Resources { rubies: (res2.rubies + 1) as usize, ..res2 }
        } else {
            res2
        };
        let res4 = if space is RubyDelivery && count_tile(self.indoor, Tile::RubyMine) >= 2 {
            Resources { rubies: (res3.rubies + 1) as usize, ..res3 }
        } else {
            res3
        };
        PlayerView {
            resources: res4,
            animals: space.gain_animals_spec(acc, self.animals),
            dogs: if space is Housework {
                (self.dogs + 1) as usize
            } else {
                self.dogs
            },
            ..self
        }
    }
}

impl ActionSpace {
    /// Gives `player` what taking this space earns after `accumulated` untaken rounds.
    pub fn apply_gains(self, accumulated: u32, player: &mut Player)
        requires
            old(player)@.gains_fit(self, accumulated as int),
        ensures
            final(player)@ == old(player)@.with_gains(self, accumulated as int),
    {
        self.gain_resources(accumulated, &mut player.resources);
        self.gain_animals(accumulated, &mut player.animals);
        match self {
            ActionSpace::OreMining | ActionSpace::OreDelivery => {
                let mines = count_tiles(&player.indoor, Tile::OreMine);
                player.resources.coal += mines * 2;
            },
            _ => {},
        }
        if self == ActionSpace::RubyMining {
            if count_tiles(&player.indoor, Tile::RubyMine) > 0 {
                player.resources.rubies += 1;
            }
        }
        if self == ActionSpace::RubyDelivery {
            let mines = count_tiles(&player.indoor, Tile::RubyMine);
            if mines >= 2 {
                player.resources.rubies += 1;
            }
        }
        if self == ActionSpace::Housework {
            player.dogs += 1;
        }
    }
}

impl Player {
    /// Every way of laying a tile group, each with the board it goes on.
    pub fn tile_placements(&self, tile: TileGroup) -> (r: Vec<(Side, Board)>)
        ensures
            placements_view(r@) == self@.tile_placements(tile),
    {
        let first = match tile {
            TileGroup::Single(t) => t,
            TileGroup::Twin((t, _)) => t,
        };
        let side = first.side();
        let boards = match side {
            Side::Outdoor => crate::board::tile_placements_on(&self.outdoor, tile),
            Side::Indoor => crate::board::tile_placements_on(&self.indoor, tile),
        };
        let ghost target = self@.tile_placements(tile);
        let mut res: Vec<(Side, Board)> = Vec::new();
        let mut i: usize = 0;
        while i < boards.len()
            invariant
                i <= boards@.len(),
                side == tile.first_tile().side(),
                target == self@.tile_placements(tile),
                crate::board::boards_view(boards@) == crate::board::tile_placements_spec(
                    self@.board_for(tile),
                    tile,
                ),
                res@.len() == i,
                placements_view(res@) == target.take(i as int),
            decreases boards@.len() - i,
        {
            let ghost prev = res@;
            res.push((side, boards[i]));
            assert(crate::board::boards_view(boards@)[i as int] == boards@[i as int]@);
            assert(placements_view(res@) =~= target.take(i + 1)) by {
                assert forall|k: int| 0 <= k < i + 1 implies #[trigger] placements_view(res@)[k]
                    == target.take(i + 1)[k] by {
                    if k < i {
                        assert(placements_view(prev)[k] == target.take(i as int)[k]);
                    }
                }
            }
            i += 1;
        }
        assert(target.take(boards@.len() as int) =~= target);
        res
    }

    /// Number of animals of every kind, as it stands in the score.
    fn missing_kinds(&self) -> (r: usize)
        ensures
            r == self@.missing_kinds(),
    {
        let mut n: usize = 0;
        if self.animals[0] == 0 {
            n += 1;
        }
        if self.animals[1] == 0 {
            n += 1;
        }
        if self.animals[2] == 0 {
            n += 1;
        }
        if self.animals[3] == 0 {
            n += 1;
        }
        n
    }

    /// The player's score (see `PlayerView::points`).
    pub fn points(&self) -> (r: i32)
        requires
            self@.points_fit(),
        ensures
            r == self@.points(),
    {
        let (fw, fv) = field_crops(&self.outdoor);
        let wheat = self.resources.wheat + fw;
        let veg = self.resources.vegetables + fv;
        let crops = ((wheat + 1) / 2 + veg) as i32;
        let animal_total = (self.animals[0] + self.animals[1] + self.animals[2]
            + self.animals[3]) as i32;
        let dwellings = count_tiles(&self.indoor, Tile::Dwelling) as i32;
        let undeveloped_out = (count_tiles(&self.outdoor, Tile::Forest) + count_tiles(
            &self.outdoor,
            Tile::Mountain,
        )) as i32;
        let undeveloped_in = (count_tiles(&self.indoor, Tile::Forest) + count_tiles(
            &self.indoor,
            Tile::Mountain,
        )) as i32;
        let missing = self.missing_kinds() as i32;
        let out_points = tile_points_sum(&self.outdoor);
        let in_points = tile_points_sum(&self.indoor);
        self.dwarfs.len() as i32 + self.resources.gold as i32 + self.resources.rubies as i32
            + crops + self.dogs as i32 + animal_total + (dwellings * 3 - 3) - out_points - in_points
            - self.resources.begging as i32 * 3 - undeveloped_out - undeveloped_in - missing
    }
}

/// No more than 31 pastures have a number of assignments that fits `usize`.
pub proof fn lemma_combos_fit(n: nat)
    requires
        combos(n) <= usize::MAX,
    ensures
        n <= 31,
{
    if n > 31 {
        lemma_combos_monotone(32, n);
        reveal_with_fuel(combos, 33);
        assert(combos(32) == 0x1_0000_0000_0000_0000);
    }
}

/// `4` to the power `n`.
fn combos_exec(n: usize) -> (r: usize)
    requires
        combos(n as nat) <= usize::MAX,
    ensures
        r == combos(n as nat),
{
    let mut total: usize = 1;
    let mut i: usize = 0;
    while i < n
        invariant
            i <= n,
            combos(n as nat) <= usize::MAX,
            total == combos(i as nat),
        decreases n - i,
    {
        proof {
            lemma_combos_monotone((i + 1) as nat, n as nat);
        }
        total = total * 4;
        i += 1;
    }
    total
}

/// The animals kept, per kind, for one way `combo` of giving the pastures their kinds.
fn kept_for_combo(need: &Animals, caps: &Vec<usize>, flex: usize, combo: usize) -> (r: Animals)
    requires
        caps@.len() <= 31,
        forall|k: int| 0 <= k < caps@.len() ==> #[trigger] caps@[k] <= 16,
        flex <= 14,
    ensures
        ints(r@) == kept_for(ints(need@), ints(caps@), flex as int, combo as int),
        forall|t: int| 0 <= t < 4 ==> #[trigger] r@[t] <= need@[t],
        r@[0] + r@[1] + r@[2] + r@[3] <= 16 * 31 + 14,
{
    let ghost zeros = seq![0int, 0int, 0int, 0int];
    let ghost target = assign_pastures(ints(need@), zeros, ints(caps@), combo as int, 0);
    let mut remaining: Animals = *need;
    let mut kept: Animals = [0;4];
    assert(ints(kept@) =~= zeros);
    let mut code: usize = combo;
    let mut k: usize = 0;
    while k < caps.len()
        invariant
            k <= caps@.len(),
            target == assign_pastures(ints(need@), zeros, ints(caps@), combo as int, 0),
            assign_pastures(ints(remaining@), ints(kept@), ints(caps@), code as int, k as int)
                == target,
            forall|t: int| 0 <= t < 4 ==> #[trigger] remaining@[t] + kept@[t] == need@[t],
            caps@.len() <= 31,
            forall|j: int| 0 <= j < caps@.len() ==> #[trigger] caps@[j] <= 16,
            kept@[0] + kept@[1] + kept@[2] + kept@[3] <= 16 * k,
        decreases caps@.len() - k,
    {
        let t = code % 4;
        code = code / 4;
        let took = if remaining[t] < caps[k] {
            remaining[t]
        } else {
            caps[k]
        };
        let ghost r0 = ints(remaining@);
        let ghost k0 = ints(kept@);
        kept[t] = kept[t] + took;
        remaining[t] = remaining[t] - took;
        assert(ints(remaining@) =~= r0.update(t as int, r0[t as int] - took));
        assert(ints(kept@) =~= k0.update(t as int, k0[t as int] + took));
        k += 1;
    }
    let ghost rem_after = ints(remaining@);
    let ghost kept_after = ints(kept@);
    assert(target == (rem_after, kept_after));
    assert forall|u: int| 0 <= u < 4 implies #[trigger] kept@[u] <= need@[u] && remaining@[u]
        + kept@[u] == need@[u] by {
        assert(remaining@[u] + kept@[u] == need@[u]);
    }
    let mut flex_left: usize = flex;
    let mut t: usize = 0;
    while t < 4
        invariant
            t <= 4,
            rem_after == ints(remaining@),
            fill_flex(rem_after, ints(kept@), flex_left as int, t as int) == fill_flex(
                rem_after,
                kept_after,
                flex as int,
                0,
            ),
            forall|u: int|
                0 <= u < 4 ==> #[trigger] kept@[u] <= need@[u] && (t <= u ==> remaining@[u]
                    + kept@[u] == need@[u]),
            flex_left <= flex <= 14,
            kept@[0] + kept@[1] + kept@[2] + kept@[3] <= 16 * 31 + (flex - flex_left),
        decreases 4 - t,
    {
        let took = if remaining[t] < flex_left {
            remaining[t]
        } else {
            flex_left
        };
        let ghost k0 = ints(kept@);
        kept[t] = kept[t] + took;
        flex_left = flex_left - took;
        assert(ints(kept@) =~= k0.update(t as int, k0[t as int] + took));
        t += 1;
    }
    kept
}

impl Player {
    /// The capacity of every pasture, in order.
    fn pasture_caps(&self) -> (r: Vec<usize>)
        requires
            self@.wf(),
        ensures
            ints(r@) == self@.pasture_caps(),
            forall|k: int| 0 <= k < r@.len() ==> #[trigger] r@[k] <= 16,
    {
        let mut caps: Vec<usize> = Vec::new();
        let mut k: usize = 0;
        while k < self.pastures.len()
            invariant
                k <= self.pastures@.len(),
                self@.wf(),
                caps@.len() == k,
                forall|j: int| 0 <= j < k ==> #[trigger] caps@[j] <= 16,
                forall|j: int| 0 <= j < k ==> caps@[j] as int == self@.pasture_cap(self@.pastures[j]),
            decreases self.pastures@.len() - k,
        {
            let cells = &self.pastures[k].cells;
            assert(self@.pastures[k as int].cells == cells@);
            let ghost pred = stable_pasture_cell(self@.outdoor);
            let mut stables: usize = 0;
            let mut j: usize = 0;
            while j < cells.len()
                invariant
                    j <= cells@.len(),
                    1 <= cells@.len() <= 2,
                    forall|m: int| 0 <= m < cells@.len() ==> in_bounds(#[trigger] cells@[m]),
                    pred == stable_pasture_cell(self@.outdoor),
                    stables == cells@.take(j as int).filter(pred).len(),
                    stables <= j,
                decreases cells@.len() - j,
            {
                proof {
                    crate::board::lemma_take_push(cells@, j as int);
                    cells@.take(j as int).lemma_filter_push(cells@[j as int], pred);
                }
                let (x, y) = cells[j];
                if self.outdoor[y * 3 + x] == Tile::PastureStable {
                    stables += 1;
                }
                j += 1;
            }
            assert(cells@.take(cells@.len() as int) =~= cells@);
            let mut cap: usize = cells.len() * 2;
            let mut m: usize = 0;
            assert(two_pow(0) == 1);
            assert(cells@.len() * 2 * two_pow(0) == cells@.len() * 2) by (nonlinear_arith)
                requires
                    two_pow(0) == 1,
            ;
            while m < stables
                invariant
                    m <= stables <= 2,
                    1 <= cells@.len() <= 2,
                    cap == cells@.len() * 2 * two_pow(m as nat),
                    cap <= 4 * two_pow(m as nat),
                    two_pow(m as nat) <= 2 * m + 1,
                decreases stables - m,
            {
                proof {
                    let tp = two_pow(m as nat);
                    assert(two_pow((m + 1) as nat) == 2 * tp);
                    let len = cells@.len() as int;
                    assert(len * 2 * tp * 2 == len * 2 * (2 * tp)) by (nonlinear_arith);
                }
                cap = cap * 2;
                m += 1;
            }
            caps.push(cap);
            k += 1;
        }
        assert(ints(caps@) =~= self@.pasture_caps());
        caps
    }

    /// The animals of `animals` that the farm can hold (see `PlayerView::trimmed`).
    pub fn trim_animals(&self, animals: Animals) -> (r: Animals)
        requires
            self@.wf(),
            self@.trim_fits(),
        ensures
            r@ == self@.trimmed(animals@),
    {
        let boar_fixed = count_tiles(&self.outdoor, Tile::ForestStable);
        let sheep_meadow = if crate::board::has_tile(&self.outdoor, Tile::Meadow) {
            self.dogs + 1
        } else {
            0
        };
        let flex = count_tiles(&self.outdoor, Tile::MeadowStable) + 2;
        let caps = self.pasture_caps();
        let donkey_fixed_cap = count_tiles(&self.indoor, Tile::OreMine) + count_tiles(
            &self.indoor,
            Tile::RubyMine,
        );
        let a_boar = animals[BOAR];
        let a_sheep = animals[SHEEP];
        let a_donkey = animals[DONKEY];
        let fixed_boar = if a_boar < boar_fixed {
            a_boar
        } else {
            boar_fixed
        };
        let fixed_sheep = if a_sheep < sheep_meadow {
            a_sheep
        } else {
            sheep_meadow
        };
        let fixed_donkey = if a_donkey < donkey_fixed_cap {
            a_donkey
        } else {
            donkey_fixed_cap
        };
        let need: Animals = [
            animals[COW],
            a_boar - fixed_boar,
            a_donkey - fixed_donkey,
            a_sheep - fixed_sheep,
        ];
        let ghost need_i = self@.need(animals@);
        assert(ints(need@) =~= need_i);
        let n = caps.len();
        assert(ints(caps@).len() == caps@.len());
        assert(n == self@.pastures.len());
        proof {
            lemma_combos_fit(n as nat);
        }
        let total = combos_exec(n);
        let ghost caps_i = ints(caps@);
        let mut best: Animals = [0;4];
        let mut best_score: usize = 0;
        assert(ints(best@) =~= seq![0int, 0int, 0int, 0int]);
        let mut combo: usize = 0;
        while combo < total
            invariant
                combo <= total,
                caps_i == ints(caps@),
                need_i == ints(need@),
                caps@.len() <= 31,
                forall|k: int| 0 <= k < caps@.len() ==> #[trigger] caps@[k] <= 16,
                flex <= 14,
                (ints(best@), best_score as int) == best_upto(
                    need_i,
                    caps_i,
                    flex as int,
                    combo as nat,
                ),
                forall|t: int| 0 <= t < 4 ==> #[trigger] best@[t] <= need@[t],
            decreases total - combo,
        {
            let kept = kept_for_combo(&need, &caps, flex, combo);
            let score = kept[0] + kept[1] + kept[2] + kept[3];
            if score > best_score {
                best_score = score;
                best = kept;
            }
            combo += 1;
        }
        let r = [best[COW], fixed_boar + best[BOAR], fixed_donkey + best[DONKEY], fixed_sheep
            + best[SHEEP]];
        assert(r@ =~= self@.trimmed(animals@));
        r
    }

    /// Each kind with two or more animals gets one more; then the animals are
    /// trimmed to what the farm holds.
    pub fn breed(&mut self)
        requires
            old(self)@.wf(),
            old(self)@.breed_fits(),
        ensures
            final(self)@ == old(self)@.bred(),
    {
        let mut bred: Animals = self.animals;
        let mut i: usize = 0;
        while i < 4
            invariant
                i <= 4,
                self@ == old(self)@,
                self@.breed_fits(),
                forall|k: int| 0 <= k < i ==> bred@[k] == #[trigger] self@.bred_animals()[k],
                forall|k: int| i <= k < 4 ==> bred@[k] == #[trigger] self@.animals[k],
            decreases 4 - i,
        {
            assert(self@.animals[i as int] >= 2 ==> self@.animals[i as int] + 1 <= usize::MAX);
            if bred[i] >= 2 {
                bred[i] = bred[i] + 1;
            }
            i += 1;
        }
        assert(bred@ =~= self@.bred_animals());
        assert(self@.trim_fits());
        let trimmed = self.trim_animals(bred);
        self.animals = trimmed;
    }
}


/// The number of fields with grain and of fields with only vegetables on `board`.
pub fn sown_fields(board: &Board) -> (r: (usize, usize))
    ensures
        r.0 == board@.filter(grain_field()).len(),
        r.1 == board@.filter(veg_field()).len(),
{
    let mut g: usize = 0;
    let mut v: usize = 0;
    let mut i: usize = 0;
    while i < 12
        invariant
            i <= 12,
            board@.len() == 12,
            g == board@.take(i as int).filter(grain_field()).len(),
            v == board@.take(i as int).filter(veg_field()).len(),
            g <= i,
            v <= i,
        decreases 12 - i,
    {
        proof {
            crate::board::lemma_take_push(board@, i as int);
            board@.take(i as int).lemma_filter_push(board@[i as int], grain_field());
            board@.take(i as int).lemma_filter_push(board@[i as int], veg_field());
        }
        match board[i] {
            Tile::Field(w, f) => {
                if w > 0 {
                    g += 1;
                } else if f > 0 {
                    v += 1;
                }
            },
            _ => {},
        }
        i += 1;
    }
    assert(board@.take(12) =~= board@);
    (g, v)
}

/// Whether `combos(n)` is at most `usize::MAX`.
fn combos_fit(n: usize) -> (r: bool)
    ensures
        r == (combos(n as nat) <= usize::MAX),
{
    let mut total: u128 = 1;
    let mut i: usize = 0;
    while i < n
        invariant
            i <= n,
            total == combos(i as nat),
            total <= usize::MAX,
        decreases n - i,
    {
        total = total * 4;
        i += 1;
        if total > usize::MAX as u128 {
            proof {
                lemma_combos_monotone(i as nat, n as nat);
            }
            return false;
        }
    }
    true
}

impl Player {
    /// Whether feeding fits (see `PlayerView::feed_fits`).
    pub fn feed_fits(&self) -> (r: bool)
        ensures
            r == self@.feed_fits(),
    {
        let need: u128 = self.dwarfs.len() as u128 * 2 + self.children as u128;
        let food = self.resources.food as u128;
        need <= usize::MAX as u128 && (food >= need || self.resources.begging as u128 + need - food
            <= usize::MAX as u128)
    }

    /// Whether the harvest fits (see `PlayerView::harvest_fits`).
    pub fn harvest_fits(&self) -> (r: bool)
        ensures
            r == self@.harvest_fits(),
    {
        let (g, v) = sown_fields(&self.outdoor);
        self.resources.wheat as u128 + g as u128 <= usize::MAX as u128
            && self.resources.vegetables as u128 + v as u128 <= usize::MAX as u128
    }

    /// Whether trimming a herd fits (see `PlayerView::trim_fits`).
    pub fn trim_fits(&self) -> (r: bool)
        ensures
            r == self@.trim_fits(),
    {
        combos_fit(self.pastures.len()) && (count_tiles(&self.outdoor, Tile::Meadow) == 0
            || self.dogs < usize::MAX)
    }

    /// Whether breeding fits (see `PlayerView::breed_fits`).
    pub fn breed_fits(&self) -> (r: bool)
        requires
            self@.wf(),
        ensures
            r == self@.breed_fits(),
    {
        let mut ok = self.trim_fits();
        let mut i: usize = 0;
        while i < 4
            invariant
                i <= 4,
                self@.animals.len() == 4,
                ok == (self@.trim_fits() && forall|k: int|
                    0 <= k < i && self@.animals[k] >= 2 ==> #[trigger] self@.animals[k] + 1
                        <= usize::MAX),
            decreases 4 - i,
        {
            if self.animals[i] >= 2 && self.animals[i] == usize::MAX {
                ok = false;
            }
            i += 1;
        }
        ok
    }

    /// Whether the score fits (see `PlayerView::points_fit`).
    pub fn points_fit(&self) -> (r: bool)
        ensures
            r == self@.points_fit(),
    {
        let ghost p = self@;
        let (fw, fv) = field_crops(&self.outdoor);
        let wheat: i128 = self.resources.wheat as i128 + fw as i128;
        let veg: i128 = self.resources.vegetables as i128 + fv as i128;
        let crops: i128 = (wheat + 1) / 2 + veg;
        let animals: i128 = self.animals[0] as i128 + self.animals[1] as i128 + self.animals[2] as i128
            + self.animals[3] as i128;
        let up: i128 = self.dwarfs.len() as i128 + self.resources.gold as i128
            + self.resources.rubies as i128 + crops + self.dogs as i128 + animals;
        let dwellings = count_tiles(&self.indoor, Tile::Dwelling) as i128;
        let undeveloped: i128 = count_tiles(&self.outdoor, Tile::Forest) as i128 + count_tiles(
            &self.outdoor,
            Tile::Mountain,
        ) as i128 + count_tiles(&self.indoor, Tile::Forest) as i128 + count_tiles(
            &self.indoor,
            Tile::Mountain,
        ) as i128;
        let tiles: i128 = tile_points_sum(&self.outdoor) as i128 + tile_points_sum(&self.indoor) as i128;
        let missing = self.missing_kinds() as i128;
        let begging: i128 = self.resources.begging as i128 * 3;
        let total: i128 = up + (dwellings * 3 - 3) - tiles - begging - undeveloped - missing;
        assert(crops == (p.resources.wheat + field_wheat_upto(p.outdoor, 12) + 1) / 2
            + p.resources.vegetables + field_veg_upto(p.outdoor, 12));
        assert(total == p.points());
        let m = usize::MAX as i128;
        let imax = i32::MAX as i128;
        wheat + 1 <= m && crops <= m && animals <= m && self.dwarfs.len() as i128 <= imax
            && self.resources.gold as i128 <= imax && self.resources.rubies as i128 <= imax
            && crops <= imax && self.dogs as i128 <= imax && animals <= imax && begging <= imax
            && up <= imax && up + dwellings * 3 - 3 <= imax && total >= i32::MIN as i128
    }
}


impl Player {
    /// Whether taking `space` after `acc` untaken rounds fits (see
    /// `PlayerView::gains_fit`).
    pub fn gains_fit(&self, space: ActionSpace, acc: u32) -> (r: bool)
        requires
            self@.wf(),
        ensures
            r == self@.gains_fit(space, acc as int),
    {
        if !space.resources_fit(acc, &self.resources) || !space.animals_fit(acc, &self.animals) {
            return false;
        }
        let mut res1 = self.resources;
        space.gain_resources(acc, &mut res1);
        let m = usize::MAX as u128;
        let ore_mines = count_tiles(&self.indoor, Tile::OreMine) as u128;
        let ruby_mines = count_tiles(&self.indoor, Tile::RubyMine);
        let ore = match space {
            ActionSpace::OreMining | ActionSpace::OreDelivery => res1.coal as u128 + ore_mines * 2 <= m,
            _ => true,
        };
        let ruby = match space {
            ActionSpace::RubyMining => ruby_mines == 0 || res1.rubies < usize::MAX,
            ActionSpace::RubyDelivery => ruby_mines < 2 || res1.rubies < usize::MAX,
            _ => true,
        };
        let house = match space {
            ActionSpace::Housework => self.dogs < usize::MAX,
            _ => true,
        };
        ore && ruby && house
    }

    /// Whether the places the family needs stay at most `usize::MAX`.
    pub fn dwellings_fit(&self) -> (r: bool)
        ensures
            r == (self@.dwellings_needed() <= usize::MAX),
    {
        self.dwarfs.len() as u128 + self.children as u128 <= usize::MAX as u128
    }

    /// Whether taking loot item `i` fits (see `loot_fits`).
    pub fn loot_fits(&self, i: u16) -> (r: bool)
        requires
            self@.wf(),
        ensures
            r == crate::state::loot_fits(self@, i),
    {
        let r = &self.resources;
        let m = usize::MAX;
        if i == 1 {
            r.wood < m
        } else if i == 2 {
            self.dogs < m
        } else if i == 3 {
            r.wheat < m
        } else if i == 4 {
            self.animals[3] < m
        } else if i == 5 {
            r.stone < m
        } else if i == 6 {
            self.animals[2] < m
        } else if i == 7 {
            r.vegetables < m
        } else if i == 8 {
            r.coal as u128 + 2 <= m as u128
        } else if i == 9 {
            self.animals[1] < m
        } else {
            r.gold as u128 + 2 <= m as u128
        }
    }
}

} // verus!
