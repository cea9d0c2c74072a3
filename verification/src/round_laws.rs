//! Laws of a round's bookkeeping: what taking an animal space adds, what
//! breeding adds, what a dwelling is worth, and that trading goods for food
//! conserves their value.
use vstd::prelude::*;
use crate::action::ActionSpace;
use crate::board::{Tile, count_tile, is_tile, tile_points_upto};
use crate::farm_laws::{herd_size, houses, lemma_trim_is_largest, lemma_trim_keeps_at_most};
use crate::player::PlayerView;
use crate::state::StateView;

verus! {

/// Taking Donkey Farming after `r` untaken rounds adds exactly `1 + r`
/// donkeys, and Sheep Farming exactly `1 + r` sheep; every other kind of
/// animal, and every other action space, leaves the herd as it was.
pub proof fn lemma_farming_adds_animals(p: PlayerView, space: ActionSpace, r: int)
    requires
        p.animals.len() == 4,
        r >= 0,
        p.gains_fit(space, r),
    ensures
        p.with_gains(space, r).animals.len() == 4,
        forall|i: int|
            0 <= i < 4 ==> #[trigger] p.with_gains(space, r).animals[i] == p.animals[i] + (if (
            space is DonkeyFarming && i == 2) || (space is SheepFarming && i == 3) {
                1 + r
            } else {
                0
            }),
{
}

/// The herd of `p` with one more animal of every kind that has two or more.
pub open spec fn grown_herd(p: PlayerView) -> Seq<usize> {
    Seq::new(4, |i: int| (p.animals[i] + if p.animals[i] >= 2 { 1int } else { 0int }) as usize)
}

/// Before trimming, breeding adds exactly one animal to every kind with at
/// least two and leaves the others as they were.
pub proof fn lemma_breeding_adds_one(p: PlayerView)
    requires
        p.wf(),
        p.breed_fits(),
    ensures
        p.bred_animals().len() == 4,
        forall|i: int|
            0 <= i < 4 ==> #[trigger] p.bred_animals()[i] == p.animals[i] + if p.animals[i] >= 2 {
                1int
            } else {
                0int
            },
{
}

/// When the farm has room for the grown herd, breeding keeps all of it: a
/// kind with two or more animals ends with one more, the others as they were.
pub proof fn lemma_breeding_with_room(
    p: PlayerView,
    code: int,
    fixed: Seq<int>,
    pen: Seq<int>,
    free: Seq<int>,
)
    requires
        p.wf(),
        p.breed_fits(),
        houses(p, grown_herd(p), code, fixed, pen, free),
        forall|t: int| 0 <= t < 4 ==> #[trigger] fixed[t] + pen[t] + free[t] == grown_herd(p)[t],
    ensures
        p.bred().animals.len() == 4,
        forall|i: int|
            0 <= i < 4 ==> #[trigger] p.bred().animals[i] == p.animals[i] + if p.animals[i] >= 2 {
                1int
            } else {
                0int
            },
{
    let h = grown_herd(p);
    assert forall|i: int| 0 <= i < 4 implies #[trigger] h[i] == p.animals[i] + if p.animals[i] >= 2 {
        1int
    } else {
        0int
    } by {
        assert(p.animals[i] >= 2 ==> p.animals[i] + 1 <= usize::MAX);
    }
    lemma_breeding_adds_one(p);
    assert(p.bred_animals() =~= h);
    lemma_trim_keeps_at_most(p, h);
    lemma_trim_is_largest(p, h, code, fixed, pen, free);
    assert(fixed[0] + pen[0] + free[0] == h[0]);
    assert(fixed[1] + pen[1] + free[1] == h[1]);
    assert(fixed[2] + pen[2] + free[2] == h[2]);
    assert(fixed[3] + pen[3] + free[3] == h[3]);
    let t = p.trimmed(h);
    assert(herd_size(t) >= h[0] + h[1] + h[2] + h[3]);
    assert(t[0] == h[0] && t[1] == h[1] && t[2] == h[2] && t[3] == h[3]);
}

/// Replacing cell `i` of a board by `x` changes the count of tile `t` by
/// whether `x` is `t`, less whether the old tile was.
pub proof fn lemma_count_update(b: Seq<Tile>, i: int, x: Tile, t: Tile)
    requires
        0 <= i < b.len(),
    ensures
        count_tile(b.update(i, x), t) + (if b[i] == t { 1int } else { 0int }) == count_tile(b, t)
            + (if x == t { 1int } else { 0int }),
{
    let pre = b.take(i);
    let post = b.skip(i + 1);
    let p = is_tile(t);
    assert(b =~= pre + seq![b[i]] + post);
    assert(b.update(i, x) =~= pre + seq![x] + post);
    Seq::filter_distributes_over_add(pre + seq![b[i]], post, p);
    Seq::filter_distributes_over_add(pre, seq![b[i]], p);
    Seq::filter_distributes_over_add(pre + seq![x], post, p);
    Seq::filter_distributes_over_add(pre, seq![x], p);
    Seq::<Tile>::empty().lemma_filter_push(b[i], p);
    Seq::<Tile>::empty().lemma_filter_push(x, p);
    assert(Seq::<Tile>::empty().push(b[i]) =~= seq![b[i]]);
    assert(Seq::<Tile>::empty().push(x) =~= seq![x]);
    assert(Seq::<Tile>::empty().filter(p) =~= Seq::<Tile>::empty());
}

/// Replacing cell `i` by a tile of the same points keeps the points of the
/// tiles among the first `n` cells.
proof fn lemma_tile_points_update(b: Seq<Tile>, i: int, x: Tile, n: nat)
    requires
        0 <= i < b.len(),
        n <= b.len(),
        b[i].points() == x.points(),
    ensures
        tile_points_upto(b.update(i, x), n) == tile_points_upto(b, n),
    decreases n,
{
    if n > 0 {
        lemma_tile_points_update(b, i, x, (n - 1) as nat);
    }
}

/// Changing one cave of the indoor board into a dwelling, all else equal,
/// raises the player's points by exactly three.
pub proof fn lemma_dwelling_adds_three(p: PlayerView, i: int)
    requires
        p.indoor.len() == 12,
        0 <= i < 12,
        p.indoor[i] == Tile::Cave,
    ensures
        (PlayerView { indoor: p.indoor.update(i, Tile::Dwelling), ..p }).points() == p.points() + 3,
{
    let b = p.indoor;
    let nb = b.update(i, Tile::Dwelling);
    lemma_count_update(b, i, Tile::Dwelling, Tile::Dwelling);
    lemma_count_update(b, i, Tile::Dwelling, Tile::Forest);
    lemma_count_update(b, i, Tile::Dwelling, Tile::Mountain);
    lemma_tile_points_update(b, i, Tile::Dwelling, 12);
    assert(count_tile(nb, Tile::Dwelling) == count_tile(b, Tile::Dwelling) + 1);
    assert(count_tile(nb, Tile::Forest) == count_tile(b, Tile::Forest));
    assert(count_tile(nb, Tile::Mountain) == count_tile(b, Tile::Mountain));
}

/// One more gold raises the points by one; one more begging marker lowers
/// them by three.
pub proof fn lemma_gold_and_begging_points(p: PlayerView)
    requires
        p.resources.gold < usize::MAX,
        p.resources.begging < usize::MAX,
    ensures
        (PlayerView {
            resources: crate::resources::Resources { gold: (p.resources.gold + 1) as usize, ..p.resources },
            ..p
        }).points() == p.points() + 1,
        (PlayerView {
            resources: crate::resources::Resources {
                begging: (p.resources.begging + 1) as usize,
                ..p.resources
            },
            ..p
        }).points() == p.points() - 3,
{
}

/// The food a good pays per unit: sheep 1, boar 2, cattle 3, a single
/// donkey 1, a pair of donkeys 3, grain 1, vegetable 2, ruby 2.
pub open spec fn food_rate(good: u8) -> int {
    if good == 1 || good == 6 || good == 7 {
        2
    } else if good == 2 || good == 4 {
        3
    } else {
        1
    }
}

/// Whether `q` is player `p` after trading `n` units of good `good` at a
/// fair price: exactly `n` units (two donkeys per unit for a pair) leave
/// the stock, exactly the rate of the good times `n` is added to the food,
/// and nothing else changes.
pub open spec fn fair_trade(p: PlayerView, q: PlayerView, good: u8, n: int) -> bool {
    let kind = if good == 0 {
        3int
    } else if good == 1 {
        1int
    } else if good == 2 {
        0int
    } else if good == 3 || good == 4 {
        2int
    } else {
        -1int
    };
    let units = if good == 4 {
        2 * n
    } else {
        n
    };
    &&& q.resources.food == p.resources.food + food_rate(good) * n
    &&& q.animals.len() == 4
    &&& forall|k: int|
        0 <= k < 4 ==> #[trigger] q.animals[k] == p.animals[k] - if k == kind {
            units
        } else {
            0
        }
    &&& q.resources.wheat == p.resources.wheat - if good == 5 { n } else { 0 }
    &&& q.resources.vegetables == p.resources.vegetables - if good == 6 { n } else { 0 }
    &&& q.resources.rubies == p.resources.rubies - if good == 7 { n } else { 0 }
    &&& q.resources.wood == p.resources.wood
    &&& q.resources.stone == p.resources.stone
    &&& q.resources.coal == p.resources.coal
    &&& q.resources.gold == p.resources.gold
    &&& q.resources.begging == p.resources.begging
    &&& q.dwarfs == p.dwarfs && q.children == p.children && q.dogs == p.dogs
    &&& q.outdoor == p.outdoor && q.indoor == p.indoor && q.pastures == p.pastures
}

/// Whether player `p` holds `n` units of good `good` (a pair of donkeys
/// per unit of good 4).
pub open spec fn holds_units(p: PlayerView, good: u8, n: int) -> bool {
    &&& good == 0 ==> n <= p.animals[3]
    &&& good == 1 ==> n <= p.animals[1]
    &&& good == 2 ==> n <= p.animals[0]
    &&& good == 3 ==> n <= p.animals[2]
    &&& good == 4 ==> 2 * n <= p.animals[2]
    &&& good == 5 ==> n <= p.resources.wheat
    &&& good == 6 ==> n <= p.resources.vegetables
    &&& good == 7 ==> n <= p.resources.rubies
}

/// Every trade conserves value: trading `n` units of a good the player
/// holds takes exactly those units from the stock, adds exactly the rate of
/// the good times `n` to the food, and changes nothing else, of the trader
/// or of any other player.
pub proof fn lemma_trade_conserves_value(s: StateView, pi: int, good: u8, n: int)
    requires
        0 <= pi < s.players.len(),
        s.players[pi].animals.len() == 4,
        good < 8,
        0 <= n,
        s.players[pi].resources.food + food_rate(good) * n <= usize::MAX,
        holds_units(s.players[pi], good, n),
    ensures
        fair_trade(s.players[pi], s.traded(pi, good, n).players[pi], good, n),
        s.traded(pi, good, n).players.len() == s.players.len(),
        forall|j: int|
            0 <= j < s.players.len() && j != pi ==> #[trigger] s.traded(pi, good, n).players[j]
                == s.players[j],
{
    assert(food_rate(good) == crate::turn::trade_food(good));
}

/// Whether position `c` is player `pi` of `s` trading one unit up to the
/// number offered of some good `g < m`, for a food gap `gap`.
pub open spec fn trade_among(s: StateView, pi: int, gap: int, m: nat, c: StateView) -> bool {
    exists|g: u8, n: int|
        #![trigger s.traded(pi, g, n)]
        g < m && 1 <= n <= crate::turn::trade_count(s.players[pi], g, gap) && c == s.traded(pi, g, n)
}

/// Whether `q` is player `p` after a fair trade of at least one unit of a
/// good that `p` holds.
pub open spec fn fair_move(p: PlayerView, q: PlayerView) -> bool {
    exists|g: u8, n: int|
        #![trigger fair_trade(p, q, g, n)]
        g < 8 && n >= 1 && holds_units(p, g, n) && fair_trade(p, q, g, n)
}

/// The trades of goods `0..m` are trades of some good `g < m`, of one unit
/// up to the number offered.
proof fn lemma_trades_upto_shape(s: StateView, pi: int, gap: int, m: nat)
    requires
        m <= 8,
        gap >= 0,
    ensures
        forall|k: int|
            0 <= k < s.trades_upto(pi, gap, m).len() ==> #[trigger] trade_among(
                s,
                pi,
                gap,
                m,
                s.trades_upto(pi, gap, m)[k],
            ),
    decreases m,
{
    if m > 0 {
        let prev = (m - 1) as nat;
        lemma_trades_upto_shape(s, pi, gap, prev);
        let g = prev as u8;
        assert(g == prev);
        let a = s.trades_upto(pi, gap, prev);
        let c = crate::turn::trade_count(s.players[pi], g, gap);
        assert(c >= 0);
        let b = s.trades(pi, g, c);
        assert(b.len() == c);
        assert(s.trades_upto(pi, gap, m) == a + b);
        assert forall|k: int| 0 <= k < s.trades_upto(pi, gap, m).len() implies #[trigger] trade_among(
            s,
            pi,
            gap,
            m,
            s.trades_upto(pi, gap, m)[k],
        ) by {
            if k < a.len() {
                assert(s.trades_upto(pi, gap, m)[k] == a[k]);
                assert(trade_among(s, pi, gap, prev, a[k]));
                let (g2, n) = choose|g2: u8, n: int|
                    #![trigger s.traded(pi, g2, n)]
                    g2 < prev && 1 <= n <= crate::turn::trade_count(s.players[pi], g2, gap)
                        && a[k] == s.traded(pi, g2, n);
                assert(g2 < m && 1 <= n <= crate::turn::trade_count(s.players[pi], g2, gap)
                    && s.trades_upto(pi, gap, m)[k] == s.traded(pi, g2, n));
            } else {
                let j = k - a.len();
                assert(s.trades_upto(pi, gap, m)[k] == b[j]);
                assert(b[j] == s.traded(pi, g, j + 1));
                assert(g < m && 1 <= j + 1 <= crate::turn::trade_count(s.players[pi], g, gap)
                    && s.trades_upto(pi, gap, m)[k] == s.traded(pi, g, j + 1));
            }
        }
    }
}

/// Every trading move but the first, which passes, is a fair trade of at
/// least one unit of a good the trader holds, and leaves every other player
/// as they were.
pub proof fn lemma_trade_moves_are_fair(s: StateView, pi: int)
    requires
        s.shape(),
        0 <= pi < s.players.len(),
        crate::turn::trade_fits(s.players[pi]),
    ensures
        forall|k: int|
            1 <= k < s.trade_children(pi).len() ==> #[trigger] fair_move(
                s.players[pi],
                s.trade_children(pi)[k].players[pi],
            ) && s.trade_children(pi)[k].players.len() == s.players.len() && forall|j: int|
                0 <= j < s.players.len() && j != pi ==> #[trigger] s.trade_children(pi)[k].players[j]
                    == s.players[j],
{
    let p = s.players[pi];
    assert(p.wf());
    let gap = s.food_gap(pi);
    let cs = s.trade_children(pi);
    if gap > 0 {
        let ts = s.trades_upto(pi, gap, 8);
        assert(cs == seq![s.trade_done()] + ts);
        lemma_trades_upto_shape(s, pi, gap, 8);
        assert(gap == crate::turn::trade_gap(p));
        assert forall|k: int| 1 <= k < cs.len() implies #[trigger] fair_move(p, cs[k].players[pi])
            && cs[k].players.len() == s.players.len() && forall|j: int|
            0 <= j < s.players.len() && j != pi ==> #[trigger] cs[k].players[j] == s.players[j] by {
            assert(cs[k] == ts[k - 1]);
            assert(trade_among(s, pi, gap, 8, ts[k - 1]));
            let (g, n) = choose|g: u8, n: int|
                #![trigger s.traded(pi, g, n)]
                g < 8 && 1 <= n <= crate::turn::trade_count(p, g, gap) && ts[k - 1]
                    == s.traded(pi, g, n);
            let c = crate::turn::trade_count(p, g, gap);
            assert(holds_units(p, g, n));
            assert(p.resources.food + crate::turn::trade_food(g) * c <= usize::MAX);
            assert(food_rate(g) == crate::turn::trade_food(g));
            assert(food_rate(g) * n <= food_rate(g) * c) by (nonlinear_arith)
                requires
                    n <= c,
                    food_rate(g) >= 0,
            ;
            lemma_trade_conserves_value(s, pi, g, n);
            assert(fair_trade(p, cs[k].players[pi], g, n));
        }
    } else {
        assert(cs.len() == 1);
    }
}

/// Replacing cell `i` by `x` moves the points of the tiles among the first
/// `n` cells by the difference of the two tiles' points, once `n` passes `i`.
proof fn lemma_tile_points_shift(b: Seq<Tile>, i: int, x: Tile, n: nat)
    requires
        0 <= i < b.len(),
        n <= b.len(),
    ensures
        tile_points_upto(b.update(i, x), n) == tile_points_upto(b, n) + if i < n {
            x.points() - b[i].points()
        } else {
            0
        },
    decreases n,
{
    if n > 0 {
        lemma_tile_points_shift(b, i, x, (n - 1) as nat);
    }
}

/// Whether a tile is an undeveloped cell: forest or mountain.
pub open spec fn undeveloped(t: Tile) -> int {
    if t == Tile::Forest || t == Tile::Mountain {
        1
    } else {
        0
    }
}

/// Replacing indoor cell `i` by tile `y`, all else equal, moves the points
/// by three for each dwelling gained, less the points the new tile costs
/// over the old one, plus one when an undeveloped cell is developed.
pub proof fn lemma_indoor_tile_points(p: PlayerView, i: int, y: Tile)
    requires
        p.indoor.len() == 12,
        0 <= i < 12,
    ensures
        ({
            let x = p.indoor[i];
            (PlayerView { indoor: p.indoor.update(i, y), ..p }).points() == p.points() + 3 * ((if y
                == Tile::Dwelling {
                1int
            } else {
                0int
            }) - (if x == Tile::Dwelling {
                1int
            } else {
                0int
            })) - (y.points() - x.points()) - (undeveloped(y) - undeveloped(x))
        }),
{
    let b = p.indoor;
    lemma_count_update(b, i, y, Tile::Dwelling);
    lemma_count_update(b, i, y, Tile::Forest);
    lemma_count_update(b, i, y, Tile::Mountain);
    lemma_tile_points_shift(b, i, y, 12);
}

/// Each point of the score moves as its rule says: one more dwarf, gold,
/// ruby, vegetable or dog is one more point, two more grain are one more
/// point, one more begging marker is three points less, and one more animal
/// is one more point, two when the player had none of that kind.
pub proof fn lemma_points_increments(p: PlayerView, k: int)
    requires
        p.animals.len() == 4,
        0 <= k < 4,
        p.animals[k] < usize::MAX,
        p.resources.rubies < usize::MAX,
        p.resources.vegetables < usize::MAX,
        p.resources.wheat + 2 <= usize::MAX,
        p.dogs < usize::MAX,
    ensures
        (PlayerView { dwarfs: p.dwarfs.push(crate::player::fresh_dwarf()), ..p }).points() == p.points()
            + 1,
        (PlayerView {
            resources: crate::resources::Resources { rubies: (p.resources.rubies + 1) as usize, ..p.resources },
            ..p
        }).points() == p.points() + 1,
        (PlayerView {
            resources: crate::resources::Resources {
                vegetables: (p.resources.vegetables + 1) as usize,
                ..p.resources
            },
            ..p
        }).points() == p.points() + 1,
        (PlayerView {
            resources: crate::resources::Resources { wheat: (p.resources.wheat + 2) as usize, ..p.resources },
            ..p
        }).points() == p.points() + 1,
        (PlayerView { dogs: (p.dogs + 1) as usize, ..p }).points() == p.points() + 1,
        (PlayerView { animals: p.animals.update(k, (p.animals[k] + 1) as usize), ..p }).points()
            == p.points() + if p.animals[k] == 0 {
            2int
        } else {
            1int
        },
{
    let q = PlayerView { animals: p.animals.update(k, (p.animals[k] + 1) as usize), ..p };
    assert(q.animal_total() == p.animal_total() + 1);
    assert(q.missing_kinds() == p.missing_kinds() - if p.animals[k] == 0 {
        1int
    } else {
        0int
    });
}


/// The number of goods that gather on `space` for each round it is left
/// untaken: two on Ore Delivery (stone and coal), one on each other space
/// that gathers goods or animals, none elsewhere.
pub open spec fn gathering(space: ActionSpace) -> int {
    match space {
        ActionSpace::OreDelivery => 2,
        ActionSpace::Logging | ActionSpace::WoodGathering | ActionSpace::Clearing
        | ActionSpace::StartingPlayer | ActionSpace::Sustenance | ActionSpace::DriftMining
        | ActionSpace::Excavation | ActionSpace::OreMining | ActionSpace::RubyMining
        | ActionSpace::RubyDelivery | ActionSpace::SheepFarming | ActionSpace::DonkeyFarming => 1,
        _ => 0,
    }
}

/// Every good, animal and dog a player holds, counted together.
pub open spec fn holdings(q: PlayerView) -> int {
    q.resources.wood + q.resources.stone + q.resources.coal + q.resources.rubies + q.resources.food
        + q.resources.wheat + q.resources.vegetables + q.resources.gold + q.animals[0]
        + q.animals[1] + q.animals[2] + q.animals[3] + q.dogs
}

/// Taking an action space never takes a good away, never adds a begging
/// marker, and every round the space was left untaken adds exactly the goods
/// that gather on it.
pub proof fn lemma_gains_gather(p: PlayerView, space: ActionSpace, r: int)
    requires
        p.animals.len() == 4,
        r >= 0,
        p.gains_fit(space, r),
        p.gains_fit(space, r + 1),
    ensures
        ({
            let q = p.with_gains(space, r);
            &&& q.resources.wood >= p.resources.wood
            &&& q.resources.stone >= p.resources.stone
            &&& q.resources.coal >= p.resources.coal
            &&& q.resources.rubies >= p.resources.rubies
            &&& q.resources.food >= p.resources.food
            &&& q.resources.wheat >= p.resources.wheat
            &&& q.resources.vegetables >= p.resources.vegetables
            &&& q.resources.gold >= p.resources.gold
            &&& q.resources.begging == p.resources.begging
            &&& q.dogs >= p.dogs
            &&& q.animals.len() == 4
            &&& forall|k: int| 0 <= k < 4 ==> #[trigger] q.animals[k] >= p.animals[k]
        }),
        holdings(p.with_gains(space, r + 1)) == holdings(p.with_gains(space, r)) + gathering(space),
{
}


/// Replacing a cell that holds no field by another tile that is no field
/// keeps the crops standing on the first `n` cells.
proof fn lemma_crops_update(b: Seq<Tile>, i: int, y: Tile, n: nat)
    requires
        0 <= i < b.len(),
        n <= b.len(),
        !(b[i] is Field),
        !(y is Field),
    ensures
        crate::board::field_wheat_upto(b.update(i, y), n) == crate::board::field_wheat_upto(b, n),
        crate::board::field_veg_upto(b.update(i, y), n) == crate::board::field_veg_upto(b, n),
    decreases n,
{
    if n > 0 {
        lemma_crops_update(b, i, y, (n - 1) as nat);
    }
}

/// Replacing an outdoor cell that holds no field by another tile that is no
/// field, all else equal, costs the points the new tile costs over the old
/// one, and gains one when an undeveloped cell is developed.
pub proof fn lemma_outdoor_tile_points(p: PlayerView, i: int, y: Tile)
    requires
        p.outdoor.len() == 12,
        0 <= i < 12,
        !(p.outdoor[i] is Field),
        !(y is Field),
    ensures
        ({
            let x = p.outdoor[i];
            (PlayerView { outdoor: p.outdoor.update(i, y), ..p }).points() == p.points() - (y.points()
                - x.points()) - (undeveloped(y) - undeveloped(x))
        }),
{
    let b = p.outdoor;
    lemma_count_update(b, i, y, Tile::Forest);
    lemma_count_update(b, i, y, Tile::Mountain);
    lemma_tile_points_shift(b, i, y, 12);
    lemma_crops_update(b, i, y, 12);
}

/// The goods, animals and dogs that taking `space` at once, with no round
/// gone untaken, adds: three wood for Logging; one wood for Wood Gathering
/// and Clearing; a wood, a stone, a coal, a food and two gold for Supplies;
/// two coal and a food for Starting Player; a grain and a food for
/// Sustenance; a stone for Drift Mining and Excavation; two coal for Ore
/// Mining, with two more per ore mine; a ruby for Ruby Mining, one more with
/// a ruby mine; a stone and a coal for Ore Delivery, with two more coal per
/// ore mine; two rubies for Ruby Delivery, one more with two ruby mines; a
/// dog for Housework; a sheep or a donkey for the farming spaces.
pub open spec fn first_take(p: PlayerView, space: ActionSpace) -> int {
    let ore = count_tile(p.indoor, Tile::OreMine) as int;
    let ruby = count_tile(p.indoor, Tile::RubyMine) as int;
    match space {
        ActionSpace::Logging => 3,
        ActionSpace::WoodGathering | ActionSpace::Clearing => 1,
        ActionSpace::Supplies => 6,
        ActionSpace::StartingPlayer => 3,
        ActionSpace::Sustenance => 2,
        ActionSpace::DriftMining | ActionSpace::Excavation => 1,
        ActionSpace::OreMining => 2 + 2 * ore,
        ActionSpace::RubyMining => 1 + if ruby > 0 {
            1int
        } else {
            0int
        },
        ActionSpace::OreDelivery => 2 + 2 * ore,
        ActionSpace::RubyDelivery => 2 + if ruby >= 2 {
            1int
        } else {
            0int
        },
        ActionSpace::Housework => 1,
        ActionSpace::SheepFarming | ActionSpace::DonkeyFarming => 1,
        _ => 0,
    }
}

/// Taking `space` after `r` untaken rounds adds to the player's holdings
/// what taking it at once adds, plus what gathered on it in those rounds.
pub proof fn lemma_gains_total(p: PlayerView, space: ActionSpace, r: int)
    requires
        p.animals.len() == 4,
        r >= 0,
        p.gains_fit(space, r),
    ensures
        holdings(p.with_gains(space, r)) == holdings(p) + first_take(p, space) + gathering(space) * r,
{
}

} // verus!
