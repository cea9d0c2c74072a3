//! Describing a move for the reader: what the moving player gained and lost,
//! and the step that was played; and the text of a player's farm.
use vstd::prelude::*;
use vstd::string::StringExecFns;
use crate::action::ActionSpace;
use crate::board::Tile;
use crate::player::{Dwarf, Player, PlayerView};
use crate::resources::Resources;
use crate::state::{State, StateView, SubAction};
use crate::text::{decimal, join, join_texts, push_decimal, push_text, signed_diff, signed_text, texts};

verus! {

/// The change of one count, named `name`: none when it did not change.
pub open spec fn delta_part(before: int, after: int, name: Seq<char>) -> Seq<Seq<char>> {
    if after == before {
        Seq::empty()
    } else {
        seq![signed_text(after - before) + " "@ + name]
    }
}

/// The changes of the goods, in the order wood, stone, coal, rubies, food,
/// grain, vegetables, gold; then the begging markers gained.
pub open spec fn resource_delta_spec(before: Resources, after: Resources) -> Seq<Seq<char>> {
    delta_part(before.wood as int, after.wood as int, "wood"@) + delta_part(
        before.stone as int,
        after.stone as int,
        "stone"@,
    ) + delta_part(before.coal as int, after.coal as int, "coal"@) + delta_part(
        before.rubies as int,
        after.rubies as int,
        "rubies"@,
    ) + delta_part(before.food as int, after.food as int, "food"@) + delta_part(
        before.wheat as int,
        after.wheat as int,
        "wheat"@,
    ) + delta_part(before.vegetables as int, after.vegetables as int, "veg"@) + delta_part(
        before.gold as int,
        after.gold as int,
        "gold"@,
    ) + if after.begging > before.begging {
        seq!["+"@ + decimal((after.begging - before.begging) as nat) + " begging"@]
    } else {
        Seq::empty()
    }
}

/// The changes of the animals, in the order cattle, boar, donkeys, sheep;
/// then of the dogs.
pub open spec fn animal_delta_spec(before: Seq<usize>, after: Seq<usize>, dogs_before: usize, dogs_after: usize) -> Seq<
    Seq<char>,
> {
    delta_part(before[0] as int, after[0] as int, "cow"@) + delta_part(
        before[1] as int,
        after[1] as int,
        "boar"@,
    ) + delta_part(before[2] as int, after[2] as int, "donkey"@) + delta_part(
        before[3] as int,
        after[3] as int,
        "sheep"@,
    ) + delta_part(dogs_before as int, dogs_after as int, "dog"@)
}

/// Appends the change of one count.
fn push_delta(parts: &mut Vec<String>, before: usize, after: usize, name: &str)
    ensures
        texts(final(parts)@) == texts(old(parts)@) + delta_part(before as int, after as int, name@),
{
    if before != after {
        let mut t = signed_diff(before, after);
        t.append(" ");
        t.append(name);
        push_text(parts, t);
    } else {
        assert(texts(parts@) =~= texts(old(parts)@) + delta_part(before as int, after as int, name@));
    }
}

/// The changes of the goods between two stocks (see `resource_delta_spec`).
pub fn resource_delta_parts(before: &Resources, after: &Resources) -> (r: Vec<String>)
    ensures
        texts(r@) == resource_delta_spec(*before, *after),
{
    let mut parts: Vec<String> = Vec::new();
    assert(texts(parts@) =~= Seq::<Seq<char>>::empty());
    push_delta(&mut parts, before.wood, after.wood, "wood");
    push_delta(&mut parts, before.stone, after.stone, "stone");
    push_delta(&mut parts, before.coal, after.coal, "coal");
    push_delta(&mut parts, before.rubies, after.rubies, "rubies");
    push_delta(&mut parts, before.food, after.food, "food");
    push_delta(&mut parts, before.wheat, after.wheat, "wheat");
    push_delta(&mut parts, before.vegetables, after.vegetables, "veg");
    push_delta(&mut parts, before.gold, after.gold, "gold");
    if after.begging > before.begging {
        let mut t = String::new();
        t.append("+");
        push_decimal(&mut t, after.begging - before.begging);
        t.append(" begging");
        push_text(&mut parts, t);
    }
    assert(texts(parts@) =~= resource_delta_spec(*before, *after));
    parts
}

/// The changes of the animals and dogs (see `animal_delta_spec`).
pub fn animal_delta_parts(
    before: &[usize; 4],
    after: &[usize; 4],
    dogs_before: usize,
    dogs_after: usize,
) -> (r: Vec<String>)
    ensures
        texts(r@) == animal_delta_spec(before@, after@, dogs_before, dogs_after),
{
    let mut parts: Vec<String> = Vec::new();
    assert(texts(parts@) =~= Seq::<Seq<char>>::empty());
    push_delta(&mut parts, before[0], after[0], "cow");
    push_delta(&mut parts, before[1], after[1], "boar");
    push_delta(&mut parts, before[2], after[2], "donkey");
    push_delta(&mut parts, before[3], after[3], "sheep");
    push_delta(&mut parts, dogs_before, dogs_after, "dog");
    assert(texts(parts@) =~= animal_delta_spec(before@, after@, dogs_before, dogs_after));
    parts
}

/// The weapons forged among the first `n` dwarfs, by dwarf number from 1.
pub open spec fn weapon_parts(nd: Seq<Dwarf>, od: Seq<Dwarf>, n: nat) -> Seq<Seq<char>>
    decreases n,
{
    if n == 0 {
        Seq::empty()
    } else {
        weapon_parts(nd, od, (n - 1) as nat) + if nd[n - 1].weapon > od[n - 1].weapon {
            seq!["dwarf "@ + decimal(n) + " forged weapon "@ + decimal(nd[n - 1].weapon as nat)]
        } else {
            Seq::empty()
        }
    }
}

/// The smaller of two lengths.
pub open spec fn min_nat(a: nat, b: nat) -> nat {
    if a <= b {
        a
    } else {
        b
    }
}

/// What a player gained and lost in a move: goods, animals, forged
/// weapons, children and dwarfs.
pub open spec fn move_parts(p_old: PlayerView, p_new: PlayerView) -> Seq<Seq<char>> {
    resource_delta_spec(p_old.resources, p_new.resources) + animal_delta_spec(
        p_old.animals,
        p_new.animals,
        p_old.dogs,
        p_new.dogs,
    ) + weapon_parts(p_new.dwarfs, p_old.dwarfs, min_nat(p_new.dwarfs.len(), p_old.dwarfs.len()))
        + (if p_new.children > p_old.children {
        seq!["+"@ + decimal((p_new.children - p_old.children) as nat) + " child"@]
    } else {
        Seq::empty()
    }) + if p_new.dwarfs.len() > p_old.dwarfs.len() {
        seq!["+"@ + decimal((p_new.dwarfs.len() - p_old.dwarfs.len()) as nat) + " dwarf"@]
    } else {
        Seq::empty()
    }
}

/// The gains in brackets after a space, or nothing when there are none.
pub open spec fn gains_text(parts: Seq<Seq<char>>) -> Seq<char> {
    if parts.len() == 0 {
        Seq::empty()
    } else {
        " ("@ + join(parts, ", "@) + ")"@
    }
}

/// The space on which the first of the first `n` dwarfs that was not placed
/// before and is placed now stands.
pub open spec fn first_new_space(nd: Seq<Dwarf>, od: Seq<Dwarf>, n: nat) -> Option<ActionSpace>
    decreases n,
{
    if n == 0 {
        None
    } else {
        match first_new_space(nd, od, (n - 1) as nat) {
            Some(s) => Some(s),
            None => if nd[n - 1].placed_on is Some && od[n - 1].placed_on is None {
                nd[n - 1].placed_on
            } else {
                None
            },
        }
    }
}

/// The space the moving player newly took in a move, if any.
pub open spec fn new_space(p_old: PlayerView, p_new: PlayerView) -> Option<ActionSpace> {
    first_new_space(p_new.dwarfs, p_old.dwarfs, min_nat(p_new.dwarfs.len(), p_old.dwarfs.len()))
}

/// Whether a move from `state` to `next` can be described: the moving
/// player sits at both; the step is not the end of a round; and a move of
/// the action-space choice puts a dwarf on a space.
pub open spec fn describable(state: StateView, next: StateView) -> bool {
    let cur = state.current_player as int;
    &&& cur < state.players.len()
    &&& cur < next.players.len()
    &&& state.pending.len() > 0 ==> !(state.pending.last() is FinishRound)
    &&& state.pending.len() > 0 && state.pending.last() is SelectActionSpace ==> new_space(
        state.players[cur],
        next.players[cur],
    ) is Some
}

/// The text of the move from `state` to `next`: the step played (for the
/// action-space choice, the space taken), then the moving player's gains in
/// brackets; an expedition pick with no gain is a pass.
pub open spec fn describe_spec(state: StateView, next: StateView) -> Seq<char> {
    let cur = state.current_player as int;
    let parts = move_parts(state.players[cur], next.players[cur]);
    let gains = gains_text(parts);
    if state.pending.len() == 0 {
        "?"@
    } else {
        match state.pending.last() {
            SubAction::SelectActionSpace => match new_space(state.players[cur], next.players[cur]) {
                Some(s) => s.name_spec() + gains,
                None => Seq::empty(),
            },
            SubAction::ExpeditionPick { .. } => if parts.len() == 0 {
                "expedition pass"@
            } else {
                "expedition pick"@ + gains
            },
            SubAction::PlaceTile(_) => "place tile"@ + gains,
            SubAction::Pasture => "pasture"@ + gains,
            SubAction::Stable => "stable"@ + gains,
            SubAction::Furnish => "furnish"@ + gains,
            SubAction::Sow => "sow"@ + gains,
            SubAction::TradeFood { .. } => "trade food"@ + gains,
            SubAction::FinishRound => Seq::empty(),
        }
    }
}

/// Appends the forged weapons (see `weapon_parts`).
fn push_weapon_parts(parts: &mut Vec<String>, nd: &Vec<Dwarf>, od: &Vec<Dwarf>)
    ensures
        texts(final(parts)@) == texts(old(parts)@) + weapon_parts(
            nd@,
            od@,
            min_nat(nd@.len(), od@.len()),
        ),
{
    let n = if nd.len() <= od.len() {
        nd.len()
    } else {
        od.len()
    };
    let mut i: usize = 0;
    while i < n
        invariant
            i <= n,
            n == min_nat(nd@.len(), od@.len()),
            texts(parts@) == texts(old(parts)@) + weapon_parts(nd@, od@, i as nat),
        decreases n - i,
    {
        if nd[i].weapon > od[i].weapon {
            let mut t = String::new();
            t.append("dwarf ");
            push_decimal(&mut t, i + 1);
            t.append(" forged weapon ");
            push_decimal(&mut t, nd[i].weapon as usize);
            push_text(parts, t);
        }
        assert(texts(parts@) =~= texts(old(parts)@) + weapon_parts(nd@, od@, (i + 1) as nat));
        i += 1;
    }
}

/// Appends `"+d name"` when `after` exceeds `before` by `d`.
fn push_gain(parts: &mut Vec<String>, before: usize, after: usize, name: &str)
    ensures
        texts(final(parts)@) == texts(old(parts)@) + if after > before {
            seq!["+"@ + decimal((after - before) as nat) + name@]
        } else {
            Seq::<Seq<char>>::empty()
        },
{
    if after > before {
        let mut t = String::new();
        t.append("+");
        push_decimal(&mut t, after - before);
        t.append(name);
        push_text(parts, t);
    } else {
        assert(texts(parts@) =~= texts(old(parts)@));
    }
}

/// What a player gained and lost in a move (see `move_parts`).
pub fn player_move_parts(p_old: &Player, p_new: &Player) -> (r: Vec<String>)
    ensures
        texts(r@) == move_parts(p_old@, p_new@),
{
    let mut parts = resource_delta_parts(&p_old.resources, &p_new.resources);
    let mut animals = animal_delta_parts(&p_old.animals, &p_new.animals, p_old.dogs, p_new.dogs);
    let ghost a = texts(parts@);
    let ghost b = texts(animals@);
    parts.append(&mut animals);
    assert(texts(parts@) =~= a + b);
    push_weapon_parts(&mut parts, &p_new.dwarfs, &p_old.dwarfs);
    push_gain(&mut parts, p_old.children, p_new.children, " child");
    push_gain(&mut parts, p_old.dwarfs.len(), p_new.dwarfs.len(), " dwarf");
    parts
}

/// The space the moving player newly took (see `new_space`).
fn find_new_space(nd: &Vec<Dwarf>, od: &Vec<Dwarf>) -> (r: Option<ActionSpace>)
    ensures
        r == first_new_space(nd@, od@, min_nat(nd@.len(), od@.len())),
{
    let n = if nd.len() <= od.len() {
        nd.len()
    } else {
        od.len()
    };
    let mut i: usize = 0;
    while i < n
        invariant
            i <= n,
            n == min_nat(nd@.len(), od@.len()),
            first_new_space(nd@, od@, i as nat) is None,
        decreases n - i,
    {
        if nd[i].placed_on.is_some() && od[i].placed_on.is_none() {
            assert(first_new_space(nd@, od@, (i + 1) as nat) == nd@[i as int].placed_on);
            let r = nd[i].placed_on;
            proof {
                lemma_first_new_space_stays(nd@, od@, (i + 1) as nat, n as nat);
            }
            return r;
        }
        i += 1;
    }
    None
}

/// Once found, the first newly taken space stays the first.
proof fn lemma_first_new_space_stays(nd: Seq<Dwarf>, od: Seq<Dwarf>, i: nat, n: nat)
    requires
        i <= n,
        first_new_space(nd, od, i) is Some,
    ensures
        first_new_space(nd, od, n) == first_new_space(nd, od, i),
    decreases n - i,
{
    if i < n {
        lemma_first_new_space_stays(nd, od, i, (n - 1) as nat);
    }
}

/// Whether the move from `state` to `next` can be described (see `describable`).
pub fn can_describe(state: &State, next: &State) -> (r: bool)
    ensures
        r == describable(state@, next@),
{
    let current = state.current_player;
    if current >= state.players.len() || current >= next.players.len() {
        return false;
    }
    if state.pending.len() == 0 {
        return true;
    }
    let last = state.pending.len() - 1;
    assert(state@.pending.last() == state.pending@[last as int]);
    assert(state@.players[current as int] == state.players@[current as int]@);
    assert(next@.players[current as int] == next.players@[current as int]@);
    match &state.pending[last] {
        SubAction::FinishRound => false,
        SubAction::SelectActionSpace => find_new_space(
            &next.players[current].dwarfs,
            &state.players[current].dwarfs,
        ).is_some(),
        _ => true,
    }
}

/// The text of the move from `state` to `next` (see `describe_spec`).
pub fn describe_move(state: &State, next: &State) -> (r: String)
    requires
        describable(state@, next@),
    ensures
        r@ == describe_spec(state@, next@),
{
    let current = state.current_player;
    let p_old = &state.players[current];
    let p_new = &next.players[current];
    assert(state@.players[current as int] == p_old@);
    assert(next@.players[current as int] == p_new@);
    let parts = player_move_parts(p_old, p_new);
    let mut gains = String::new();
    if parts.len() > 0 {
        gains.append(" (");
        let joined = join_texts(&parts, ", ");
        gains.append(joined.as_str());
        gains.append(")");
    }
    assert(gains@ =~= gains_text(texts(parts@)));
    if state.pending.len() == 0 {
        return String::from_str("?");
    }
    let last = state.pending.len() - 1;
    assert(state@.pending.last() == state.pending@[last as int]);
    let mut r = String::new();
    match &state.pending[last] {
        SubAction::SelectActionSpace => {
            match find_new_space(&p_new.dwarfs, &p_old.dwarfs) {
                Some(s) => {
                    r.append(s.name());
                    r.append(gains.as_str());
                },
                None => {},
            }
        },
        SubAction::ExpeditionPick { .. } => {
            if parts.len() == 0 {
                r.append("expedition pass");
            } else {
                r.append("expedition pick");
                r.append(gains.as_str());
            }
        },
        SubAction::PlaceTile(_) => {
            r.append("place tile");
            r.append(gains.as_str());
        },
        SubAction::Pasture => {
            r.append("pasture");
            r.append(gains.as_str());
        },
        SubAction::Stable => {
            r.append("stable");
            r.append(gains.as_str());
        },
        SubAction::Furnish => {
            r.append("furnish");
            r.append(gains.as_str());
        },
        SubAction::Sow => {
            r.append("sow");
            r.append(gains.as_str());
        },
        SubAction::TradeFood { .. } => {
            r.append("trade food");
            r.append(gains.as_str());
        },
        SubAction::FinishRound => {},
    }
    r
}


/// The two-letter symbol of a tile on the printed farm.
pub open spec fn tile_symbol_spec(tile: Tile) -> Seq<char> {
    match tile {
        Tile::Forest => ".."@,
        Tile::ForestStable => ".s"@,
        Tile::Meadow => "Me"@,
        Tile::MeadowStable => "Ms"@,
        Tile::Pasture => "Pa"@,
        Tile::PastureStable => "Ps"@,
        Tile::Field(w, v) => if w == 0 && v == 0 {
            "Fd"@
        } else if w > 0 {
            "Fw"@
        } else {
            "Fv"@
        },
        Tile::Mountain => "~~"@,
        Tile::Tunnel => "Tu"@,
        Tile::DeepTunnel => "Dt"@,
        Tile::OreMine => "Om"@,
        Tile::RubyMine => "Rm"@,
        Tile::Cave => "Cv"@,
        Tile::Dwelling => "Dw"@,
    }
}

/// The two-letter symbol of a tile (see `tile_symbol_spec`).
pub fn tile_symbol(tile: Tile) -> (r: &'static str)
    ensures
        r@ == tile_symbol_spec(tile),
{
    match tile {
        Tile::Forest => "..",
        Tile::ForestStable => ".s",
        Tile::Meadow => "Me",
        Tile::MeadowStable => "Ms",
        Tile::Pasture => "Pa",
        Tile::PastureStable => "Ps",
        Tile::Field(w, v) => if w == 0 && v == 0 {
            "Fd"
        } else if w > 0 {
            "Fw"
        } else {
            "Fv"
        },
        Tile::Mountain => "~~",
        Tile::Tunnel => "Tu",
        Tile::DeepTunnel => "Dt",
        Tile::OreMine => "Om",
        Tile::RubyMine => "Rm",
        Tile::Cave => "Cv",
        Tile::Dwelling => "Dw",
    }
}

/// Row `y` of a board: the symbols of its three cells, space separated.
pub open spec fn row_text(b: Seq<Tile>, y: int) -> Seq<char> {
    tile_symbol_spec(b[3 * y]) + " "@ + tile_symbol_spec(b[3 * y + 1]) + " "@ + tile_symbol_spec(
        b[3 * y + 2],
    )
}

/// A count with its name when it is not zero.
pub open spec fn count_part(n: usize, name: Seq<char>) -> Seq<Seq<char>> {
    if n > 0 {
        seq![decimal(n as nat) + " "@ + name]
    } else {
        Seq::empty()
    }
}

/// What a player holds: the goods, the animals and the dogs that are not
/// zero, each with its count.
pub open spec fn stock_spec(p: PlayerView) -> Seq<Seq<char>> {
    let r = p.resources;
    count_part(r.wood, "wood"@) + count_part(r.stone, "stone"@) + count_part(r.coal, "coal"@)
        + count_part(r.rubies, "ruby"@) + count_part(r.food, "food"@) + count_part(
        r.wheat,
        "wheat"@,
    ) + count_part(r.vegetables, "veg"@) + count_part(r.gold, "gold"@) + count_part(
        p.animals[0],
        "cow"@,
    ) + count_part(p.animals[1], "boar"@) + count_part(p.animals[2], "donkey"@) + count_part(
        p.animals[3],
        "sheep"@,
    ) + count_part(p.dogs, "dog"@)
}

/// The lines of a player's farm: each of the four rows of the outdoor and
/// the indoor board side by side, then what the player holds, if anything.
pub open spec fn farm_lines_spec(p: PlayerView) -> Seq<Seq<char>> {
    Seq::new(4, |y: int| "    "@ + row_text(p.outdoor, y) + " | "@ + row_text(p.indoor, y)) + if stock_spec(
        p,
    ).len() > 0 {
        seq!["    "@ + join(stock_spec(p), ", "@)]
    } else {
        Seq::empty()
    }
}

/// Appends row `y` of a board.
fn push_row(s: &mut String, b: &[Tile; 12], y: usize)
    requires
        y < 4,
    ensures
        final(s)@ == old(s)@ + row_text(b@, y as int),
{
    s.append(tile_symbol(b[3 * y]));
    s.append(" ");
    s.append(tile_symbol(b[3 * y + 1]));
    s.append(" ");
    s.append(tile_symbol(b[3 * y + 2]));
    assert(final(s)@ =~= old(s)@ + row_text(b@, y as int));
}

/// Appends a count with its name when it is not zero.
fn push_count(parts: &mut Vec<String>, n: usize, name: &str)
    ensures
        texts(final(parts)@) == texts(old(parts)@) + count_part(n, name@),
{
    if n > 0 {
        let mut t = String::new();
        push_decimal(&mut t, n);
        t.append(" ");
        t.append(name);
        push_text(parts, t);
    } else {
        assert(texts(parts@) =~= texts(old(parts)@));
    }
}

/// What a player holds (see `stock_spec`).
pub fn stock_parts(player: &Player) -> (r: Vec<String>)
    ensures
        texts(r@) == stock_spec(player@),
{
    let r = &player.resources;
    let mut parts: Vec<String> = Vec::new();
    assert(texts(parts@) =~= Seq::<Seq<char>>::empty());
    push_count(&mut parts, r.wood, "wood");
    push_count(&mut parts, r.stone, "stone");
    push_count(&mut parts, r.coal, "coal");
    push_count(&mut parts, r.rubies, "ruby");
    push_count(&mut parts, r.food, "food");
    push_count(&mut parts, r.wheat, "wheat");
    push_count(&mut parts, r.vegetables, "veg");
    push_count(&mut parts, r.gold, "gold");
    push_count(&mut parts, player.animals[0], "cow");
    push_count(&mut parts, player.animals[1], "boar");
    push_count(&mut parts, player.animals[2], "donkey");
    push_count(&mut parts, player.animals[3], "sheep");
    push_count(&mut parts, player.dogs, "dog");
    assert(texts(parts@) =~= stock_spec(player@));
    parts
}

/// The lines of a player's farm (see `farm_lines_spec`).
pub fn farm_lines(player: &Player) -> (r: Vec<String>)
    ensures
        texts(r@) == farm_lines_spec(player@),
{
    let mut lines: Vec<String> = Vec::new();
    let ghost rows = Seq::new(
        4,
        |y: int| "    "@ + row_text(player@.outdoor, y) + " | "@ + row_text(player@.indoor, y),
    );
    let mut y: usize = 0;
    while y < 4
        invariant
            y <= 4,
            rows == Seq::new(
                4,
                |k: int| "    "@ + row_text(player@.outdoor, k) + " | "@ + row_text(player@.indoor, k),
            ),
            texts(lines@) == rows.take(y as int),
        decreases 4 - y,
    {
        let mut t = String::new();
        t.append("    ");
        push_row(&mut t, &player.outdoor, y);
        t.append(" | ");
        push_row(&mut t, &player.indoor, y);
        assert(t@ =~= rows[y as int]);
        push_text(&mut lines, t);
        assert(rows.take(y as int + 1) =~= rows.take(y as int).push(rows[y as int]));
        y += 1;
    }
    assert(rows.take(4) =~= rows);
    let stock = stock_parts(player);
    if stock.len() > 0 {
        let mut t = String::new();
        t.append("    ");
        let joined = join_texts(&stock, ", ");
        t.append(joined.as_str());
        push_text(&mut lines, t);
    }
    assert(texts(lines@) =~= farm_lines_spec(player@));
    lines
}

/// The text of a difference that is not zero, with a minus sign before a loss.
pub open spec fn plain_signed_text(d: int) -> Seq<char> {
    if d >= 0 {
        decimal(d as nat)
    } else {
        "-"@ + decimal((-d) as nat)
    }
}

/// The harvest line of a player named `name`: the grain and vegetables
/// gained, or `+0` when none.
pub open spec fn harvest_spec(name: Seq<char>, before: PlayerView, after: PlayerView) -> Seq<char> {
    let crops = (if after.resources.wheat > before.resources.wheat {
        seq!["+"@ + decimal((after.resources.wheat - before.resources.wheat) as nat) + " wheat"@]
    } else {
        Seq::empty()
    }) + if after.resources.vegetables > before.resources.vegetables {
        seq![
            "+"@ + decimal((after.resources.vegetables - before.resources.vegetables) as nat)
                + " veg"@,
        ]
    } else {
        Seq::empty()
    };
    if crops.len() == 0 {
        name + " +0"@
    } else {
        name + " "@ + join(crops, ", "@)
    }
}

/// The feeding line of a player named `name`: the change of food, then the
/// begging markers taken, or `-0` when neither.
pub open spec fn feed_spec(name: Seq<char>, before: PlayerView, after: PlayerView) -> Seq<char> {
    let parts = (if after.resources.food != before.resources.food {
        seq![plain_signed_text(after.resources.food - before.resources.food) + " food"@]
    } else {
        Seq::empty()
    }) + if after.resources.begging > before.resources.begging {
        seq!["+"@ + decimal((after.resources.begging - before.resources.begging) as nat) + " begging"@]
    } else {
        Seq::empty()
    };
    if parts.len() == 0 {
        name + " -0"@
    } else {
        name + " "@ + join(parts, ", "@)
    }
}

/// The harvest line of a player (see `harvest_spec`).
pub fn harvest_text(name: &str, before: &Player, after: &Player) -> (r: String)
    ensures
        r@ == harvest_spec(name@, before@, after@),
{
    let mut crops: Vec<String> = Vec::new();
    assert(texts(crops@) =~= Seq::<Seq<char>>::empty());
    push_gain(&mut crops, before.resources.wheat, after.resources.wheat, " wheat");
    push_gain(&mut crops, before.resources.vegetables, after.resources.vegetables, " veg");
    let mut t = String::from_str(name);
    if crops.len() == 0 {
        t.append(" +0");
    } else {
        t.append(" ");
        let joined = join_texts(&crops, ", ");
        t.append(joined.as_str());
    }
    t
}

/// The feeding line of a player (see `feed_spec`).
pub fn feed_text(name: &str, before: &Player, after: &Player) -> (r: String)
    ensures
        r@ == feed_spec(name@, before@, after@),
{
    let mut parts: Vec<String> = Vec::new();
    assert(texts(parts@) =~= Seq::<Seq<char>>::empty());
    let f0 = before.resources.food;
    let f1 = after.resources.food;
    if f1 != f0 {
        let mut t = String::new();
        if f1 > f0 {
            push_decimal(&mut t, f1 - f0);
        } else {
            t.append("-");
            push_decimal(&mut t, f0 - f1);
        }
        t.append(" food");
        push_text(&mut parts, t);
    }
    push_gain(&mut parts, before.resources.begging, after.resources.begging, " begging");
    let mut t = String::from_str(name);
    if parts.len() == 0 {
        t.append(" -0");
    } else {
        t.append(" ");
        let joined = join_texts(&parts, ", ");
        t.append(joined.as_str());
    }
    t
}


/// The descriptions of the moves from `state` to each of `nexts`, in order.
pub open spec fn describe_all_spec(state: StateView, nexts: Seq<StateView>) -> Seq<Seq<char>> {
    nexts.map_values(|n: StateView| describe_spec(state, n))
}

/// The descriptions of the moves from `state` to each of `nexts`, or `None`
/// when one of them cannot be described.
pub fn describe_moves(state: &State, nexts: &Vec<State>) -> (r: Option<Vec<String>>)
    ensures
        r is Some <==> forall|k: int|
            0 <= k < nexts@.len() ==> describable(state@, #[trigger] nexts@[k]@),
        r matches Some(v) ==> texts(v@) == describe_all_spec(
            state@,
            crate::state::states_view(nexts@),
        ),
{
    let ghost all = crate::state::states_view(nexts@);
    let mut out: Vec<String> = Vec::new();
    let mut i: usize = 0;
    while i < nexts.len()
        invariant
            i <= nexts@.len(),
            all == crate::state::states_view(nexts@),
            forall|k: int| 0 <= k < i ==> describable(state@, #[trigger] nexts@[k]@),
            texts(out@) == describe_all_spec(state@, all.take(i as int)),
        decreases nexts@.len() - i,
    {
        if !can_describe(state, &nexts[i]) {
            return None;
        }
        let t = describe_move(state, &nexts[i]);
        assert(all[i as int] == nexts@[i as int]@);
        assert(describe_all_spec(state@, all.take(i as int + 1)) =~= describe_all_spec(
            state@,
            all.take(i as int),
        ).push(t@));
        push_text(&mut out, t);
        i += 1;
    }
    assert(all.take(nexts@.len() as int) =~= all);
    Some(out)
}

} // verus!
