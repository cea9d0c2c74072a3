//! Laws of the farm: what trimming a herd keeps, and what the harvest
//! moves from the fields into the stock.
use vstd::prelude::*;
use crate::board::{Tile, count_tile, field_veg_upto, field_wheat_upto, tile_points_upto};
use crate::player::{
    PlayerView, assign_pastures, best_upto, combos, fill_flex, harvested_tile, kept_for, min_int, score,
};

verus! {

pub(crate) proof fn lemma_assign_pastures_bounds(
    remaining: Seq<int>,
    kept: Seq<int>,
    caps: Seq<int>,
    code: int,
    k: int,
)
    requires
        remaining.len() == 4,
        kept.len() == 4,
        forall|t: int| 0 <= t < 4 ==> #[trigger] remaining[t] >= 0 && kept[t] >= 0,
        forall|j: int| 0 <= j < caps.len() ==> #[trigger] caps[j] >= 0,
    ensures
        ({
            let (r, kp) = assign_pastures(remaining, kept, caps, code, k);
            &&& r.len() == 4
            &&& kp.len() == 4
            &&& forall|t: int|
                0 <= t < 4 ==> #[trigger] r[t] >= 0 && kp[t] >= 0 && r[t] + kp[t] == remaining[t]
                    + kept[t]
        }),
    decreases caps.len() - k,
{
    if !(k >= caps.len() || k < 0) {
        let t = code % 4;
        let took = min_int(remaining[t], caps[k]);
        let r1 = remaining.update(t, remaining[t] - took);
        let k1 = kept.update(t, kept[t] + took);
        assert(0 <= t < 4);
        assert(caps[k] >= 0);
        assert forall|i: int| 0 <= i < 4 implies #[trigger] r1[i] >= 0 && k1[i] >= 0 && r1[i] + k1[i]
            == remaining[i] + kept[i] by {
            if i != t {
                assert(r1[i] == remaining[i]);
                assert(k1[i] == kept[i]);
            }
        }
        lemma_assign_pastures_bounds(r1, k1, caps, code / 4, k + 1);
        let (r, kp) = assign_pastures(r1, k1, caps, code / 4, k + 1);
        assert(assign_pastures(remaining, kept, caps, code, k) == (r, kp));
        assert forall|i: int| 0 <= i < 4 implies #[trigger] r[i] >= 0 && kp[i] >= 0 && r[i] + kp[i]
            == remaining[i] + kept[i] by {
            assert(r[i] + kp[i] == r1[i] + k1[i]);
        }
    }
}

pub(crate) proof fn lemma_fill_flex_bounds(remaining: Seq<int>, kept: Seq<int>, flex_left: int, t: int)
    requires
        remaining.len() == 4,
        kept.len() == 4,
        forall|i: int| 0 <= i < 4 ==> #[trigger] remaining[i] >= 0 && kept[i] >= 0,
        flex_left >= 0,
    ensures
        fill_flex(remaining, kept, flex_left, t).len() == 4,
        forall|i: int|
            0 <= i < 4 && i < t ==> #[trigger] fill_flex(remaining, kept, flex_left, t)[i]
                == kept[i],
        forall|i: int|
            0 <= i < 4 ==> kept[i] <= #[trigger] fill_flex(
                remaining,
                kept,
                flex_left,
                t,
            )[i] <= kept[i] + remaining[i],
    decreases 4 - t,
{
    if !(t >= 4 || t < 0) {
        let took = min_int(remaining[t], flex_left);
        lemma_fill_flex_bounds(remaining, kept.update(t, kept[t] + took), flex_left - took, t + 1);
    }
}

pub(crate) proof fn lemma_best_bounds(need: Seq<int>, caps: Seq<int>, flex: int, n: nat)
    requires
        need.len() == 4,
        forall|t: int| 0 <= t < 4 ==> #[trigger] need[t] >= 0,
        forall|j: int| 0 <= j < caps.len() ==> #[trigger] caps[j] >= 0,
        flex >= 0,
    ensures
        best_upto(need, caps, flex, n).0.len() == 4,
        forall|t: int|
            0 <= t < 4 ==> 0 <= #[trigger] best_upto(need, caps, flex, n).0[t]
                <= need[t],
    decreases n,
{
    if n > 0 {
        lemma_best_bounds(need, caps, flex, (n - 1) as nat);
        let zero = seq![0int, 0int, 0int, 0int];
        lemma_assign_pastures_bounds(need, zero, caps, n - 1, 0);
        let (r, kp) = assign_pastures(need, zero, caps, n - 1, 0);
        lemma_fill_flex_bounds(r, kp, flex, 0);
    }
}

/// Trimming a herd to what the farm holds never keeps more animals of a kind
/// than the herd has.
pub proof fn lemma_trim_keeps_at_most(p: PlayerView, a: Seq<usize>)
    requires
        a.len() == 4,
    ensures
        p.trimmed(a).len() == 4,
        forall|i: int| 0 <= i < 4 ==> #[trigger] p.trimmed(a)[i] <= a[i],
{
    let need = p.need(a);
    let caps = p.pasture_caps();
    lemma_best_bounds(need, caps, p.flex(), combos(p.pastures.len()));
    let best = best_upto(need, caps, p.flex(), combos(p.pastures.len())).0;
    assert(0 <= best[0] <= need[0]);
    assert(0 <= best[1] <= need[1]);
    assert(0 <= best[2] <= need[2]);
    assert(0 <= best[3] <= need[3]);
}


/// No field of the board holds both grain and vegetables.
pub open spec fn single_crop_fields(b: Seq<Tile>) -> bool {
    forall|i: int|
        0 <= i < b.len() ==> match #[trigger] b[i] {
            Tile::Field(w, v) => w == 0 || v == 0,
            _ => true,
        }
}

/// The board after the harvest.
pub open spec fn harvested_board(b: Seq<Tile>) -> Seq<Tile> {
    Seq::new(12, |i: int| harvested_tile(b[i]))
}

pub(crate) proof fn lemma_harvest_cells(b: Seq<Tile>, n: nat)
    requires
        b.len() == 12,
        n <= 12,
        single_crop_fields(b),
    ensures
        field_wheat_upto(harvested_board(b), n) + b.take(n as int).filter(
            crate::player::grain_field(),
        ).len() == field_wheat_upto(b, n),
        field_veg_upto(harvested_board(b), n) + b.take(n as int).filter(
            crate::player::veg_field(),
        ).len() == field_veg_upto(b, n),
    decreases n,
{
    if n > 0 {
        let m = (n - 1) as nat;
        lemma_harvest_cells(b, m);
        crate::board::lemma_take_push(b, m as int);
        b.take(m as int).lemma_filter_push(b[m as int], crate::player::grain_field());
        b.take(m as int).lemma_filter_push(b[m as int], crate::player::veg_field());
        assert(harvested_board(b)[m as int] == harvested_tile(b[m as int]));
    } else {
        assert(b.take(0) =~= Seq::<Tile>::empty());
    }
}

/// The harvest moves crops from the fields into the stock: when no field
/// holds both grain and vegetables, the grain and the vegetables in stock
/// and on the fields together stay the same.
pub proof fn lemma_harvest_keeps_crops(p: PlayerView)
    requires
        p.wf(),
        p.harvest_fits(),
        single_crop_fields(p.outdoor),
    ensures
        p.harvested().resources.wheat + field_wheat_upto(p.harvested().outdoor, 12)
            == p.resources.wheat + field_wheat_upto(p.outdoor, 12),
        p.harvested().resources.vegetables + field_veg_upto(p.harvested().outdoor, 12)
            == p.resources.vegetables + field_veg_upto(p.outdoor, 12),
{
    lemma_harvest_cells(p.outdoor, 12);
    assert(p.outdoor.take(12) =~= p.outdoor);
    assert(p.harvested().outdoor == harvested_board(p.outdoor));
    p.outdoor.lemma_filter_len(crate::player::grain_field());
    p.outdoor.lemma_filter_len(crate::player::veg_field());
}


pub(crate) proof fn lemma_harvest_tile_points(b: Seq<Tile>, n: nat)
    requires
        b.len() == 12,
        n <= 12,
    ensures
        tile_points_upto(harvested_board(b), n) == tile_points_upto(b, n),
    decreases n,
{
    if n > 0 {
        lemma_harvest_tile_points(b, (n - 1) as nat);
        assert(harvested_board(b)[n - 1] == harvested_tile(b[n - 1]));
    }
}

/// The harvest keeps every tile that is not a field.
pub(crate) proof fn lemma_harvest_counts(b: Seq<Tile>, t: Tile, n: nat)
    requires
        b.len() == 12,
        n <= 12,
        !(t is Field),
    ensures
        harvested_board(b).take(n as int).filter(crate::board::is_tile(t)).len() == b.take(
            n as int,
        ).filter(crate::board::is_tile(t)).len(),
    decreases n,
{
    let hb = harvested_board(b);
    if n > 0 {
        let m = (n - 1) as nat;
        lemma_harvest_counts(b, t, m);
        crate::board::lemma_take_push(b, m as int);
        crate::board::lemma_take_push(hb, m as int);
        b.take(m as int).lemma_filter_push(b[m as int], crate::board::is_tile(t));
        hb.take(m as int).lemma_filter_push(hb[m as int], crate::board::is_tile(t));
        assert(hb[m as int] == harvested_tile(b[m as int]));
    } else {
        assert(b.take(0) =~= Seq::<Tile>::empty());
        assert(hb.take(0) =~= Seq::<Tile>::empty());
    }
}

/// The harvest leaves a player's points as they were, when no field holds
/// both grain and vegetables: it only moves crops from the fields into the
/// stock.
pub proof fn lemma_harvest_keeps_points(p: PlayerView)
    requires
        p.wf(),
        p.harvest_fits(),
        single_crop_fields(p.outdoor),
    ensures
        p.harvested().points() == p.points(),
{
    let q = p.harvested();
    let b = p.outdoor;
    lemma_harvest_keeps_crops(p);
    assert(q.outdoor == harvested_board(b));
    lemma_harvest_tile_points(b, 12);
    lemma_harvest_counts(b, Tile::Forest, 12);
    lemma_harvest_counts(b, Tile::Mountain, 12);
    assert(b.take(12) =~= b);
    assert(q.outdoor.take(12) =~= q.outdoor);
    assert(count_tile(q.outdoor, Tile::Forest) == count_tile(b, Tile::Forest));
    assert(count_tile(q.outdoor, Tile::Mountain) == count_tile(b, Tile::Mountain));
}


/// Every assignment keeps a nonnegative number of animals of each kind.
proof fn lemma_kept_for_nonneg(need: Seq<int>, caps: Seq<int>, flex: int, c: int)
    requires
        need.len() == 4,
        forall|t: int| 0 <= t < 4 ==> #[trigger] need[t] >= 0,
        forall|j: int| 0 <= j < caps.len() ==> #[trigger] caps[j] >= 0,
        flex >= 0,
    ensures
        kept_for(need, caps, flex, c).len() == 4,
        score(kept_for(need, caps, flex, c)) >= 0,
{
    let zero = seq![0int, 0int, 0int, 0int];
    lemma_assign_pastures_bounds(need, zero, caps, c, 0);
    let (r, kp) = assign_pastures(need, zero, caps, c, 0);
    lemma_fill_flex_bounds(r, kp, flex, 0);
    let k = fill_flex(r, kp, flex, 0);
    assert(k[0] >= 0 && k[1] >= 0 && k[2] >= 0 && k[3] >= 0);
}

/// The best of the first `n` assignments keeps as many animals as the
/// best-keeping one of them, and at least as many as each.
proof fn lemma_best_upto_max(need: Seq<int>, caps: Seq<int>, flex: int, n: nat)
    requires
        need.len() == 4,
        forall|t: int| 0 <= t < 4 ==> #[trigger] need[t] >= 0,
        forall|j: int| 0 <= j < caps.len() ==> #[trigger] caps[j] >= 0,
        flex >= 0,
    ensures
        best_upto(need, caps, flex, n).1 == score(best_upto(need, caps, flex, n).0),
        best_upto(need, caps, flex, n).1 >= 0,
        forall|c: int|
            0 <= c < n ==> score(#[trigger] kept_for(need, caps, flex, c)) <= best_upto(
                need,
                caps,
                flex,
                n,
            ).1,
        n > 0 ==> exists|c: int|
            0 <= c < n && score(#[trigger] kept_for(need, caps, flex, c)) == best_upto(
                need,
                caps,
                flex,
                n,
            ).1,
    decreases n,
{
    if n > 0 {
        let m = (n - 1) as nat;
        lemma_best_upto_max(need, caps, flex, m);
        lemma_kept_for_nonneg(need, caps, flex, m as int);
        let kept = kept_for(need, caps, flex, m as int);
        let prev = best_upto(need, caps, flex, m);
        if score(kept) > prev.1 {
            assert(best_upto(need, caps, flex, n).1 == score(kept));
        } else {
            assert(best_upto(need, caps, flex, n) == prev);
            if m == 0 {
                assert(prev.1 == 0);
                assert(score(kept) >= 0);
                assert(score(kept_for(need, caps, flex, 0)) == prev.1);
            } else {
                let c = choose|c: int|
                    0 <= c < m && score(#[trigger] kept_for(need, caps, flex, c)) == prev.1;
                assert(0 <= c < n && score(kept_for(need, caps, flex, c)) == prev.1);
            }
        }
    }
}

impl PlayerView {
    /// The animals of herd `a` that the fixed places hold: boars in forest
    /// stables, donkeys in mines, sheep on unfenced meadows.
    pub open spec fn fixed_kept(self, a: Seq<usize>) -> int {
        min_int(a[1] as int, self.boar_fixed()) + min_int(a[2] as int, self.donkey_cap())
            + min_int(a[3] as int, self.sheep_meadow())
    }
}

/// Number of animals of every kind in herd `h`.
pub open spec fn herd_size(h: Seq<usize>) -> int {
    h[0] + h[1] + h[2] + h[3]
}

/// Trimming keeps as many animals as the best way of giving each pasture
/// one kind: after the fixed places, no assignment of kinds to the pastures,
/// with the flexible places filled after it, keeps more, and one keeps
/// exactly as many.
pub proof fn lemma_trim_is_best(p: PlayerView, a: Seq<usize>)
    requires
        a.len() == 4,
    ensures
        forall|c: int|
            0 <= c < combos(p.pastures.len()) ==> p.fixed_kept(a) + score(
                #[trigger] kept_for(p.need(a), p.pasture_caps(), p.flex(), c),
            ) <= herd_size(p.trimmed(a)),
        exists|c: int|
            0 <= c < combos(p.pastures.len()) && p.fixed_kept(a) + score(
                #[trigger] kept_for(p.need(a), p.pasture_caps(), p.flex(), c),
            ) == herd_size(p.trimmed(a)),
{
    let need = p.need(a);
    let caps = p.pasture_caps();
    let n = combos(p.pastures.len());
    assert forall|j: int| 0 <= j < caps.len() implies #[trigger] caps[j] >= 0 by {
        assert(caps[j] == p.pasture_cap(p.pastures[j]));
    }
    assert(need[0] >= 0 && need[1] >= 0 && need[2] >= 0 && need[3] >= 0);
    crate::player::lemma_combos_positive(p.pastures.len());
    lemma_best_bounds(need, caps, p.flex(), n);
    lemma_best_upto_max(need, caps, p.flex(), n);
    let best = best_upto(need, caps, p.flex(), n);
    let t = p.trimmed(a);
    assert(t[0] == best.0[0]);
    assert(t[1] == min_int(a[1] as int, p.boar_fixed()) + best.0[1]);
    assert(t[2] == min_int(a[2] as int, p.donkey_cap()) + best.0[2]);
    assert(t[3] == min_int(a[3] as int, p.sheep_meadow()) + best.0[3]);
    assert(herd_size(t) == p.fixed_kept(a) + best.1);
}


/// The places in the pastures from the `k`-th on that the base-4 digits of
/// `code` give to kind `t`.
pub open spec fn kind_places(caps: Seq<int>, code: int, k: int, t: int) -> int
    decreases caps.len() - k,
{
    if k >= caps.len() || k < 0 {
        0
    } else {
        (if code % 4 == t {
            caps[k]
        } else {
            0
        }) + kind_places(caps, code / 4, k + 1, t)
    }
}

/// The animals still waiting, from kind `t` on.
pub open spec fn waiting_from(rem: Seq<int>, t: int) -> int
    decreases 4 - t,
{
    if t >= 4 || t < 0 {
        0
    } else {
        rem[t] + waiting_from(rem, t + 1)
    }
}

proof fn lemma_kind_places_nonneg(caps: Seq<int>, code: int, k: int, t: int)
    requires
        forall|j: int| 0 <= j < caps.len() ==> #[trigger] caps[j] >= 0,
    ensures
        kind_places(caps, code, k, t) >= 0,
    decreases caps.len() - k,
{
    if !(k >= caps.len() || k < 0) {
        lemma_kind_places_nonneg(caps, code / 4, k + 1, t);
    }
}

/// Giving the pastures their kinds keeps, of each kind, as many of the
/// waiting animals as the places the pastures of that kind offer.
proof fn lemma_assign_keeps_min(
    rem: Seq<int>,
    kept: Seq<int>,
    caps: Seq<int>,
    code: int,
    k: int,
)
    requires
        rem.len() == 4,
        kept.len() == 4,
        code >= 0,
        0 <= k,
        forall|t: int| 0 <= t < 4 ==> #[trigger] rem[t] >= 0,
        forall|j: int| 0 <= j < caps.len() ==> #[trigger] caps[j] >= 0,
    ensures
        forall|t: int|
            0 <= t < 4 ==> #[trigger] assign_pastures(rem, kept, caps, code, k).1[t] == kept[t]
                + min_int(rem[t], kind_places(caps, code, k, t)),
        forall|t: int|
            0 <= t < 4 ==> #[trigger] assign_pastures(rem, kept, caps, code, k).0[t] == rem[t]
                - min_int(rem[t], kind_places(caps, code, k, t)),
    decreases caps.len() - k,
{
    if k < caps.len() {
        let t0 = code % 4;
        let took = min_int(rem[t0], caps[k]);
        let r1 = rem.update(t0, rem[t0] - took);
        let k1 = kept.update(t0, kept[t0] + took);
        lemma_assign_keeps_min(r1, k1, caps, code / 4, k + 1);
        assert forall|t: int|
            #![trigger assign_pastures(rem, kept, caps, code, k).1[t]]
            #![trigger assign_pastures(rem, kept, caps, code, k).0[t]]
            0 <= t < 4 implies assign_pastures(
            rem,
            kept,
            caps,
            code,
            k,
        ).1[t] == kept[t] + min_int(rem[t], kind_places(caps, code, k, t)) && assign_pastures(
            rem,
            kept,
            caps,
            code,
            k,
        ).0[t] == rem[t] - min_int(rem[t], kind_places(caps, code, k, t)) by {
            lemma_kind_places_nonneg(caps, code / 4, k + 1, t);
            let later = kind_places(caps, code / 4, k + 1, t);
            let (ra, ka) = assign_pastures(r1, k1, caps, code / 4, k + 1);
            assert(assign_pastures(rem, kept, caps, code, k) == (ra, ka));
            assert(ra[t] == r1[t] - min_int(r1[t], later));
            assert(ka[t] == k1[t] + min_int(r1[t], later));
            if t == t0 {
                assert(kind_places(caps, code, k, t) == caps[k] + later);
                assert(r1[t] == rem[t] - took);
                assert(k1[t] == kept[t] + took);
            } else {
                assert(kind_places(caps, code, k, t) == later);
                assert(r1[t] == rem[t]);
                assert(k1[t] == kept[t]);
            }
        }
    }
}

/// Filling the flexible places keeps as many of the waiting animals as there
/// are places.
proof fn lemma_fill_flex_total(rem: Seq<int>, kept: Seq<int>, fl: int, t: int)
    requires
        rem.len() == 4,
        kept.len() == 4,
        0 <= t <= 4,
        fl >= 0,
        forall|i: int| 0 <= i < 4 ==> #[trigger] rem[i] >= 0,
    ensures
        score(fill_flex(rem, kept, fl, t)) == score(kept) + min_int(fl, waiting_from(rem, t)),
    decreases 4 - t,
{
    if t < 4 {
        let took = min_int(rem[t], fl);
        let k1 = kept.update(t, kept[t] + took);
        assert(score(k1) == score(kept) + took);
        lemma_fill_flex_total(rem, k1, fl - took, t + 1);
        lemma_waiting_nonneg(rem, t + 1);
    }
}

proof fn lemma_waiting_nonneg(rem: Seq<int>, t: int)
    requires
        rem.len() == 4,
        forall|i: int| 0 <= i < 4 ==> #[trigger] rem[i] >= 0,
    ensures
        waiting_from(rem, t) >= 0,
    decreases 4 - t,
{
    if !(t >= 4 || t < 0) {
        lemma_waiting_nonneg(rem, t + 1);
    }
}

/// Whether the farm of `p` can house, out of herd `a`, `fixed[t]` animals of
/// kind `t` in the places only that kind may use (boars in forest stables,
/// donkeys in mines, sheep on unfenced meadows), `pen[t]` in the pastures
/// that the base-4 digits of `code` give to kind `t`, and `free[t]` in the
/// places any kind may use.
pub open spec fn houses(
    p: PlayerView,
    a: Seq<usize>,
    code: int,
    fixed: Seq<int>,
    pen: Seq<int>,
    free: Seq<int>,
) -> bool {
    &&& 0 <= code < combos(p.pastures.len())
    &&& fixed.len() == 4 && pen.len() == 4 && free.len() == 4
    &&& forall|t: int| 0 <= t < 4 ==> #[trigger] fixed[t] >= 0 && pen[t] >= 0 && free[t] >= 0
    &&& fixed[0] == 0
    &&& fixed[1] <= p.boar_fixed()
    &&& fixed[2] <= p.donkey_cap()
    &&& fixed[3] <= p.sheep_meadow()
    &&& forall|t: int|
        0 <= t < 4 ==> #[trigger] pen[t] <= kind_places(p.pasture_caps(), code, 0, t)
    &&& free[0] + free[1] + free[2] + free[3] <= p.flex()
    &&& forall|t: int| 0 <= t < 4 ==> #[trigger] fixed[t] + pen[t] + free[t] <= a[t]
}

/// Trimming keeps the largest part of a herd that the farm can house: no
/// way of housing animals of the herd holds more of them.
pub proof fn lemma_trim_is_largest(
    p: PlayerView,
    a: Seq<usize>,
    code: int,
    fixed: Seq<int>,
    pen: Seq<int>,
    free: Seq<int>,
)
    requires
        a.len() == 4,
        houses(p, a, code, fixed, pen, free),
    ensures
        (fixed[0] + pen[0] + free[0]) + (fixed[1] + pen[1] + free[1]) + (fixed[2] + pen[2]
            + free[2]) + (fixed[3] + pen[3] + free[3]) <= herd_size(p.trimmed(a)),
{
    lemma_trim_is_best(p, a);
    let need = p.need(a);
    let caps = p.pasture_caps();
    assert forall|j: int| 0 <= j < caps.len() implies #[trigger] caps[j] >= 0 by {
        assert(caps[j] == p.pasture_cap(p.pastures[j]));
    }
    assert(need[0] >= 0 && need[1] >= 0 && need[2] >= 0 && need[3] >= 0);
    let zero = seq![0int, 0int, 0int, 0int];
    lemma_assign_keeps_min(need, zero, caps, code, 0);
    lemma_assign_pastures_bounds(need, zero, caps, code, 0);
    let (r, kp) = assign_pastures(need, zero, caps, code, 0);
    lemma_fill_flex_total(r, kp, p.flex(), 0);
    assert(kept_for(need, caps, p.flex(), code) == fill_flex(r, kp, p.flex(), 0));
    let w = waiting_from(r, 0);
    assert(w == r[0] + r[1] + r[2] + r[3]) by {
        reveal_with_fuel(waiting_from, 5);
    }
    assert(score(kept_for(need, caps, p.flex(), code)) == kp[0] + kp[1] + kp[2] + kp[3] + min_int(
        p.flex(),
        w,
    ));
    let fk = seq![0int, min_int(a[1] as int, p.boar_fixed()), min_int(a[2] as int, p.donkey_cap()),
        min_int(a[3] as int, p.sheep_meadow())];
    let cap_fixed = seq![0int, p.boar_fixed(), p.donkey_cap(), p.sheep_meadow()];
    assert(p.fixed_kept(a) == fk[0] + fk[1] + fk[2] + fk[3]);
    assert forall|t: int| 0 <= t < 4 implies fixed[t] + pen[t] + free[t] <= fk[t] + kp[t] + min_int(
        #[trigger] free[t],
        r[t],
    ) by {
        lemma_kind_places_nonneg(caps, code, 0, t);
        let pl = kind_places(caps, code, 0, t);
        assert(pen[t] <= pl);
        assert(kp[t] == min_int(need[t], pl));
        assert(r[t] == need[t] - kp[t]);
        assert(fixed[t] <= cap_fixed[t]);
        assert(need[t] == a[t] - fk[t]);
        assert(fk[t] == min_int(a[t] as int, cap_fixed[t]));
    }
    assert(min_int(free[0], r[0]) + min_int(free[1], r[1]) + min_int(free[2], r[2]) + min_int(
        free[3],
        r[3],
    ) <= min_int(p.flex(), w));
}


/// The best of the first `n` assignments is what one of them keeps, or
/// nothing.
proof fn lemma_best_upto_is_kept(need: Seq<int>, caps: Seq<int>, flex: int, n: nat)
    ensures
        best_upto(need, caps, flex, n).0 == seq![0int, 0int, 0int, 0int] || exists|c: int|
            0 <= c < n && best_upto(need, caps, flex, n).0 == #[trigger] kept_for(
                need,
                caps,
                flex,
                c,
            ),
    decreases n,
{
    if n > 0 {
        let m = (n - 1) as nat;
        lemma_best_upto_is_kept(need, caps, flex, m);
        let prev = best_upto(need, caps, flex, m);
        let kept = kept_for(need, caps, flex, m as int);
        if score(kept) > prev.1 {
            assert(best_upto(need, caps, flex, n).0 == kept_for(need, caps, flex, m as int));
        } else {
            assert(best_upto(need, caps, flex, n) == prev);
            if prev.0 != seq![0int, 0int, 0int, 0int] {
                let c = choose|c: int| 0 <= c < m && prev.0 == #[trigger] kept_for(need, caps, flex, c);
                assert(0 <= c < n && best_upto(need, caps, flex, n).0 == kept_for(need, caps, flex, c));
            }
        }
    }
}

/// The farm can house the herd that trimming keeps.
proof fn lemma_trimmed_is_housed(p: PlayerView, a: Seq<usize>)
    requires
        a.len() == 4,
    ensures
        exists|code: int, fixed: Seq<int>, pen: Seq<int>, free: Seq<int>|
            #[trigger] houses(p, p.trimmed(a), code, fixed, pen, free) && fixed[0] + pen[0]
                + free[0] == p.trimmed(a)[0] && fixed[1] + pen[1] + free[1] == p.trimmed(a)[1]
                && fixed[2] + pen[2] + free[2] == p.trimmed(a)[2] && fixed[3] + pen[3] + free[3]
                == p.trimmed(a)[3],
{
    let need = p.need(a);
    let caps = p.pasture_caps();
    let n = combos(p.pastures.len());
    assert forall|j: int| 0 <= j < caps.len() implies #[trigger] caps[j] >= 0 by {
        assert(caps[j] == p.pasture_cap(p.pastures[j]));
    }
    assert(need[0] >= 0 && need[1] >= 0 && need[2] >= 0 && need[3] >= 0);
    crate::player::lemma_combos_positive(p.pastures.len());
    lemma_best_bounds(need, caps, p.flex(), n);
    lemma_best_upto_is_kept(need, caps, p.flex(), n);
    let best = best_upto(need, caps, p.flex(), n).0;
    let b = p.trimmed(a);
    let fk = seq![0int, min_int(a[1] as int, p.boar_fixed()), min_int(a[2] as int, p.donkey_cap()),
        min_int(a[3] as int, p.sheep_meadow())];
    assert(b[0] == fk[0] + best[0]);
    assert(b[1] == fk[1] + best[1]);
    assert(b[2] == fk[2] + best[2]);
    assert(b[3] == fk[3] + best[3]);
    let zero = seq![0int, 0int, 0int, 0int];
    if best == zero {
        lemma_kind_places_nonneg(caps, 0, 0, 0);
        lemma_kind_places_nonneg(caps, 0, 0, 1);
        lemma_kind_places_nonneg(caps, 0, 0, 2);
        lemma_kind_places_nonneg(caps, 0, 0, 3);
        assert(houses(p, b, 0, fk, zero, zero));
    } else {
        let c = choose|c: int| 0 <= c < n && best == #[trigger] kept_for(need, caps, p.flex(), c);
        lemma_assign_keeps_min(need, zero, caps, c, 0);
        lemma_assign_pastures_bounds(need, zero, caps, c, 0);
        let (r, kp) = assign_pastures(need, zero, caps, c, 0);
        lemma_fill_flex_total(r, kp, p.flex(), 0);
        lemma_fill_flex_bounds(r, kp, p.flex(), 0);
        let fill = fill_flex(r, kp, p.flex(), 0);
        assert(best == fill);
        let free = seq![fill[0] - kp[0], fill[1] - kp[1], fill[2] - kp[2], fill[3] - kp[3]];
        let w = waiting_from(r, 0);
        lemma_waiting_nonneg(r, 0);
        assert(free[0] + free[1] + free[2] + free[3] == min_int(p.flex(), w));
        assert forall|t: int| 0 <= t < 4 implies #[trigger] kp[t] <= kind_places(caps, c, 0, t) by {
            lemma_kind_places_nonneg(caps, c, 0, t);
        }
        assert(houses(p, b, c, fk, kp, free));
    }
}

/// Trimming a herd that trimming kept changes nothing.
pub proof fn lemma_trim_idempotent(p: PlayerView, a: Seq<usize>)
    requires
        a.len() == 4,
    ensures
        p.trimmed(p.trimmed(a)) == p.trimmed(a),
{
    let b = p.trimmed(a);
    lemma_trim_keeps_at_most(p, a);
    lemma_trim_keeps_at_most(p, b);
    lemma_trimmed_is_housed(p, a);
    let (code, fixed, pen, free) = choose|code: int, fixed: Seq<int>, pen: Seq<int>, free: Seq<int>|
        #[trigger] houses(p, b, code, fixed, pen, free) && fixed[0] + pen[0] + free[0] == b[0]
            && fixed[1] + pen[1] + free[1] == b[1] && fixed[2] + pen[2] + free[2] == b[2]
            && fixed[3] + pen[3] + free[3] == b[3];
    lemma_trim_is_largest(p, b, code, fixed, pen, free);
    let tb = p.trimmed(b);
    assert(tb[0] == b[0] && tb[1] == b[1] && tb[2] == b[2] && tb[3] == b[3]);
    assert(tb =~= b);
}

} // verus!
