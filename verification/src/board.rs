//! Tiles and home boards: where tiles may be laid, what a placement
//! changes, and the counts and sums that scoring reads off a board.
use vstd::prelude::*;

verus! {

broadcast use vstd::array::group_array_axioms;

/// Number of columns of a home board.
pub const HALF_WIDTH: usize = 3;

/// Number of rows of a home board.
pub const BOARD_HEIGHT: usize = 4;

/// Number of cells of a home board.
pub const BOARD_CELLS: usize = 12;

/// One tile of a home board.
#[derive(Clone, Copy, PartialEq, Eq, Structural, Debug)]
pub enum Tile {
    // Outdoor
    Forest,
    /// Stable on an uncleared forest: room for one boar.
    ForestStable,
    /// Unfenced meadow.
    Meadow,
    /// Unfenced meadow with a stable: room for one animal of any kind.
    MeadowStable,
    /// Fenced pasture: two animals per cell.
    Pasture,
    /// Fenced pasture with a stable: doubles the capacity.
    PastureStable,
    /// A field holding (wheat, vegetables); only one of them is non-zero at a time.
    Field(u8, u8),
    // Indoor
    Mountain,
    Tunnel,
    DeepTunnel,
    OreMine,
    RubyMine,
    Cave,
    Dwelling,
}

/// Which of the two home boards a tile belongs on.
#[derive(Clone, Copy, PartialEq, Eq, Structural, Debug)]
pub enum Side {
    Outdoor,
    Indoor,
}

/// One tile, or two tiles placed on two orthogonally adjacent cells.
#[derive(Clone, Copy, Debug)]
pub enum TileGroup {
    Single(Tile),
    Twin((Tile, Tile)),
}

/// A home board, stored row by row: the cell in column `x` and row `y`
/// is `board[y * 3 + x]`.
pub type Board = [Tile; 12];

impl Tile {
    /// Forest and mountain are the undeveloped tiles.
    #[verifier::allow_in_spec]
    pub fn is_undeveloped(self) -> bool
        returns
            self is Forest || self is Mountain,
    {
        match self {
            Tile::Forest | Tile::Mountain => true,
            _ => false,
        }
    }

    /// The board a tile belongs on.
    #[verifier::allow_in_spec]
    pub fn side(self) -> Side
        returns
            (if self is Forest || self is ForestStable || self is Meadow || self is MeadowStable
                || self is Pasture || self is PastureStable || self is Field {
                Side::Outdoor
            } else {
                Side::Indoor
            }),
    {
        match self {
            Tile::Forest
            | Tile::ForestStable
            | Tile::Meadow
            | Tile::MeadowStable
            | Tile::Pasture
            | Tile::PastureStable
            | Tile::Field(_, _) => Side::Outdoor,
            _ => Side::Indoor,
        }
    }

    /// Whether `self` may be laid on top of `other`.
    #[verifier::allow_in_spec]
    pub fn can_place_on(self, other: Tile) -> bool
        returns
            ((self is Meadow || self is MeadowStable || self is Pasture || self is PastureStable
                || self is Field) && other is Forest) || ((self is Tunnel || self is Cave)
                && other is Mountain) || ((self is DeepTunnel || self is OreMine)
                && other is Tunnel) || (self is RubyMine && (other is Tunnel
                || other is DeepTunnel)) || (self is Dwelling && other is Cave),
    {
        match (self, other) {
            (Tile::Meadow, Tile::Forest)
            | (Tile::MeadowStable, Tile::Forest)
            | (Tile::Pasture, Tile::Forest)
            | (Tile::PastureStable, Tile::Forest)
            | (Tile::Field(_, _), Tile::Forest) => true,
            (Tile::Tunnel, Tile::Mountain) | (Tile::Cave, Tile::Mountain) => true,
            (Tile::DeepTunnel, Tile::Tunnel) | (Tile::OreMine, Tile::Tunnel) => true,
            (Tile::RubyMine, Tile::Tunnel) | (Tile::RubyMine, Tile::DeepTunnel) => true,
            (Tile::Dwelling, Tile::Cave) => true,
            _ => false,
        }
    }

    /// Whether the tile must touch an already developed cell.
    #[verifier::allow_in_spec]
    pub fn requires_adjacency(self) -> bool
        returns
            !(self is DeepTunnel || self is OreMine || self is RubyMine || self is Dwelling),
    {
        match self {
            Tile::DeepTunnel | Tile::OreMine | Tile::RubyMine | Tile::Dwelling => false,
            _ => true,
        }
    }

    /// Whether a fence may be built around the tile.
    #[verifier::allow_in_spec]
    pub fn is_fenceable(self) -> bool
        returns
            self is Meadow || self is MeadowStable,
    {
        match self {
            Tile::Meadow | Tile::MeadowStable => true,
            _ => false,
        }
    }

    /// The points that the tile takes away at the end of the game.
    #[verifier::allow_in_spec]
    pub fn points(self) -> i32
        returns
            (if self is Pasture || self is PastureStable {
                2i32
            } else if self is OreMine {
                3i32
            } else if self is RubyMine {
                4i32
            } else {
                0i32
            }),
    {
        match self {
            Tile::Pasture | Tile::PastureStable => 2,
            Tile::OreMine => 3,
            Tile::RubyMine => 4,
            _ => 0,
        }
    }

    /// The tile with a stable added, where a stable can be added.
    #[verifier::allow_in_spec]
    pub fn maybe_add_stable(self) -> Option<Tile>
        returns
            (if self is Forest {
                Some(Tile::ForestStable)
            } else if self is Meadow {
                Some(Tile::MeadowStable)
            } else if self is Pasture {
                Some(Tile::PastureStable)
            } else {
                None
            }),
    {
        match self {
            Tile::Forest => Some(Tile::ForestStable),
            Tile::Meadow => Some(Tile::MeadowStable),
            Tile::Pasture => Some(Tile::PastureStable),
            _ => None,
        }
    }
}

impl TileGroup {
    /// The tile that decides which board the group goes on.
    pub open spec fn first_tile(self) -> Tile {
        match self {
            TileGroup::Single(t) => t,
            TileGroup::Twin((t, _)) => t,
        }
    }
}

/// The cell at position `i` in row-major order.
pub open spec fn cell_at(i: int) -> (usize, usize) {
    ((i % 3) as usize, (i / 3) as usize)
}

/// The position of a cell in row-major order.
pub open spec fn cell_index(c: (usize, usize)) -> int {
    c.1 * 3 + c.0
}

/// Whether a cell lies on a board.
pub open spec fn in_bounds(c: (usize, usize)) -> bool {
    c.0 < 3 && c.1 < 4
}

/// Every cell of a board, row by row.
pub open spec fn all_cells() -> Seq<(usize, usize)> {
    Seq::new(12, |i: int| cell_at(i))
}

/// The tile of a board at a cell.
pub open spec fn tile_at(b: Seq<Tile>, c: (usize, usize)) -> Tile {
    b[cell_index(c)]
}

/// The board with the tile at cell `c` replaced by `t`.
pub open spec fn put(b: Seq<Tile>, c: (usize, usize), t: Tile) -> Seq<Tile> {
    b.update(cell_index(c), t)
}

/// The cells in which two boards differ, row by row.
pub open spec fn changed_cells_spec(before: Seq<Tile>, after: Seq<Tile>) -> Seq<(usize, usize)> {
    all_cells().filter(differs(before, after))
}

/// Whether two boards differ at a cell.
pub open spec fn differs(before: Seq<Tile>, after: Seq<Tile>) -> spec_fn((usize, usize)) -> bool {
    |c: (usize, usize)| tile_at(before, c) != tile_at(after, c)
}

pub proof fn lemma_cell_at(i: int)
    requires
        0 <= i < 12,
    ensures
        in_bounds(cell_at(i)),
        cell_index(cell_at(i)) == i,
        all_cells()[i] == cell_at(i),
{
}

pub proof fn lemma_take_push<A>(s: Seq<A>, i: int)
    requires
        0 <= i < s.len(),
    ensures
        s.take(i + 1) == s.take(i).push(s[i]),
{
    assert(s.take(i + 1) =~= s.take(i).push(s[i]));
}

/// The cells in which two boards differ, row by row.
pub fn changed_cells(before: &Board, after: &Board) -> (r: Vec<(usize, usize)>)
    ensures
        r@ == changed_cells_spec(before@, after@),
{
    let ghost pred = differs(before@, after@);
    let mut res: Vec<(usize, usize)> = Vec::new();
    let mut i: usize = 0;
    while i < 12
        invariant
            i <= 12,
            pred == differs(before@, after@),
            res@ == all_cells().take(i as int).filter(pred),
        decreases 12 - i,
    {
        proof {
            lemma_cell_at(i as int);
            lemma_take_push(all_cells(), i as int);
            all_cells().take(i as int).lemma_filter_push(all_cells()[i as int], pred);
        }
        let changed = before[i] != after[i];
        if changed {
            res.push((i % 3, i / 3));
        }
        i += 1;
    }
    proof {
        assert(all_cells().take(12) =~= all_cells());
    }
    res
}

/// Every cell kept by a filter of the board's cells lies on the board.
pub proof fn lemma_filtered_cells_in_bounds(p: spec_fn((usize, usize)) -> bool)
    ensures
        forall|k: int|
            0 <= k < all_cells().filter(p).len() ==> in_bounds(#[trigger] all_cells().filter(p)[k]),
{
    assert forall|k: int| 0 <= k < all_cells().filter(p).len() implies in_bounds(
        #[trigger] all_cells().filter(p)[k],
    ) by {
        let c = all_cells().filter(p)[k];
        assert(all_cells().filter(p).contains(c));
        all_cells().lemma_filter_contains_rev(p, c);
        let i = choose|i: int| 0 <= i < all_cells().len() && all_cells()[i] == c;
        lemma_cell_at(i);
    }
}

/// The tiles that a placement replaced: one changed cell gives a single
/// tile, two changed cells give a pair, in row-major order.
pub open spec fn board_delta_spec(before: Seq<Tile>, after: Seq<Tile>) -> TileGroup {
    let changed = changed_cells_spec(before, after);
    if changed.len() == 1 {
        TileGroup::Single(tile_at(before, changed[0]))
    } else {
        TileGroup::Twin((tile_at(before, changed[0]), tile_at(before, changed[1])))
    }
}

/// The tiles of `before` that differ from `after`; the boards must differ
/// in one or two cells.
pub fn board_delta(before: &Board, after: &Board) -> (r: TileGroup)
    requires
        changed_cells_spec(before@, after@).len() == 1 || changed_cells_spec(before@, after@).len()
            == 2,
    ensures
        r == board_delta_spec(before@, after@),
{
    let changed = changed_cells(before, after);
    proof {
        lemma_filtered_cells_in_bounds(differs(before@, after@));
    }
    if changed.len() == 1 {
        let (x, y) = changed[0];
        TileGroup::Single(before[y * 3 + x])
    } else {
        let (x1, y1) = changed[0];
        let (x2, y2) = changed[1];
        TileGroup::Twin((before[y1 * 3 + x1], before[y2 * 3 + x2]))
    }
}

/// The four orthogonal neighbours of a cell, before discarding those off the board.
/// A step to the left of column 0 (or above row 0) wraps around to `usize::MAX`.
pub open spec fn neighbour_candidates(x: usize, y: usize) -> Seq<(usize, usize)> {
    seq![
        (if x == 0 { usize::MAX } else { (x - 1) as usize }, y),
        ((x + 1) as usize, y),
        (x, if y == 0 { usize::MAX } else { (y - 1) as usize }),
        (x, (y + 1) as usize),
    ]
}

/// Whether a cell lies on a board, as a predicate.
pub open spec fn on_board() -> spec_fn((usize, usize)) -> bool {
    |c: (usize, usize)| in_bounds(c)
}

/// The orthogonal neighbours of a cell that lie on the board: left, right, up, down.
pub open spec fn adjacents_spec(x: usize, y: usize) -> Seq<(usize, usize)> {
    neighbour_candidates(x, y).filter(on_board())
}

/// The orthogonal neighbours of `(x, y)` that lie on the board, in the order
/// left, right, up, down.
pub fn adjacents(x: usize, y: usize) -> (r: Vec<(usize, usize)>)
    requires
        x < usize::MAX,
        y < usize::MAX,
    ensures
        r@ == adjacents_spec(x, y),
{
    let cands = [
        (if x == 0 { usize::MAX } else { x - 1 }, y),
        (x + 1, y),
        (x, if y == 0 { usize::MAX } else { y - 1 }),
        (x, y + 1),
    ];
    let ghost all = neighbour_candidates(x, y);
    assert(cands@ =~= all);
    let mut res: Vec<(usize, usize)> = Vec::new();
    let mut i: usize = 0;
    while i < 4
        invariant
            i <= 4,
            all == neighbour_candidates(x, y),
            cands@ == all,
            res@ == all.take(i as int).filter(on_board()),
        decreases 4 - i,
    {
        proof {
            lemma_take_push(all, i as int);
            all.take(i as int).lemma_filter_push(all[i as int], on_board());
        }
        let (nx, ny) = cands[i];
        if nx < 3 && ny < 4 {
            res.push((nx, ny));
        }
        i += 1;
    }
    assert(all.take(4) =~= all);
    res
}

/// Whether some neighbour of the cell holds a developed tile.
pub open spec fn adjacent_to_developed_spec(b: Seq<Tile>, c: (usize, usize)) -> bool {
    exists|k: int|
        0 <= k < adjacents_spec(c.0, c.1).len() && !(#[trigger] tile_at(
            b,
            adjacents_spec(c.0, c.1)[k],
        )).is_undeveloped()
}

/// Whether some neighbour of `(x, y)` holds a developed tile.
pub fn adjacent_to_developed(board: &Board, x: usize, y: usize) -> (r: bool)
    requires
        x < usize::MAX,
        y < usize::MAX,
    ensures
        r == adjacent_to_developed_spec(board@, (x, y)),
{
    let adj = adjacents(x, y);
    proof {
        broadcast use vstd::seq_lib::group_filter_ensures;
        assert forall|k: int| 0 <= k < adj@.len() implies in_bounds(#[trigger] adj@[k]) by {
            assert(on_board()(adj@[k]));
        }
    }
    let mut i: usize = 0;
    while i < adj.len()
        invariant
            i <= adj@.len(),
            adj@ == adjacents_spec(x, y),
            forall|k: int| 0 <= k < adj@.len() ==> in_bounds(#[trigger] adj@[k]),
            forall|k: int| 0 <= k < i ==> (#[trigger] tile_at(board@, adj@[k])).is_undeveloped(),
        decreases adj@.len() - i,
    {
        let (nx, ny) = adj[i];
        if !board[ny * 3 + nx].is_undeveloped() {
            assert(!tile_at(board@, adj@[i as int]).is_undeveloped());
            return true;
        }
        i += 1;
    }
    false
}

/// Whether every tile of the board is undeveloped.
pub open spec fn all_undeveloped(b: Seq<Tile>) -> bool {
    forall|i: int| 0 <= i < 12 ==> (#[trigger] b[i]).is_undeveloped()
}

/// The cells next to a developed tile, as a predicate.
pub open spec fn next_to_developed(b: Seq<Tile>) -> spec_fn((usize, usize)) -> bool {
    |c: (usize, usize)| adjacent_to_developed_spec(b, c)
}

/// The cells where an adjacency-bound tile may go: on an untouched board only
/// the bottom-right cell; otherwise every cell next to a developed tile.
pub open spec fn cells_adjacent_to_developed_spec(b: Seq<Tile>) -> Seq<(usize, usize)> {
    if all_undeveloped(b) {
        seq![(2usize, 3usize)]
    } else {
        all_cells().filter(next_to_developed(b))
    }
}

/// The cells where an adjacency-bound tile may go, row by row.
pub fn cells_adjacent_to_developed(board: &Board) -> (r: Vec<(usize, usize)>)
    ensures
        r@ == cells_adjacent_to_developed_spec(board@),
{
    let mut all = true;
    let mut i: usize = 0;
    while i < 12
        invariant
            i <= 12,
            all == (forall|k: int| 0 <= k < i ==> (#[trigger] board@[k]).is_undeveloped()),
        decreases 12 - i,
    {
        if !board[i].is_undeveloped() {
            all = false;
        }
        i += 1;
    }
    if all {
        return vec![(2, 3)];
    }
    let ghost pred = next_to_developed(board@);
    let mut res: Vec<(usize, usize)> = Vec::new();
    let mut i: usize = 0;
    while i < 12
        invariant
            i <= 12,
            pred == next_to_developed(board@),
            res@ == all_cells().take(i as int).filter(pred),
        decreases 12 - i,
    {
        proof {
            lemma_cell_at(i as int);
            lemma_take_push(all_cells(), i as int);
            all_cells().take(i as int).lemma_filter_push(all_cells()[i as int], pred);
        }
        if adjacent_to_developed(board, i % 3, i / 3) {
            res.push((i % 3, i / 3));
        }
        i += 1;
    }
    assert(all_cells().take(12) =~= all_cells());
    res
}

/// The views of a sequence of boards.
pub open spec fn boards_view(s: Seq<Board>) -> Seq<Seq<Tile>> {
    s.map_values(|a: Board| a@)
}

/// The cells on which tile `t` may be laid.
pub open spec fn may_hold(b: Seq<Tile>, t: Tile) -> spec_fn((usize, usize)) -> bool {
    |c: (usize, usize)| t.can_place_on(tile_at(b, c))
}

/// The cells on which a single tile may go: among the cells next to a
/// developed tile where the tile needs one, else among all cells.
pub open spec fn single_anchors(b: Seq<Tile>, t: Tile) -> Seq<(usize, usize)> {
    if t.requires_adjacency() {
        cells_adjacent_to_developed_spec(b).filter(may_hold(b, t))
    } else {
        all_cells().filter(may_hold(b, t))
    }
}

/// Every board that results from laying a single tile.
pub open spec fn single_placements(b: Seq<Tile>, t: Tile) -> Seq<Seq<Tile>> {
    single_anchors(b, t).map_values(|c: (usize, usize)| put(b, c, t))
}

/// The boards that result from laying the pair `t1`, `t2` on cells `c` and `c2`:
/// none where the pair does not fit, else `t1` on `c` and `t2` on `c2`, followed,
/// when the two tiles differ, by the swapped placement.
pub open spec fn twin_pair(
    b: Seq<Tile>,
    t1: Tile,
    t2: Tile,
    anchors: Seq<(usize, usize)>,
    req: bool,
    c: (usize, usize),
    c2: (usize, usize),
) -> Seq<Seq<Tile>> {
    if in_bounds(c2) && t1.can_place_on(tile_at(b, c)) && t2.can_place_on(tile_at(b, c2)) && (!req
        || anchors.contains(c) || anchors.contains(c2)) {
        if t1 != t2 {
            seq![put(put(b, c, t1), c2, t2), put(put(b, c, t2), c2, t1)]
        } else {
            seq![put(put(b, c, t1), c2, t2)]
        }
    } else {
        seq![]
    }
}

/// The pair placements anchored at the `i`-th cell: first with the partner to
/// the right, then with the partner below.
pub open spec fn twin_cell(
    b: Seq<Tile>,
    t1: Tile,
    t2: Tile,
    anchors: Seq<(usize, usize)>,
    req: bool,
    i: int,
) -> Seq<Seq<Tile>> {
    let c = cell_at(i);
    twin_pair(b, t1, t2, anchors, req, c, ((c.0 + 1) as usize, c.1)) + twin_pair(
        b,
        t1,
        t2,
        anchors,
        req,
        c,
        (c.0, (c.1 + 1) as usize),
    )
}

/// The pair placements anchored at the first `n` cells.
pub open spec fn twin_placements_upto(
    b: Seq<Tile>,
    t1: Tile,
    t2: Tile,
    anchors: Seq<(usize, usize)>,
    req: bool,
    n: nat,
) -> Seq<Seq<Tile>>
    decreases n,
{
    if n == 0 {
        seq![]
    } else {
        twin_placements_upto(b, t1, t2, anchors, req, (n - 1) as nat) + twin_cell(
            b,
            t1,
            t2,
            anchors,
            req,
            n - 1,
        )
    }
}

/// Every board that results from laying a pair of tiles; where the first tile
/// needs adjacency, one of the two cells must be next to a developed tile.
pub open spec fn twin_placements(b: Seq<Tile>, t1: Tile, t2: Tile) -> Seq<Seq<Tile>> {
    let req = t1.requires_adjacency();
    let anchors = if req {
        cells_adjacent_to_developed_spec(b)
    } else {
        Seq::empty()
    };
    twin_placements_upto(b, t1, t2, anchors, req, 12)
}

/// Every board that results from laying a tile group on board `b`.
pub open spec fn tile_placements_spec(b: Seq<Tile>, tile: TileGroup) -> Seq<Seq<Tile>> {
    match tile {
        TileGroup::Single(t) => single_placements(b, t),
        TileGroup::Twin((t1, t2)) => twin_placements(b, t1, t2),
    }
}

/// Whether a list of cells holds a cell.
pub fn contains_cell(cells: &Vec<(usize, usize)>, c: (usize, usize)) -> (r: bool)
    ensures
        r == cells@.contains(c),
{
    let mut i: usize = 0;
    while i < cells.len()
        invariant
            i <= cells@.len(),
            forall|k: int| 0 <= k < i ==> cells@[k] != c,
        decreases cells@.len() - i,
    {
        if cells[i].0 == c.0 && cells[i].1 == c.1 {
            assert(cells@[i as int] == c);
            return true;
        }
        i += 1;
    }
    false
}

/// Keeps the cells of `cells` on which tile `t` may be laid.
fn cells_that_hold(board: &Board, t: Tile, cells: &Vec<(usize, usize)>) -> (r: Vec<(usize, usize)>)
    requires
        forall|k: int| 0 <= k < cells@.len() ==> in_bounds(#[trigger] cells@[k]),
    ensures
        r@ == cells@.filter(may_hold(board@, t)),
        forall|k: int| 0 <= k < r@.len() ==> in_bounds(#[trigger] r@[k]),
{
    let ghost pred = may_hold(board@, t);
    let mut res: Vec<(usize, usize)> = Vec::new();
    let mut i: usize = 0;
    while i < cells.len()
        invariant
            i <= cells@.len(),
            pred == may_hold(board@, t),
            forall|k: int| 0 <= k < cells@.len() ==> in_bounds(#[trigger] cells@[k]),
            res@ == cells@.take(i as int).filter(pred),
            forall|k: int| 0 <= k < res@.len() ==> in_bounds(#[trigger] res@[k]),
        decreases cells@.len() - i,
    {
        proof {
            lemma_take_push(cells@, i as int);
            cells@.take(i as int).lemma_filter_push(cells@[i as int], pred);
        }
        let (x, y) = cells[i];
        if t.can_place_on(board[y * 3 + x]) {
            res.push((x, y));
        }
        i += 1;
    }
    assert(cells@.take(cells@.len() as int) =~= cells@);
    res
}

/// Every cell of a board, row by row.
fn every_cell() -> (r: Vec<(usize, usize)>)
    ensures
        r@ == all_cells(),
{
    let mut res: Vec<(usize, usize)> = Vec::new();
    let mut i: usize = 0;
    while i < 12
        invariant
            i <= 12,
            res@ == all_cells().take(i as int),
        decreases 12 - i,
    {
        proof {
            lemma_take_push(all_cells(), i as int);
        }
        res.push((i % 3, i / 3));
        i += 1;
    }
    assert(all_cells().take(12) =~= all_cells());
    res
}

/// Appends the pair placements of `t1`, `t2` on cells `(x, y)` and `(x2, y2)`.
fn push_twin(
    result: &mut Vec<Board>,
    board: &Board,
    t1: Tile,
    t2: Tile,
    anchors: &Vec<(usize, usize)>,
    req: bool,
    x: usize,
    y: usize,
    x2: usize,
    y2: usize,
)
    requires
        in_bounds((x, y)),
    ensures
        boards_view(final(result)@) == boards_view(old(result)@) + twin_pair(
            board@,
            t1,
            t2,
            anchors@,
            req,
            (x, y),
            (x2, y2),
        ),
{
    let ghost start = boards_view(result@);
    if x2 >= 3 || y2 >= 4 {
        assert(boards_view(result@) =~= start + Seq::<Seq<Tile>>::empty());
        return ;
    }
    if !t1.can_place_on(board[y * 3 + x]) || !t2.can_place_on(board[y2 * 3 + x2]) {
        assert(boards_view(result@) =~= start + Seq::<Seq<Tile>>::empty());
        return ;
    }
    let valid = !req || contains_cell(anchors, (x, y)) || contains_cell(anchors, (x2, y2));
    if !valid {
        assert(boards_view(result@) =~= start + Seq::<Seq<Tile>>::empty());
        return ;
    }
    let mut b = *board;
    b[y * 3 + x] = t1;
    b[y2 * 3 + x2] = t2;
    assert(b@ =~= put(put(board@, (x, y), t1), (x2, y2), t2));
    result.push(b);
    if t1 != t2 {
        let mut b2 = *board;
        b2[y * 3 + x] = t2;
        b2[y2 * 3 + x2] = t1;
        assert(b2@ =~= put(put(board@, (x, y), t2), (x2, y2), t1));
        result.push(b2);
    }
    assert(boards_view(result@) =~= start + twin_pair(
        board@,
        t1,
        t2,
        anchors@,
        req,
        (x, y),
        (x2, y2),
    ));
}

/// Every board that results from laying `tile` on `board`: for a single tile
/// one board per allowed cell, row by row; for a pair, row by row over the
/// first cell, the partner to the right before the partner below, and the
/// swapped placement right after each placement of two different tiles.
pub fn tile_placements_on(board: &Board, tile: TileGroup) -> (r: Vec<Board>)
    ensures
        boards_view(r@) == tile_placements_spec(board@, tile),
{
    let mut result: Vec<Board> = Vec::new();
    match tile {
        TileGroup::Single(t) => {
            let anchors = if t.requires_adjacency() {
                let near = cells_adjacent_to_developed(board);
                proof {
                    lemma_filtered_cells_in_bounds(next_to_developed(board@));
                }
                cells_that_hold(board, t, &near)
            } else {
                let every = every_cell();
                proof {
                    assert forall|k: int| 0 <= k < every@.len() implies in_bounds(
                        #[trigger] every@[k],
                    ) by {
                        lemma_cell_at(k);
                    }
                }
                cells_that_hold(board, t, &every)
            };
            let ghost target = single_placements(board@, t);
            let mut i: usize = 0;
            while i < anchors.len()
                invariant
                    i <= anchors@.len(),
                    anchors@ == single_anchors(board@, t),
                    target == single_placements(board@, t),
                    forall|k: int| 0 <= k < anchors@.len() ==> in_bounds(#[trigger] anchors@[k]),
                    boards_view(result@) == target.take(i as int),
                decreases anchors@.len() - i,
            {
                let (x, y) = anchors[i];
                let mut b = *board;
                b[y * 3 + x] = t;
                assert(b@ =~= put(board@, (x, y), t));
                let ghost prev = boards_view(result@);
                result.push(b);
                assert(boards_view(result@) =~= prev.push(b@));
                assert(target[i as int] == put(board@, anchors@[i as int], t));
                proof { lemma_take_push(target, i as int); }
                i += 1;
            }
            assert(target.take(anchors@.len() as int) =~= target);
        },
        TileGroup::Twin((t1, t2)) => {
            let req = t1.requires_adjacency();
            let anchors: Vec<(usize, usize)> = if req {
                cells_adjacent_to_developed(board)
            } else {
                Vec::new()
            };
            let ghost anc = anchors@;
            assert(anc == (if req {
                cells_adjacent_to_developed_spec(board@)
            } else {
                Seq::<(usize, usize)>::empty()
            }));
            let mut i: usize = 0;
            while i < 12
                invariant
                    i <= 12,
                    anchors@ == anc,
                    req == t1.requires_adjacency(),
                    boards_view(result@) == twin_placements_upto(
                        board@,
                        t1,
                        t2,
                        anc,
                        req,
                        i as nat,
                    ),
                decreases 12 - i,
            {
                let x = i % 3;
                let y = i / 3;
                proof {
                    lemma_cell_at(i as int);
                }
                push_twin(&mut result, board, t1, t2, &anchors, req, x, y, x + 1, y);
                push_twin(&mut result, board, t1, t2, &anchors, req, x, y, x, y + 1);
                assert(boards_view(result@) =~= twin_placements_upto(
                    board@,
                    t1,
                    t2,
                    anc,
                    req,
                    (i + 1) as nat,
                ));
                i += 1;
            }
        },
    }
    result
}

/// Holds exactly tile `t`, as a predicate.
pub open spec fn is_tile(t: Tile) -> spec_fn(Tile) -> bool {
    |x: Tile| x == t
}

/// The number of cells of `b` holding tile `t`.
pub open spec fn count_tile(b: Seq<Tile>, t: Tile) -> nat {
    b.filter(is_tile(t)).len()
}

/// The number of cells of `board` holding tile `t`.
pub fn count_tiles(board: &Board, t: Tile) -> (r: usize)
    ensures
        r == count_tile(board@, t),
        r <= 12,
{
    let mut n: usize = 0;
    let mut i: usize = 0;
    while i < 12
        invariant
            i <= 12,
            n == board@.take(i as int).filter(is_tile(t)).len(),
            n <= i,
        decreases 12 - i,
    {
        proof {
            lemma_take_push(board@, i as int);
            board@.take(i as int).lemma_filter_push(board@[i as int], is_tile(t));
        }
        if board[i] == t {
            n += 1;
        }
        i += 1;
    }
    assert(board@.take(12) =~= board@);
    n
}

/// Whether some cell of `board` holds tile `t`.
pub fn has_tile(board: &Board, t: Tile) -> (r: bool)
    ensures
        r == (count_tile(board@, t) > 0),
{
    count_tiles(board, t) > 0
}

/// The wheat on the fields among the first `n` cells.
pub open spec fn field_wheat_upto(b: Seq<Tile>, n: nat) -> nat
    decreases n,
{
    if n == 0 {
        0
    } else {
        field_wheat_upto(b, (n - 1) as nat) + match b[n - 1] {
            Tile::Field(w, _) => w as nat,
            _ => 0,
        }
    }
}

/// The vegetables on the fields among the first `n` cells.
pub open spec fn field_veg_upto(b: Seq<Tile>, n: nat) -> nat
    decreases n,
{
    if n == 0 {
        0
    } else {
        field_veg_upto(b, (n - 1) as nat) + match b[n - 1] {
            Tile::Field(_, v) => v as nat,
            _ => 0,
        }
    }
}

/// The points of the tiles among the first `n` cells.
pub open spec fn tile_points_upto(b: Seq<Tile>, n: nat) -> int
    decreases n,
{
    if n == 0 {
        0
    } else {
        tile_points_upto(b, (n - 1) as nat) + b[n - 1].points()
    }
}

/// The wheat and the vegetables standing on the fields of a board.
pub fn field_crops(board: &Board) -> (r: (usize, usize))
    ensures
        r.0 == field_wheat_upto(board@, 12),
        r.1 == field_veg_upto(board@, 12),
        r.0 <= 12 * 255,
        r.1 <= 12 * 255,
{
    let mut w: usize = 0;
    let mut v: usize = 0;
    let mut i: usize = 0;
    while i < 12
        invariant
            i <= 12,
            w == field_wheat_upto(board@, i as nat),
            v == field_veg_upto(board@, i as nat),
            w <= i * 255,
            v <= i * 255,
        decreases 12 - i,
    {
        match board[i] {
            Tile::Field(fw, fv) => {
                w += fw as usize;
                v += fv as usize;
            },
            _ => {},
        }
        i += 1;
    }
    (w, v)
}

/// The sum of the points of the tiles of a board.
pub fn tile_points_sum(board: &Board) -> (r: i32)
    ensures
        r == tile_points_upto(board@, 12),
        0 <= r <= 48,
{
    let mut s: i32 = 0;
    let mut i: usize = 0;
    while i < 12
        invariant
            i <= 12,
            s == tile_points_upto(board@, i as nat),
            0 <= s <= 4 * i,
        decreases 12 - i,
    {
        s += board[i].points();
        i += 1;
    }
    s
}

/// A tile never lies on a tile of its own kind, and no two tiles may each
/// lie on the other.
pub proof fn lemma_can_place_strict(t: Tile, u: Tile)
    ensures
        t.can_place_on(u) ==> t != u,
        !(t.can_place_on(u) && u.can_place_on(t)),
{
}

/// Counting the changed cells among the first `k` cells, where the boards
/// agree everywhere but at positions `i` and `j`.
pub proof fn lemma_changed_count(b: Seq<Tile>, b2: Seq<Tile>, i: int, j: int, k: int)
    requires
        b.len() == 12,
        b2.len() == 12,
        0 <= i < 12,
        0 <= j < 12,
        i != j,
        0 <= k <= 12,
        forall|m: int| 0 <= m < 12 && m != i && m != j ==> b[m] == b2[m],
    ensures
        all_cells().take(k).filter(differs(b, b2)).len() == (if i < k && b[i] != b2[i] {
            1int
        } else {
            0int
        }) + (if j < k && b[j] != b2[j] {
            1int
        } else {
            0int
        }),
    decreases k,
{
    if k > 0 {
        lemma_changed_count(b, b2, i, j, k - 1);
        lemma_take_push(all_cells(), k - 1);
        lemma_cell_at(k - 1);
        all_cells().take(k - 1).lemma_filter_push(all_cells()[k - 1], differs(b, b2));
    } else {
        assert(all_cells().take(0) =~= Seq::<(usize, usize)>::empty());
        reveal_with_fuel(Seq::filter, 1);
    }
}

/// Whether laying a tile group changed one or two cells.
pub open spec fn one_or_two_changed(b: Seq<Tile>, nb: Seq<Tile>) -> bool {
    1 <= changed_cells_spec(b, nb).len() <= 2
}

pub proof fn lemma_changed_at_two(b: Seq<Tile>, i: int, j: int, u: Tile, v: Tile)
    requires
        b.len() == 12,
        0 <= i < 12,
        0 <= j < 12,
        i != j,
    ensures
        changed_cells_spec(b, b.update(i, u).update(j, v)).len() == (if b[i] != u {
            1int
        } else {
            0int
        }) + (if b[j] != v {
            1int
        } else {
            0int
        }),
{
    let b2 = b.update(i, u).update(j, v);
    lemma_changed_count(b, b2, i, j, 12);
    assert(all_cells().take(12) =~= all_cells());
}

pub proof fn lemma_changed_at_one(b: Seq<Tile>, i: int, u: Tile)
    requires
        b.len() == 12,
        0 <= i < 12,
        b[i] != u,
    ensures
        changed_cells_spec(b, b.update(i, u)).len() == 1,
{
    let j = if i == 0 {
        1
    } else {
        0
    };
    lemma_changed_at_two(b, i, j, u, b[j]);
    assert(b.update(i, u).update(j, b[j]) =~= b.update(i, u));
}

pub proof fn lemma_twin_pair_changed(
    b: Seq<Tile>,
    t1: Tile,
    t2: Tile,
    anchors: Seq<(usize, usize)>,
    req: bool,
    c: (usize, usize),
    c2: (usize, usize),
)
    requires
        b.len() == 12,
        in_bounds(c),
        cell_index(c2) != cell_index(c),
    ensures
        forall|k: int|
            0 <= k < twin_pair(b, t1, t2, anchors, req, c, c2).len() ==> one_or_two_changed(
                b,
                #[trigger] twin_pair(b, t1, t2, anchors, req, c, c2)[k],
            ),
{
    let ps = twin_pair(b, t1, t2, anchors, req, c, c2);
    if ps.len() > 0 {
        let i = cell_index(c);
        let j = cell_index(c2);
        lemma_can_place_strict(t1, b[i]);
        lemma_can_place_strict(t2, b[j]);
        lemma_changed_at_two(b, i, j, t1, t2);
        lemma_changed_at_two(b, i, j, t2, t1);
        lemma_can_place_strict(b[j], b[i]);
    }
}

pub proof fn lemma_twin_placements_changed(
    b: Seq<Tile>,
    t1: Tile,
    t2: Tile,
    anchors: Seq<(usize, usize)>,
    req: bool,
    n: nat,
)
    requires
        b.len() == 12,
        n <= 12,
    ensures
        forall|k: int|
            0 <= k < twin_placements_upto(b, t1, t2, anchors, req, n).len() ==> one_or_two_changed(
                b,
                #[trigger] twin_placements_upto(b, t1, t2, anchors, req, n)[k],
            ),
    decreases n,
{
    if n > 0 {
        lemma_twin_placements_changed(b, t1, t2, anchors, req, (n - 1) as nat);
        let i = n - 1;
        let c = cell_at(i);
        lemma_cell_at(i);
        let c_right = ((c.0 + 1) as usize, c.1);
        let c_below = (c.0, (c.1 + 1) as usize);
        lemma_twin_pair_changed(b, t1, t2, anchors, req, c, c_right);
        lemma_twin_pair_changed(b, t1, t2, anchors, req, c, c_below);
        let a = twin_placements_upto(b, t1, t2, anchors, req, (n - 1) as nat);
        let x = twin_pair(b, t1, t2, anchors, req, c, c_right);
        let y = twin_pair(b, t1, t2, anchors, req, c, c_below);
        assert(twin_placements_upto(b, t1, t2, anchors, req, n) == a + x + y);
        assert forall|k: int| 0 <= k < (a + x + y).len() implies one_or_two_changed(
            b,
            #[trigger] (a + x + y)[k],
        ) by {
            if k < a.len() {
                assert((a + x + y)[k] == a[k]);
            } else if k < a.len() + x.len() {
                assert((a + x + y)[k] == x[k - a.len()]);
            } else {
                assert((a + x + y)[k] == y[k - a.len() - x.len()]);
            }
        }
    }
}

pub proof fn lemma_single_anchor(b: Seq<Tile>, t: Tile, k: int)
    requires
        0 <= k < single_anchors(b, t).len(),
    ensures
        in_bounds(single_anchors(b, t)[k]),
        t.can_place_on(tile_at(b, single_anchors(b, t)[k])),
{
    let c = single_anchors(b, t)[k];
    let src = if t.requires_adjacency() {
        cells_adjacent_to_developed_spec(b)
    } else {
        all_cells()
    };
    assert(single_anchors(b, t) == src.filter(may_hold(b, t)));
    src.lemma_filter_pred(may_hold(b, t), k);
    assert(src.filter(may_hold(b, t)).contains(c));
    src.lemma_filter_contains_rev(may_hold(b, t), c);
    let m = choose|m: int| 0 <= m < src.len() && src[m] == c;
    if t.requires_adjacency() && !all_undeveloped(b) {
        lemma_filtered_cells_in_bounds(next_to_developed(b));
    } else if !t.requires_adjacency() {
        lemma_cell_at(m);
    }
}

/// Every placement of a tile group changes one or two cells of the board.
pub proof fn lemma_placements_changed(b: Seq<Tile>, tile: TileGroup)
    requires
        b.len() == 12,
    ensures
        forall|k: int|
            0 <= k < tile_placements_spec(b, tile).len() ==> one_or_two_changed(
                b,
                #[trigger] tile_placements_spec(b, tile)[k],
            ),
{
    match tile {
        TileGroup::Single(t) => {
            let anchors = single_anchors(b, t);
            assert forall|k: int| 0 <= k < tile_placements_spec(b, tile).len() implies one_or_two_changed(
                b,
                #[trigger] tile_placements_spec(b, tile)[k],
            ) by {
                let c = anchors[k];
                lemma_single_anchor(b, t, k);
                lemma_can_place_strict(t, tile_at(b, c));
                lemma_changed_at_one(b, cell_index(c), t);
            }
        },
        TileGroup::Twin((t1, t2)) => {
            let req = t1.requires_adjacency();
            let anchors = if req {
                cells_adjacent_to_developed_spec(b)
            } else {
                Seq::empty()
            };
            lemma_twin_placements_changed(b, t1, t2, anchors, req, 12);
        },
    }
}

} // verus!
