//! Levels: an ASCII map parsed into a grid of wall types, with the start
//! cell, the exit cell and the walkable cells on which the orb may appear.

use vstd::prelude::*;
use vstd::string::StringSliceAdditionalSpecFns;

verus! {

/// Wall type of a map character: `'1'..='4'` are the four kinds of wall,
/// every other character is floor (0).
pub open spec fn cell_code(c: char) -> u8 {
    if c == '1' {
        1
    } else if c == '2' {
        2
    } else if c == '3' {
        3
    } else if c == '4' {
        4
    } else {
        0
    }
}

/// The map alphabet: `'1'`, `'2'`, `'3'` and `'4'` are walls of that type and
/// every other character, the markers `'S'`, `'9'` and `'O'` included, is
/// floor.
pub proof fn lemma_map_alphabet(c: char)
    ensures
        c == '1' ==> cell_code(c) == 1,
        c == '2' ==> cell_code(c) == 2,
        c == '3' ==> cell_code(c) == 3,
        c == '4' ==> cell_code(c) == 4,
        c != '1' && c != '2' && c != '3' && c != '4' ==> cell_code(c) == 0,
        1 <= cell_code(c) <= 4 <==> (c == '1' || c == '2' || c == '3' || c == '4'),
{
}

/// What a scan over the map characters has collected so far.
pub struct Marks {
    pub start: (i32, i32),
    pub exit: (i32, i32),
    pub orb: Option<(i32, i32)>,
    pub floor: Seq<(i32, i32)>,
}

/// The marks before any character is read: start at cell (1, 1), exit at
/// cell (width - 2, height - 2), no orb spawn, no floor cell.
pub open spec fn initial_marks(width: int, height: int) -> Marks {
    Marks {
        start: (1i32, 1i32),
        exit: ((width - 2) as i32, (height - 2) as i32),
        orb: None,
        floor: Seq::empty(),
    }
}

/// Reading character `c` at column `x` of row `y`: `'S'` moves the start,
/// `'9'` moves the exit, `'O'` moves the orb spawn, and every floor
/// character (these three included) appends its cell to the floor list.
pub open spec fn read_char(m: Marks, x: int, y: int, c: char) -> Marks {
    let p = (x as i32, y as i32);
    let m1 = if c == 'S' {
        Marks { start: p, ..m }
    } else if c == '9' {
        Marks { exit: p, ..m }
    } else if c == 'O' {
        Marks { orb: Some(p), ..m }
    } else {
        m
    };
    if cell_code(c) == 0 {
        Marks { floor: m1.floor.push(p), ..m1 }
    } else {
        m1
    }
}

/// The marks after reading the first `n` characters of row `y`.
pub open spec fn read_row(m: Marks, row: Seq<char>, y: int, n: nat) -> Marks
    decreases n,
{
    if n == 0 {
        m
    } else {
        read_char(read_row(m, row, y, (n - 1) as nat), n - 1, y, row[n - 1])
    }
}

/// The marks after reading the first `k` rows completely.
pub open spec fn read_rows(m: Marks, rows: Seq<Seq<char>>, k: nat) -> Marks
    decreases k,
{
    if k == 0 {
        m
    } else {
        let prev = read_rows(m, rows, (k - 1) as nat);
        read_row(prev, rows[k - 1], k - 1, rows[k - 1].len())
    }
}

/// The marks of a whole map.
pub open spec fn map_marks(rows: Seq<Seq<char>>, width: int) -> Marks {
    read_rows(initial_marks(width, rows.len() as int), rows, rows.len())
}

/// A sequence with every run of equal neighbours collapsed to one element.
pub open spec fn dedup<T>(s: Seq<T>) -> Seq<T>
    decreases s.len(),
{
    if s.len() <= 1 {
        s
    } else {
        let d = dedup(s.drop_last());
        if s.last() == s[s.len() - 2] {
            d
        } else {
            d.push(s.last())
        }
    }
}

/// The walkable cells of a map: its floor cells in row-major order, followed
/// by the orb spawn cell when there is one, with neighbouring repeats
/// collapsed.
pub open spec fn map_floor_cells(rows: Seq<Seq<char>>, width: int) -> Seq<(i32, i32)> {
    let m = map_marks(rows, width);
    match m.orb {
        Some(p) => dedup(m.floor.push(p)),
        None => m.floor,
    }
}

/// The wall-type grid of a map: `height` rows of `width` cells; a cell holds
/// the code of the character at that place, or 0 past the end of its row.
pub open spec fn map_grid_cell(rows: Seq<Seq<char>>, x: int, y: int) -> u8 {
    if x < rows[y].len() {
        cell_code(rows[y][x])
    } else {
        0
    }
}

/// A parsed level.  `start` is the cell whose centre is the player's start
/// position; `exit` is the goal cell; `floor_cells` are the cells on which
/// the orb may be placed.
pub struct Level {
    pub name: &'static str,
    pub grid: Vec<Vec<u8>>,
    pub width: i32,
    pub height: i32,
    pub start: (i32, i32),
    pub exit: (i32, i32),
    pub floor_cells: Vec<(i32, i32)>,
}

impl Level {
    /// `(x, y)` lies inside the grid.
    pub open spec fn in_bounds(&self, x: int, y: int) -> bool {
        0 <= x < self.width && 0 <= y < self.height
    }

    /// The stored wall type of an in-bounds cell.
    pub open spec fn cell(&self, x: int, y: int) -> u8 {
        self.grid@[y]@[x]
    }

    /// The wall type seen at any cell: outside the grid everything is wall
    /// type 1.
    pub open spec fn wall_type(&self, x: int, y: int) -> u8 {
        if self.in_bounds(x, y) {
            self.cell(x, y)
        } else {
            1
        }
    }

    /// Whether any cell blocks movement and rays.
    pub open spec fn blocked(&self, x: int, y: int) -> bool {
        self.wall_type(x, y) != 0
    }

    /// `(x, y)` is an in-bounds floor cell.
    pub open spec fn walkable(&self, p: (i32, i32)) -> bool {
        self.in_bounds(p.0 as int, p.1 as int) && self.cell(p.0 as int, p.1 as int) == 0
    }

    /// The grid is `height` rows of `width` wall types, each 0 to 4.
    pub open spec fn grid_wf(&self) -> bool {
        &&& 0 <= self.width
        &&& 0 <= self.height
        &&& self.grid@.len() == self.height
        &&& forall|y: int| 0 <= y < self.height ==> (#[trigger] self.grid@[y])@.len() == self.width
        &&& forall|x: int, y: int| self.in_bounds(x, y) ==> #[trigger] self.cell(x, y) <= 4
    }

    /// Well-formedness: a `height` by `width` grid of wall types 0 to 4,
    /// a start cell whose right neighbour has a representable column, and
    /// walkable floor cells.
    pub open spec fn wf(&self) -> bool {
        &&& self.grid_wf()
        &&& 0 <= self.start.0 < i32::MAX
        &&& 0 <= self.start.1
        &&& forall|i: int|
            0 <= i < self.floor_cells@.len() ==> self.walkable(#[trigger] self.floor_cells@[i])
    }

    /// This level is what `parse_level` makes of `name` and `rows`, whose
    /// first row is `width` bytes long.
    pub open spec fn parsed_from(
        &self,
        name: &'static str,
        rows: Seq<Seq<char>>,
        width: int,
    ) -> bool {
        let m = map_marks(rows, width);
        &&& self.name == name
        &&& self.width == width
        &&& self.height == rows.len()
        &&& forall|x: int, y: int|
            self.in_bounds(x, y) ==> #[trigger] self.cell(x, y) == map_grid_cell(rows, x, y)
        &&& self.start == m.start
        &&& self.exit == m.exit
        &&& self.floor_cells@ == map_floor_cells(rows, width)
    }
}

/// The character sequences of the map rows.
pub open spec fn rows_view(rows: Seq<&str>) -> Seq<Seq<char>> {
    rows.map_values(|r: &str| r@)
}

/// Every element of `dedup(s)` is an element of `s`.
pub proof fn lemma_dedup_subset<T>(s: Seq<T>)
    ensures
        forall|i: int| 0 <= i < dedup(s).len() ==> s.contains(#[trigger] dedup(s)[i]),
    decreases s.len(),
{
    if s.len() > 1 {
        let t = s.drop_last();
        lemma_dedup_subset(t);
        assert forall|i: int| 0 <= i < dedup(s).len() implies s.contains(#[trigger] dedup(s)[i]) by {
            if i < dedup(t).len() {
                let j = choose|j: int| 0 <= j < t.len() && t[j] == dedup(t)[i];
                assert(s[j] == t[j]);
            } else {
                assert(s[s.len() - 1] == s.last());
            }
        }
    }
}

/// Collapsing neighbouring repeats loses no element.
pub proof fn lemma_dedup_keeps<T>(s: Seq<T>, q: T)
    requires
        s.contains(q),
    ensures
        dedup(s).contains(q),
    decreases s.len(),
{
    if s.len() > 1 {
        let t = s.drop_last();
        let j = choose|j: int| 0 <= j < s.len() && s[j] == q;
        if j < s.len() - 1 {
            assert(t[j] == q);
            lemma_dedup_keeps(t, q);
            let k = choose|k: int| 0 <= k < dedup(t).len() && dedup(t)[k] == q;
            if s.last() != s[s.len() - 2] {
                assert(dedup(s)[k] == q);
            }
        } else if s.last() == s[s.len() - 2] {
            assert(t[s.len() - 2] == q);
            lemma_dedup_keeps(t, q);
        } else {
            assert(dedup(s)[dedup(s).len() - 1] == q);
        }
    }
}

/// Reading a row keeps every floor cell found before, and the cells it adds
/// are exactly the floor characters among its first `n` characters.
proof fn lemma_read_row_floor(m: Marks, row: Seq<char>, y: int, n: nat, q: (i32, i32))
    requires
        n <= row.len() <= i32::MAX,
        0 <= y <= i32::MAX,
    ensures
        read_row(m, row, y, n).floor.contains(q) <==> (m.floor.contains(q) || (q.1 == y && 0
            <= q.0 < n && cell_code(row[q.0 as int]) == 0)),
    decreases n,
{
    if n > 0 {
        let prev = read_row(m, row, y, (n - 1) as nat);
        lemma_read_row_floor(m, row, y, (n - 1) as nat, q);
        let c = row[n - 1];
        let p = ((n - 1) as i32, y as i32);
        let cur = read_row(m, row, y, n);
        if cell_code(c) == 0 {
            assert(cur.floor == prev.floor.push(p));
            if prev.floor.contains(q) {
                let k = choose|k: int| 0 <= k < prev.floor.len() && prev.floor[k] == q;
                assert(cur.floor[k] == q);
            }
            if q == p {
                assert(cur.floor[cur.floor.len() - 1] == q);
            }
            if cur.floor.contains(q) {
                let k = choose|k: int| 0 <= k < cur.floor.len() && cur.floor[k] == q;
                if k < prev.floor.len() {
                    assert(prev.floor[k] == q);
                }
            }
        } else {
            assert(cur.floor == prev.floor);
        }
    }
}

/// Reading the first `k` rows keeps every floor cell found before, and the
/// cells it adds are exactly the floor characters of those rows.
proof fn lemma_read_rows_floor(m: Marks, rows: Seq<Seq<char>>, k: nat, q: (i32, i32))
    requires
        k <= rows.len() <= i32::MAX,
        forall|y: int| 0 <= y < rows.len() ==> (#[trigger] rows[y]).len() <= i32::MAX,
    ensures
        read_rows(m, rows, k).floor.contains(q) <==> (m.floor.contains(q) || (0 <= q.1 < k
            && floor_char_at(rows, q))),
    decreases k,
{
    if k > 0 {
        let prev = read_rows(m, rows, (k - 1) as nat);
        lemma_read_rows_floor(m, rows, (k - 1) as nat, q);
        let r = rows[k - 1];
        lemma_read_row_floor(prev, r, k - 1, r.len(), q);
    }
}

/// Parsing lists every floor cell of the map, and nothing else: a cell is
/// among the level's walkable cells exactly when the map has a floor
/// character there.
pub proof fn lemma_floor_cells_exact(rows: Seq<Seq<char>>, width: int, q: (i32, i32))
    requires
        rows.len() <= i32::MAX,
        forall|y: int| 0 <= y < rows.len() ==> (#[trigger] rows[y]).len() <= i32::MAX,
    ensures
        map_floor_cells(rows, width).contains(q) <==> floor_char_at(rows, q),
{
    let m = map_marks(rows, width);
    let init = initial_marks(width, rows.len() as int);
    lemma_read_rows_floor(init, rows, rows.len(), q);
    assert(!init.floor.contains(q));
    match m.orb {
        Some(p) => {
            let pushed = m.floor.push(p);
            // the orb spawn is itself a floor character, hence already listed
            lemma_read_rows_floor(init, rows, rows.len(), p);
            lemma_orb_is_floor(rows, width);
            if floor_char_at(rows, q) {
                let k = choose|k: int| 0 <= k < m.floor.len() && m.floor[k] == q;
                assert(pushed[k] == q);
                lemma_dedup_keeps(pushed, q);
            }
            if dedup(pushed).contains(q) {
                lemma_dedup_subset(pushed);
                let i = choose|i: int| 0 <= i < dedup(pushed).len() && dedup(pushed)[i] == q;
                assert(pushed.contains(dedup(pushed)[i]));
                let j = choose|j: int| 0 <= j < pushed.len() && pushed[j] == q;
                if j < m.floor.len() {
                    assert(m.floor[j] == q);
                }
            }
        },
        None => {},
    }
}

/// The orb spawn found by a scan, when any, is a floor character.
proof fn lemma_orb_is_floor(rows: Seq<Seq<char>>, width: int)
    requires
        rows.len() <= i32::MAX,
        forall|y: int| 0 <= y < rows.len() ==> (#[trigger] rows[y]).len() <= i32::MAX,
    ensures
        map_marks(rows, width).orb matches Some(p) ==> floor_char_at(rows, p),
{
    lemma_read_rows_orb(initial_marks(width, rows.len() as int), rows, rows.len());
}

proof fn lemma_read_rows_orb(m: Marks, rows: Seq<Seq<char>>, k: nat)
    requires
        k <= rows.len() <= i32::MAX,
        forall|y: int| 0 <= y < rows.len() ==> (#[trigger] rows[y]).len() <= i32::MAX,
        m.orb matches Some(p) ==> floor_char_at(rows, p),
    ensures
        read_rows(m, rows, k).orb matches Some(p) ==> floor_char_at(rows, p),
    decreases k,
{
    if k > 0 {
        lemma_read_rows_orb(m, rows, (k - 1) as nat);
        let prev = read_rows(m, rows, (k - 1) as nat);
        lemma_read_row_orb(prev, rows, k - 1, rows[k - 1].len());
    }
}

proof fn lemma_read_row_orb(m: Marks, rows: Seq<Seq<char>>, y: int, n: nat)
    requires
        0 <= y < rows.len() <= i32::MAX,
        n <= rows[y].len() <= i32::MAX,
        m.orb matches Some(p) ==> floor_char_at(rows, p),
    ensures
        read_row(m, rows[y], y, n).orb matches Some(p) ==> floor_char_at(rows, p),
    decreases n,
{
    if n > 0 {
        lemma_read_row_orb(m, rows, y, (n - 1) as nat);
    }
}

/// The map holds character `c` at column `x` of row `y`.
pub open spec fn marker_at(rows: Seq<Seq<char>>, c: char, x: int, y: int) -> bool {
    0 <= y < rows.len() && 0 <= x < rows[y].len() && rows[y][x] == c
}

/// The position a scan keeps for marker `c`: the start for `'S'`, the exit
/// for `'9'`.
pub open spec fn mark_of(m: Marks, c: char) -> (i32, i32) {
    if c == 'S' {
        m.start
    } else {
        m.exit
    }
}

proof fn lemma_read_row_mark(m: Marks, rows: Seq<Seq<char>>, y: int, n: nat, c: char)
    requires
        c == 'S' || c == '9',
        0 <= y < rows.len() <= i32::MAX,
        n <= rows[y].len() <= i32::MAX,
    ensures
        (exists|x: int| 0 <= x < n && #[trigger] marker_at(rows, c, x, y)) ==> exists|x: int|
            0 <= x < n && #[trigger] marker_at(rows, c, x, y) && mark_of(
                read_row(m, rows[y], y, n),
                c,
            ) == (x as i32, y as i32) && forall|x2: int|
                x < x2 < n ==> !#[trigger] marker_at(rows, c, x2, y),
        !(exists|x: int| 0 <= x < n && #[trigger] marker_at(rows, c, x, y)) ==> mark_of(
            read_row(m, rows[y], y, n),
            c,
        ) == mark_of(m, c),
    decreases n,
{
    if n > 0 {
        lemma_read_row_mark(m, rows, y, (n - 1) as nat, c);
        let x = n - 1;
        if rows[y][x] == c {
            assert(marker_at(rows, c, x, y));
        } else {
            assert(!marker_at(rows, c, x, y));
            if exists|x1: int| 0 <= x1 < n && #[trigger] marker_at(rows, c, x1, y) {
                let x1 = choose|x1: int| 0 <= x1 < n && #[trigger] marker_at(rows, c, x1, y);
                assert(x1 < n - 1);
            }
        }
    }
}

proof fn lemma_read_rows_mark(m: Marks, rows: Seq<Seq<char>>, k: nat, c: char)
    requires
        c == 'S' || c == '9',
        k <= rows.len() <= i32::MAX,
        forall|y: int| 0 <= y < rows.len() ==> (#[trigger] rows[y]).len() <= i32::MAX,
    ensures
        (exists|x: int, y: int| 0 <= y < k && #[trigger] marker_at(rows, c, x, y)) ==> exists|
            x: int,
            y: int,
        |
            0 <= y < k && #[trigger] marker_at(rows, c, x, y) && mark_of(read_rows(m, rows, k), c)
                == (x as i32, y as i32) && forall|x2: int, y2: int|
                0 <= y2 < k && #[trigger] marker_at(rows, c, x2, y2) ==> y2 < y || (y2 == y && x2
                    <= x),
        !(exists|x: int, y: int| 0 <= y < k && #[trigger] marker_at(rows, c, x, y)) ==> mark_of(
            read_rows(m, rows, k),
            c,
        ) == mark_of(m, c),
    decreases k,
{
    if k > 0 {
        let y = k - 1;
        let prev = read_rows(m, rows, (k - 1) as nat);
        lemma_read_rows_mark(m, rows, (k - 1) as nat, c);
        lemma_read_row_mark(prev, rows, y, rows[y].len(), c);
        if exists|x: int| 0 <= x < rows[y].len() && #[trigger] marker_at(rows, c, x, y) {
            let x = choose|x: int|
                0 <= x < rows[y].len() && #[trigger] marker_at(rows, c, x, y) && mark_of(
                    read_row(prev, rows[y], y, rows[y].len()),
                    c,
                ) == (x as i32, y as i32) && forall|x2: int|
                    x < x2 < rows[y].len() ==> !#[trigger] marker_at(rows, c, x2, y);
            assert(marker_at(rows, c, x, y));
        } else {
            if exists|x: int, y1: int| 0 <= y1 < k && #[trigger] marker_at(rows, c, x, y1) {
                let (x1, y1) = choose|x: int, y1: int|
                    0 <= y1 < k && #[trigger] marker_at(rows, c, x, y1);
                assert(y1 < k - 1);
                let (xm, ym) = choose|x: int, y0: int|
                    0 <= y0 < k - 1 && #[trigger] marker_at(rows, c, x, y0) && mark_of(prev, c) == (
                    x as i32,
                    y0 as i32,
                ) && forall|x2: int, y2: int|
                    0 <= y2 < k - 1 && #[trigger] marker_at(rows, c, x2, y2) ==> y2 < y0 || (y2
                        == y0 && x2 <= x);
                assert forall|x2: int, y2: int|
                    0 <= y2 < k && #[trigger] marker_at(rows, c, x2, y2) implies y2 < ym || (y2
                    == ym && x2 <= xm) by {
                    if y2 == k - 1 {
                        assert(marker_at(rows, c, x2, y));
                    }
                }
                assert(marker_at(rows, c, xm, ym));
            }
        }
    }
}

/// The start is the last `'S'` of the map in row-major order, or cell (1, 1)
/// when there is none; the exit is the last `'9'`, or cell
/// (width - 2, height - 2) when there is none.
pub proof fn lemma_start_and_exit(rows: Seq<Seq<char>>, width: int)
    requires
        rows.len() <= i32::MAX,
        forall|y: int| 0 <= y < rows.len() ==> (#[trigger] rows[y]).len() <= i32::MAX,
    ensures
        (exists|x: int, y: int| #[trigger] marker_at(rows, 'S', x, y)) ==> exists|x: int, y: int|
            #[trigger] marker_at(rows, 'S', x, y) && map_marks(rows, width).start == (
                x as i32,
                y as i32,
            ) && forall|x2: int, y2: int|
                #[trigger] marker_at(rows, 'S', x2, y2) ==> y2 < y || (y2 == y && x2 <= x),
        !(exists|x: int, y: int| #[trigger] marker_at(rows, 'S', x, y)) ==> map_marks(
            rows,
            width,
        ).start == (1i32, 1i32),
        (exists|x: int, y: int| #[trigger] marker_at(rows, '9', x, y)) ==> exists|x: int, y: int|
            #[trigger] marker_at(rows, '9', x, y) && map_marks(rows, width).exit == (
                x as i32,
                y as i32,
            ) && forall|x2: int, y2: int|
                #[trigger] marker_at(rows, '9', x2, y2) ==> y2 < y || (y2 == y && x2 <= x),
        !(exists|x: int, y: int| #[trigger] marker_at(rows, '9', x, y)) ==> map_marks(
            rows,
            width,
        ).exit == ((width - 2) as i32, (rows.len() - 2) as i32),
{
    let init = initial_marks(width, rows.len() as int);
    lemma_read_rows_mark(init, rows, rows.len(), 'S');
    lemma_read_rows_mark(init, rows, rows.len(), '9');
}

/// Collapses runs of equal neighbouring cells into one cell.
fn dedup_cells(v: &Vec<(i32, i32)>) -> (r: Vec<(i32, i32)>)
    ensures
        r@ == dedup(v@),
{
    let mut r: Vec<(i32, i32)> = Vec::new();
    let mut i: usize = 0;
    while i < v.len()
        invariant
            0 <= i <= v.len(),
            r@ == dedup(v@.take(i as int)),
        decreases v.len() - i,
    {
        let ghost t = v@.take(i as int + 1);
        assert(t.drop_last() =~= v@.take(i as int));
        assert(t.last() == v@[i as int]);
        if i == 0 {
            r.push(v[i]);
            assert(r@ =~= t);
        } else {
            assert(t[t.len() - 2] == v@[i - 1]);
            let cur = v[i];
            let prev = v[i - 1];
            if cur.0 != prev.0 || cur.1 != prev.1 {
                r.push(cur);
            }
        }
        i = i + 1;
    }
    assert(v@.take(v.len() as int) =~= v@);
    r
}

/// Wall type of a map character.
fn char_code(c: char) -> (code: u8)
    ensures
        code == cell_code(c),
{
    if c == '1' {
        1
    } else if c == '2' {
        2
    } else if c == '3' {
        3
    } else if c == '4' {
        4
    } else {
        0
    }
}

/// The cell `p` of `rows` holds a floor character.
pub open spec fn floor_char_at(rows: Seq<Seq<char>>, p: (i32, i32)) -> bool {
    &&& 0 <= p.1 < rows.len()
    &&& 0 <= p.0 < rows[p.1 as int].len()
    &&& cell_code(rows[p.1 as int][p.0 as int]) == 0
}

/// Parses an ASCII map.  The grid is `rows.len()` rows high and as wide as
/// the first row is long in bytes; `'1'`..`'4'` are walls, `'S'` the start,
/// `'9'` the exit and `'O'` the orb spawn, each of the last three on floor.
/// Where a marker occurs more than once the last one counts.
pub fn parse_level(name: &'static str, rows: &[&str]) -> (lvl: Level)
    requires
        rows@.len() > 0,
        rows@.len() <= i32::MAX,
        rows@[0].spec_bytes().len() <= i32::MAX,
        forall|y: int|
            0 <= y < rows@.len() ==> (#[trigger] rows@[y])@.len() <= rows@[0].spec_bytes().len(),
    ensures
        lvl.wf(),
        lvl.parsed_from(name, rows_view(rows@), rows@[0].spec_bytes().len() as int),
{
    let ghost rv = rows_view(rows@);
    let height = rows.len() as i32;
    let width = rows[0].len() as i32;
    let ghost init = initial_marks(width as int, height as int);
    let mut grid: Vec<Vec<u8>> = Vec::new();
    let mut start: (i32, i32) = (1, 1);
    let mut exit: (i32, i32) = (width - 2, height - 2);
    let mut floor_cells: Vec<(i32, i32)> = Vec::new();
    let mut orb_spawn: Option<(i32, i32)> = None;
    let mut y: usize = 0;
    while y < rows.len()
        invariant
            rv == rows_view(rows@),
            rv.len() == rows@.len(),
            height as int == rows@.len(),
            width as int == rows@[0].spec_bytes().len(),
            forall|yy: int| 0 <= yy < rows@.len() ==> (#[trigger] rv[yy]).len() <= width,
            init == initial_marks(width as int, height as int),
            0 <= y <= rows.len(),
            read_rows(init, rv, y as nat).start == start,
            read_rows(init, rv, y as nat).exit == exit,
            read_rows(init, rv, y as nat).orb == orb_spawn,
            read_rows(init, rv, y as nat).floor == floor_cells@,
            grid@.len() == y,
            forall|yy: int| 0 <= yy < y ==> (#[trigger] grid@[yy])@.len() == width,
            forall|x: int, yy: int|
                0 <= yy < y && 0 <= x < width ==> #[trigger] grid@[yy]@[x] == map_grid_cell(
                    rv,
                    x,
                    yy,
                ),
            forall|i: int|
                0 <= i < floor_cells@.len() ==> floor_char_at(rv, #[trigger] floor_cells@[i]),
            orb_spawn matches Some(p) ==> floor_char_at(rv, p),
            start == (1i32, 1i32) || floor_char_at(rv, start),
        decreases rows.len() - y,
    {
        let row: &str = rows[y];
        let n = row.unicode_len();
        assert(rv[y as int] == row@);
        let ghost before = read_rows(init, rv, y as nat);
        let mut cells: Vec<u8> = Vec::new();
        let mut x: usize = 0;
        while x < n
            invariant
                rv == rows_view(rows@),
                rv.len() == rows@.len(),
                0 <= y < rows@.len(),
                rv[y as int] == row@,
                n == row@.len(),
                n <= width,
                width <= i32::MAX,
                height as int == rows@.len(),
                0 <= x <= n,
                read_row(before, row@, y as int, x as nat).start == start,
                read_row(before, row@, y as int, x as nat).exit == exit,
                read_row(before, row@, y as int, x as nat).orb == orb_spawn,
                read_row(before, row@, y as int, x as nat).floor == floor_cells@,
                cells@.len() == x,
                forall|xx: int| 0 <= xx < x ==> #[trigger] cells@[xx] == cell_code(row@[xx]),
                forall|i: int|
                    0 <= i < floor_cells@.len() ==> floor_char_at(rv, #[trigger] floor_cells@[i]),
                orb_spawn matches Some(p) ==> floor_char_at(rv, p),
                start == (1i32, 1i32) || floor_char_at(rv, start),
            decreases n - x,
        {
            let ch = row.get_char(x);
            let cell = char_code(ch);
            let p: (i32, i32) = (x as i32, y as i32);
            assert(floor_char_at(rv, p) <==> cell == 0);
            if ch == 'S' {
                start = p;
            } else if ch == '9' {
                exit = p;
            } else if ch == 'O' {
                orb_spawn = Some(p);
            }
            cells.push(cell);
            if cell == 0 {
                floor_cells.push(p);
            }
            x = x + 1;
        }
        let w = width as usize;
        while x < w
            invariant
                n <= x <= w,
                cells@.len() == x,
                n == row@.len(),
                forall|xx: int| 0 <= xx < n ==> #[trigger] cells@[xx] == cell_code(row@[xx]),
                forall|xx: int| n <= xx < x ==> #[trigger] cells@[xx] == 0,
            decreases w - x,
        {
            cells.push(0);
            x = x + 1;
        }
        grid.push(cells);
        assert(read_rows(init, rv, y as nat + 1) == read_row(before, row@, y as int, n as nat));
        y = y + 1;
    }
    proof {
        assert(read_rows(init, rv, rv.len()) == map_marks(rv, width as int));
    }
    match orb_spawn {
        Some(p) => {
            floor_cells.push(p);
            proof {
                assert(floor_cells@ == map_marks(rv, width as int).floor.push(p));
            }
            floor_cells = dedup_cells(&floor_cells);
            proof {
                let pushed = map_marks(rv, width as int).floor.push(p);
                lemma_dedup_subset(pushed);
                assert forall|i: int| 0 <= i < floor_cells@.len() implies floor_char_at(
                    rv,
                    #[trigger] floor_cells@[i],
                ) by {
                    let j = choose|j: int| 0 <= j < pushed.len() && pushed[j] == floor_cells@[i];
                    if j < pushed.len() - 1 {
                        assert(pushed[j] == map_marks(rv, width as int).floor[j]);
                    }
                }
            }
        },
        None => {},
    }
    let lvl = Level { name, grid, width, height, start, exit, floor_cells };
    proof {
        assert forall|xx: int, yy: int| lvl.in_bounds(xx, yy) implies #[trigger] lvl.cell(xx, yy)
            <= 4 by {
            assert(lvl.grid@[yy]@[xx] == map_grid_cell(rv, xx, yy));
        }
        assert forall|i: int| 0 <= i < lvl.floor_cells@.len() implies lvl.walkable(
            #[trigger] lvl.floor_cells@[i],
        ) by {
            let p = lvl.floor_cells@[i];
            assert(floor_char_at(rv, p));
            assert(lvl.grid@[p.1 as int]@[p.0 as int] == map_grid_cell(rv, p.0 as int, p.1 as int));
        }
        assert forall|xx: int, yy: int| lvl.in_bounds(xx, yy) implies #[trigger] lvl.cell(xx, yy)
            == map_grid_cell(rv, xx, yy) by {
            assert(lvl.grid@[yy]@[xx] == map_grid_cell(rv, xx, yy));
        }
    }
    lvl
}

/// Squared distance between the centres of two cells exceeds 9, that is,
/// the centres are more than 3 cells apart.
pub open spec fn far_from(p: (i32, i32), s: (i32, i32)) -> bool {
    (p.0 - s.0) * (p.0 - s.0) + (p.1 - s.1) * (p.1 - s.1) > 9
}

/// What `first_far_from` finds: an index whose cell is far from `s` with
/// no far cell between `i` and it; and it finds nothing only when no cell
/// from `i` on is far.
pub proof fn lemma_first_far_from(cells: Seq<(i32, i32)>, s: (i32, i32), i: nat)
    ensures
        first_far_from(cells, s, i) matches Some(k) ==> i <= k < cells.len() && far_from(
            cells[k as int],
            s,
        ) && forall|j: int| i <= j < k ==> !far_from(#[trigger] cells[j], s),
        first_far_from(cells, s, i) is None ==> forall|j: int|
            i <= j < cells.len() ==> !far_from(#[trigger] cells[j], s),
    decreases cells.len() - i,
{
    if i < cells.len() && !far_from(cells[i as int], s) {
        lemma_first_far_from(cells, s, i + 1);
    }
}

/// Index of the first cell of `cells` (from `i` on) far from `s`, if any.
pub open spec fn first_far_from(cells: Seq<(i32, i32)>, s: (i32, i32), i: nat) -> Option<nat>
    decreases cells.len() - i,
{
    if i >= cells.len() {
        None
    } else if far_from(cells[i as int], s) {
        Some(i)
    } else {
        first_far_from(cells, s, i + 1)
    }
}

impl Level {
    /// The orb's default cell: the first walkable cell whose centre is more
    /// than 3 cells from the start, or else the cell right of the start.
    pub open spec fn orb_default_cell_spec(&self) -> (i32, i32) {
        match first_far_from(self.floor_cells@, self.start, 0) {
            Some(i) => self.floor_cells@[i as int],
            None => ((self.start.0 + 1) as i32, self.start.1),
        }
    }

    /// Whether the cell blocks movement: every cell outside the grid does,
    /// and so does every wall.
    pub fn is_wall(&self, x: i32, y: i32) -> (b: bool)
        requires
            self.grid_wf(),
        ensures
            b == self.blocked(x as int, y as int),
    {
        if x < 0 || y < 0 || x >= self.width || y >= self.height {
            return true;
        }
        self.grid[y as usize][x as usize] != 0
    }

    /// The wall type of a cell: 0 for floor, 1 to 4 for walls, 1 outside the
    /// grid.
    pub fn wall_at(&self, x: i32, y: i32) -> (w: u8)
        requires
            self.grid_wf(),
        ensures
            w == self.wall_type(x as int, y as int),
            w <= 4,
    {
        if x < 0 || y < 0 || x >= self.width || y >= self.height {
            return 1;
        }
        self.grid[y as usize][x as usize]
    }

    /// The cell on which the orb first appears: the first walkable cell whose
    /// centre is more than 3 cells from the start, or else the cell right of
    /// the start.
    pub fn orb_default_cell(&self) -> (c: (i32, i32))
        requires
            self.wf(),
        ensures
            c == self.orb_default_cell_spec(),
            (exists|i: int|
                #![trigger self.floor_cells@[i]]
                0 <= i < self.floor_cells@.len() && (self.floor_cells@[i].0 - self.start.0) * (self.floor_cells@[i].0 - self.start.0)
                    + (self.floor_cells@[i].1 - self.start.1) * (self.floor_cells@[i].1 - self.start.1) > 9) ==> exists|i: int|
                #![trigger self.floor_cells@[i]]
                0 <= i < self.floor_cells@.len() && c == self.floor_cells@[i]
                    && (c.0 - self.start.0) * (c.0 - self.start.0) + (c.1 - self.start.1) * (c.1 - self.start.1) > 9
                    && forall|j: int|
                    #![trigger self.floor_cells@[j]]
                    0 <= j < i ==> (self.floor_cells@[j].0 - self.start.0) * (self.floor_cells@[j].0 - self.start.0)
                        + (self.floor_cells@[j].1 - self.start.1) * (self.floor_cells@[j].1 - self.start.1) <= 9,
            !(exists|i: int|
                #![trigger self.floor_cells@[i]]
                0 <= i < self.floor_cells@.len() && (self.floor_cells@[i].0 - self.start.0) * (self.floor_cells@[i].0 - self.start.0)
                    + (self.floor_cells@[i].1 - self.start.1) * (self.floor_cells@[i].1 - self.start.1) > 9) ==> c.0 == self.start.0 + 1
                && c.1 == self.start.1,
    {
        let c = self.scan_far_cell();
        proof {
            lemma_orb_default_cell(*self);
        }
        c
    }

    /// Scans the walkable cells for the first one far from the start.
    fn scan_far_cell(&self) -> (c: (i32, i32))
        requires
            self.wf(),
        ensures
            c == self.orb_default_cell_spec(),
    {
        let mut i: usize = 0;
        let sx = self.start.0 as i64;
        let sy = self.start.1 as i64;
        while i < self.floor_cells.len()
            invariant
                self.wf(),
                0 <= i <= self.floor_cells@.len(),
                sx == self.start.0,
                sy == self.start.1,
                first_far_from(self.floor_cells@, self.start, 0) == first_far_from(
                    self.floor_cells@,
                    self.start,
                    i as nat,
                ),
            decreases self.floor_cells@.len() - i,
        {
            let p = self.floor_cells[i];
            assert(self.walkable(self.floor_cells@[i as int]));
            let dx = p.0 as i64 - sx;
            let dy = p.1 as i64 - sy;
            assert(0 <= dx * dx <= 0x3fff_ffff_0000_0001) by (nonlinear_arith)
                requires
                    -0x7fff_ffff <= dx <= 0x7fff_ffff,
            ;
            assert(0 <= dy * dy <= 0x3fff_ffff_0000_0001) by (nonlinear_arith)
                requires
                    -0x7fff_ffff <= dy <= 0x7fff_ffff,
            ;
            if dx * dx + dy * dy > 9 {
                return p;
            }
            i = i + 1;
        }
        (self.start.0 + 1, self.start.1)
    }
}

/// The orb's default cell is the first walkable cell whose centre lies more
/// than 3 cells from the start; when there is none, it is the cell right of
/// the start.
pub proof fn lemma_orb_default_cell(level: Level)
    requires
        level.wf(),
    ensures
        (exists|i: int|
            #![trigger level.floor_cells@[i]]
            0 <= i < level.floor_cells@.len() && (level.floor_cells@[i].0 - level.start.0) * (level.floor_cells@[i].0 - level.start.0)
                + (level.floor_cells@[i].1 - level.start.1) * (level.floor_cells@[i].1 - level.start.1) > 9) ==> exists|i: int|
            #![trigger level.floor_cells@[i]]
            0 <= i < level.floor_cells@.len() && level.orb_default_cell_spec() == level.floor_cells@[i]
                && (level.orb_default_cell_spec().0 - level.start.0) * (level.orb_default_cell_spec().0 - level.start.0) + (level.orb_default_cell_spec().1 - level.start.1) * (level.orb_default_cell_spec().1 - level.start.1) > 9
                && forall|j: int|
                #![trigger level.floor_cells@[j]]
                0 <= j < i ==> (level.floor_cells@[j].0 - level.start.0) * (level.floor_cells@[j].0 - level.start.0)
                    + (level.floor_cells@[j].1 - level.start.1) * (level.floor_cells@[j].1 - level.start.1) <= 9,
        !(exists|i: int|
            #![trigger level.floor_cells@[i]]
            0 <= i < level.floor_cells@.len() && (level.floor_cells@[i].0 - level.start.0) * (level.floor_cells@[i].0 - level.start.0)
                + (level.floor_cells@[i].1 - level.start.1) * (level.floor_cells@[i].1 - level.start.1) > 9) ==> level.orb_default_cell_spec().0 == level.start.0 + 1
            && level.orb_default_cell_spec().1 == level.start.1,
{
    lemma_first_far_from(level.floor_cells@, level.start, 0);
    match first_far_from(level.floor_cells@, level.start, 0) {
        Some(k) => {
            assert(level.orb_default_cell_spec() == level.floor_cells@[k as int]);
        },
        None => {
            assert(forall|j: int|
                0 <= j < level.floor_cells@.len() ==> !far_from(
                    #[trigger] level.floor_cells@[j],
                    level.start,
                ));
        },
    }
}

/// Nothing outside the map can be entered: every cell outside the grid is a
/// wall of type 1.
pub proof fn lemma_outside_is_wall(level: Level, x: int, y: int)
    requires
        !level.in_bounds(x, y),
    ensures
        level.blocked(x, y),
        level.wall_type(x, y) == 1,
{
}

/// A cell blocks movement exactly when its wall type is not floor, and wall
/// types range over 0 to 4.
pub proof fn lemma_blocked_iff_wall_type(level: Level, x: int, y: int)
    requires
        level.grid_wf(),
    ensures
        level.blocked(x, y) <==> level.wall_type(x, y) != 0,
        level.wall_type(x, y) <= 4,
{
}

/// The map of the first level, one sequence of characters per row.
pub open spec fn level_one_rows() -> Seq<Seq<char>> {
    seq![
        "1111111111111"@,
        "1S..1...2...1"@,
        "1.1.1.1.111.1"@,
        "1.1...1.....1"@,
        "1.111.1.111.1"@,
        "1.....1.1.1.1"@,
        "1.333.1.1.1.1"@,
        "1.....1...O.1"@,
        "1.11111.111.1"@,
        "1...........1"@,
        "1.111.1.1.1.1"@,
        "1.....1.1.9.1"@,
        "1111111111111"@,
    ]
}

/// The first level, "Nivel 1 - Catacumbas".
pub fn level_one() -> (lvl: Level)
    ensures
        lvl.wf(),
        lvl.parsed_from("Nivel 1 - Catacumbas", level_one_rows(), 13),
        lvl.floor_cells@.len() > 0,
{
    let rows: [&str; 13] = [
        "1111111111111",
        "1S..1...2...1",
        "1.1.1.1.111.1",
        "1.1...1.....1",
        "1.111.1.111.1",
        "1.....1.1.1.1",
        "1.333.1.1.1.1",
        "1.....1...O.1",
        "1.11111.111.1",
        "1...........1",
        "1.111.1.1.1.1",
        "1.....1.1.9.1",
        "1111111111111",
    ];
    proof {
        reveal_strlit("1111111111111");
        reveal_strlit("1S..1...2...1");
        reveal_strlit("1.1.1.1.111.1");
        reveal_strlit("1.1...1.....1");
        reveal_strlit("1.111.1.111.1");
        reveal_strlit("1.....1.1.1.1");
        reveal_strlit("1.333.1.1.1.1");
        reveal_strlit("1.....1...O.1");
        reveal_strlit("1.11111.111.1");
        reveal_strlit("1...........1");
        reveal_strlit("1.111.1.1.1.1");
        reveal_strlit("1.....1.1.9.1");
        reveal_strlit("1111111111111");
    }
    assert(rows_view(rows@) =~= level_one_rows());
    proof {
        assert(vstd::string::is_ascii(rows@[0]));
        vstd::string::is_ascii_spec_bytes(rows@[0]);
    }
    let lvl = parse_level("Nivel 1 - Catacumbas", rows.as_slice());
    proof {
        // the start marker sits on floor at cell (1, 1)
        assert(level_one_rows()[1][1] == 'S');
        lemma_floor_cells_exact(level_one_rows(), 13, (1i32, 1i32));
        assert(lvl.floor_cells@.contains((1i32, 1i32)));
    }
    lvl
}

/// The map of the second level, one sequence of characters per row.
pub open spec fn level_two_rows() -> Seq<Seq<char>> {
    seq![
        "21111111411112111"@,
        "1S1...1.........3"@,
        "1.111.1.1.111.1.2"@,
        "1...1...1.......1"@,
        "1.1.1.111.3.11..1"@,
        "1.1.3.1...1.....1"@,
        "1.3.141.1.3.111.1"@,
        "1.1.....1...1...1"@,
        "1.111111.1114.1.1"@,
        "1.....O.......1.1"@,
        "3.11.31.1..1..1.1"@,
        "1.......1......91"@,
        "13111111131111111"@,
    ]
}

/// The second level, "Nivel 2 - El Laberinto".
pub fn level_two() -> (lvl: Level)
    ensures
        lvl.wf(),
        lvl.parsed_from("Nivel 2 - El Laberinto", level_two_rows(), 17),
        lvl.floor_cells@.len() > 0,
{
    let rows: [&str; 13] = [
        "21111111411112111",
        "1S1...1.........3",
        "1.111.1.1.111.1.2",
        "1...1...1.......1",
        "1.1.1.111.3.11..1",
        "1.1.3.1...1.....1",
        "1.3.141.1.3.111.1",
        "1.1.....1...1...1",
        "1.111111.1114.1.1",
        "1.....O.......1.1",
        "3.11.31.1..1..1.1",
        "1.......1......91",
        "13111111131111111",
    ];
    proof {
        reveal_strlit("21111111411112111");
        reveal_strlit("1S1...1.........3");
        reveal_strlit("1.111.1.1.111.1.2");
        reveal_strlit("1...1...1.......1");
        reveal_strlit("1.1.1.111.3.11..1");
        reveal_strlit("1.1.3.1...1.....1");
        reveal_strlit("1.3.141.1.3.111.1");
        reveal_strlit("1.1.....1...1...1");
        reveal_strlit("1.111111.1114.1.1");
        reveal_strlit("1.....O.......1.1");
        reveal_strlit("3.11.31.1..1..1.1");
        reveal_strlit("1.......1......91");
        reveal_strlit("13111111131111111");
    }
    assert(rows_view(rows@) =~= level_two_rows());
    proof {
        assert(vstd::string::is_ascii(rows@[0]));
        vstd::string::is_ascii_spec_bytes(rows@[0]);
    }
    let lvl = parse_level("Nivel 2 - El Laberinto", rows.as_slice());
    proof {
        // the start marker sits on floor at cell (1, 1)
        assert(level_two_rows()[1][1] == 'S');
        lemma_floor_cells_exact(level_two_rows(), 17, (1i32, 1i32));
        assert(lvl.floor_cells@.contains((1i32, 1i32)));
    }
    lvl
}

} // verus!
