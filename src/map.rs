use vstd::prelude::*;

verus! {

/// Largest number of lines, and of characters per line, that a map may have.
/// Positions are held in fixed point (see `crate::fixed`), so this keeps every
/// coordinate on the map far inside `i64`.
pub const MAX_SIDE: usize = 1048576;

/// An RGB color, one byte per channel.
#[derive(Clone, Copy, Debug, PartialEq, Eq, Structural)]
pub struct Rgb {
    pub r: u8,
    pub g: u8,
    pub b: u8,
}

/// One tile of the map.
#[derive(Clone, Copy, Debug, PartialEq, Eq, Structural)]
pub enum Space {
    Wall(Rgb),
    Empty,
}

/// Why a map text was refused.
#[derive(Clone, Copy, Debug, PartialEq, Eq, Structural)]
pub enum MapError {
    /// No line, or a first line without characters.
    Empty,
    /// A line whose length differs from the first line's.
    Ragged,
    /// More than `MAX_SIDE` lines, or lines longer than `MAX_SIDE`.
    TooLarge,
    /// A cell on the outer border that is not a wall.
    Open,
    /// A starting cell off the map or not empty.
    Blocked,
}

/// The tile grid. `walls[x][y]` is the cell of character `y` on line `x` of
/// the map text; `height` counts the lines and `width` the characters per line.
#[derive(Debug)]
pub struct TileMap {
    pub width: usize,
    pub height: usize,
    pub walls: Vec<Vec<Space>>,
}

pub open spec fn rgb(r: u8, g: u8, b: u8) -> Rgb {
    Rgb { r, g, b }
}

/// The cell that one character of the map text stands for.
pub open spec fn cell_of(c: char) -> Space {
    if c == '1' {
        Space::Wall(rgb(255, 0, 0))
    } else if c == '2' {
        Space::Wall(rgb(0, 255, 0))
    } else if c == '3' {
        Space::Wall(rgb(0, 0, 255))
    } else if c == '4' {
        Space::Wall(rgb(255, 0, 212))
    } else {
        Space::Empty
    }
}

/// A line as it is handed out: a carriage return before its newline is dropped.
pub open spec fn strip_cr(l: Seq<char>) -> Seq<char> {
    if l.len() > 0 && l.last() == '\r' {
        l.drop_last()
    } else {
        l
    }
}

/// The lines finished so far and the line being read, after reading `s`.
pub open spec fn line_scan(s: Seq<char>) -> (Seq<Seq<char>>, Seq<char>)
    decreases s.len(),
{
    if s.len() == 0 {
        (seq![], seq![])
    } else {
        let (done, cur) = line_scan(s.drop_last());
        if s.last() == '\n' {
            (done.push(strip_cr(cur)), seq![])
        } else {
            (done, cur.push(s.last()))
        }
    }
}

/// The lines of a text: split at each newline, a final newline being
/// optional, and a carriage return right before a newline dropped.
pub open spec fn split_lines(s: Seq<char>) -> Seq<Seq<char>> {
    let (done, cur) = line_scan(s);
    if cur.len() == 0 {
        done
    } else {
        done.push(cur)
    }
}

pub open spec fn is_wall(c: Space) -> bool {
    c is Wall
}

/// Whether `(x, y)` lies on the outer ring of an `h` by `w` grid.
pub open spec fn on_border(x: int, y: int, h: int, w: int) -> bool {
    x == 0 || y == 0 || x == h - 1 || y == w - 1
}

/// Which error, if any, a map text made of lines `ls` is refused with.
pub open spec fn map_error(ls: Seq<Seq<char>>) -> Option<MapError> {
    if ls.len() == 0 || ls[0].len() == 0 {
        Some(MapError::Empty)
    } else if exists|i: int| 0 <= i < ls.len() && (#[trigger] ls[i]).len() != ls[0].len() {
        Some(MapError::Ragged)
    } else if ls.len() > MAX_SIDE || ls[0].len() > MAX_SIDE {
        Some(MapError::TooLarge)
    } else if exists|x: int, y: int|
        0 <= x < ls.len() && 0 <= y < ls[0].len() && on_border(x, y, ls.len() as int, ls[0].len() as int)
            && !is_wall(#[trigger] cell_of(ls[x][y])) {
        Some(MapError::Open)
    } else {
        None
    }
}

impl TileMap {
    /// The cell at line `x`, character `y`.
    pub open spec fn cell(&self, x: int, y: int) -> Space {
        self.walls@[x]@[y]
    }

    pub open spec fn in_bounds(&self, x: int, y: int) -> bool {
        0 <= x < self.height && 0 <= y < self.width
    }

    /// A rectangular grid, not larger than `MAX_SIDE` on either side, whose
    /// outer ring is made of walls.
    pub open spec fn wf(&self) -> bool {
        &&& 1 <= self.height <= MAX_SIDE
        &&& 1 <= self.width <= MAX_SIDE
        &&& self.walls@.len() == self.height
        &&& forall|x: int| 0 <= x < self.height ==> (#[trigger] self.walls@[x])@.len() == self.width
        &&& forall|x: int, y: int|
            self.in_bounds(x, y) && on_border(x, y, self.height as int, self.width as int)
                ==> is_wall(#[trigger] self.cell(x, y))
    }

    /// A cell of a well-formed map that is not a wall lies off the border.
    pub proof fn lemma_open_cell_inside(&self, x: int, y: int)
        requires
            self.wf(),
            self.in_bounds(x, y),
            !is_wall(self.cell(x, y)),
        ensures
            1 <= x < self.height - 1,
            1 <= y < self.width - 1,
    {
    }

    /// Builds the grid of a map text: one line of text per grid line, `'1'`
    /// to `'4'` walls of four colors, any other character empty space.
    pub fn new(map_str: &str) -> (r: Result<TileMap, MapError>)
        ensures
            r is Ok <==> map_error(split_lines(map_str@)) is None,
            r matches Err(e) ==> map_error(split_lines(map_str@)) == Some(e),
            r matches Ok(m) ==> {
                let ls = split_lines(map_str@);
                &&& m.wf()
                &&& m.height == ls.len()
                &&& m.width == ls[0].len()
                &&& forall|x: int, y: int| m.in_bounds(x, y) ==> m.cell(x, y) == cell_of(#[trigger] ls[x][y])
            },
    {
        let lines = read_lines(map_str);
        let ghost ls = split_lines(map_str@);
        assert forall|i: int| 0 <= i < lines@.len() implies (#[trigger] lines@[i])@ == ls[i] by {
            assert(lines@[i]@ =~= ls[i]);
        }
        if lines.len() == 0 || lines[0].len() == 0 {
            return Err(MapError::Empty);
        }
        let width = lines[0].len();
        let mut i: usize = 0;
        while i < lines.len()
            invariant
                i <= lines@.len(),
                lines.deep_view() == ls,
                forall|j: int| 0 <= j < lines@.len() ==> (#[trigger] lines@[j])@ == ls[j],
                width == ls[0].len(),
                width >= 1,
                ls.len() == lines@.len(),
                ls == split_lines(map_str@),
                forall|j: int| 0 <= j < i ==> (#[trigger] ls[j]).len() == width,
            decreases lines@.len() - i,
        {
            if lines[i].len() != width {
                assert(ls[i as int].len() != ls[0].len());
                assert(!(ls.len() == 0 || ls[0].len() == 0));
                assert(exists|k: int| 0 <= k < ls.len() && (#[trigger] ls[k]).len() != ls[0].len());
                assert(map_error(ls) == Some(MapError::Ragged));
                return Err(MapError::Ragged);
            }
            i = i + 1;
        }
        let height = lines.len();
        if height > MAX_SIDE || width > MAX_SIDE {
            return Err(MapError::TooLarge);
        }
        let mut walls: Vec<Vec<Space>> = Vec::new();
        let mut x: usize = 0;
        while x < height
            invariant
                x <= height,
                height == lines@.len(),
                lines.deep_view() == ls,
                forall|j: int| 0 <= j < lines@.len() ==> (#[trigger] lines@[j])@ == ls[j],
                width == ls[0].len(),
                forall|j: int| 0 <= j < height ==> (#[trigger] ls[j]).len() == width,
                walls@.len() == x,
                forall|j: int| 0 <= j < x ==> (#[trigger] walls@[j])@.len() == width,
                forall|j: int, y: int|
                    0 <= j < x && 0 <= y < width ==> walls@[j]@[y] == cell_of(#[trigger] ls[j][y]),
            decreases height - x,
        {
            let row = cells_of_line(&lines[x]);
            walls.push(row);
            x = x + 1;
        }
        let m = TileMap { width, height, walls };
        let mut x: usize = 0;
        while x < height
            invariant
                x <= height,
                height == m.height,
                width == m.width,
                height == ls.len(),
                ls == split_lines(map_str@),
                width == ls[0].len(),
                1 <= height <= MAX_SIDE,
                1 <= width <= MAX_SIDE,
                m.walls@.len() == height,
                forall|j: int| 0 <= j < height ==> (#[trigger] ls[j]).len() == width,
                forall|j: int| 0 <= j < height ==> (#[trigger] m.walls@[j])@.len() == width,
                forall|j: int, y: int|
                    0 <= j < height && 0 <= y < width ==> m.walls@[j]@[y] == cell_of(#[trigger] ls[j][y]),
                forall|j: int, y: int|
                    0 <= j < x && 0 <= y < width && on_border(j, y, height as int, width as int)
                        ==> is_wall(#[trigger] m.cell(j, y)),
            decreases height - x,
        {
            let mut y: usize = 0;
            while y < width
                invariant
                    x < height,
                    y <= width,
                    height == m.height,
                    width == m.width,
                    height == ls.len(),
                    1 <= height <= MAX_SIDE,
                    1 <= width <= MAX_SIDE,
                    ls == split_lines(map_str@),
                    width == ls[0].len(),
                    m.walls@.len() == height,
                    forall|j: int| 0 <= j < height ==> (#[trigger] ls[j]).len() == width,
                    forall|j: int| 0 <= j < height ==> (#[trigger] m.walls@[j])@.len() == width,
                    forall|j: int, k: int|
                        0 <= j < height && 0 <= k < width ==> m.walls@[j]@[k] == cell_of(#[trigger] ls[j][k]),
                    forall|j: int, k: int|
                        0 <= j < x && 0 <= k < width && on_border(j, k, height as int, width as int)
                            ==> is_wall(#[trigger] m.cell(j, k)),
                    forall|k: int|
                        0 <= k < y && on_border(x as int, k, height as int, width as int)
                            ==> is_wall(#[trigger] m.cell(x as int, k)),
                decreases width - y,
            {
                if x == 0 || y == 0 || x == height - 1 || y == width - 1 {
                    if let Space::Empty = m.walls[x][y] {
                        assert(!is_wall(cell_of(ls[x as int][y as int])));
                        assert(on_border(x as int, y as int, ls.len() as int, ls[0].len() as int));
                        assert(!(exists|k: int| 0 <= k < ls.len() && (#[trigger] ls[k]).len() != ls[0].len()));
                        assert(map_error(ls) == Some(MapError::Open));
                        return Err(MapError::Open);
                    }
                }
                y = y + 1;
            }
            x = x + 1;
        }
        proof {
            assert forall|x: int, y: int|
                0 <= x < ls.len() && 0 <= y < ls[0].len() && on_border(x, y, ls.len() as int, ls[0].len() as int)
                implies is_wall(#[trigger] cell_of(ls[x][y])) by {
                assert(is_wall(m.cell(x, y)));
            }
        }
        Ok(m)
    }

    /// The cell at line `x`, character `y`.
    pub fn cell_at(&self, x: usize, y: usize) -> (c: Space)
        requires
            self.wf(),
            self.in_bounds(x as int, y as int),
        ensures
            c == self.cell(x as int, y as int),
    {
        self.walls[x][y]
    }

    /// Whether the cell at line `x`, character `y` is empty.
    pub fn is_empty_at(&self, x: usize, y: usize) -> (r: bool)
        requires
            self.wf(),
            self.in_bounds(x as int, y as int),
        ensures
            r == (self.cell(x as int, y as int) == Space::Empty),
    {
        match self.walls[x][y] {
            Space::Empty => true,
            Space::Wall(_) => false,
        }
    }
}

/// Splits a text into its lines, as `split_lines` states.
fn read_lines(text: &str) -> (ls: Vec<Vec<char>>)
    ensures
        ls.deep_view() == split_lines(text@),
{
    broadcast use vstd::string::axiom_spec_iter;
    let mut done: Vec<Vec<char>> = Vec::new();
    let mut cur: Vec<char> = Vec::new();
    for c in it: text.chars()
        invariant
            it.seq() == text@,
            (done.deep_view(), cur@) == line_scan(text@.take(it.index() as int)),
    {
        let ghost i = it.index() as int;
        proof {
            assert(text@.take(i + 1).drop_last() == text@.take(i));
            assert(text@[i] == c);
        }
        if c == '\n' {
            let ghost before = cur@;
            if cur.len() > 0 && cur[cur.len() - 1] == '\r' {
                cur.pop();
            }
            assert(cur@ == strip_cr(before));
            let ghost old_done = done.deep_view();
            assert(cur.deep_view() =~= cur@);
            done.push(cur);
            assert(done.deep_view() =~= old_done.push(strip_cr(before)));
            cur = Vec::new();
        } else {
            cur.push(c);
        }
    }
    assert(text@.take(text@.len() as int) == text@);
    if cur.len() > 0 {
        let ghost old_done = done.deep_view();
        let ghost last = cur@;
        assert(cur.deep_view() =~= cur@);
        done.push(cur);
        assert(done.deep_view() =~= old_done.push(last));
    }
    done
}

/// The cells of one line of map text.
fn cells_of_line(line: &Vec<char>) -> (row: Vec<Space>)
    ensures
        row@.len() == line@.len(),
        forall|y: int| 0 <= y < line@.len() ==> row@[y] == cell_of(#[trigger] line@[y]),
{
    let mut row: Vec<Space> = Vec::new();
    let mut y: usize = 0;
    while y < line.len()
        invariant
            y <= line@.len(),
            row@.len() == y,
            forall|j: int| 0 <= j < y ==> row@[j] == cell_of(#[trigger] line@[j]),
        decreases line@.len() - y,
    {
        let c = line[y];
        let cell = if c == '1' {
            Space::Wall(Rgb { r: 255, g: 0, b: 0 })
        } else if c == '2' {
            Space::Wall(Rgb { r: 0, g: 255, b: 0 })
        } else if c == '3' {
            Space::Wall(Rgb { r: 0, g: 0, b: 255 })
        } else if c == '4' {
            Space::Wall(Rgb { r: 255, g: 0, b: 212 })
        } else {
            Space::Empty
        };
        row.push(cell);
        y = y + 1;
    }
    row
}

} // verus!
