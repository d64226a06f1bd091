use vstd::prelude::*;
use crate::fixed::{
    inverse, lemma_short_coords, lemma_unscale_bound, rotate, rotated, short, turn_ok, unscale,
    unscale_exec, Turn, Vec2, UNIT,
};
use crate::map::{cell_of, is_wall, map_error, split_lines, MapError, Rgb, Space, TileMap};
use crate::player::{Action, Direction, Player, PLAYER_SPEED, START_CAMERA, START_X, START_Y};

verus! {

/// Which family of grid lines a ray crossed last: `EW` when it stepped along
/// x (across a line of constant x), `NS` when it stepped along y.
#[derive(Clone, Copy, Debug, PartialEq, Eq, Structural)]
pub enum Side {
    NS,
    EW,
}

/// The vertical strip that a column draws: `len` pixels from row `top` down.
#[derive(Clone, Copy, Debug, PartialEq, Eq, Structural)]
pub struct Strip {
    pub top: u32,
    pub len: u32,
}

/// What one column's ray met. The perpendicular wall distance is
/// `dist_num / dist_den` tiles; `dist_den == 0` stands for a ray of length
/// zero, whose wall is infinitely far.
#[derive(Clone, Copy, Debug, PartialEq, Eq, Structural)]
pub struct RayHit {
    pub cell_x: usize,
    pub cell_y: usize,
    pub side: Side,
    pub dist_num: i128,
    pub dist_den: i128,
    pub color: Rgb,
    pub strip: Strip,
}

/// A map and the player walking it.
#[derive(Debug)]
pub struct World {
    pub map: TileMap,
    pub player: Player,
}

/// A ray from `(px, py)` along `(rx, ry)`, in fixed point; the direction is
/// scaled by the screen width.
pub struct Ray {
    pub px: int,
    pub py: int,
    pub rx: int,
    pub ry: int,
}

pub open spec fn abs(a: int) -> int {
    if a < 0 { -a } else { a }
}

/// The color a wall shows from `side`: halved channels on `NS` faces.
pub open spec fn shaded(c: Rgb, side: Side) -> Rgb {
    match side {
        Side::NS => Rgb { r: (c.r / 2) as u8, g: (c.g / 2) as u8, b: (c.b / 2) as u8 },
        Side::EW => c,
    }
}

pub open spec fn wall_color(c: Space) -> Rgb {
    match c {
        Space::Wall(rgb) => rgb,
        Space::Empty => Rgb { r: 0, g: 0, b: 0 },
    }
}

/// Where column `column` of a `width`-pixel screen lies on the camera plane,
/// in units of `1 / width`: from `-width` at the left edge toward `width`.
pub open spec fn camera_offset(column: int, width: int) -> int {
    2 * column - width
}

/// The ray of a column: facing plus camera plane times the column's offset,
/// all scaled by `width`.
pub open spec fn ray_of(p: Player, column: int, width: int) -> Ray {
    Ray {
        px: p.pos.x as int,
        py: p.pos.y as int,
        rx: p.dir.x * width + p.camera.x * camera_offset(column, width),
        ry: p.dir.y * width + p.camera.y * camera_offset(column, width),
    }
}

/// Distance, along x, from the ray's origin to the far side of cell line `cx`
/// in the ray's x direction.
pub open spec fn gap_x(r: Ray, cx: int) -> int {
    if r.rx < 0 { r.px - cx * UNIT } else { (cx + 1) * UNIT - r.px }
}

pub open spec fn gap_y(r: Ray, cy: int) -> int {
    if r.ry < 0 { r.py - cy * UNIT } else { (cy + 1) * UNIT - r.py }
}

/// Whether the next grid line the ray meets from cell `(cx, cy)` is one of
/// constant x. An axis along which the ray does not move is never chosen;
/// a tie goes to y.
pub open spec fn x_first(r: Ray, cx: int, cy: int) -> bool {
    r.rx != 0 && (r.ry == 0 || gap_x(r, cx) * abs(r.ry) < gap_y(r, cy) * abs(r.rx))
}

/// One step of the grid traversal.
pub open spec fn advance(r: Ray, cx: int, cy: int) -> (int, int, Side) {
    if x_first(r, cx, cy) {
        (if r.rx < 0 { cx - 1 } else { cx + 1 }, cy, Side::EW)
    } else {
        (cx, if r.ry < 0 { cy - 1 } else { cy + 1 }, Side::NS)
    }
}

/// The traversal from `(cx, cy)`: step until a wall cell is entered, or
/// until `fuel` steps are spent.
pub open spec fn walk(m: TileMap, r: Ray, cx: int, cy: int, side: Side, fuel: nat) -> (int, int, Side)
    decreases fuel,
{
    if fuel == 0 {
        (cx, cy, side)
    } else {
        let (nx, ny, ns) = advance(r, cx, cy);
        if m.in_bounds(nx, ny) && is_wall(m.cell(nx, ny)) {
            (nx, ny, ns)
        } else {
            walk(m, r, nx, ny, ns, (fuel - 1) as nat)
        }
    }
}

/// Whether the closed square of cell `(cx, cy)` holds point `(px, py)`.
pub open spec fn touches(px: int, py: int, cx: int, cy: int) -> bool {
    cx * UNIT <= px <= (cx + 1) * UNIT && cy * UNIT <= py <= (cy + 1) * UNIT
}

/// Whether point `(px, py)` lies strictly inside the open space of `m`: no
/// wall cell touches it, not even at a corner.
pub open spec fn clear_around(m: TileMap, px: int, py: int) -> bool {
    forall|cx: int, cy: int|
        m.in_bounds(cx, cy) && #[trigger] touches(px, py, cx, cy) ==> !is_wall(m.cell(cx, cy))
}

/// The distance along the crossed axis, in fixed point, from the ray's origin
/// to the face of hit cell `(hx, hy)` that the ray entered through.
pub open spec fn hit_gap(r: Ray, hx: int, hy: int, side: Side) -> int {
    match side {
        Side::EW => if r.rx < 0 { r.px - (hx + 1) * UNIT } else { hx * UNIT - r.px },
        Side::NS => if r.ry < 0 { r.py - (hy + 1) * UNIT } else { hy * UNIT - r.py },
    }
}

pub open spec fn hit_den(r: Ray, side: Side) -> int {
    match side {
        Side::EW => abs(r.rx),
        Side::NS => abs(r.ry),
    }
}

pub open spec fn min(a: int, b: int) -> int {
    if a < b { a } else { b }
}

/// Height in pixels of the strip of a wall `num / den` tiles away on a
/// screen `height` pixels tall.
pub open spec fn line_height(num: int, den: int, height: int) -> int {
    if den == 0 {
        0
    } else if num == 0 {
        u32::MAX as int
    } else {
        min(height * den / num, u32::MAX as int)
    }
}

/// The strip of a wall `num / den` tiles away, centred vertically and cut
/// off at the top of the screen.
pub open spec fn strip_of(num: int, den: int, height: int) -> Strip {
    let lh = line_height(num, den, height);
    let top = height / 2 - min(lh, 0x8000_0000) / 2;
    Strip { top: if top < 0 { 0 } else { top as u32 }, len: lh as u32 }
}

/// Whether fixed-point point `(x, y)` lies on an empty cell of `m`.
pub open spec fn open_at(m: TileMap, x: int, y: int) -> bool {
    &&& 0 <= x
    &&& 0 <= y
    &&& m.in_bounds(x / UNIT as int, y / UNIT as int)
    &&& m.cell(x / UNIT as int, y / UNIT as int) == Space::Empty
}

/// Position, facing and camera plane.
pub open spec fn pose(p: Player) -> (Vec2, Vec2, Vec2) {
    (p.pos, p.dir, p.camera)
}

/// Distance covered in `nanos` nanoseconds at `speed` tiles per second, in
/// fixed point, rounded down.
pub open spec fn move_dist(nanos: int, speed: int) -> int {
    nanos * speed * UNIT / 1_000_000_000
}

/// A position pushed by `dir * d / UNIT`, each axis taken only where it lands
/// on an empty cell when the other axis keeps its old value.
pub open spec fn moved(m: TileMap, pos: Vec2, dir: Vec2, d: int) -> Vec2 {
    let cx = pos.x + unscale(dir.x * d);
    let cy = pos.y + unscale(dir.y * d);
    Vec2 {
        x: if open_at(m, cx, pos.y as int) { cx as i64 } else { pos.x },
        y: if open_at(m, pos.x as int, cy) { cy as i64 } else { pos.y },
    }
}

/// The pose after one action: `Move(Down)` walks `d` backward, any other
/// move `d` forward; `Rotate(Right)` turns by the inverse of `t`, any other
/// rotation by `t`.
pub open spec fn apply_action(m: TileMap, ps: (Vec2, Vec2, Vec2), a: Action, d: int, t: Turn) -> (Vec2, Vec2, Vec2) {
    let (pos, dir, cam) = ps;
    match a {
        Action::Move(dr) => (moved(m, pos, dir, if dr == Direction::Down { -d } else { d }), dir, cam),
        Action::Rotate(dr) => {
            let tt = if dr == Direction::Right { inverse(t) } else { t };
            (pos, rotated(dir, tt), rotated(cam, tt))
        },
    }
}

/// The pose after the first `n` actions of `acts`, in order.
pub open spec fn apply_actions(m: TileMap, ps: (Vec2, Vec2, Vec2), acts: Seq<Action>, d: int, t: Turn, n: nat) -> (Vec2, Vec2, Vec2)
    decreases n,
{
    if n == 0 || n > acts.len() {
        ps
    } else {
        apply_action(m, apply_actions(m, ps, acts, d, t, (n - 1) as nat), acts[n - 1], d, t)
    }
}

/// A pose whose position lies on a cell off the map's border, with short
/// facing and camera vectors.
pub open spec fn pose_ok(m: TileMap, ps: (Vec2, Vec2, Vec2)) -> bool {
    let (pos, dir, cam) = ps;
    &&& 0 <= pos.x
    &&& 0 <= pos.y
    &&& 1 <= (pos.x as int) / (UNIT as int) <= m.height - 2
    &&& 1 <= (pos.y as int) / (UNIT as int) <= m.width - 2
    &&& short(dir)
    &&& short(cam)
}

/// Halves each channel, rounding down.
fn halve(c: Rgb) -> (r: Rgb)
    ensures
        r == shaded(c, Side::NS),
{
    Rgb { r: c.r / 2, g: c.g / 2, b: c.b / 2 }
}

/// The color a wall of color `c` shows from `side`.
pub fn shade(c: Rgb, side: Side) -> (r: Rgb)
    ensures
        r == shaded(c, side),
{
    match side {
        Side::NS => halve(c),
        Side::EW => c,
    }
}

/// The strip of a wall `num / den` tiles away on a screen `height` tall.
pub fn strip(num: i128, den: i128, height: u32) -> (s: Strip)
    requires
        0 <= num,
        0 <= den < 0x1_0000_0000_0000_0000,
    ensures
        s == strip_of(num as int, den as int, height as int),
{
    proof {
        assert(0 <= (height as int) * den) by (nonlinear_arith) requires den >= 0;
        assert((height as int) * den <= 0x1_0000_0000 * 0x1_0000_0000_0000_0000) by (nonlinear_arith)
            requires 0 <= den <= 0x1_0000_0000_0000_0000, height <= 0x1_0000_0000;
        assert((height as int) * den / (num as int) >= 0 || num == 0) by (nonlinear_arith)
            requires (height as int) * den >= 0, num >= 0;
    }
    let lh: i128 = if den == 0 {
        0
    } else if num == 0 {
        u32::MAX as i128
    } else {
        let q = (height as i128) * den / num;
        if q < u32::MAX as i128 { q } else { u32::MAX as i128 }
    };
    let half_lh: i128 = if lh < 0x8000_0000 { lh / 2 } else { 0x4000_0000 };
    let top: i128 = (height / 2) as i128 - half_lh;
    Strip { top: if top < 0 { 0 } else { top as u32 }, len: lh as u32 }
}

/// Whether fixed-point point `(x, y)` lies on an empty cell of `m`.
fn open_at_exec(m: &TileMap, x: i128, y: i128) -> (r: bool)
    requires
        m.wf(),
    ensures
        r == open_at(*m, x as int, y as int),
{
    if x < 0 || y < 0 {
        return false;
    }
    let cx = x / (UNIT as i128);
    let cy = y / (UNIT as i128);
    if cx >= m.height as i128 || cy >= m.width as i128 {
        return false;
    }
    m.is_empty_at(cx as usize, cy as usize)
}

/// The position after a push of `dir * d / UNIT`, one axis at a time.
fn move_pos(m: &TileMap, pos: Vec2, dir: Vec2, d: i128) -> (r: Vec2)
    requires
        m.wf(),
        pose_ok(*m, (pos, dir, dir)),
        -0x10_0000_0000_0000_0000_0000 <= d <= 0x10_0000_0000_0000_0000_0000,
    ensures
        r == moved(*m, pos, dir, d as int),
        pose_ok(*m, (r, dir, dir)),
{
    proof {
        lemma_short_coords(dir);
        let l = 1048576int;
        let b = 0x10_0000_0000_0000_0000_0000int;
        assert(-l * b <= dir.x * d <= l * b) by (nonlinear_arith)
            requires -l <= dir.x <= l, -b <= d <= b, l > 0, b > 0;
        assert(-l * b <= dir.y * d <= l * b) by (nonlinear_arith)
            requires -l <= dir.y <= l, -b <= d <= b, l > 0, b > 0;
        lemma_unscale_bound(dir.x * d);
        lemma_unscale_bound(dir.y * d);
        assert(-l * b <= unscale(dir.x * d) <= l * b) by (nonlinear_arith)
            requires unscale(dir.x * d) * UNIT <= dir.x * d || dir.x * d < 0,
                dir.x * d >= 0 ==> 0 <= unscale(dir.x * d),
                dir.x * d < 0 ==> unscale(dir.x * d) <= 0 && unscale(dir.x * d) * UNIT - UNIT < dir.x * d,
                -l * b <= dir.x * d <= l * b, l > 0, b > 0, UNIT > 1,
                dir.x * d >= 0 ==> unscale(dir.x * d) * UNIT <= dir.x * d;
        assert(-l * b <= unscale(dir.y * d) <= l * b) by (nonlinear_arith)
            requires dir.y * d >= 0 ==> 0 <= unscale(dir.y * d),
                dir.y * d < 0 ==> unscale(dir.y * d) <= 0 && unscale(dir.y * d) * UNIT - UNIT < dir.y * d,
                -l * b <= dir.y * d <= l * b, l > 0, b > 0, UNIT > 1,
                dir.y * d >= 0 ==> unscale(dir.y * d) * UNIT <= dir.y * d;
    }
    let cx: i128 = pos.x as i128 + unscale_exec(dir.x as i128 * d);
    let cy: i128 = pos.y as i128 + unscale_exec(dir.y as i128 * d);
    let ok_x = open_at_exec(m, cx, pos.y as i128);
    let ok_y = open_at_exec(m, pos.x as i128, cy);
    proof {
        if ok_x {
            m.lemma_open_cell_inside((cx as int) / (UNIT as int), (pos.y as int) / (UNIT as int));
            assert(cx < (m.height as int) * UNIT) by (nonlinear_arith)
                requires (cx as int) / (UNIT as int) < m.height, cx >= 0;
        }
        if ok_y {
            m.lemma_open_cell_inside((pos.x as int) / (UNIT as int), (cy as int) / (UNIT as int));
            assert(cy < (m.width as int) * UNIT) by (nonlinear_arith)
                requires (cy as int) / (UNIT as int) < m.width, cy >= 0;
        }
    }
    Vec2 {
        x: if ok_x { cx as i64 } else { pos.x },
        y: if ok_y { cy as i64 } else { pos.y },
    }
}

impl World {
    /// A player whose pose the library can work with, on a closed map.
    pub open spec fn wf(&self) -> bool {
        &&& self.map.wf()
        &&& pose_ok(self.map, pose(self.player))
    }

    /// The world of a map text, with the player at the starting pose. The
    /// map text must be accepted by `TileMap::new` and the starting cell
    /// must lie on the map and be empty.
    pub fn new(map_str: &str) -> (r: Result<World, MapError>)
        ensures
            ({
                let ls = split_lines(map_str@);
                match map_error(ls) {
                    Some(e) => r == Err::<World, MapError>(e),
                    None => {
                        let start_ok = START_X < ls.len() && START_Y < ls[0].len()
                            && cell_of(ls[START_X as int][START_Y as int]) == Space::Empty;
                        &&& r is Ok <==> start_ok
                        &&& !start_ok ==> r == Err::<World, MapError>(MapError::Blocked)
                    },
                }
            }),
            r matches Ok(w) ==> {
                let ls = split_lines(map_str@);
                &&& w.wf()
                &&& w.map.height == ls.len()
                &&& w.map.width == ls[0].len()
                &&& forall|x: int, y: int| w.map.in_bounds(x, y) ==> w.map.cell(x, y) == cell_of(#[trigger] ls[x][y])
                &&& w.player.pos.x == START_X * UNIT
                &&& w.player.pos.y == START_Y * UNIT
                &&& w.player.dir.x == -UNIT && w.player.dir.y == 0
                &&& w.player.camera.x == 0 && w.player.camera.y == START_CAMERA
                &&& w.player.speed == PLAYER_SPEED
                &&& w.player.actions@.len() == 0
            },
    {
        let map = match TileMap::new(map_str) {
            Ok(m) => m,
            Err(e) => return Err(e),
        };
        let player = Player::new();
        let sx = START_X as usize;
        let sy = START_Y as usize;
        if sx >= map.height || sy >= map.width {
            return Err(MapError::Blocked);
        }
        if !map.is_empty_at(sx, sy) {
            return Err(MapError::Blocked);
        }
        proof {
            map.lemma_open_cell_inside(sx as int, sy as int);
            assert(((START_X * UNIT) as int) / (UNIT as int) == START_X as int);
        }
        Ok(World { map, player })
    }

    /// Casts the ray of screen column `x` of a `width` by `height` screen:
    /// walks the grid cell by cell from the player's cell to the first wall,
    /// and reports that wall, the side it was entered from, the
    /// perpendicular distance to it, its shaded color and the strip to draw.
    pub fn cast(&self, x: usize, width: u32, height: u32) -> (hit: RayHit)
        requires
            self.wf(),
            x < width,
        ensures
            ({
                let r = ray_of(self.player, x as int, width as int);
                let (hx, hy, hs) = walk(
                    self.map,
                    r,
                    (self.player.pos.x as int) / (UNIT as int),
                    (self.player.pos.y as int) / (UNIT as int),
                    Side::NS,
                    (self.map.height + self.map.width) as nat,
                );
                &&& hit.cell_x == hx
                &&& hit.cell_y == hy
                &&& hit.side == hs
                &&& self.map.in_bounds(hx, hy)
                &&& is_wall(self.map.cell(hx, hy))
                &&& hit.dist_num == hit_gap(r, hx, hy, hs) * width
                &&& hit.dist_den == hit_den(r, hs)
                &&& hit.dist_num >= 0
                &&& (r.rx != 0 || r.ry != 0) ==> hit.dist_den > 0
                &&& clear_around(self.map, r.px, r.py) ==> hit.dist_num > 0
                &&& hit.color == shaded(wall_color(self.map.cell(hx, hy)), hs)
                &&& hit.strip == strip_of(hit.dist_num as int, hit.dist_den as int, height as int)
            }),
    {
        let ghost r = ray_of(self.player, x as int, width as int);
        let ghost m = self.map;
        let h = self.map.height;
        let w = self.map.width;
        let u = UNIT as i128;
        let wd = width as i128;
        let off = 2 * (x as i128) - wd;
        proof {
            lemma_short_coords(self.player.dir);
            lemma_short_coords(self.player.camera);
            let l = 1048576int;
            let a = self.player.dir.x as int;
            let b = self.player.camera.x as int;
            let c = self.player.dir.y as int;
            let d = self.player.camera.y as int;
            assert(-l * wd <= a * wd <= l * wd) by (nonlinear_arith) requires -l <= a <= l, wd >= 0;
            assert(-l * wd <= b * off <= l * wd) by (nonlinear_arith) requires -l <= b <= l, -wd <= off <= wd;
            assert(-l * wd <= c * wd <= l * wd) by (nonlinear_arith) requires -l <= c <= l, wd >= 0;
            assert(-l * wd <= d * off <= l * wd) by (nonlinear_arith) requires -l <= d <= l, -wd <= off <= wd;
            assert(l * wd <= l * 0x1_0000_0000) by (nonlinear_arith) requires wd <= 0x1_0000_0000, l > 0;
        }
        let rx: i128 = (self.player.dir.x as i128) * wd + (self.player.camera.x as i128) * off;
        let ry: i128 = (self.player.dir.y as i128) * wd + (self.player.camera.y as i128) * off;
        let arx: i128 = if rx < 0 { -rx } else { rx };
        let ary: i128 = if ry < 0 { -ry } else { ry };
        let px = self.player.pos.x as i128;
        let py = self.player.pos.y as i128;
        let mut cx: usize = (self.player.pos.x / UNIT) as usize;
        let mut cy: usize = (self.player.pos.y / UNIT) as usize;
        let mut side = Side::NS;
        let mut hit = false;
        let ghost cx0 = cx as int;
        let ghost cy0 = cy as int;
        let ghost total: nat = (h + w) as nat;
        let ghost mut fuel: nat = total;
        let ghost mut away = false;
        proof {
            let p = self.player.pos.x as int;
            assert(p < (h as int) * UNIT) by (nonlinear_arith)
                requires p / (UNIT as int) <= h - 2, p >= 0;
            let q0 = self.player.pos.y as int;
            assert(q0 < (w as int) * UNIT) by (nonlinear_arith)
                requires q0 / (UNIT as int) <= w - 2, q0 >= 0;
            let q = self.player.pos.y as int;
            assert(cx0 * UNIT <= p < cx0 * UNIT + UNIT) by (nonlinear_arith)
                requires cx0 == p / (UNIT as int), p >= 0;
            assert(cy0 * UNIT <= q < cy0 * UNIT + UNIT) by (nonlinear_arith)
                requires cy0 == q / (UNIT as int), q >= 0;
        }
        while !hit
            invariant
                m == self.map,
                m.wf(),
                h == m.height,
                w == m.width,
                r == ray_of(self.player, x as int, width as int),
                r.rx == rx,
                r.ry == ry,
                arx == abs(rx as int),
                ary == abs(ry as int),
                -0x40_0000_0000_0000 <= rx <= 0x40_0000_0000_0000,
                -0x40_0000_0000_0000 <= ry <= 0x40_0000_0000_0000,
                r.px == px,
                r.py == py,
                0 <= px < h * UNIT,
                0 <= py < w * UNIT,
                h <= 1048576,
                w <= 1048576,
                u == UNIT,
                total == h + w,
                cx < h,
                cy < w,
                r.rx < 0 ==> cx * UNIT <= px,
                r.rx >= 0 ==> px < (cx + 1) * UNIT,
                r.ry < 0 ==> cy * UNIT <= py,
                r.ry >= 0 ==> py < (cy + 1) * UNIT,
                !hit ==> (if r.rx < 0 { cx as int } else { h - 1 - cx })
                    + (if r.ry < 0 { cy as int } else { w - 1 - cy }) + total - fuel
                    == (if r.rx < 0 { cx0 } else { h - 1 - cx0 })
                    + (if r.ry < 0 { cy0 } else { w - 1 - cy0 }),
                0 <= cx0 < h,
                0 <= cy0 < w,
                !hit ==> 1 <= cx <= h - 2 && 1 <= cy <= w - 2,
                !hit ==> walk(m, r, cx0, cy0, Side::NS, total) == walk(m, r, cx as int, cy as int, side, fuel),
                hit ==> walk(m, r, cx0, cy0, Side::NS, total) == (cx as int, cy as int, side),
                hit ==> is_wall(m.cell(cx as int, cy as int)),
                hit ==> hit_gap(r, cx as int, cy as int, side) >= 0,
                hit ==> (side == Side::EW ==> rx != 0),
                hit ==> (side == Side::NS ==> (ry != 0 || rx == 0)),
                !away ==> touches(px as int, py as int, cx as int, cy as int),
                away && !hit ==> gap_x(r, cx as int) > 0 && gap_y(r, cy as int) > 0,
                hit ==> hit_gap(r, cx as int, cy as int, side) > 0
                    || touches(px as int, py as int, cx as int, cy as int),
            decreases
                (if r.rx < 0 { cx as int } else { h - 1 - cx }) + (if r.ry < 0 { cy as int } else { w - 1 - cy })
                    + (if hit { 0int } else { 1int }),
        {
            let gx: i128 = if rx < 0 { px - (cx as i128) * u } else { (cx as i128 + 1) * u - px };
            let gy: i128 = if ry < 0 { py - (cy as i128) * u } else { (cy as i128 + 1) * u - py };
            proof {
                assert(gx <= 0x100_0000_0000) by (nonlinear_arith)
                    requires gx == (if rx < 0 { px - cx * UNIT } else { (cx + 1) * UNIT - px }),
                        0 <= px, cx < h, h <= 1048576, px < (h as int) * UNIT;
                assert(gy <= 0x100_0000_0000) by (nonlinear_arith)
                    requires gy == (if ry < 0 { py - cy * UNIT } else { (cy + 1) * UNIT - py }),
                        0 <= py, cy < w, w <= 1048576, py < (w as int) * UNIT;
                assert(gx >= 0 && gy >= 0);
                assert(gx * ary <= 0x100_0000_0000 * 0x40_0000_0000_0000) by (nonlinear_arith)
                    requires 0 <= gx <= 0x100_0000_0000, 0 <= ary <= 0x40_0000_0000_0000;
                assert(gy * arx <= 0x100_0000_0000 * 0x40_0000_0000_0000) by (nonlinear_arith)
                    requires 0 <= gy <= 0x100_0000_0000, 0 <= arx <= 0x40_0000_0000_0000;
                assert(0 <= gx * ary) by (nonlinear_arith) requires 0 <= gx, 0 <= ary;
                assert(0 <= gy * arx) by (nonlinear_arith) requires 0 <= gy, 0 <= arx;
                // Steps left before the walk's bound runs out.
                let m0 = (if r.rx < 0 { cx0 } else { h - 1 - cx0 }) + (if r.ry < 0 { cy0 } else { w - 1 - cy0 });
                let mc = (if r.rx < 0 { cx as int } else { h - 1 - cx }) + (if r.ry < 0 { cy as int } else { w - 1 - cy });
                assert(m0 <= h + w - 2);
                assert(mc >= 0);
                assert(mc + total - fuel == m0);
                assert(fuel >= 1);
            }
            let ghost ocx = cx as int;
            let ghost ocy = cy as int;
            let ghost was_away = away;
            if rx != 0 && (ry == 0 || gx * ary < gy * arx) {
                proof {
                    if gx > 0 {
                        if ry != 0 {
                            assert(gy > 0) by (nonlinear_arith)
                                requires gx * ary < gy * arx, 0 <= gx * ary, arx > 0;
                        }
                        away = true;
                    }
                }
                if rx < 0 {
                    cx = cx - 1;
                } else {
                    cx = cx + 1;
                }
                side = Side::EW;
            } else {
                proof {
                    if gy > 0 {
                        if rx != 0 {
                            assert(gx > 0) by (nonlinear_arith)
                                requires gx * ary >= gy * arx, 0 < gy, arx > 0, ary >= 0, gx >= 0;
                        }
                        away = true;
                    }
                }
                if ry < 0 {
                    cy = cy - 1;
                } else {
                    cy = cy + 1;
                }
                side = Side::NS;
            }
            proof {
                assert(gx == gap_x(r, ocx));
                assert(gy == gap_y(r, ocy));
                assert(advance(r, ocx, ocy) == (cx as int, cy as int, side));
            }
            if !self.map.is_empty_at(cx, cy) {
                hit = true;
                proof {
                    assert(is_wall(m.cell(cx as int, cy as int)));
                    assert(walk(m, r, ocx, ocy, Side::NS, fuel) == (cx as int, cy as int, side));
                }
            } else {
                proof {
                    m.lemma_open_cell_inside(cx as int, cy as int);
                    fuel = (fuel - 1) as nat;
                }
            }
        }
        let gap: i128 = match side {
            Side::EW => if rx < 0 { px - (cx as i128 + 1) * u } else { (cx as i128) * u - px },
            Side::NS => if ry < 0 { py - (cy as i128 + 1) * u } else { (cy as i128) * u - py },
        };
        let den: i128 = match side {
            Side::EW => arx,
            Side::NS => ary,
        };
        proof {
            assert(gap == hit_gap(r, cx as int, cy as int, side));
            assert(gap <= 0x100_0000_0000) by (nonlinear_arith)
                requires gap == hit_gap(r, cx as int, cy as int, side), 0 <= px < (h as int) * UNIT,
                    0 <= py < (w as int) * UNIT, cx < h, cy < w, h <= 1048576, w <= 1048576,
                    r.px == px, r.py == py;
            assert(gap * wd <= 0x100_0000_0000 * 0x1_0000_0000) by (nonlinear_arith)
                requires 0 <= gap <= 0x100_0000_0000, 0 <= wd <= 0x1_0000_0000;
            assert(0 <= gap * wd) by (nonlinear_arith) requires 0 <= gap, 0 <= wd;
        }
        let num = gap * wd;
        proof {
            if clear_around(m, px as int, py as int) {
                assert(!touches(px as int, py as int, cx as int, cy as int));
                assert(num > 0) by (nonlinear_arith) requires gap > 0, wd > 0, num == gap * wd;
            }
        }
        let color = match self.map.cell_at(cx, cy) {
            Space::Wall(c) => shade(c, side),
            Space::Empty => Rgb { r: 0, g: 0, b: 0 },
        };
        let s = strip(num, den, height);
        RayHit { cell_x: cx, cell_y: cy, side, dist_num: num, dist_den: den, color, strip: s }
    }

    /// Advances the player by one frame of `frame_nanos` nanoseconds: each
    /// held action, in the order it was pressed, moves the player by
    /// `move_dist(frame_nanos, speed)` along the facing (wall-sliding, one axis
    /// at a time) or turns facing and camera plane by `turn`, the rotation
    /// for one frame (its inverse for `Rotate(Right)`).
    pub fn update_player(&mut self, frame_nanos: u64, turn: Turn)
        requires
            old(self).wf(),
            turn_ok(turn),
        ensures
            final(self).wf(),
            final(self).map == old(self).map,
            final(self).player.actions@ == old(self).player.actions@,
            final(self).player.speed == old(self).player.speed,
            pose(final(self).player) == apply_actions(
                old(self).map,
                pose(old(self).player),
                old(self).player.actions@,
                move_dist(frame_nanos as int, old(self).player.speed as int),
                turn,
                old(self).player.actions@.len(),
            ),
    {
        let ghost m = self.map;
        let ghost acts = self.player.actions@;
        let ghost p0 = pose(self.player);
        proof {
            assert(0 <= (frame_nanos as int) * (self.player.speed as int) * UNIT
                <= 0x1_0000_0000_0000_0000 * 0x1_0000_0000 * 65536) by (nonlinear_arith)
                requires frame_nanos <= 0xffff_ffff_ffff_ffff, self.player.speed <= 0xffff_ffff;
        }
        let d: u128 = (frame_nanos as u128) * (self.player.speed as u128) * (UNIT as u128) / 1_000_000_000;
        let ghost dd = move_dist(frame_nanos as int, self.player.speed as int);
        assert(d == dd);
        assert(d <= 0x10_0000_0000_0000_0000_0000);
        let n = self.player.actions.len();
        let mut i: usize = 0;
        while i < n
            invariant
                self.map == m,
                m.wf(),
                self.player.actions@ == acts,
                self.player.speed == old(self).player.speed,
                m == old(self).map,
                acts == old(self).player.actions@,
                p0 == pose(old(self).player),
                n == acts.len(),
                i <= n,
                d == dd,
                d <= 0x10_0000_0000_0000_0000_0000,
                turn_ok(turn),
                pose_ok(m, pose(self.player)),
                pose(self.player) == apply_actions(m, p0, acts, dd, turn, i as nat),
            decreases n - i,
        {
            let a = self.player.actions[i];
            match a {
                Action::Move(dr) => {
                    let sd: i128 = if dr == Direction::Down { -(d as i128) } else { d as i128 };
                    let np = move_pos(&self.map, self.player.pos, self.player.dir, sd);
                    self.player.pos = np;
                },
                Action::Rotate(dr) => {
                    proof {
                        lemma_short_coords(Vec2 { x: turn.cos, y: turn.sin });
                        assert((-turn.sin) * (-turn.sin) == turn.sin * turn.sin) by (nonlinear_arith);
                    }
                    let t = if dr == Direction::Right {
                        Turn { cos: turn.cos, sin: -turn.sin }
                    } else {
                        turn
                    };
                    self.player.dir = rotate(self.player.dir, t);
                    self.player.camera = rotate(self.player.camera, t);
                },
            }
            i = i + 1;
        }
    }
}

/// The edge columns of a screen lie at the two ends of the camera plane:
/// column 0 at offset `-width` (camera x of -1) and column `width - 1` at
/// `width - 2`; and columns `c` and `width - c` cast rays mirrored about the
/// facing: their sum is twice the facing.
pub proof fn lemma_edge_columns(p: Player, width: int)
    requires
        width > 0,
    ensures
        camera_offset(0, width) == -width,
        camera_offset(width - 1, width) == width - 2,
        forall|c: int|
            0 <= c <= width ==> {
                &&& #[trigger] ray_of(p, c, width).rx + ray_of(p, width - c, width).rx == 2 * p.dir.x * width
                &&& ray_of(p, c, width).ry + ray_of(p, width - c, width).ry == 2 * p.dir.y * width
            },
{
    assert forall|c: int| 0 <= c <= width implies {
        &&& #[trigger] ray_of(p, c, width).rx + ray_of(p, width - c, width).rx == 2 * p.dir.x * width
        &&& ray_of(p, c, width).ry + ray_of(p, width - c, width).ry == 2 * p.dir.y * width
    } by {
        let a = p.camera.x as int;
        let b = p.camera.y as int;
        let dx = p.dir.x as int;
        let dy = p.dir.y as int;
        assert(dx * width + a * (2 * c - width) + (dx * width + a * (2 * (width - c) - width))
            == 2 * dx * width) by (nonlinear_arith);
        assert(dy * width + b * (2 * c - width) + (dy * width + b * (2 * (width - c) - width))
            == 2 * dy * width) by (nonlinear_arith);
    }
}

/// Movement is axis-separable: where a move is refused along x but open
/// along y, the player keeps x and takes the new y (and the other way
/// round); and the new y never depends on the x part of the facing.
pub proof fn lemma_wall_sliding(m: TileMap, pos: Vec2, dir: Vec2, d: int)
    requires
        m.wf(),
    ensures
        ({
            let cx = pos.x + unscale(dir.x * d);
            let cy = pos.y + unscale(dir.y * d);
            let r = moved(m, pos, dir, d);
            &&& !open_at(m, cx, pos.y as int) && open_at(m, pos.x as int, cy) ==> r.x == pos.x && r.y == cy
            &&& open_at(m, cx, pos.y as int) && !open_at(m, pos.x as int, cy) ==> r.x == cx && r.y == pos.y
            &&& r.y == moved(m, pos, Vec2 { x: 0, y: dir.y }, d).y
            &&& r.x == moved(m, pos, Vec2 { x: dir.x, y: 0 }, d).x
        }),
{
    let cx = pos.x + unscale(dir.x * d);
    let cy = pos.y + unscale(dir.y * d);
    if open_at(m, cx, pos.y as int) {
        assert(cx < (m.height as int) * UNIT) by (nonlinear_arith)
            requires cx / (UNIT as int) < m.height, cx >= 0;
    }
    if open_at(m, pos.x as int, cy) {
        assert(cy < (m.width as int) * UNIT) by (nonlinear_arith)
            requires cy / (UNIT as int) < m.width, cy >= 0;
    }
}

/// One action over a frame of no time with no turn changes nothing.
proof fn lemma_idle_action(m: TileMap, ps: (Vec2, Vec2, Vec2), a: Action)
    ensures
        apply_action(m, ps, a, 0, crate::fixed::no_turn()) == ps,
{
    let (pos, dir, cam) = ps;
    crate::fixed::lemma_unscale_exact(dir.x as int);
    crate::fixed::lemma_unscale_exact(dir.y as int);
    crate::fixed::lemma_unscale_exact(cam.x as int);
    crate::fixed::lemma_unscale_exact(cam.y as int);
    assert(dir.x * 0 == 0 && dir.y * 0 == 0) by (nonlinear_arith);
    assert(dir.x * UNIT - dir.y * 0 == dir.x * UNIT) by (nonlinear_arith);
    assert(dir.x * 0 + dir.y * UNIT == dir.y * UNIT) by (nonlinear_arith);
    assert(cam.x * UNIT - cam.y * 0 == cam.x * UNIT) by (nonlinear_arith);
    assert(cam.x * 0 + cam.y * UNIT == cam.y * UNIT) by (nonlinear_arith);
    assert(inverse(crate::fixed::no_turn()) == crate::fixed::no_turn());
}

/// A frame of no time, with the turn of angle zero, leaves the pose as it
/// was, whatever actions are held.
pub proof fn lemma_idle_frame(w: World)
    ensures
        move_dist(0, w.player.speed as int) == 0,
        apply_actions(
            w.map,
            pose(w.player),
            w.player.actions@,
            move_dist(0, w.player.speed as int),
            crate::fixed::no_turn(),
            w.player.actions@.len(),
        ) == pose(w.player),
{
    assert(0 * (w.player.speed as int) * UNIT == 0) by (nonlinear_arith);
    lemma_idle_actions(w.map, pose(w.player), w.player.actions@, w.player.actions@.len());
}

proof fn lemma_idle_actions(m: TileMap, ps: (Vec2, Vec2, Vec2), acts: Seq<Action>, n: nat)
    ensures
        apply_actions(m, ps, acts, 0, crate::fixed::no_turn(), n) == ps,
    decreases n,
{
    if n == 0 || n > acts.len() {
    } else {
        lemma_idle_actions(m, ps, acts, (n - 1) as nat);
        lemma_idle_action(m, ps, acts[n - 1]);
    }
}

} // verus!
