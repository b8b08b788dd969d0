//! The layout generator: derives wall placements, the paddle and ball
//! starting entities and the brick grid from arena bounds and spacing
//! configuration, and builds the starting world.
//!
//! The arena spans `-(arena_width/2) ..= arena_width/2` horizontally and
//! `bottom ..= top` vertically; the four walls sit on that perimeter, offset
//! outward by half the wall thickness, so each wall's inner edge lies on the
//! boundary.

use vstd::prelude::*;

use crate::fixed::{div_nn, isqrt, scaled, sqrt_floor};
use crate::geometry::{box_hi, box_lo, vec3_in_range, Vec3};
use crate::world::{
    kind_count, lemma_kind_count_all, lemma_kind_count_concat, lemma_kind_count_none, wf_seq,
    Entity, EntityKind, World, MAX_VEL,
};

verus! {

/// Largest magnitude a configuration length, coordinate or speed may have.
pub const MAX_CFG: i64 = 0x8_0000_0000;

/// Largest magnitude a component of the ball's starting direction may have.
/// The direction is only a ray; its length is divided out.
pub const MAX_DIR: i64 = 0x100_0000;

/// All configuration constants of the simulation core, in fixed-point units.
/// A configuration is checked once, at startup: `validate` mirrors `valid`,
/// and every layout function demands a valid configuration.
#[derive(Clone, Copy, PartialEq, Eq, Structural, Debug)]
pub struct LayoutConfig {
    /// Arena bounds. Only the difference `right - left` matters
    /// horizontally: the arena is centered on zero.
    pub left: i64,
    pub right: i64,
    pub bottom: i64,
    pub top: i64,
    /// Thickness of the four walls.
    pub wall_thickness: i64,
    pub paddle_size: Vec3,
    /// Paddle speed, length per second.
    pub paddle_speed: i64,
    /// Extra clearance kept between the paddle and the side walls.
    pub paddle_padding: i64,
    /// Vertical gap between the bottom bound and the paddle.
    pub gap_paddle_floor: i64,
    /// Vertical gap between the paddle and the lowest brick row.
    pub gap_paddle_bricks: i64,
    /// Vertical gap between the highest brick row and the top bound.
    pub gap_bricks_ceiling: i64,
    /// Horizontal gap kept brick-free along each side wall.
    pub gap_bricks_sides: i64,
    /// Gap between neighbouring bricks, on both axes.
    pub gap_bricks: i64,
    pub brick_size: Vec3,
    pub ball_size: Vec3,
    pub ball_start: Vec3,
    /// Starting direction of the ball; only the ray matters.
    pub ball_dir: Vec3,
    /// Ball speed, length per second.
    pub ball_speed: i64,
}

impl LayoutConfig {
    pub open spec fn arena_width(self) -> int {
        self.right - self.left
    }

    pub open spec fn arena_height(self) -> int {
        self.top - self.bottom
    }

    /// Vertical center of the paddle.
    pub open spec fn paddle_y(self) -> int {
        self.bottom + self.gap_paddle_floor
    }

    /// Bottom edge of the brick region.
    pub open spec fn bricks_bottom(self) -> int {
        self.paddle_y() + self.gap_paddle_bricks
    }

    /// Horizontal room available to bricks.
    pub open spec fn avail_width(self) -> int {
        self.arena_width() - 2 * self.gap_bricks_sides
    }

    /// Vertical room available to bricks.
    pub open spec fn avail_height(self) -> int {
        self.top - self.bricks_bottom() - self.gap_bricks_ceiling
    }

    /// The configuration is sound: positive arena, positive sizes,
    /// non-negative gaps and speeds, room for the paddle and at least one
    /// brick, the ball starting inside the arena, and the handful of
    /// evenness conditions that keep every derived placement exactly
    /// representable on the integer grid.
    pub open spec fn valid(self) -> bool {
        &&& -MAX_CFG <= self.left <= MAX_CFG
        &&& -MAX_CFG <= self.right <= MAX_CFG
        &&& -MAX_CFG <= self.bottom <= MAX_CFG
        &&& -MAX_CFG <= self.top <= MAX_CFG
        &&& 0 < self.arena_width()
        &&& 0 < self.arena_height()
        &&& 0 < self.wall_thickness <= MAX_CFG
        &&& self.arena_width() % 2 == 0
        &&& self.arena_height() % 2 == 0
        &&& self.wall_thickness % 2 == 0
        &&& 0 < self.paddle_size.x <= MAX_CFG
        &&& 0 < self.paddle_size.y <= MAX_CFG
        &&& 0 < self.paddle_size.z <= MAX_CFG
        &&& 0 <= self.paddle_speed <= MAX_CFG
        &&& 0 <= self.paddle_padding <= MAX_CFG
        &&& 0 <= self.gap_paddle_floor <= MAX_CFG
        &&& 0 <= self.gap_paddle_bricks <= MAX_CFG
        &&& 0 <= self.gap_bricks_ceiling <= MAX_CFG
        &&& 0 <= self.gap_bricks_sides <= MAX_CFG
        &&& 0 <= self.gap_bricks <= MAX_CFG
        &&& 0 < self.brick_size.x <= MAX_CFG
        &&& 0 < self.brick_size.y <= MAX_CFG
        &&& 0 < self.brick_size.z <= MAX_CFG
        &&& self.brick_size.x % 2 == 0
        &&& self.brick_size.y % 2 == 0
        &&& self.gap_bricks % 2 == 0
        &&& 0 < self.ball_size.x <= MAX_CFG
        &&& 0 < self.ball_size.y <= MAX_CFG
        &&& 0 < self.ball_size.z <= MAX_CFG
        &&& 0 <= self.ball_speed <= MAX_CFG
        &&& vec3_in_range(self.ball_start, MAX_CFG as int)
        &&& vec3_in_range(self.ball_dir, MAX_DIR as int)
        &&& !(self.ball_dir == (Vec3 { x: 0, y: 0, z: 0 }))
        // the paddle, with its padding, fits between the side walls
        &&& self.wall_thickness + self.paddle_size.x + 2 * self.paddle_padding
            <= self.arena_width()
        // room for at least one brick row and column
        &&& 0 < self.avail_width()
        &&& 0 < self.avail_height()
        &&& self.brick_size.x + self.gap_bricks <= self.avail_width()
        &&& self.brick_size.y + self.gap_bricks <= self.avail_height()
        // the ball's starting box sits inside the arena (doubled bounds)
        &&& -self.arena_width() <= box_lo(self.ball_start.x as int, self.ball_size.x as int)
        &&& box_hi(self.ball_start.x as int, self.ball_size.x as int) <= self.arena_width()
        &&& 2 * self.bottom <= box_lo(self.ball_start.y as int, self.ball_size.y as int)
        &&& box_hi(self.ball_start.y as int, self.ball_size.y as int) <= 2 * self.top
    }
}

/// Checks a configuration at startup; a configuration failing this check is
/// a programmer mistake and must stop the game before it starts.
pub fn validate(cfg: &LayoutConfig) -> (r: bool)
    ensures
        r == cfg.valid(),
{
    let c = *cfg;
    if !(-MAX_CFG <= c.left && c.left <= MAX_CFG && -MAX_CFG <= c.right && c.right <= MAX_CFG
        && -MAX_CFG <= c.bottom && c.bottom <= MAX_CFG && -MAX_CFG <= c.top && c.top <= MAX_CFG) {
        return false;
    }
    let aw = c.right - c.left;
    let ah = c.top - c.bottom;
    if !(0 < aw && 0 < ah && 0 < c.wall_thickness && c.wall_thickness <= MAX_CFG) {
        return false;
    }
    if (aw as u64) % 2 != 0 || (ah as u64) % 2 != 0 || (c.wall_thickness as u64) % 2 != 0 {
        return false;
    }
    if !(0 < c.paddle_size.x && c.paddle_size.x <= MAX_CFG && 0 < c.paddle_size.y && c.paddle_size.y
        <= MAX_CFG && 0 < c.paddle_size.z && c.paddle_size.z <= MAX_CFG) {
        return false;
    }
    if !(0 <= c.paddle_speed && c.paddle_speed <= MAX_CFG && 0 <= c.paddle_padding
        && c.paddle_padding <= MAX_CFG) {
        return false;
    }
    if !(0 <= c.gap_paddle_floor && c.gap_paddle_floor <= MAX_CFG && 0 <= c.gap_paddle_bricks
        && c.gap_paddle_bricks <= MAX_CFG && 0 <= c.gap_bricks_ceiling && c.gap_bricks_ceiling
        <= MAX_CFG && 0 <= c.gap_bricks_sides && c.gap_bricks_sides <= MAX_CFG && 0 <= c.gap_bricks
        && c.gap_bricks <= MAX_CFG) {
        return false;
    }
    if !(0 < c.brick_size.x && c.brick_size.x <= MAX_CFG && 0 < c.brick_size.y && c.brick_size.y
        <= MAX_CFG && 0 < c.brick_size.z && c.brick_size.z <= MAX_CFG) {
        return false;
    }
    if (c.brick_size.x as u64) % 2 != 0 || (c.brick_size.y as u64) % 2 != 0 || (c.gap_bricks
        as u64) % 2 != 0 {
        return false;
    }
    if !(0 < c.ball_size.x && c.ball_size.x <= MAX_CFG && 0 < c.ball_size.y && c.ball_size.y
        <= MAX_CFG && 0 < c.ball_size.z && c.ball_size.z <= MAX_CFG) {
        return false;
    }
    if !(0 <= c.ball_speed && c.ball_speed <= MAX_CFG) {
        return false;
    }
    if !(-MAX_CFG <= c.ball_start.x && c.ball_start.x <= MAX_CFG && -MAX_CFG <= c.ball_start.y
        && c.ball_start.y <= MAX_CFG && -MAX_CFG <= c.ball_start.z && c.ball_start.z <= MAX_CFG) {
        return false;
    }
    if !(-MAX_DIR <= c.ball_dir.x && c.ball_dir.x <= MAX_DIR && -MAX_DIR <= c.ball_dir.y
        && c.ball_dir.y <= MAX_DIR && -MAX_DIR <= c.ball_dir.z && c.ball_dir.z <= MAX_DIR) {
        return false;
    }
    if c.ball_dir.x == 0 && c.ball_dir.y == 0 && c.ball_dir.z == 0 {
        return false;
    }
    if !(c.wall_thickness + c.paddle_size.x + 2 * c.paddle_padding <= aw) {
        return false;
    }
    let avail_w = aw - 2 * c.gap_bricks_sides;
    let avail_h = c.top - (c.bottom + c.gap_paddle_floor + c.gap_paddle_bricks)
        - c.gap_bricks_ceiling;
    if !(0 < avail_w && 0 < avail_h && c.brick_size.x + c.gap_bricks <= avail_w && c.brick_size.y
        + c.gap_bricks <= avail_h) {
        return false;
    }
    if !(-aw <= 2 * c.ball_start.x - c.ball_size.x && 2 * c.ball_start.x + c.ball_size.x <= aw && 2
        * c.bottom <= 2 * c.ball_start.y - c.ball_size.y && 2 * c.ball_start.y + c.ball_size.y <= 2
        * c.top) {
        return false;
    }
    true
}

/// The four sides a wall can close off.
#[derive(Clone, Copy, PartialEq, Eq, Structural, Debug)]
pub enum WallLocation {
    Left,
    Right,
    Bottom,
    Top,
}

/// Center of the wall closing off one side: on the arena perimeter, offset
/// outward by half the wall thickness.
pub open spec fn wall_position(loc: WallLocation, cfg: LayoutConfig) -> Vec3 {
    let half_w = cfg.arena_width() / 2;
    let half_t = cfg.wall_thickness / 2;
    let mid_y = cfg.bottom + cfg.arena_height() / 2;
    match loc {
        WallLocation::Left => Vec3 { x: (-half_w - half_t) as i64, y: mid_y as i64, z: 0 },
        WallLocation::Right => Vec3 { x: (half_w + half_t) as i64, y: mid_y as i64, z: 0 },
        WallLocation::Bottom => Vec3 { x: 0, y: (cfg.bottom - half_t) as i64, z: 0 },
        WallLocation::Top => Vec3 { x: 0, y: (cfg.top + half_t) as i64, z: 0 },
    }
}

/// Full size of the wall closing off one side: side walls are a thickness
/// wide and overhang the arena height by one thickness, so the four walls
/// close at the corners; top and bottom walls likewise. The depth equals
/// the thickness.
pub open spec fn wall_size(loc: WallLocation, cfg: LayoutConfig) -> Vec3 {
    let t = cfg.wall_thickness;
    match loc {
        WallLocation::Left | WallLocation::Right => Vec3 {
            x: t,
            y: (cfg.arena_height() + t) as i64,
            z: t,
        },
        WallLocation::Bottom | WallLocation::Top => Vec3 {
            x: (cfg.arena_width() + t) as i64,
            y: t,
            z: t,
        },
    }
}

impl WallLocation {
    /// Where the wall closing off this side stands.
    pub fn position(self, cfg: &LayoutConfig) -> (p: Vec3)
        requires
            cfg.valid(),
        ensures
            p == wall_position(self, *cfg),
    {
        let aw = cfg.right - cfg.left;
        let ah = cfg.top - cfg.bottom;
        let half_w = div_nn(aw, 2);
        let half_t = div_nn(cfg.wall_thickness, 2);
        let mid_y = cfg.bottom + div_nn(ah, 2);
        match self {
            WallLocation::Left => Vec3 { x: -half_w - half_t, y: mid_y, z: 0 },
            WallLocation::Right => Vec3 { x: half_w + half_t, y: mid_y, z: 0 },
            WallLocation::Bottom => Vec3 { x: 0, y: cfg.bottom - half_t, z: 0 },
            WallLocation::Top => Vec3 { x: 0, y: cfg.top + half_t, z: 0 },
        }
    }

    /// How large the wall closing off this side is. The arena dimensions
    /// must be positive; a configuration violating that never reaches this
    /// point, `validate` having rejected it at startup.
    pub fn size(self, cfg: &LayoutConfig) -> (s: Vec3)
        requires
            cfg.valid(),
        ensures
            s == wall_size(self, *cfg),
    {
        let t = cfg.wall_thickness;
        match self {
            WallLocation::Left | WallLocation::Right => Vec3 {
                x: t,
                y: (cfg.top - cfg.bottom) + t,
                z: t,
            },
            WallLocation::Bottom | WallLocation::Top => Vec3 {
                x: (cfg.right - cfg.left) + t,
                y: t,
                z: t,
            },
        }
    }
}

// ---------------------------------------------------------------------------
// Brick grid
// ---------------------------------------------------------------------------
/// Grid step on the horizontal axis: one brick and one gap.
pub open spec fn step_x(cfg: LayoutConfig) -> int {
    cfg.brick_size.x + cfg.gap_bricks
}

/// Grid step on the vertical axis.
pub open spec fn step_y(cfg: LayoutConfig) -> int {
    cfg.brick_size.y + cfg.gap_bricks
}

/// How many brick columns fit in the available width.
pub open spec fn spec_n_columns(cfg: LayoutConfig) -> int {
    cfg.avail_width() / step_x(cfg)
}

/// How many brick rows fit in the available height.
pub open spec fn spec_n_rows(cfg: LayoutConfig) -> int {
    cfg.avail_height() / step_y(cfg)
}

/// Total width of the brick grid: all columns and the gaps between them.
pub open spec fn grid_width(cfg: LayoutConfig) -> int {
    spec_n_columns(cfg) * step_x(cfg) - cfg.gap_bricks
}

/// Horizontal center of the leftmost brick column: the grid is centered on
/// the arena's vertical axis.
pub open spec fn spec_offset_x(cfg: LayoutConfig) -> int {
    -(grid_width(cfg) / 2) + cfg.brick_size.x / 2
}

/// Vertical center of the lowest brick row.
pub open spec fn spec_offset_y(cfg: LayoutConfig) -> int {
    cfg.bricks_bottom() + cfg.brick_size.y / 2
}

/// Center of the brick in the given row and column; rows are counted from
/// the bottom.
pub open spec fn brick_center(cfg: LayoutConfig, row: int, col: int) -> Vec3 {
    Vec3 {
        x: (spec_offset_x(cfg) + col * step_x(cfg)) as i64,
        y: (spec_offset_y(cfg) + row * step_y(cfg)) as i64,
        z: 0,
    }
}

/// The derived brick grid: counts and the center of the bottom-left brick.
#[derive(Clone, Copy, PartialEq, Eq, Structural, Debug)]
pub struct BrickGrid {
    pub n_columns: u64,
    pub n_rows: u64,
    pub offset_x: i64,
    pub offset_y: i64,
}

/// Facts every user of the grid needs: at least one row and one column fit,
/// and the whole grid fits into the available room.
pub proof fn lemma_grid_bounds(cfg: LayoutConfig)
    requires
        cfg.valid(),
    ensures
        1 <= spec_n_columns(cfg),
        1 <= spec_n_rows(cfg),
        spec_n_columns(cfg) * step_x(cfg) <= cfg.avail_width(),
        spec_n_rows(cfg) * step_y(cfg) <= cfg.avail_height(),
        spec_n_columns(cfg) <= cfg.avail_width(),
        spec_n_rows(cfg) <= cfg.avail_height(),
        0 <= grid_width(cfg) <= cfg.avail_width() - cfg.gap_bricks,
{
    let aw = cfg.avail_width();
    let sx = step_x(cfg);
    let nc = spec_n_columns(cfg);
    assert(1 <= nc && nc * sx <= aw && nc <= aw && sx <= nc * sx) by (nonlinear_arith)
        requires
            nc == aw / sx,
            0 < sx <= aw,
    ;
    let ah = cfg.avail_height();
    let sy = step_y(cfg);
    let nr = spec_n_rows(cfg);
    assert(1 <= nr && nr * sy <= ah && nr <= ah) by (nonlinear_arith)
        requires
            nr == ah / sy,
            0 < sy <= ah,
    ;
}

/// Row and column counts are at least one exactly where one brick and one
/// gap fit into the available room; this holds of every valid
/// configuration, and the world builder demands a valid one.
pub proof fn lemma_grid_nonempty(
    avail_width: int,
    avail_height: int,
    brick_w: int,
    brick_h: int,
    gap: int,
)
    requires
        0 < avail_width,
        0 < avail_height,
        0 < brick_w,
        0 < brick_h,
        0 <= gap,
        brick_w + gap <= avail_width,
        brick_h + gap <= avail_height,
    ensures
        avail_width / (brick_w + gap) >= 1,
        avail_height / (brick_h + gap) >= 1,
{
    assert(avail_width / (brick_w + gap) >= 1) by (nonlinear_arith)
        requires
            0 < brick_w + gap <= avail_width,
    ;
    assert(avail_height / (brick_h + gap) >= 1) by (nonlinear_arith)
        requires
            0 < brick_h + gap <= avail_height,
    ;
}

/// Computes the brick grid of a valid configuration.
pub fn brick_grid(cfg: &LayoutConfig) -> (g: BrickGrid)
    requires
        cfg.valid(),
    ensures
        g.n_columns == spec_n_columns(*cfg),
        g.n_rows == spec_n_rows(*cfg),
        g.offset_x == spec_offset_x(*cfg),
        g.offset_y == spec_offset_y(*cfg),
        1 <= g.n_columns,
        1 <= g.n_rows,
{
    proof {
        lemma_grid_bounds(*cfg);
    }
    let aw = cfg.right - cfg.left;
    let avail_w = aw - 2 * cfg.gap_bricks_sides;
    let avail_h = cfg.top - (cfg.bottom + cfg.gap_paddle_floor + cfg.gap_paddle_bricks)
        - cfg.gap_bricks_ceiling;
    let sx = cfg.brick_size.x + cfg.gap_bricks;
    let sy = cfg.brick_size.y + cfg.gap_bricks;
    let n_columns = div_nn(avail_w, sx) as u64;
    let n_rows = div_nn(avail_h, sy) as u64;
    proof {
        assert((n_columns as int) * step_x(*cfg) <= cfg.avail_width());
    }
    let g_width = (n_columns as i64) * sx - cfg.gap_bricks;
    let offset_x = -div_nn(g_width, 2) + div_nn(cfg.brick_size.x, 2);
    let offset_y = (cfg.bottom + cfg.gap_paddle_floor + cfg.gap_paddle_bricks) + div_nn(
        cfg.brick_size.y,
        2,
    );
    BrickGrid { n_columns, n_rows, offset_x, offset_y }
}

// ---------------------------------------------------------------------------
// Ball start
// ---------------------------------------------------------------------------
/// Length of the ball's starting direction, rounded down.
pub open spec fn dir_norm(cfg: LayoutConfig) -> int {
    sqrt_floor(
        (cfg.ball_dir.x * cfg.ball_dir.x + cfg.ball_dir.y * cfg.ball_dir.y + cfg.ball_dir.z
            * cfg.ball_dir.z) as nat,
    ) as int
}

/// The ball's starting velocity: its direction normalized and scaled by the
/// ball speed, component-wise `dir * speed / |dir|` rounded toward zero.
pub open spec fn ball_velocity(cfg: LayoutConfig) -> Vec3 {
    Vec3 {
        x: scaled(cfg.ball_dir.x as int, cfg.ball_speed as int, dir_norm(cfg)) as i64,
        y: scaled(cfg.ball_dir.y as int, cfg.ball_speed as int, dir_norm(cfg)) as i64,
        z: scaled(cfg.ball_dir.z as int, cfg.ball_speed as int, dir_norm(cfg)) as i64,
    }
}

/// No component of the starting velocity exceeds the ball speed.
pub proof fn lemma_ball_velocity_bounded(cfg: LayoutConfig)
    requires
        cfg.valid(),
    ensures
        vec3_in_range(ball_velocity(cfg), cfg.ball_speed as int),
        vec3_in_range(ball_velocity(cfg), MAX_VEL as int),
{
    let d = cfg.ball_dir;
    assert(d.x * d.x >= 0 && d.y * d.y >= 0 && d.z * d.z >= 0 && d.x * d.x + d.y * d.y + d.z * d.z
        >= 1) by (nonlinear_arith)
        requires
            !(d.x == 0 && d.y == 0 && d.z == 0),
    ;
    let sum = (d.x * d.x + d.y * d.y + d.z * d.z) as nat;
    crate::fixed::lemma_sqrt_floor_char(sum);
    let n = dir_norm(cfg);
    assert(n >= 1) by (nonlinear_arith)
        requires
            n >= 0,
            (n + 1) * (n + 1) > sum,
            sum >= 1,
    ;
    lemma_component_le_norm(d.x as int, sum as int, n);
    lemma_component_le_norm(d.y as int, sum as int, n);
    lemma_component_le_norm(d.z as int, sum as int, n);
    lemma_scaled_component(d.x as int, cfg.ball_speed as int, n);
    lemma_scaled_component(d.y as int, cfg.ball_speed as int, n);
    lemma_scaled_component(d.z as int, cfg.ball_speed as int, n);
}

/// A component of a vector never exceeds the vector's length.
proof fn lemma_component_le_norm(c: int, sum: int, n: int)
    requires
        sum >= c * c,
        n >= 0,
        (n + 1) * (n + 1) > sum,
    ensures
        -n <= c <= n,
{
    assert(-n <= c <= n) by (nonlinear_arith)
        requires
            sum >= c * c,
            n >= 0,
            (n + 1) * (n + 1) > sum,
    ;
}

/// Scaling a component by `speed / n` with `|c| <= n` keeps it under the
/// speed.
proof fn lemma_scaled_component(c: int, speed: int, n: int)
    requires
        -n <= c <= n,
        n >= 1,
        speed >= 0,
    ensures
        -speed <= scaled(c, speed, n) <= speed,
{
    if c >= 0 {
        assert(0 <= (c * speed) / n <= speed) by (nonlinear_arith)
            requires
                0 <= c <= n,
                n >= 1,
                speed >= 0,
        ;
    } else {
        assert(0 <= ((-c) * speed) / n <= speed) by (nonlinear_arith)
            requires
                0 <= -c <= n,
                n >= 1,
                speed >= 0,
        ;
    }
}

/// Computes the ball's starting velocity of a valid configuration.
pub fn initial_ball_velocity(cfg: &LayoutConfig) -> (v: Vec3)
    requires
        cfg.valid(),
    ensures
        v == ball_velocity(*cfg),
        vec3_in_range(v, MAX_VEL as int),
{
    proof {
        lemma_ball_velocity_bounded(*cfg);
    }
    let d = cfg.ball_dir;
    proof {
        assert(0 <= d.x * d.x <= MAX_DIR * MAX_DIR && 0 <= d.y * d.y <= MAX_DIR * MAX_DIR && 0
            <= d.z * d.z <= MAX_DIR * MAX_DIR) by (nonlinear_arith)
            requires
                -MAX_DIR <= d.x <= MAX_DIR,
                -MAX_DIR <= d.y <= MAX_DIR,
                -MAX_DIR <= d.z <= MAX_DIR,
        ;
        assert(d.x * d.x + d.y * d.y + d.z * d.z >= 1) by (nonlinear_arith)
            requires
                !(d.x == 0 && d.y == 0 && d.z == 0),
        ;
    }
    let sum = (d.x * d.x + d.y * d.y + d.z * d.z) as u64;
    let n_u = isqrt(sum);
    proof {
        crate::fixed::lemma_sqrt_floor_char(sum as nat);
        assert(n_u < 0x1_0000_0000u64) by (nonlinear_arith)
            requires
                n_u * n_u <= sum,
                sum < 0x4000_0000_0000_0000u64,
        ;
    }
    let n = n_u as i64;
    proof {
        assert(n >= 1) by (nonlinear_arith)
            requires
                n >= 0,
                (n + 1) * (n + 1) > sum as int,
                sum as int >= 1,
        ;
        assert(n * n <= sum as int);
        lemma_component_le_norm(d.x as int, sum as int, n as int);
        lemma_component_le_norm(d.y as int, sum as int, n as int);
        lemma_component_le_norm(d.z as int, sum as int, n as int);
        assert(n as int == dir_norm(*cfg));
    }
    let vx = scale_dir_component(d.x, cfg.ball_speed, n);
    let vy = scale_dir_component(d.y, cfg.ball_speed, n);
    let vz = scale_dir_component(d.z, cfg.ball_speed, n);
    Vec3 { x: vx, y: vy, z: vz }
}

/// One component of `dir * speed / n`, rounded toward zero.
fn scale_dir_component(c: i64, speed: i64, n: i64) -> (r: i64)
    requires
        1 <= n,
        -n <= c <= n,
        -MAX_DIR <= c <= MAX_DIR,
        0 <= speed <= MAX_CFG,
    ensures
        r == scaled(c as int, speed as int, n as int),
        -speed <= r <= speed,
{
    proof {
        lemma_scaled_component(c as int, speed as int, n as int);
        assert(-MAX_DIR * MAX_CFG <= c * speed <= MAX_DIR * MAX_CFG) by (nonlinear_arith)
            requires
                -MAX_DIR <= c <= MAX_DIR,
                0 <= speed <= MAX_CFG,
        ;
        assert((-c) * speed == -(c * speed)) by (nonlinear_arith);
    }
    if c >= 0 {
        div_nn(c * speed, n)
    } else {
        -div_nn((-c) * speed, n)
    }
}


// ---------------------------------------------------------------------------
// Paddle bounds
// ---------------------------------------------------------------------------
/// Leftmost center the paddle may reach: half a wall thickness, half a
/// paddle width and the padding in from the left boundary.
pub open spec fn paddle_low_bound(cfg: LayoutConfig) -> int {
    -(cfg.arena_width() / 2) + cfg.wall_thickness / 2 + cfg.paddle_size.x / 2
        + cfg.paddle_padding
}

/// Rightmost center the paddle may reach.
pub open spec fn paddle_high_bound(cfg: LayoutConfig) -> int {
    cfg.arena_width() / 2 - cfg.wall_thickness / 2 - cfg.paddle_size.x / 2 - cfg.paddle_padding
}

/// Halving an even non-negative value is exact.
proof fn lemma_even_half(x: int)
    requires
        x >= 0,
        x % 2 == 0,
    ensures
        2 * (x / 2) == x,
{
    assert(2 * (x / 2) == x) by (nonlinear_arith)
        requires
            x >= 0,
            x % 2 == 0,
    ;
}

/// Halving a non-negative value loses at most one unit of the double.
proof fn lemma_half_bounds(x: int)
    requires
        x >= 0,
    ensures
        0 <= x / 2 <= x,
        x - 1 <= 2 * (x / 2) <= x,
{
    assert(0 <= x / 2 <= x && x - 1 <= 2 * (x / 2) <= x) by (nonlinear_arith)
        requires
            x >= 0,
    ;
}

/// The paddle's travel range of a valid configuration is symmetric, never
/// empty, bounded, and keeps the paddle's box inside the arena.
pub proof fn lemma_paddle_bounds(cfg: LayoutConfig)
    requires
        cfg.valid(),
    ensures
        paddle_low_bound(cfg) <= 0 <= paddle_high_bound(cfg),
        paddle_high_bound(cfg) == -paddle_low_bound(cfg),
        -MAX_CFG - MAX_CFG <= paddle_low_bound(cfg),
        paddle_high_bound(cfg) <= MAX_CFG + MAX_CFG,
        -cfg.arena_width() < 2 * paddle_low_bound(cfg) - cfg.paddle_size.x,
        2 * paddle_high_bound(cfg) + cfg.paddle_size.x < cfg.arena_width(),
{
    let aw = cfg.arena_width();
    let t = cfg.wall_thickness as int;
    let px = cfg.paddle_size.x as int;
    lemma_even_half(aw);
    lemma_even_half(t);
    lemma_half_bounds(px);
    lemma_half_bounds(t);
    lemma_half_bounds(aw);
}

// ---------------------------------------------------------------------------
// The starting world
// ---------------------------------------------------------------------------
/// The wall entity closing off one side. Walls are immutable collision
/// targets.
pub open spec fn wall_entity(cfg: LayoutConfig, loc: WallLocation, id: u64) -> Entity {
    Entity {
        id,
        kind: EntityKind::Wall,
        position: wall_position(loc, cfg),
        size: wall_size(loc, cfg),
        has_velocity: false,
        velocity: Vec3 { x: 0, y: 0, z: 0 },
        collider: true,
    }
}

/// The paddle's starting entity: centered horizontally, one floor gap above
/// the bottom bound.
pub open spec fn paddle_entity(cfg: LayoutConfig) -> Entity {
    Entity {
        id: 4,
        kind: EntityKind::Paddle,
        position: Vec3 { x: 0, y: cfg.paddle_y() as i64, z: 0 },
        size: cfg.paddle_size,
        has_velocity: false,
        velocity: Vec3 { x: 0, y: 0, z: 0 },
        collider: true,
    }
}

/// The ball's starting entity: at the configured start, moving along the
/// configured direction at the configured speed.
pub open spec fn ball_entity(cfg: LayoutConfig) -> Entity {
    Entity {
        id: 5,
        kind: EntityKind::Ball,
        position: cfg.ball_start,
        size: cfg.ball_size,
        has_velocity: true,
        velocity: ball_velocity(cfg),
        collider: false,
    }
}

/// The brick in one grid cell; rows count from the bottom, and identities
/// follow the row-major build order.
pub open spec fn brick_entity(cfg: LayoutConfig, row: int, col: int, id: int) -> Entity {
    Entity {
        id: id as u64,
        kind: EntityKind::Brick,
        position: brick_center(cfg, row, col),
        size: cfg.brick_size,
        has_velocity: false,
        velocity: Vec3 { x: 0, y: 0, z: 0 },
        collider: true,
    }
}

/// The fixed entities: four walls, the paddle, the ball, in build order.
pub open spec fn base_layout(cfg: LayoutConfig) -> Seq<Entity> {
    seq![
        wall_entity(cfg, WallLocation::Left, 0),
        wall_entity(cfg, WallLocation::Right, 1),
        wall_entity(cfg, WallLocation::Bottom, 2),
        wall_entity(cfg, WallLocation::Top, 3),
        paddle_entity(cfg),
        ball_entity(cfg),
    ]
}

/// The brick grid, row-major from the bottom-left cell.
pub open spec fn brick_layout(cfg: LayoutConfig) -> Seq<Entity> {
    Seq::new(
        (spec_n_rows(cfg) * spec_n_columns(cfg)) as nat,
        |i: int|
            brick_entity(cfg, i / spec_n_columns(cfg), i % spec_n_columns(cfg), 6 + i),
    )
}

/// Everything the layout generator builds, in build order.
pub open spec fn world_layout(cfg: LayoutConfig) -> Seq<Entity> {
    base_layout(cfg) + brick_layout(cfg)
}

/// Every brick of a valid configuration lies inside the arena: the brick's
/// box (doubled bounds) stays between the side boundaries, above the bottom
/// bound and below the top bound.
pub proof fn lemma_bricks_inside(cfg: LayoutConfig, row: int, col: int)
    requires
        cfg.valid(),
        0 <= row < spec_n_rows(cfg),
        0 <= col < spec_n_columns(cfg),
    ensures
        -cfg.arena_width() <= 2 * (brick_center(cfg, row, col).x as int) - cfg.brick_size.x,
        2 * (brick_center(cfg, row, col).x as int) + cfg.brick_size.x <= cfg.arena_width(),
        2 * cfg.bottom <= 2 * (brick_center(cfg, row, col).y as int) - cfg.brick_size.y,
        2 * (brick_center(cfg, row, col).y as int) + cfg.brick_size.y <= 2 * cfg.top,
        vec3_in_range(brick_center(cfg, row, col), (MAX_CFG + MAX_CFG) as int),
{
    lemma_grid_bounds(cfg);
    let bsx = cfg.brick_size.x as int;
    let bsy = cfg.brick_size.y as int;
    let gap = cfg.gap_bricks as int;
    let sx = step_x(cfg);
    let sy = step_y(cfg);
    let nc = spec_n_columns(cfg);
    let nr = spec_n_rows(cfg);
    let g = grid_width(cfg);
    // the grid width is even, so centering it is exact
    lemma_even_half(bsx);
    lemma_even_half(bsy);
    lemma_even_half(gap);
    let hsx = bsx / 2 + gap / 2;
    assert(nc * sx == 2 * (nc * hsx)) by (nonlinear_arith)
        requires
            sx == 2 * hsx,
    ;
    assert(g == 2 * (nc * hsx - gap / 2));
    assert(g / 2 == nc * hsx - gap / 2) by (nonlinear_arith)
        requires
            g >= 0,
            g == 2 * (nc * hsx - gap / 2),
    ;
    // horizontal extent of this column
    let ox = spec_offset_x(cfg);
    assert(2 * ox == bsx - g);
    let bx = ox + col * sx;
    assert(0 <= col * sx <= (nc - 1) * sx) by (nonlinear_arith)
        requires
            0 <= col <= nc - 1,
            sx > 0,
    ;
    assert((nc - 1) * sx == nc * sx - sx) by (nonlinear_arith);
    assert(2 * bx + bsx <= g);
    assert(-g <= 2 * bx - bsx);
    assert(g <= cfg.avail_width() - gap);
    // vertical extent of this row
    let oy = spec_offset_y(cfg);
    assert(2 * oy == 2 * cfg.bricks_bottom() + bsy);
    let by = oy + row * sy;
    assert(0 <= row * sy <= (nr - 1) * sy) by (nonlinear_arith)
        requires
            0 <= row <= nr - 1,
            sy > 0,
    ;
    assert((nr - 1) * sy == nr * sy - sy) by (nonlinear_arith);
    assert(2 * by - bsy >= 2 * cfg.bricks_bottom());
    assert(2 * by + bsy <= 2 * cfg.bricks_bottom() + 2 * cfg.avail_height() - 2 * gap);
    // the center itself is bounded, so the entity sits on the grid
    assert(brick_center(cfg, row, col).x as int == bx);
    assert(brick_center(cfg, row, col).y as int == by);
}


/// The four walls of a valid configuration have strictly positive sizes
/// and form a closed rectangle around the arena: each wall's inner edge
/// lies exactly on the arena boundary (doubled coordinates), the side
/// walls overhang the top and bottom walls at the corners, and the ball's
/// starting box lies inside the rectangle.
pub proof fn lemma_walls_enclose(cfg: LayoutConfig)
    requires
        cfg.valid(),
    ensures
        forall|loc: WallLocation|
            (#[trigger] wall_size(loc, cfg)).x > 0 && wall_size(loc, cfg).y > 0 && wall_size(
                loc,
                cfg,
            ).z > 0,
        // inner edges on the arena boundary
        box_hi(
            wall_position(WallLocation::Left, cfg).x as int,
            wall_size(WallLocation::Left, cfg).x as int,
        ) == -cfg.arena_width(),
        box_lo(
            wall_position(WallLocation::Right, cfg).x as int,
            wall_size(WallLocation::Right, cfg).x as int,
        ) == cfg.arena_width(),
        box_hi(
            wall_position(WallLocation::Bottom, cfg).y as int,
            wall_size(WallLocation::Bottom, cfg).y as int,
        ) == 2 * cfg.bottom,
        box_lo(
            wall_position(WallLocation::Top, cfg).y as int,
            wall_size(WallLocation::Top, cfg).y as int,
        ) == 2 * cfg.top,
        // the side walls overhang the corners by one thickness
        box_lo(
            wall_position(WallLocation::Left, cfg).y as int,
            wall_size(WallLocation::Left, cfg).y as int,
        ) == 2 * cfg.bottom - cfg.wall_thickness,
        box_hi(
            wall_position(WallLocation::Left, cfg).y as int,
            wall_size(WallLocation::Left, cfg).y as int,
        ) == 2 * cfg.top + cfg.wall_thickness,
        wall_position(WallLocation::Right, cfg).y == wall_position(WallLocation::Left, cfg).y,
        // the top and bottom walls span the whole width and the corners
        box_lo(
            wall_position(WallLocation::Top, cfg).x as int,
            wall_size(WallLocation::Top, cfg).x as int,
        ) == -cfg.arena_width() - cfg.wall_thickness,
        box_hi(
            wall_position(WallLocation::Top, cfg).x as int,
            wall_size(WallLocation::Top, cfg).x as int,
        ) == cfg.arena_width() + cfg.wall_thickness,
        // the ball starts inside the rectangle the inner edges bound
        -cfg.arena_width() <= box_lo(cfg.ball_start.x as int, cfg.ball_size.x as int),
        box_hi(cfg.ball_start.x as int, cfg.ball_size.x as int) <= cfg.arena_width(),
        2 * cfg.bottom <= box_lo(cfg.ball_start.y as int, cfg.ball_size.y as int),
        box_hi(cfg.ball_start.y as int, cfg.ball_size.y as int) <= 2 * cfg.top,
{
    lemma_even_half(cfg.arena_width());
    lemma_even_half(cfg.arena_height());
    lemma_even_half(cfg.wall_thickness as int);
    lemma_half_bounds(cfg.arena_width());
    lemma_half_bounds(cfg.arena_height());
    lemma_half_bounds(cfg.wall_thickness as int);
    assert forall|loc: WallLocation|
        (#[trigger] wall_size(loc, cfg)).x > 0 && wall_size(loc, cfg).y > 0 && wall_size(
            loc,
            cfg,
        ).z > 0 by {
        match loc {
            WallLocation::Left => {},
            WallLocation::Right => {},
            WallLocation::Bottom => {},
            WallLocation::Top => {},
        }
    }
}

/// The world the layout generator builds is well formed: every entity is,
/// and it holds exactly one ball, one paddle, four walls and one brick per
/// grid cell.
pub proof fn lemma_layout_wf(cfg: LayoutConfig)
    requires
        cfg.valid(),
    ensures
        wf_seq(world_layout(cfg)),
        world_layout(cfg).len() == 6 + spec_n_rows(cfg) * spec_n_columns(cfg),
        kind_count(world_layout(cfg), EntityKind::Ball) == 1,
        kind_count(world_layout(cfg), EntityKind::Paddle) == 1,
        kind_count(world_layout(cfg), EntityKind::Wall) == 4,
        kind_count(world_layout(cfg), EntityKind::Brick) == spec_n_rows(cfg) * spec_n_columns(
            cfg,
        ),
{
    lemma_grid_bounds(cfg);
    lemma_ball_velocity_bounded(cfg);
    lemma_even_half(cfg.arena_width());
    lemma_even_half(cfg.arena_height());
    lemma_even_half(cfg.wall_thickness as int);
    lemma_half_bounds(cfg.arena_width());
    lemma_half_bounds(cfg.arena_height());
    lemma_half_bounds(cfg.wall_thickness as int);
    let base = base_layout(cfg);
    let bricks = brick_layout(cfg);
    let whole = world_layout(cfg);
    let nc = spec_n_columns(cfg);
    let nr = spec_n_rows(cfg);
    assert(whole.len() == 6 + nr * nc);
    // every entity of the base is well formed
    assert(base[0].wf());
    assert(base[1].wf());
    assert(base[2].wf());
    assert(base[3].wf());
    assert(base[4].wf());
    assert(base[5].wf());
    // every brick is well formed and on the grid
    assert forall|i: int| 0 <= i < bricks.len() implies (#[trigger] bricks[i]).wf() by {
        assert(0 <= i / nc && i / nc < nr && 0 <= i % nc && i % nc < nc) by (nonlinear_arith)
            requires
                0 <= i < nr * nc,
                nc >= 1,
                nr >= 1,
        ;
        lemma_bricks_inside(cfg, i / nc, i % nc);
    }
    assert forall|i: int| 0 <= i < whole.len() implies (#[trigger] whole[i]).wf() by {
        if i < 6 {
            assert(whole[i] == base[i]);
        } else {
            assert(whole[i] == bricks[i - 6]);
        }
    }
    // counts
    lemma_kind_count_concat(base, bricks, EntityKind::Ball);
    lemma_kind_count_concat(base, bricks, EntityKind::Paddle);
    lemma_kind_count_concat(base, bricks, EntityKind::Wall);
    lemma_kind_count_concat(base, bricks, EntityKind::Brick);
    lemma_base_counts(cfg);
    assert(forall|i: int| 0 <= i < bricks.len() ==> (#[trigger] bricks[i]).kind
        == EntityKind::Brick);
    lemma_kind_count_all(bricks, EntityKind::Brick);
    lemma_kind_count_none(bricks, EntityKind::Ball);
    lemma_kind_count_none(bricks, EntityKind::Paddle);
    lemma_kind_count_none(bricks, EntityKind::Wall);
}

/// Counts over the six fixed entities.
proof fn lemma_base_counts(cfg: LayoutConfig)
    ensures
        kind_count(base_layout(cfg), EntityKind::Ball) == 1,
        kind_count(base_layout(cfg), EntityKind::Paddle) == 1,
        kind_count(base_layout(cfg), EntityKind::Wall) == 4,
        kind_count(base_layout(cfg), EntityKind::Brick) == 0,
{
    reveal_with_fuel(kind_count, 8);
    let b6 = base_layout(cfg);
    let b5 = b6.drop_last();
    let b4 = b5.drop_last();
    let b3 = b4.drop_last();
    let b2 = b3.drop_last();
    let b1 = b2.drop_last();
    let b0 = b1.drop_last();
    assert(b0.len() == 0);
    assert(b6.last() == ball_entity(cfg));
    assert(b5.last() == paddle_entity(cfg));
    assert(b4.last() == wall_entity(cfg, WallLocation::Top, 3));
    assert(b3.last() == wall_entity(cfg, WallLocation::Bottom, 2));
    assert(b2.last() == wall_entity(cfg, WallLocation::Right, 1));
    assert(b1.last() == wall_entity(cfg, WallLocation::Left, 0));
}

/// Builds the starting world of a valid configuration: four walls, the
/// paddle, the ball with its starting velocity, and the brick grid laid
/// out row-major from the bottom-left cell, every brick a collision
/// target. The grid must fit in memory.
pub fn build_world(cfg: &LayoutConfig) -> (w: World)
    requires
        cfg.valid(),
        spec_n_rows(*cfg) * spec_n_columns(*cfg) + 6 <= usize::MAX,
    ensures
        w.entities@ == world_layout(*cfg),
        w.wf(),
        w.entities@.len() == 6 + spec_n_rows(*cfg) * spec_n_columns(*cfg),
        kind_count(w.entities@, EntityKind::Brick) == spec_n_rows(*cfg) * spec_n_columns(*cfg),
        kind_count(w.entities@, EntityKind::Wall) == 4,
        kind_count(w.entities@, EntityKind::Ball) == 1,
        kind_count(w.entities@, EntityKind::Paddle) == 1,
{
    proof {
        lemma_layout_wf(*cfg);
        lemma_grid_bounds(*cfg);
    }
    let zero = Vec3 { x: 0, y: 0, z: 0 };
    let mut entities: Vec<Entity> = Vec::new();
    entities.push(
        Entity {
            id: 0,
            kind: EntityKind::Wall,
            position: WallLocation::Left.position(cfg),
            size: WallLocation::Left.size(cfg),
            has_velocity: false,
            velocity: zero,
            collider: true,
        },
    );
    entities.push(
        Entity {
            id: 1,
            kind: EntityKind::Wall,
            position: WallLocation::Right.position(cfg),
            size: WallLocation::Right.size(cfg),
            has_velocity: false,
            velocity: zero,
            collider: true,
        },
    );
    entities.push(
        Entity {
            id: 2,
            kind: EntityKind::Wall,
            position: WallLocation::Bottom.position(cfg),
            size: WallLocation::Bottom.size(cfg),
            has_velocity: false,
            velocity: zero,
            collider: true,
        },
    );
    entities.push(
        Entity {
            id: 3,
            kind: EntityKind::Wall,
            position: WallLocation::Top.position(cfg),
            size: WallLocation::Top.size(cfg),
            has_velocity: false,
            velocity: zero,
            collider: true,
        },
    );
    entities.push(
        Entity {
            id: 4,
            kind: EntityKind::Paddle,
            position: Vec3 { x: 0, y: cfg.bottom + cfg.gap_paddle_floor, z: 0 },
            size: cfg.paddle_size,
            has_velocity: false,
            velocity: zero,
            collider: true,
        },
    );
    let vel = initial_ball_velocity(cfg);
    entities.push(
        Entity {
            id: 5,
            kind: EntityKind::Ball,
            position: cfg.ball_start,
            size: cfg.ball_size,
            has_velocity: true,
            velocity: vel,
            collider: false,
        },
    );
    proof {
        assert(entities@ =~= base_layout(*cfg));
    }
    let g = brick_grid(cfg);
    let sx = cfg.brick_size.x + cfg.gap_bricks;
    let sy = cfg.brick_size.y + cfg.gap_bricks;
    let total: u64 = g.n_rows * g.n_columns;
    let mut idx: u64 = 0;
    while idx < total
        invariant
            idx <= total,
            cfg.valid(),
            total == spec_n_rows(*cfg) * spec_n_columns(*cfg),
            total + 6 <= usize::MAX,
            g.n_columns == spec_n_columns(*cfg),
            g.n_rows == spec_n_rows(*cfg),
            g.offset_x == spec_offset_x(*cfg),
            g.offset_y == spec_offset_y(*cfg),
            1 <= g.n_columns,
            sx == step_x(*cfg),
            sy == step_y(*cfg),
            zero == (Vec3 { x: 0, y: 0, z: 0 }),
            entities@ == base_layout(*cfg) + brick_layout(*cfg).take(idx as int),
        decreases total - idx,
    {
        let row = idx / g.n_columns;
        let col = idx % g.n_columns;
        proof {
            lemma_grid_bounds(*cfg);
            assert(0 <= row < g.n_rows && 0 <= col < g.n_columns) by (nonlinear_arith)
                requires
                    idx < total,
                    total == (g.n_rows as int) * (g.n_columns as int),
                    g.n_columns >= 1,
                    row == idx as int / g.n_columns as int,
                    col == idx as int % g.n_columns as int,
            ;
            lemma_bricks_inside(*cfg, row as int, col as int);
            assert(0 <= (col as int) * (sx as int) <= cfg.avail_width()) by (nonlinear_arith)
                requires
                    0 <= col as int <= spec_n_columns(*cfg) - 1,
                    0 < sx as int,
                    spec_n_columns(*cfg) * (sx as int) <= cfg.avail_width(),
            ;
            assert(0 <= (row as int) * (sy as int) <= cfg.avail_height()) by (nonlinear_arith)
                requires
                    0 <= row as int <= spec_n_rows(*cfg) - 1,
                    0 < sy as int,
                    spec_n_rows(*cfg) * (sy as int) <= cfg.avail_height(),
            ;
        }
        let bx = g.offset_x + (col as i64) * sx;
        let by = g.offset_y + (row as i64) * sy;
        entities.push(
            Entity {
                id: 6 + idx,
                kind: EntityKind::Brick,
                position: Vec3 { x: bx, y: by, z: 0 },
                size: cfg.brick_size,
                has_velocity: false,
                velocity: zero,
                collider: true,
            },
        );
        proof {
            let bl = brick_layout(*cfg);
            assert(bl[idx as int] == brick_entity(
                *cfg,
                idx as int / spec_n_columns(*cfg),
                idx as int % spec_n_columns(*cfg),
                6 + idx as int,
            ));
            assert(bl.take(idx + 1) =~= bl.take(idx as int) + seq![bl[idx as int]]);
            assert(entities@ =~= base_layout(*cfg) + bl.take(idx + 1));
        }
        idx += 1;
    }
    proof {
        assert(brick_layout(*cfg).take(total as int) =~= brick_layout(*cfg));
        assert(entities@ =~= world_layout(*cfg));
    }
    World { entities }
}

} // verus!
