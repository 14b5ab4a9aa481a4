//! The composed queries over a built mesh. Each query is a short pipeline of
//! primitive calls into the mesh-query engine (nearest polygon, graph search,
//! funnelling, ray cast, wall search, surface sweep, height lookup); the
//! caller makes those calls, and the functions here decide, from each
//! answer, what happens next and what the query returns. Every query fails
//! closed: an engine failure becomes "no answer", never an error.
use vstd::prelude::*;
use crate::geom::{F32_MAX_BITS, F32_ONE_BITS, NULL_POLY, PolyRef, STATUS_SUCCESS, Vec3, f32_eq, is_nan_bits, origin, same_f32};

verus! {

/// Number of area classes in a filter's cost table.
pub const AREA_COUNT: usize = 64;

/// Largest path length a query accepts: the engine counts path points in an
/// `i32`, three coordinates each.
pub const MAX_PATH_LEN: usize = 0x2aaa_aaaa;

/// The usual node budget of a query's search scratch pool.
pub const DEFAULT_MAX_NODES: i32 = 512;

/// Engine status bit: the search reached only part of the way.
pub const STATUS_PARTIAL_RESULT: u32 = 0x40;

/// Which polygons a search may cross and at what cost.
#[derive(Clone, Copy, Debug)]
pub struct QueryFilter {
    /// Cost multiplier of each area class, as single-precision bits.
    pub area_cost: [u32; 64],
    /// A polygon is admitted only if its flags share a bit with these...
    pub include_flags: u16,
    /// ...and share none with these.
    pub exclude_flags: u16,
}

impl QueryFilter {
    /// Uniform cost 1.0 for every area, every polygon admitted.
    pub fn new() -> (r: QueryFilter)
        ensures
            forall|i: int| 0 <= i < AREA_COUNT ==> r.area_cost@[i] == F32_ONE_BITS,
            r.include_flags == 0xffff,
            r.exclude_flags == 0,
    {
        QueryFilter { area_cost: [F32_ONE_BITS; 64], include_flags: 0xffff, exclude_flags: 0 }
    }
}

/// How a query engine is set up: the box searched around a point for its
/// polygon, the filter, the longest corridor and straight path, and the node
/// budget of the search.
#[derive(Clone, Copy, Debug)]
pub struct QueryConfig {
    pub extents: Vec3,
    pub filter: QueryFilter,
    pub max_path_len: usize,
    pub max_nodes: i32,
}

impl QueryConfig {
    pub open spec fn wf(&self) -> bool {
        self.max_path_len <= MAX_PATH_LEN && 0 < self.max_nodes
    }

    /// A configuration, or `None` when the path length is over
    /// `MAX_PATH_LEN` or the node budget is not positive.
    pub fn new(extents: Vec3, filter: QueryFilter, max_path_len: usize, max_nodes: i32) -> (r: Option<QueryConfig>)
        ensures
            r is Some <==> max_path_len <= MAX_PATH_LEN && 0 < max_nodes,
            r matches Some(c) ==> c.wf() && c.extents == extents && c.filter == filter
                && c.max_path_len == max_path_len && c.max_nodes == max_nodes,
    {
        if max_path_len <= MAX_PATH_LEN && 0 < max_nodes {
            Some(QueryConfig { extents, filter, max_path_len, max_nodes })
        } else {
            None
        }
    }

    /// The extents (0.6, 2.0, 0.6), the uniform filter and a budget of 512
    /// nodes, or `None` when the path length is over `MAX_PATH_LEN`.
    pub fn standard(max_path_len: usize) -> (r: Option<QueryConfig>)
        ensures
            r is Some <==> max_path_len <= MAX_PATH_LEN,
            r matches Some(c) ==> c.wf() && c.extents == (Vec3 { x: 0x3f19_999a, y: 0x4000_0000, z: 0x3f19_999a })
                && c.max_path_len == max_path_len && c.max_nodes == DEFAULT_MAX_NODES
                && c.filter.include_flags == 0xffff && c.filter.exclude_flags == 0
                && (forall|i: int| 0 <= i < AREA_COUNT ==> c.filter.area_cost@[i] == F32_ONE_BITS),
    {
        QueryConfig::new(Vec3::new(0x3f19_999a, 0x4000_0000, 0x3f19_999a), QueryFilter::new(), max_path_len, DEFAULT_MAX_NODES)
    }

    /// The path length as the engine counts it.
    pub fn path_capacity(&self) -> (r: i32)
        requires
            self.wf(),
        ensures
            r as int == self.max_path_len,
    {
        self.max_path_len as i32
    }
}

/// The polygon that nearest-polygon resolution yields: the engine's answer
/// when it succeeded, else no polygon.
pub open spec fn resolved_poly_spec(status: u32, poly: PolyRef) -> PolyRef {
    if status == STATUS_SUCCESS { poly } else { NULL_POLY }
}

pub fn resolved_poly(status: u32, poly: PolyRef) -> (r: PolyRef)
    ensures
        r == resolved_poly_spec(status, poly),
{
    if status == STATUS_SUCCESS { poly } else { NULL_POLY }
}

/// The polygon a point is snapped onto, when the nearest-polygon search
/// succeeded.
pub fn snap_target(status: u32, poly: PolyRef) -> (r: Option<PolyRef>)
    ensures
        r == (if status == STATUS_SUCCESS { Some(poly) } else { None::<PolyRef> }),
{
    if status == STATUS_SUCCESS { Some(poly) } else { None }
}

/// The point projected onto a polygon: the engine's answer, or the origin
/// when the projection failed.
pub open spec fn closest_point_spec(status: u32, closest: Vec3) -> Vec3 {
    if status == STATUS_SUCCESS { closest } else { origin() }
}

pub fn closest_point_outcome(status: u32, closest: Vec3) -> (r: Vec3)
    ensures
        r == closest_point_spec(status, closest),
{
    if status == STATUS_SUCCESS { closest } else { Vec3::origin() }
}

/// Where a path must end.
#[derive(Clone, Copy, Debug, PartialEq, Eq, Structural)]
pub enum PathEnd {
    /// At the requested end point itself.
    Exact(Vec3),
    /// At the requested end point projected onto this polygon, the last of
    /// the corridor.
    OnPoly(PolyRef),
}

/// What follows the graph search of a path query.
#[derive(Clone, Copy, Debug, PartialEq, Eq, Structural)]
pub enum PathPlan {
    /// No path: the query returns no waypoints.
    Unreachable,
    /// Funnel the corridor's first polygons (as many as the search counted)
    /// into waypoints towards this end.
    Funnel(PathEnd),
}

pub open spec fn path_plan_spec(end: Vec3, end_ref: PolyRef, status: u32, corridor: Seq<PolyRef>, count: i32) -> PathPlan {
    if status != STATUS_SUCCESS || count <= 0 || count > corridor.len() {
        PathPlan::Unreachable
    } else if corridor[count - 1] != end_ref {
        PathPlan::Funnel(PathEnd::OnPoly(corridor[count - 1]))
    } else {
        PathPlan::Funnel(PathEnd::Exact(end))
    }
}

/// Decides on the graph search's answer: a failed or partial search, or an
/// empty corridor, means unreachable; a corridor that stops short of the end
/// polygon moves the end point onto its last polygon.
pub fn plan_path(end: Vec3, end_ref: PolyRef, status: u32, corridor: &Vec<PolyRef>, count: i32) -> (r: PathPlan)
    ensures
        r == path_plan_spec(end, end_ref, status, corridor@, count),
{
    if status != STATUS_SUCCESS || count <= 0 || count as usize > corridor.len() {
        return PathPlan::Unreachable;
    }
    let last = corridor[(count - 1) as usize];
    if last != end_ref {
        PathPlan::Funnel(PathEnd::OnPoly(last))
    } else {
        PathPlan::Funnel(PathEnd::Exact(end))
    }
}

/// The `i`th point of a flat coordinate buffer.
pub open spec fn point_at(coords: Seq<u32>, i: int) -> Vec3 {
    Vec3 { x: coords[3 * i], y: coords[3 * i + 1], z: coords[3 * i + 2] }
}

/// The waypoints of a funnelled path: the first `count` points of the
/// engine's buffer, or none when funnelling failed or the count does not fit
/// the buffer.
pub open spec fn waypoints_spec(status: u32, coords: Seq<u32>, count: i32) -> Seq<Vec3> {
    if status != STATUS_SUCCESS || count < 0 || 3 * count > coords.len() {
        seq![]
    } else {
        Seq::new(count as nat, |i: int| point_at(coords, i))
    }
}

pub fn waypoints(status: u32, coords: &Vec<u32>, count: i32) -> (r: Vec<Vec3>)
    ensures
        r@ == waypoints_spec(status, coords@, count),
{
    let mut points: Vec<Vec3> = Vec::new();
    if status != STATUS_SUCCESS || count < 0 || count as usize > coords.len() / 3 {
        return points;
    }
    let n = count as usize;
    let len = coords.len();
    let mut i: usize = 0;
    while i < n
        invariant
            n == count,
            len == coords@.len(),
            3 * n <= coords@.len(),
            i <= n,
            points@ =~= Seq::new(i as nat, |j: int| point_at(coords@, j)),
        decreases n - i,
    {
        points.push(Vec3 { x: coords[3 * i], y: coords[3 * i + 1], z: coords[3 * i + 2] });
        i = i + 1;
    }
    points
}

/// Where a ray cast was stopped.
#[derive(Clone, Copy, Debug, PartialEq, Eq, Structural)]
pub struct RayHit {
    /// Fraction of the segment travelled, as single-precision bits.
    pub t: u32,
    pub normal: Vec3,
}

pub open spec fn ray_spec(status: u32, t: u32, normal: Vec3) -> Option<RayHit> {
    if status != STATUS_SUCCESS || t == F32_MAX_BITS {
        None
    } else {
        Some(RayHit { t, normal })
    }
}

/// Decides on the engine's ray cast: no hit when the cast failed (a start
/// point off the mesh), or when the hit fraction is the largest finite
/// float, meaning the segment reached its end unobstructed.
pub fn ray_outcome(status: u32, t: u32, normal: Vec3) -> (r: Option<RayHit>)
    ensures
        r == ray_spec(status, t, normal),
{
    if status != STATUS_SUCCESS || t == F32_MAX_BITS {
        None
    } else {
        Some(RayHit { t, normal })
    }
}

/// The nearest wall found around a point.
#[derive(Clone, Copy, Debug, PartialEq, Eq, Structural)]
pub struct WallHit {
    pub distance: u32,
    pub point: Vec3,
    pub normal: Vec3,
}

pub open spec fn wall_spec(status: u32, radius: u32, distance: u32, point: Vec3, normal: Vec3) -> Option<WallHit> {
    if status != STATUS_SUCCESS || distance == F32_MAX_BITS || f32_eq(distance, radius) {
        None
    } else {
        Some(WallHit { distance, point, normal })
    }
}

/// Decides on the engine's wall search: no wall when the search failed,
/// when the distance is the largest finite float, or when it equals the
/// search radius (the engine's answer when nothing lies within it).
pub fn wall_outcome(status: u32, radius: u32, distance: u32, point: Vec3, normal: Vec3) -> (r: Option<WallHit>)
    ensures
        r == wall_spec(status, radius, distance, point, normal),
{
    if status != STATUS_SUCCESS || distance == F32_MAX_BITS || same_f32(distance, radius) {
        None
    } else {
        Some(WallHit { distance, point, normal })
    }
}

pub open spec fn height_spec(status: u32, height: u32) -> Option<u32> {
    if status == STATUS_SUCCESS { Some(height) } else { None }
}

/// Decides on the engine's height lookup.
pub fn height_outcome(status: u32, height: u32) -> (r: Option<u32>)
    ensures
        r == height_spec(status, height),
{
    if status == STATUS_SUCCESS { Some(height) } else { None }
}

/// What follows a surface sweep.
#[derive(Clone, Copy, Debug, PartialEq, Eq, Structural)]
pub enum SweepNext {
    /// The sweep failed: no position.
    NotFound,
    /// The sweep reports no visited polygon to correct the height with:
    /// this is the position.
    Reached(Vec3),
    /// Look up the height of this polygon under the swept position.
    CorrectHeight(Vec3, PolyRef),
}

pub open spec fn sweep_spec(status: u32, pos: Vec3, visited: Seq<PolyRef>, count: i32) -> SweepNext {
    if status != STATUS_SUCCESS {
        SweepNext::NotFound
    } else if count <= 0 || count > visited.len() {
        SweepNext::Reached(pos)
    } else {
        SweepNext::CorrectHeight(pos, visited[count - 1])
    }
}

/// Decides on the engine's surface sweep; the height is corrected on the
/// last polygon visited.
pub fn sweep_outcome(status: u32, pos: Vec3, visited: &Vec<PolyRef>, count: i32) -> (r: SweepNext)
    ensures
        r == sweep_spec(status, pos, visited@, count),
{
    if status != STATUS_SUCCESS {
        SweepNext::NotFound
    } else if count <= 0 || count as usize > visited.len() {
        SweepNext::Reached(pos)
    } else {
        SweepNext::CorrectHeight(pos, visited[(count - 1) as usize])
    }
}

pub open spec fn settled_spec(pos: Vec3, height: Option<u32>) -> Vec3 {
    match height {
        Some(h) => Vec3 { x: pos.x, y: h, z: pos.z },
        None => pos,
    }
}

/// The swept position with its height taken from the surface, when the
/// lookup found one.
pub fn settle(pos: Vec3, height: Option<u32>) -> (r: Vec3)
    ensures
        r == settled_spec(pos, height),
{
    match height {
        Some(h) => pos.with_height(h),
        None => pos,
    }
}

/// The waypoints a path query returns, given the graph search's answer and,
/// when a funnel is planned, the funnel's answer.
pub open spec fn path_result_spec(
    end: Vec3,
    end_ref: PolyRef,
    search_status: u32,
    corridor: Seq<PolyRef>,
    count: i32,
    funnel_status: u32,
    coords: Seq<u32>,
    points: i32,
) -> Seq<Vec3> {
    match path_plan_spec(end, end_ref, search_status, corridor, count) {
        PathPlan::Unreachable => seq![],
        PathPlan::Funnel(_) => waypoints_spec(funnel_status, coords, points),
    }
}

/// A search that reached only part of the way (the engine's status for two
/// points on unconnected islands of the mesh) gives an empty path, whatever
/// else the engine answers.
pub proof fn lemma_partial_search_is_unreachable(
    end: Vec3,
    end_ref: PolyRef,
    corridor: Seq<PolyRef>,
    count: i32,
    funnel_status: u32,
    coords: Seq<u32>,
    points: i32,
)
    ensures
        path_plan_spec(end, end_ref, STATUS_SUCCESS | STATUS_PARTIAL_RESULT, corridor, count) == PathPlan::Unreachable,
        path_result_spec(end, end_ref, STATUS_SUCCESS | STATUS_PARTIAL_RESULT, corridor, count, funnel_status, coords, points)
            == Seq::<Vec3>::empty(),
{
    assert(STATUS_SUCCESS | STATUS_PARTIAL_RESULT != STATUS_SUCCESS) by (bit_vector);
}

/// A wall search that found nothing closer than the search radius answers
/// the radius itself, and that is "no wall", whatever the status.
pub proof fn lemma_radius_distance_is_no_wall(status: u32, radius: u32, point: Vec3, normal: Vec3)
    requires
        !is_nan_bits(radius),
    ensures
        wall_spec(status, radius, radius, point, normal) is None,
{
}

/// After a sweep that visited polygons and a successful height lookup on the
/// last of them, the returned position stands on the surface: its height is
/// the looked-up height, and it keeps the swept horizontal coordinates.
pub proof fn lemma_swept_position_on_surface(pos: Vec3, visited: Seq<PolyRef>, count: i32, height: u32)
    requires
        0 < count <= visited.len(),
    ensures
        sweep_spec(STATUS_SUCCESS, pos, visited, count) == SweepNext::CorrectHeight(pos, visited[count - 1]),
        settled_spec(pos, height_spec(STATUS_SUCCESS, height)) == (Vec3 { x: pos.x, y: height, z: pos.z }),
{
}

} // verus!
