//! Validation of the route model.
//!
//! A route is valid when its geometry has at least two points, its step list
//! is non-empty, and the steps partition the geometry exactly: step `i`
//! covers the geometry from boundary vertex `i` to boundary vertex `i + 1`,
//! the first boundary is the first geometry point, the last is the final
//! geometry point, and each step's `start_location` is the vertex at its
//! starting boundary. Boundaries are matched greedily: each step starts at
//! the earliest geometry vertex after the previous boundary that equals its
//! `start_location`.

use vstd::prelude::*;
use crate::models::{GeographicCoordinates, NavigationError, Route, RouteStep, coord_in_range};
use crate::geometry::{coords_in_range, MAX_GEOMETRY_POINTS};

verus! {

/// The earliest index in `from..end` at which `g` holds the coordinate `c`.
pub open spec fn spec_find_vertex(
    g: Seq<GeographicCoordinates>,
    from: int,
    end: int,
    c: GeographicCoordinates,
) -> Option<int>
    decreases end - from,
{
    if from < 0 || from >= end || end > g.len() {
        None
    } else if g[from] == c {
        Some(from)
    } else {
        spec_find_vertex(g, from + 1, end, c)
    }
}

/// A found vertex lies in the searched range and holds the searched
/// coordinate.
pub proof fn lemma_find_vertex_props(
    g: Seq<GeographicCoordinates>,
    from: int,
    end: int,
    c: GeographicCoordinates,
)
    requires
        spec_find_vertex(g, from, end, c) is Some,
    ensures
        from <= spec_find_vertex(g, from, end, c)->Some_0 < end <= g.len(),
        g[spec_find_vertex(g, from, end, c)->Some_0] == c,
    decreases end - from,
{
    if from < 0 || from >= end || end > g.len() {
    } else if g[from] == c {
    } else {
        lemma_find_vertex_props(g, from + 1, end, c);
    }
}

/// Earliest vertex of `g` in `from..end` equal to `c`, if any.
pub fn find_vertex(
    g: &Vec<GeographicCoordinates>,
    from: usize,
    end: usize,
    c: GeographicCoordinates,
) -> (r: Option<usize>)
    requires
        end <= g@.len(),
    ensures
        (r is Some) == (spec_find_vertex(g@, from as int, end as int, c) is Some),
        r is Some ==> spec_find_vertex(g@, from as int, end as int, c) == Some(
            r->Some_0 as int,
        ),
        r is Some ==> from <= r->Some_0 < end,
{
    let mut j: usize = from;
    while j < end
        invariant
            from <= j,
            j <= end || j == from,
            end <= g@.len(),
            spec_find_vertex(g@, from as int, end as int, c) == spec_find_vertex(
                g@,
                j as int,
                end as int,
                c,
            ),
        decreases end - j,
    {
        if g[j] == c {
            return Some(j);
        }
        proof {
            assert(spec_find_vertex(g@, j as int, end as int, c) == spec_find_vertex(
                g@,
                j + 1,
                end as int,
                c,
            ));
        }
        j = j + 1;
    }
    None
}

/// The boundaries of steps `i..` of a route, after a previous boundary at
/// geometry index `prev`: for each remaining step the earliest strictly
/// later matching vertex, closed by the final geometry index. Nothing when
/// some step's start cannot be matched or no geometry remains for the last
/// step.
pub open spec fn spec_boundaries_from(
    g: Seq<GeographicCoordinates>,
    steps: Seq<RouteStep>,
    i: int,
    prev: int,
) -> Option<Seq<int>>
    decreases steps.len() - i + 1,
{
    if i < 0 || i > steps.len() {
        None
    } else if i == steps.len() {
        if prev < g.len() - 1 {
            Some(seq![g.len() - 1])
        } else {
            None
        }
    } else {
        match spec_find_vertex(g, prev + 1, g.len() - 1, steps[i].start_location) {
            Some(bi) => match spec_boundaries_from(g, steps, i + 1, bi) {
                Some(rest) => Some(seq![bi] + rest),
                None => None,
            },
            None => None,
        }
    }
}

/// All step boundaries of a route: entry `i` is the geometry index where
/// step `i` begins, and the final entry is the last geometry index. Nothing
/// when the route is invalid.
pub open spec fn spec_route_boundaries(
    g: Seq<GeographicCoordinates>,
    steps: Seq<RouteStep>,
) -> Option<Seq<int>> {
    if 2 <= g.len() <= MAX_GEOMETRY_POINTS && coords_in_range(g) && steps.len() >= 1 && g[0]
        == steps[0].start_location {
        match spec_boundaries_from(g, steps, 1, 0) {
            Some(rest) => Some(seq![0int] + rest),
            None => None,
        }
    } else {
        None
    }
}

/// What valid boundaries look like: one more boundary than steps, from the
/// first geometry index to the last, strictly increasing, each step's start
/// location at its starting boundary.
pub open spec fn route_boundaries_wf(
    g: Seq<GeographicCoordinates>,
    steps: Seq<RouteStep>,
    bs: Seq<int>,
) -> bool {
    &&& steps.len() >= 1
    &&& g.len() >= 2
    &&& bs.len() == steps.len() + 1
    &&& bs[0] == 0
    &&& bs[steps.len() as int] == g.len() - 1
    &&& (forall|i: int| 0 <= i < steps.len() ==> #[trigger] bs[i] < bs[i + 1])
    &&& (forall|i: int| 0 <= i < steps.len() ==> g[#[trigger] bs[i]] == steps[i].start_location)
}

/// The boundary tail computed for steps `i..` is strictly increasing, stays
/// within the geometry, ends at the final geometry index, and starts each
/// step at a matching vertex.
pub proof fn lemma_boundaries_from_props(
    g: Seq<GeographicCoordinates>,
    steps: Seq<RouteStep>,
    i: int,
    prev: int,
)
    requires
        0 <= i <= steps.len(),
        spec_boundaries_from(g, steps, i, prev) is Some,
    ensures
        ({
            let bs = spec_boundaries_from(g, steps, i, prev)->Some_0;
            &&& bs.len() == steps.len() - i + 1
            &&& (forall|k: int| 0 <= k < bs.len() ==> prev < #[trigger] bs[k] <= g.len() - 1)
            &&& (forall|k: int| 0 <= k < bs.len() - 1 ==> #[trigger] bs[k] < bs[k + 1])
            &&& bs[bs.len() - 1] == g.len() - 1
            &&& (forall|k: int|
                0 <= k < bs.len() - 1 ==> g[#[trigger] bs[k]] == steps[i + k].start_location)
        }),
    decreases steps.len() - i,
{
    if i == steps.len() {
    } else {
        let found = spec_find_vertex(g, prev + 1, g.len() - 1, steps[i].start_location);
        lemma_find_vertex_props(g, prev + 1, g.len() - 1, steps[i].start_location);
        let bi = found->Some_0;
        lemma_boundaries_from_props(g, steps, i + 1, bi);
        let rest = spec_boundaries_from(g, steps, i + 1, bi)->Some_0;
        let bs = spec_boundaries_from(g, steps, i, prev)->Some_0;
        assert(bs == seq![bi] + rest);
        assert(forall|k: int| 0 <= k < rest.len() ==> bs[k + 1] == #[trigger] rest[k]);
    }
}

/// Valid routes have well-formed boundaries.
pub proof fn lemma_route_boundaries_wf(g: Seq<GeographicCoordinates>, steps: Seq<RouteStep>)
    requires
        spec_route_boundaries(g, steps) is Some,
    ensures
        route_boundaries_wf(g, steps, spec_route_boundaries(g, steps)->Some_0),
        2 <= g.len() <= MAX_GEOMETRY_POINTS,
        coords_in_range(g),
        steps.len() >= 1,
{
    let rest = spec_boundaries_from(g, steps, 1, 0)->Some_0;
    lemma_boundaries_from_props(g, steps, 1, 0);
    let bs = spec_route_boundaries(g, steps)->Some_0;
    assert(bs == seq![0int] + rest);
    assert(forall|k: int| 0 <= k < rest.len() ==> bs[k + 1] == #[trigger] rest[k]);
}

/// Glues the boundaries already fixed to the outcome for the remaining
/// steps.
pub open spec fn glue_boundaries(pre: Seq<int>, rest: Option<Seq<int>>) -> Option<Seq<int>> {
    match rest {
        Some(r) => Some(pre + r),
        None => None,
    }
}

/// Whether every coordinate of the vector is in the WGS84 range.
pub fn all_coords_in_range(g: &Vec<GeographicCoordinates>) -> (r: bool)
    ensures
        r == coords_in_range(g@),
{
    let mut j: usize = 0;
    while j < g.len()
        invariant
            0 <= j <= g@.len(),
            forall|k: int| 0 <= k < j ==> coord_in_range(#[trigger] g@[k]),
        decreases g@.len() - j,
    {
        let c = g[j];
        if c.lng < -180_000_000 || c.lng > 180_000_000 || c.lat < -90_000_000 || c.lat
            > 90_000_000 {
            return false;
        }
        j = j + 1;
    }
    true
}

/// Computes the step boundaries of a route, validating it: yields the
/// boundary vertex indices exactly when the route is valid, and
/// [`NavigationError::InvalidRoute`] exactly when it is not.
pub fn compute_route_boundaries(route: &Route) -> (r: Result<Vec<usize>, NavigationError>)
    ensures
        (r is Ok) == (spec_route_boundaries(route.geometry@, route.steps@) is Some),
        r is Ok ==> r->Ok_0@.map_values(|v: usize| v as int) == spec_route_boundaries(
            route.geometry@,
            route.steps@,
        )->Some_0,
        r is Err ==> r->Err_0 == NavigationError::InvalidRoute,
{
    let g = &route.geometry;
    let n = route.steps.len();
    let glen = g.len();
    if glen < 2 || n == 0 || glen > MAX_GEOMETRY_POINTS {
        return Err(NavigationError::InvalidRoute);
    }
    if !all_coords_in_range(g) {
        return Err(NavigationError::InvalidRoute);
    }
    if !(g[0] == route.steps[0].start_location) {
        return Err(NavigationError::InvalidRoute);
    }
    let mut b: Vec<usize> = Vec::new();
    b.push(0);
    let mut prev: usize = 0;
    let mut i: usize = 1;
    proof {
        assert(b@.map_values(|v: usize| v as int) =~= seq![0int]);
    }
    while i < n
        invariant
            1 <= i <= n,
            n == route.steps@.len(),
            glen == route.geometry@.len(),
            2 <= glen <= MAX_GEOMETRY_POINTS,
            g == &route.geometry,
            prev < glen,
            b@.len() == i,
            spec_route_boundaries(route.geometry@, route.steps@) == glue_boundaries(
                b@.map_values(|v: usize| v as int),
                spec_boundaries_from(route.geometry@, route.steps@, i as int, prev as int),
            ),
        decreases n - i,
    {
        match find_vertex(g, prev + 1, glen - 1, route.steps[i].start_location) {
            Some(bi) => {
                proof {
                    let pre = b@.map_values(|v: usize| v as int);
                    let rest_opt = spec_boundaries_from(
                        route.geometry@,
                        route.steps@,
                        i + 1,
                        bi as int,
                    );
                    if rest_opt is Some {
                        let rest = rest_opt->Some_0;
                        assert(pre + (seq![bi as int] + rest) =~= (pre.push(bi as int)) + rest);
                    }
                    assert(b@.push(bi).map_values(|v: usize| v as int) =~= b@.map_values(
                        |v: usize| v as int,
                    ).push(bi as int));
                }
                b.push(bi);
                prev = bi;
                i = i + 1;
            },
            None => {
                return Err(NavigationError::InvalidRoute);
            },
        }
    }
    if prev < glen - 1 {
        proof {
            let pre = b@.map_values(|v: usize| v as int);
            assert(pre + seq![(glen - 1) as int] =~= pre.push((glen - 1) as int));
            assert(b@.push((glen - 1) as usize).map_values(|v: usize| v as int) =~= b@.map_values(
                |v: usize| v as int,
            ).push((glen - 1) as int));
        }
        b.push(glen - 1);
        Ok(b)
    } else {
        Err(NavigationError::InvalidRoute)
    }
}

} // verus!
