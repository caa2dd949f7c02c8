//! Geographic primitives of the routing protocol: points, avoidance zones,
//! and the turn-instruction style selector.
//!
//! The wire protocol carries coordinates, radii and weights as plain decimal
//! text, so the types here hold exactly that text; the caller renders its
//! numeric values once, at the boundary.

use vstd::prelude::*;

verus! {

/// The view of a point: its latitude and longitude texts.
pub ghost struct PointView {
    pub lat: Seq<char>,
    pub lon: Seq<char>,
}

/// A point with latitude and longitude, both in decimal degrees, held as
/// the decimal text that the wire protocol carries.  No range validation is
/// enforced; degenerate values pass through unchanged.
#[derive(Debug, Clone)]
pub struct Point {
    /// Latitude.
    pub lat: String,
    /// Longitude.
    pub lon: String,
}

impl View for Point {
    type V = PointView;

    open spec fn view(&self) -> PointView {
        PointView { lat: self.lat@, lon: self.lon@ }
    }
}

/// The (longitude, latitude) pair that a point exchanges with the
/// geo-interchange order: a pure field swap.
pub open spec fn lon_lat_pair(v: PointView) -> (Seq<char>, Seq<char>) {
    (v.lon, v.lat)
}

/// The point denoted by a (longitude, latitude) pair: the same field swap,
/// in the other direction.
pub open spec fn point_of_lon_lat(q: (Seq<char>, Seq<char>)) -> PointView {
    PointView { lat: q.1, lon: q.0 }
}

/// Round-tripping a point through the (longitude, latitude) interchange
/// order preserves latitude and longitude exactly, in both directions.
pub proof fn lemma_point_conversion_round_trip(v: PointView, q: (Seq<char>, Seq<char>))
    ensures
        point_of_lon_lat(lon_lat_pair(v)) == v,
        lon_lat_pair(point_of_lon_lat(q)) == q,
{
}

impl Point {
    /// Create a new point with the given latitude and longitude.
    pub fn new(lat: String, lon: String) -> (p: Point)
        ensures
            p@ == (PointView { lat: lat@, lon: lon@ }),
    {
        Point { lat, lon }
    }

    /// Return the latitude of the point.
    pub fn lat(&self) -> (r: &String)
        ensures
            r@ == self@.lat,
    {
        &self.lat
    }

    /// Return the longitude of the point.
    pub fn lon(&self) -> (r: &String)
        ensures
            r@ == self@.lon,
    {
        &self.lon
    }

    /// The point as a (longitude, latitude) pair.
    pub fn to_lon_lat(&self) -> (r: (String, String))
        ensures
            (r.0@, r.1@) == lon_lat_pair(self@),
    {
        (self.lon.clone(), self.lat.clone())
    }

    /// A point from a (longitude, latitude) pair.
    pub fn from_lon_lat(q: (String, String)) -> (p: Point)
        ensures
            p@ == point_of_lon_lat((q.0@, q.1@)),
    {
        Point { lat: q.1, lon: q.0 }
    }
}

/// A description of some area that should be avoided.
#[derive(Debug, Clone)]
pub enum Nogo {
    /// A point with a radius.
    Point {
        /// The point.
        point: Point,
        /// The radius in meters.
        radius: String,
        /// Weight of the point.
        weight: Option<String>,
    },
    /// A line.
    Line {
        /// A list of points that make up the line.
        points: Vec<Point>,
        /// A weight.
        weight: Option<String>,
    },
    /// A polygon.
    Polygon {
        /// A list of points that make up the polygon.
        points: Vec<Point>,
        /// A weight.
        weight: Option<String>,
    },
}

impl Nogo {
    /// The stored optional weight; the same field of every variant.
    pub open spec fn spec_weight(&self) -> Option<Seq<char>> {
        match self {
            Nogo::Point { weight, .. } => weight.deep_view(),
            Nogo::Line { weight, .. } => weight.deep_view(),
            Nogo::Polygon { weight, .. } => weight.deep_view(),
        }
    }

    /// Return the weight of the nogo.
    pub fn weight(&self) -> (r: Option<String>)
        ensures
            r.deep_view() == self.spec_weight(),
    {
        match self {
            Nogo::Point { weight, .. } => match weight {
                Some(w) => Some(w.clone()),
                None => None,
            },
            Nogo::Line { weight, .. } => match weight {
                Some(w) => Some(w.clone()),
                None => None,
            },
            Nogo::Polygon { weight, .. } => match weight {
                Some(w) => Some(w.clone()),
                None => None,
            },
        }
    }
}

/// The stored weight is returned for every variant, whatever points or
/// radius the variant holds, and also when the point sequence is empty.
pub proof fn lemma_weight_regardless_of_shape(
    pt: Point,
    radius: String,
    points: Vec<Point>,
    w: Option<String>,
)
    ensures
        (Nogo::Point { point: pt, radius, weight: w }).spec_weight() == w.deep_view(),
        (Nogo::Line { points, weight: w }).spec_weight() == w.deep_view(),
        (Nogo::Polygon { points, weight: w }).spec_weight() == w.deep_view(),
{
}

/// The mode for turn instructions.
#[derive(Debug, Clone, Copy)]
pub enum TurnInstructionMode {
    /// No turn instructions.
    NoInstructions,
    /// Turn instructions with auto choosing.
    AutoChoose,
    /// Use locus style turn instructions.
    LocusStyle,
    /// Use osmand style turn instructions.
    OsmandStyle,
    /// Use comment style turn instructions.
    CommentStyle,
    /// Use gpx style turn instructions.
    GpsiesStyle,
    /// Use orux style turn instructions.
    OruxStyle,
    /// Use old style locus turn instructions.
    LocusOldStyle,
}

impl TurnInstructionMode {
    /// The integer ordinal that the `timode` parameter carries.
    pub open spec fn spec_ordinal(&self) -> int {
        match self {
            TurnInstructionMode::NoInstructions => 0,
            TurnInstructionMode::AutoChoose => 1,
            TurnInstructionMode::LocusStyle => 2,
            TurnInstructionMode::OsmandStyle => 3,
            TurnInstructionMode::CommentStyle => 4,
            TurnInstructionMode::GpsiesStyle => 5,
            TurnInstructionMode::OruxStyle => 6,
            TurnInstructionMode::LocusOldStyle => 7,
        }
    }

    /// The wire ordinal of this mode, between 0 and 7.
    pub fn ordinal(&self) -> (r: u8)
        ensures
            r as int == self.spec_ordinal(),
            r <= 7,
    {
        match self {
            TurnInstructionMode::NoInstructions => 0,
            TurnInstructionMode::AutoChoose => 1,
            TurnInstructionMode::LocusStyle => 2,
            TurnInstructionMode::OsmandStyle => 3,
            TurnInstructionMode::CommentStyle => 4,
            TurnInstructionMode::GpsiesStyle => 5,
            TurnInstructionMode::OruxStyle => 6,
            TurnInstructionMode::LocusOldStyle => 7,
        }
    }
}

impl Default for TurnInstructionMode {
    /// The default style is no turn instructions.
    fn default() -> (r: Self)
        ensures
            r == TurnInstructionMode::NoInstructions,
    {
        TurnInstructionMode::NoInstructions
    }
}

} // verus!
