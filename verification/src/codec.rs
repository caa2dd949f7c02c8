//! The wire-protocol codec: serialize a route request into the engine's
//! query-parameter encoding, and decode its response bytes into a typed
//! route result or a named failure.

use crate::error::Error;
use crate::geo::Nogo;
use crate::geo::Point;
use crate::geo::PointView;
use crate::geo::TurnInstructionMode;
use crate::text::all_ascii;
use crate::text::all_digits;
use crate::text::digits_in_range;
use crate::text::digits_val;
use crate::text::match_at;
use crate::text::parse_decimal_isize;
use crate::text::range_lacks;
use crate::text::subvec;
use crate::text::ascii_bytes;
use crate::text::ascii_chars;
use crate::text::ascii_string;
use crate::text::char_bytes;
use crate::text::dec_bytes;
use crate::text::join_with;
use crate::text::lemma_join_push;
use crate::text::push_all;
use crate::text::str_bytes;
use crate::text::u64_dec_bytes;
use crate::urlenc::lemma_urlencoded_ascii;
use crate::urlenc::urlencode_push;
use crate::urlenc::urlencoded;
use vstd::prelude::*;
use vstd::utf8::encode_utf8;

verus! {

/// The `longitude,latitude` group of one waypoint, longitude first.
pub open spec fn lonlat_group(p: PointView) -> Seq<u8> {
    encode_utf8(p.lon) + seq![0x2Cu8] + encode_utf8(p.lat)
}

/// The waypoint groups, in order.
pub open spec fn lonlat_groups(ps: Seq<Point>) -> Seq<Seq<u8>>
    decreases ps.len(),
{
    if ps.len() == 0 {
        Seq::empty()
    } else {
        lonlat_groups(ps.drop_last()).push(lonlat_group(ps.last()@))
    }
}

/// The raw `lonlats` value: the waypoint groups joined with `|`.
pub open spec fn spec_lonlats(ps: Seq<Point>) -> Seq<u8> {
    join_with(lonlat_groups(ps), 0x7C)
}

/// The raw `nogos` entry of one point-avoidance:
/// `longitude,latitude,radius`, with the weight as a fourth comma-separated
/// field only when it is present.
pub open spec fn nogo_point_entry(
    p: PointView,
    radius: Seq<char>,
    weight: Option<Seq<char>>,
) -> Seq<u8> {
    let base = encode_utf8(p.lon) + seq![0x2Cu8] + encode_utf8(p.lat) + seq![0x2Cu8] + encode_utf8(
        radius,
    );
    match weight {
        Some(w) => base + seq![0x2Cu8] + encode_utf8(w),
        None => base,
    }
}

/// The entries of the point-avoidances, in order, other variants skipped.
pub open spec fn point_entries(ns: Seq<Nogo>) -> Seq<Seq<u8>>
    decreases ns.len(),
{
    if ns.len() == 0 {
        Seq::empty()
    } else {
        point_entries(ns.drop_last()) + (match ns.last() {
            Nogo::Point { point, radius, weight } => seq![
                nogo_point_entry(point@, radius@, weight.deep_view()),
            ],
            _ => Seq::<Seq<u8>>::empty(),
        })
    }
}

/// The raw `nogos` value: the point-avoidance entries joined with `|`.
pub open spec fn spec_nogos(ns: Seq<Nogo>) -> Seq<u8> {
    join_with(point_entries(ns), 0x7C)
}

/// The coordinate texts of a point sequence: each point contributes its
/// longitude and then its latitude.
pub open spec fn coord_texts(ps: Seq<Point>) -> Seq<Seq<u8>>
    decreases ps.len(),
{
    if ps.len() == 0 {
        Seq::empty()
    } else {
        coord_texts(ps.drop_last()).push(encode_utf8(ps.last()@.lon)).push(
            encode_utf8(ps.last()@.lat),
        )
    }
}

/// The entry of one line or polygon: its flattened coordinates, and the
/// weight as one trailing field only when it is present, joined with
/// commas.
pub open spec fn shape_entry(ps: Seq<Point>, weight: Option<Seq<char>>) -> Seq<u8> {
    match weight {
        Some(w) => join_with(coord_texts(ps).push(encode_utf8(w)), 0x2C),
        None => join_with(coord_texts(ps), 0x2C),
    }
}

/// The entries of the line-avoidances, in order, other variants skipped.
pub open spec fn line_entries(ns: Seq<Nogo>) -> Seq<Seq<u8>>
    decreases ns.len(),
{
    if ns.len() == 0 {
        Seq::empty()
    } else {
        line_entries(ns.drop_last()) + (match ns.last() {
            Nogo::Line { points, weight } => seq![shape_entry(points@, weight.deep_view())],
            _ => Seq::<Seq<u8>>::empty(),
        })
    }
}

/// The raw `polylines` value: the line-avoidance entries joined with `|`.
pub open spec fn spec_polylines(ns: Seq<Nogo>) -> Seq<u8> {
    join_with(line_entries(ns), 0x7C)
}

/// The entries of the polygon-avoidances, in order, other variants skipped.
pub open spec fn polygon_entries(ns: Seq<Nogo>) -> Seq<Seq<u8>>
    decreases ns.len(),
{
    if ns.len() == 0 {
        Seq::empty()
    } else {
        polygon_entries(ns.drop_last()) + (match ns.last() {
            Nogo::Polygon { points, weight } => seq![shape_entry(points@, weight.deep_view())],
            _ => Seq::<Seq<u8>>::empty(),
        })
    }
}

/// The raw `polygons` value: the polygon-avoidance entries joined with `|`.
pub open spec fn spec_polygons(ns: Seq<Nogo>) -> Seq<u8> {
    join_with(polygon_entries(ns), 0x7C)
}

/// Encode the waypoints as the raw `lonlats` value, longitude first in
/// each group.  No waypoints encode to the empty value.
pub fn encode_lonlats(points: &Vec<Point>) -> (r: Vec<u8>)
    ensures
        r@ == spec_lonlats(points@),
{
    let mut out: Vec<u8> = Vec::new();
    let mut i: usize = 0;
    while i < points.len()
        invariant
            0 <= i <= points@.len(),
            out@ == join_with(lonlat_groups(points@.take(i as int)), 0x7C),
            lonlat_groups(points@.take(i as int)).len() == i,
        decreases points@.len() - i,
    {
        proof {
            lemma_lonlat_groups_len(points@.take(i as int));
        }
        if i > 0 {
            out.push(0x7C);
        }
        let lon_b = str_bytes(points[i].lon.as_str());
        push_all(&mut out, &lon_b);
        out.push(0x2C);
        let lat_b = str_bytes(points[i].lat.as_str());
        push_all(&mut out, &lat_b);
        proof {
            let prefix = points@.take(i as int);
            let next = points@.take(i as int + 1);
            assert(next.drop_last() =~= prefix);
            assert(next.last() == points@[i as int]);
            assert(lonlat_groups(next) == lonlat_groups(prefix).push(
                lonlat_group(points@[i as int]@),
            ));
            lemma_join_push(lonlat_groups(prefix), lonlat_group(points@[i as int]@), 0x7C);
            assert(out@ =~= join_with(lonlat_groups(next), 0x7C));
            lemma_lonlat_groups_len(next);
        }
        i += 1;
    }
    proof {
        assert(points@.take(points@.len() as int) =~= points@);
    }
    out
}

/// There is one waypoint group for each waypoint.
pub proof fn lemma_lonlat_groups_len(ps: Seq<Point>)
    ensures
        lonlat_groups(ps).len() == ps.len(),
    decreases ps.len(),
{
    if ps.len() > 0 {
        lemma_lonlat_groups_len(ps.drop_last());
    }
}

/// Encode one line or polygon entry: flattened coordinates and, only when
/// present, the weight as one trailing comma-separated field.
fn encode_shape_entry(points: &Vec<Point>, weight: &Option<String>) -> (r: Vec<u8>)
    ensures
        r@ == shape_entry(points@, weight.deep_view()),
{
    let mut out: Vec<u8> = Vec::new();
    let mut i: usize = 0;
    while i < points.len()
        invariant
            0 <= i <= points@.len(),
            out@ == join_with(coord_texts(points@.take(i as int)), 0x2C),
            coord_texts(points@.take(i as int)).len() == 2 * i,
        decreases points@.len() - i,
    {
        if i > 0 {
            out.push(0x2C);
        }
        let lon_b = str_bytes(points[i].lon.as_str());
        push_all(&mut out, &lon_b);
        out.push(0x2C);
        let lat_b = str_bytes(points[i].lat.as_str());
        push_all(&mut out, &lat_b);
        proof {
            let prefix = points@.take(i as int);
            let next = points@.take(i as int + 1);
            assert(next.drop_last() =~= prefix);
            assert(next.last() == points@[i as int]);
            let mid = coord_texts(prefix).push(encode_utf8(points@[i as int]@.lon));
            assert(coord_texts(next) == mid.push(encode_utf8(points@[i as int]@.lat)));
            lemma_join_push(coord_texts(prefix), encode_utf8(points@[i as int]@.lon), 0x2C);
            lemma_join_push(mid, encode_utf8(points@[i as int]@.lat), 0x2C);
            assert(out@ =~= join_with(coord_texts(next), 0x2C));
        }
        i += 1;
    }
    proof {
        assert(points@.take(points@.len() as int) =~= points@);
    }
    match weight {
        Some(w) => {
            if points.len() > 0 {
                out.push(0x2C);
            }
            let w_b = str_bytes(w.as_str());
            push_all(&mut out, &w_b);
            proof {
                lemma_join_push(coord_texts(points@), encode_utf8(w@), 0x2C);
                assert(out@ =~= shape_entry(points@, weight.deep_view()));
            }
        },
        None => {},
    }
    out
}

/// Encode the point-avoidances as the raw `nogos` value; other variants
/// contribute nothing.
pub fn encode_nogos(nogos: &Vec<Nogo>) -> (r: Vec<u8>)
    ensures
        r@ == spec_nogos(nogos@),
{
    let mut out: Vec<u8> = Vec::new();
    let mut first: bool = true;
    let mut i: usize = 0;
    while i < nogos.len()
        invariant
            0 <= i <= nogos@.len(),
            out@ == join_with(point_entries(nogos@.take(i as int)), 0x7C),
            first <==> point_entries(nogos@.take(i as int)).len() == 0,
        decreases nogos@.len() - i,
    {
        match &nogos[i] {
            Nogo::Point { point, radius, weight } => {
                if !first {
                    out.push(0x7C);
                }
                let lon_b = str_bytes(point.lon.as_str());
                push_all(&mut out, &lon_b);
                out.push(0x2C);
                let lat_b = str_bytes(point.lat.as_str());
                push_all(&mut out, &lat_b);
                out.push(0x2C);
                let rad_b = str_bytes(radius.as_str());
                push_all(&mut out, &rad_b);
                match weight {
                    Some(w) => {
                        out.push(0x2C);
                        let w_b = str_bytes(w.as_str());
                        push_all(&mut out, &w_b);
                    },
                    None => {},
                }
                first = false;
                proof {
                    let prefix = nogos@.take(i as int);
                    let next = nogos@.take(i as int + 1);
                    assert(next.drop_last() =~= prefix);
                    assert(next.last() == nogos@[i as int]);
                    let entry = nogo_point_entry(point@, radius@, weight.deep_view());
                    assert(point_entries(next) =~= point_entries(prefix).push(entry));
                    lemma_join_push(point_entries(prefix), entry, 0x7C);
                    assert(out@ =~= join_with(point_entries(next), 0x7C));
                }
            },
            _ => {
                proof {
                    let prefix = nogos@.take(i as int);
                    let next = nogos@.take(i as int + 1);
                    assert(next.drop_last() =~= prefix);
                    assert(next.last() == nogos@[i as int]);
                    assert(point_entries(next) =~= point_entries(prefix));
                }
            },
        }
        i += 1;
    }
    proof {
        assert(nogos@.take(nogos@.len() as int) =~= nogos@);
    }
    out
}

/// Encode the line-avoidances as the raw `polylines` value; other variants
/// contribute nothing.
pub fn encode_polylines(nogos: &Vec<Nogo>) -> (r: Vec<u8>)
    ensures
        r@ == spec_polylines(nogos@),
{
    let mut out: Vec<u8> = Vec::new();
    let mut first: bool = true;
    let mut i: usize = 0;
    while i < nogos.len()
        invariant
            0 <= i <= nogos@.len(),
            out@ == join_with(line_entries(nogos@.take(i as int)), 0x7C),
            first <==> line_entries(nogos@.take(i as int)).len() == 0,
        decreases nogos@.len() - i,
    {
        match &nogos[i] {
            Nogo::Line { points, weight } => {
                if !first {
                    out.push(0x7C);
                }
                let entry = encode_shape_entry(points, weight);
                push_all(&mut out, &entry);
                first = false;
                proof {
                    let prefix = nogos@.take(i as int);
                    let next = nogos@.take(i as int + 1);
                    assert(next.drop_last() =~= prefix);
                    assert(next.last() == nogos@[i as int]);
                    assert(line_entries(next) =~= line_entries(prefix).push(entry@));
                    lemma_join_push(line_entries(prefix), entry@, 0x7C);
                    assert(out@ =~= join_with(line_entries(next), 0x7C));
                }
            },
            _ => {
                proof {
                    let prefix = nogos@.take(i as int);
                    let next = nogos@.take(i as int + 1);
                    assert(next.drop_last() =~= prefix);
                    assert(next.last() == nogos@[i as int]);
                    assert(line_entries(next) =~= line_entries(prefix));
                }
            },
        }
        i += 1;
    }
    proof {
        assert(nogos@.take(nogos@.len() as int) =~= nogos@);
    }
    out
}

/// Encode the polygon-avoidances as the raw `polygons` value; other
/// variants contribute nothing.
pub fn encode_polygons(nogos: &Vec<Nogo>) -> (r: Vec<u8>)
    ensures
        r@ == spec_polygons(nogos@),
{
    let mut out: Vec<u8> = Vec::new();
    let mut first: bool = true;
    let mut i: usize = 0;
    while i < nogos.len()
        invariant
            0 <= i <= nogos@.len(),
            out@ == join_with(polygon_entries(nogos@.take(i as int)), 0x7C),
            first <==> polygon_entries(nogos@.take(i as int)).len() == 0,
        decreases nogos@.len() - i,
    {
        match &nogos[i] {
            Nogo::Polygon { points, weight } => {
                if !first {
                    out.push(0x7C);
                }
                let entry = encode_shape_entry(points, weight);
                push_all(&mut out, &entry);
                first = false;
                proof {
                    let prefix = nogos@.take(i as int);
                    let next = nogos@.take(i as int + 1);
                    assert(next.drop_last() =~= prefix);
                    assert(next.last() == nogos@[i as int]);
                    assert(polygon_entries(next) =~= polygon_entries(prefix).push(entry@));
                    lemma_join_push(polygon_entries(prefix), entry@, 0x7C);
                    assert(out@ =~= join_with(polygon_entries(next), 0x7C));
                }
            },
            _ => {
                proof {
                    let prefix = nogos@.take(i as int);
                    let next = nogos@.take(i as int + 1);
                    assert(next.drop_last() =~= prefix);
                    assert(next.last() == nogos@[i as int]);
                    assert(polygon_entries(next) =~= polygon_entries(prefix));
                }
            },
        }
        i += 1;
    }
    proof {
        assert(nogos@.take(nogos@.len() as int) =~= nogos@);
    }
    out
}

/// Append `&` and one `name=value` pair, the value form-urlencoded.
fn push_amp_pair(out: &mut Vec<u8>, name: &str, value: &Vec<u8>)
    requires
        vstd::string::is_ascii(name),
    ensures
        final(out)@ == old(out)@ + seq![0x26u8] + pair_bytes(name@, value@),
        all_ascii(old(out)@) ==> all_ascii(final(out)@),
{
    out.push(0x26);
    proof {
        if all_ascii(old(out)@) {
            crate::text::lemma_all_ascii_push(old(out)@, 0x26);
        }
    }
    push_pair(out, name, value);
    proof {
        assert(final(out)@ =~= old(out)@ + seq![0x26u8] + pair_bytes(name@, value@));
    }
}

/// One `name=value` query pair, the value form-urlencoded.
pub open spec fn pair_bytes(name: Seq<char>, value: Seq<u8>) -> Seq<u8> {
    char_bytes(name) + seq![0x3Du8] + urlencoded(value)
}

/// Append one `name=value` pair, the value form-urlencoded.
fn push_pair(out: &mut Vec<u8>, name: &str, value: &Vec<u8>)
    requires
        vstd::string::is_ascii(name),
    ensures
        final(out)@ == old(out)@ + pair_bytes(name@, value@),
        all_ascii(old(out)@) ==> all_ascii(final(out)@),
{
    let nb = ascii_bytes(name);
    push_all(out, &nb);
    out.push(0x3D);
    urlencode_push(value, out);
    proof {
        assert(out@ =~= old(out)@ + pair_bytes(name@, value@));
        if all_ascii(old(out)@) {
            crate::text::lemma_all_ascii_concat(old(out)@, char_bytes(name@));
            crate::text::lemma_all_ascii_push(old(out)@ + char_bytes(name@), 0x3D);
            lemma_urlencoded_ascii(value@);
            crate::text::lemma_all_ascii_concat(
                (old(out)@ + char_bytes(name@)).push(0x3D),
                urlencoded(value@),
            );
            assert(out@ =~= ((old(out)@ + char_bytes(name@)).push(0x3D)) + urlencoded(value@));
        }
    }
}

/// The full relative route request: the `brouter` path, `?`, and the query
/// pairs in the engine's expected order.  `lonlats`, `profile` and `format`
/// are always present; `alternativeidx` and `timode` when given;
/// `polygons`, `nogos` and `polylines` only when their value is non-empty;
/// `exportWaypoints=1` only when the flag is set; `trackname` when a route
/// name is given.
pub open spec fn spec_route_query(
    points: Seq<Point>,
    nogos: Seq<Nogo>,
    profile: Seq<char>,
    alternativeidx: Option<u8>,
    timode: Option<TurnInstructionMode>,
    name: Option<Seq<char>>,
    export_waypoints: bool,
) -> Seq<u8> {
    let q1 = char_bytes("brouter?"@) + pair_bytes("lonlats"@, spec_lonlats(points));
    let q2 = q1 + seq![0x26u8] + pair_bytes("profile"@, encode_utf8(profile));
    let q3 = q2 + seq![0x26u8] + pair_bytes("format"@, encode_utf8("gpx"@));
    let q4 = match alternativeidx {
        Some(i) => q3 + seq![0x26u8] + pair_bytes("alternativeidx"@, dec_bytes(i as nat)),
        None => q3,
    };
    let q5 = match timode {
        Some(m) => q4 + seq![0x26u8] + pair_bytes("timode"@, dec_bytes(m.spec_ordinal() as nat)),
        None => q4,
    };
    let q6 = if spec_polygons(nogos).len() > 0 {
        q5 + seq![0x26u8] + pair_bytes("polygons"@, spec_polygons(nogos))
    } else {
        q5
    };
    let q7 = if spec_nogos(nogos).len() > 0 {
        q6 + seq![0x26u8] + pair_bytes("nogos"@, spec_nogos(nogos))
    } else {
        q6
    };
    let q8 = if spec_polylines(nogos).len() > 0 {
        q7 + seq![0x26u8] + pair_bytes("polylines"@, spec_polylines(nogos))
    } else {
        q7
    };
    let q9 = if export_waypoints {
        q8 + seq![0x26u8] + pair_bytes("exportWaypoints"@, encode_utf8("1"@))
    } else {
        q8
    };
    match name {
        Some(n) => q9 + seq![0x26u8] + pair_bytes("trackname"@, encode_utf8(n)),
        None => q9,
    }
}

/// Serialize a route request into the engine's relative URL: the path and
/// the query string of `spec_route_query`, ASCII throughout.  An
/// alternative-route index above 3 violates the caller contract and fails
/// fast, before anything could be sent.
#[verifier::rlimit(100)]
#[verifier::spinoff_prover]
pub fn encode_route_request(
    points: &Vec<Point>,
    nogos: &Vec<Nogo>,
    profile: &str,
    alternativeidx: Option<u8>,
    timode: Option<TurnInstructionMode>,
    name: Option<&str>,
    export_waypoints: bool,
) -> (r: Result<String, Error>)
    ensures
        r is Ok <==> (match alternativeidx {
            Some(i) => i <= 3,
            None => true,
        }),
        r matches Ok(q) ==> q@ == ascii_chars(
            spec_route_query(
                points@,
                nogos@,
                profile@,
                alternativeidx,
                timode,
                match name {
                    Some(n) => Some(n@),
                    None => None,
                },
                export_waypoints,
            ),
        ),
        r matches Err(e) ==> e matches Error::Other(m) && m@
            == "alternativeidx must be between 0 and 3"@,
{
    let ghost name_view: Option<Seq<char>> = match name {
        Some(n) => Some(n@),
        None => None,
    };
    if let Some(i) = alternativeidx {
        if i > 3 {
            return Err(Error::Other(String::from_str("alternativeidx must be between 0 and 3")));
        }
    }
    proof {
        reveal_strlit("brouter?");
        reveal_strlit("lonlats");
        reveal_strlit("profile");
        reveal_strlit("format");
        reveal_strlit("alternativeidx");
        reveal_strlit("timode");
        reveal_strlit("polygons");
        reveal_strlit("nogos");
        reveal_strlit("polylines");
        reveal_strlit("exportWaypoints");
        reveal_strlit("trackname");
        reveal_strlit("gpx");
        reveal_strlit("1");
    }
    let mut out: Vec<u8> = Vec::new();
    let head = ascii_bytes("brouter?");
    push_all(&mut out, &head);
    let lonlats = encode_lonlats(points);
    push_pair(&mut out, "lonlats", &lonlats);
    let ghost q1 = char_bytes("brouter?"@) + pair_bytes("lonlats"@, spec_lonlats(points@));
    proof {
        assert(out@ =~= q1);
        assert(all_ascii(out@));
    }
    let prof_b = str_bytes(profile);
    push_amp_pair(&mut out, "profile", &prof_b);
    let ghost q2 = q1 + seq![0x26u8] + pair_bytes("profile"@, encode_utf8(profile@));
    proof {
        assert(out@ =~= q2);
        assert(all_ascii(out@));
    }
    let fmt_b = str_bytes("gpx");
    push_amp_pair(&mut out, "format", &fmt_b);
    let ghost q3 = q2 + seq![0x26u8] + pair_bytes("format"@, encode_utf8("gpx"@));
    proof {
        assert(out@ =~= q3);
        assert(all_ascii(out@));
    }
    if let Some(i) = alternativeidx {
        let v = u64_dec_bytes(i as u64);
        push_amp_pair(&mut out, "alternativeidx", &v);
    }
    let ghost q4 = match alternativeidx {
        Some(i) => q3 + seq![0x26u8] + pair_bytes("alternativeidx"@, dec_bytes(i as nat)),
        None => q3,
    };
    proof {
        assert(out@ =~= q4);
        assert(all_ascii(out@));
    }
    if let Some(m) = timode {
        let o = m.ordinal();
        let v = u64_dec_bytes(o as u64);
        push_amp_pair(&mut out, "timode", &v);
    }
    let ghost q5 = match timode {
        Some(m) => q4 + seq![0x26u8] + pair_bytes("timode"@, dec_bytes(m.spec_ordinal() as nat)),
        None => q4,
    };
    proof {
        assert(out@ =~= q5);
        assert(all_ascii(out@));
    }
    let polygons = encode_polygons(nogos);
    if polygons.len() > 0 {
        push_amp_pair(&mut out, "polygons", &polygons);
    }
    let ghost q6 = if spec_polygons(nogos@).len() > 0 {
        q5 + seq![0x26u8] + pair_bytes("polygons"@, spec_polygons(nogos@))
    } else {
        q5
    };
    proof {
        assert(out@ =~= q6);
        assert(all_ascii(out@));
    }
    let nogos_v = encode_nogos(nogos);
    if nogos_v.len() > 0 {
        push_amp_pair(&mut out, "nogos", &nogos_v);
    }
    let ghost q7 = if spec_nogos(nogos@).len() > 0 {
        q6 + seq![0x26u8] + pair_bytes("nogos"@, spec_nogos(nogos@))
    } else {
        q6
    };
    proof {
        assert(out@ =~= q7);
        assert(all_ascii(out@));
    }
    let polylines = encode_polylines(nogos);
    if polylines.len() > 0 {
        push_amp_pair(&mut out, "polylines", &polylines);
    }
    let ghost q8 = if spec_polylines(nogos@).len() > 0 {
        q7 + seq![0x26u8] + pair_bytes("polylines"@, spec_polylines(nogos@))
    } else {
        q7
    };
    proof {
        assert(out@ =~= q8);
        assert(all_ascii(out@));
    }
    if export_waypoints {
        let one = str_bytes("1");
        push_amp_pair(&mut out, "exportWaypoints", &one);
    }
    let ghost q9 = if export_waypoints {
        q8 + seq![0x26u8] + pair_bytes("exportWaypoints"@, encode_utf8("1"@))
    } else {
        q8
    };
    proof {
        assert(out@ =~= q9);
        assert(all_ascii(out@));
    }
    if let Some(n) = name {
        let n_b = str_bytes(n);
        push_amp_pair(&mut out, "trackname", &n_b);
    }
    proof {
        assert(out@ =~= spec_route_query(
            points@,
            nogos@,
            profile@,
            alternativeidx,
            timode,
            name_view,
            export_waypoints,
        ));
    }
    Ok(ascii_string(out))
}

/// Encoding no waypoints yields the empty `lonlats` value; encoding
/// waypoints yields one `longitude,latitude` group per waypoint, longitude
/// first, joined with the `|` delimiter.
pub proof fn lemma_lonlats_shape(ps: Seq<Point>)
    ensures
        ps.len() == 0 ==> spec_lonlats(ps) == Seq::<u8>::empty(),
        lonlat_groups(ps).len() == ps.len(),
        forall|i: int| 0 <= i < ps.len() ==> lonlat_groups(ps)[i] == lonlat_group(ps[i]@),
        spec_lonlats(ps) == join_with(lonlat_groups(ps), 0x7C),
    decreases ps.len(),
{
    lemma_lonlat_groups_len(ps);
    if ps.len() > 0 {
        lemma_lonlats_shape(ps.drop_last());
        assert forall|i: int| 0 <= i < ps.len() implies lonlat_groups(ps)[i] == lonlat_group(
            ps[i]@,
        ) by {
            if i < ps.len() - 1 {
                assert(lonlat_groups(ps)[i] == lonlat_groups(ps.drop_last())[i]);
                assert(ps.drop_last()[i] == ps[i]);
            } else {
                assert(lonlat_groups(ps)[i] == lonlat_group(ps.last()@));
            }
        }
    }
}

/// A point-avoidance entry carries the weight as a fourth comma-separated
/// field exactly when a weight is present; a line or polygon entry carries
/// it as one trailing comma-separated field exactly when present.
pub proof fn lemma_weight_field_presence(
    p: PointView,
    radius: Seq<char>,
    w: Seq<char>,
    ps: Seq<Point>,
)
    ensures
        nogo_point_entry(p, radius, Option::<Seq<char>>::None) == encode_utf8(p.lon) + seq![0x2Cu8]
            + encode_utf8(p.lat) + seq![0x2Cu8] + encode_utf8(radius),
        nogo_point_entry(p, radius, Some(w)) == nogo_point_entry(p, radius, Option::<Seq<char>>::None)
            + seq![0x2Cu8] + encode_utf8(w),
        shape_entry(ps, Option::<Seq<char>>::None) == join_with(coord_texts(ps), 0x2C),
        ps.len() > 0 ==> shape_entry(ps, Some(w)) == shape_entry(ps, Option::<Seq<char>>::None)
            + seq![0x2Cu8] + encode_utf8(w),
        ps.len() == 0 ==> shape_entry(ps, Some(w)) == encode_utf8(w),
{
    lemma_coord_texts_len(ps);
    lemma_join_push(coord_texts(ps), encode_utf8(w), 0x2C);
}

/// A point sequence contributes two coordinate texts per point.
pub proof fn lemma_coord_texts_len(ps: Seq<Point>)
    ensures
        coord_texts(ps).len() == 2 * ps.len(),
    decreases ps.len(),
{
    if ps.len() > 0 {
        lemma_coord_texts_len(ps.drop_last());
    }
}

/// Whether the body is exactly `datafile <name> not found\n`, and the
/// name it carries; the name may be empty but holds no newline.
pub open spec fn spec_missing_datafile(b: Seq<u8>) -> Option<Seq<u8>> {
    let prefix = char_bytes("datafile "@);
    let suffix = char_bytes(" not found\n"@);
    if b.len() >= prefix.len() + suffix.len() && b.take(prefix.len() as int) == prefix && b.skip(
        b.len() - suffix.len(),
    ) == suffix && (forall|k: int|
        prefix.len() <= k < b.len() - suffix.len() ==> #[trigger] b[k] != 0x0Au8) {
        Some(b.subrange(prefix.len() as int, b.len() - suffix.len()))
    } else {
        None
    }
}

/// Whether the body is exactly `no track found at pass=<N>\n`, and the
/// sign and digits of `N`; the number may be negative.
pub open spec fn spec_no_route(b: Seq<u8>) -> Option<(bool, Seq<u8>)> {
    let prefix = char_bytes("no track found at pass="@);
    if b.len() >= prefix.len() + 2 && b.take(prefix.len() as int) == prefix && b.last() == 0x0Au8 {
        let num = b.subrange(prefix.len() as int, b.len() - 1);
        if num[0] == 0x2Du8 {
            if num.len() >= 2 && all_digits(num.drop_first()) {
                Some((true, num.drop_first()))
            } else {
                None
            }
        } else if all_digits(num) {
            Some((false, num))
        } else {
            None
        }
    } else {
        None
    }
}

/// The pass number of a matching `no track found` body, as an unbounded
/// integer.
pub open spec fn spec_no_route_value(b: Seq<u8>) -> Option<int> {
    match spec_no_route(b) {
        Some((neg, ds)) => Some(
            if neg {
                -digits_val(ds)
            } else {
                digits_val(ds)
            },
        ),
        None => None,
    }
}

/// Whether the body is exactly `pass<P> timeout after <T> seconds\n`, and
/// the digit text of `P` (one digit) and `T` (one or more digits).
pub open spec fn spec_pass_timeout(b: Seq<u8>) -> Option<(Seq<u8>, Seq<u8>)> {
    let p1 = char_bytes("pass"@);
    let p2 = char_bytes(" timeout after "@);
    let p3 = char_bytes(" seconds\n"@);
    if b.len() >= p1.len() + 1 + p2.len() + 1 + p3.len() && b.take(p1.len() as int) == p1 && 0x30
        <= b[p1.len() as int] <= 0x39 && b.subrange(
        p1.len() as int + 1,
        p1.len() as int + 1 + p2.len(),
    ) == p2 && b.skip(b.len() - p3.len()) == p3 && all_digits(
        b.subrange(p1.len() as int + 1 + p2.len(), b.len() - p3.len()),
    ) {
        Some(
            (
                seq![b[p1.len() as int]],
                b.subrange(p1.len() as int + 1 + p2.len(), b.len() - p3.len()),
            ),
        )
    } else {
        None
    }
}

/// Whether the given value fits the machine's signed word.
pub open spec fn fits_isize(v: int) -> bool {
    isize::MIN <= v <= isize::MAX
}

#[verifier::external_type_specification]
#[verifier::external_body]
/// The parsed track structure is the `gpx` crate's own tree; this crate
/// carries it through opaquely.
pub struct ExGpx(gpx::Gpx);

/// Whether `gpx::read` parses the given bytes as a track file; the outcome
/// depends on the bytes alone.
pub uninterp spec fn gpx_parse_ok(b: Seq<u8>) -> bool;

/// Relies on `gpx::read`: it parses a byte stream into a track structure,
/// and its outcome is a function of the bytes alone.
#[verifier::external_body]
fn parse_gpx(body: &Vec<u8>) -> (r: Result<gpx::Gpx, ()>)
    ensures
        r is Ok <==> gpx_parse_ok(body@),
{
    gpx::read(body.as_slice()).map_err(|_e| ())
}

/// What `String::from_utf8_lossy` yields for the given bytes; a function
/// of the bytes alone.
pub uninterp spec fn utf8_lossy_of(b: Seq<u8>) -> Seq<char>;

/// Relies on `String::from_utf8_lossy`: the result depends on the bytes
/// alone, and ASCII bytes decode to one character each.
#[verifier::external_body]
fn lossy_string(b: &Vec<u8>) -> (r: String)
    ensures
        r@ == utf8_lossy_of(b@),
        all_ascii(b@) ==> r@ == ascii_chars(b@),
{
    String::from_utf8_lossy(b.as_slice()).to_string()
}

/// The failure that `decode_response` reports for an unparseable body:
/// the raw text travels along for diagnosis.
pub open spec fn invalid_gpx_post(body: Seq<u8>, r: Result<gpx::Gpx, Error>) -> bool {
    r matches Err(e) && e matches Error::InvalidGpx(s) && s@ == utf8_lossy_of(body)
}

/// What `decode_response` promises: a priority-ordered case analysis of
/// the response bytes, then of the status, then of the track parse.  A
/// pass number too large for `isize` is treated like an unrecognized
/// body.
pub open spec fn decode_post(status: u16, body: Seq<u8>, r: Result<gpx::Gpx, Error>) -> bool {
    match spec_missing_datafile(body) {
        Some(name) => r matches Err(e) && e matches Error::MissingDataFile(s) && s@
            == utf8_lossy_of(name),
        None => match spec_no_route(body) {
            Some((neg, ds)) => {
                let v = if neg {
                    -digits_val(ds)
                } else {
                    digits_val(ds)
                };
                if fits_isize(v) {
                    r matches Err(e) && e matches Error::NoRouteFound(n) && n as int == v
                } else {
                    invalid_gpx_post(body, r)
                }
            },
            None => match spec_pass_timeout(body) {
                Some(pt) => r matches Err(e) && e matches Error::PassTimeout { pass, timeout }
                    && pass@ == ascii_chars(pt.0) && timeout@ == ascii_chars(pt.1),
                None => if status == 400 {
                    r matches Err(e) && e matches Error::Other(m) && m@ == "HTTP error: 400"@
                } else if gpx_parse_ok(body) {
                    r is Ok
                } else {
                    invalid_gpx_post(body, r)
                },
            },
        },
    }
}

/// Decode a raw engine response into a parsed track or a named failure.
///
/// The error patterns are tried first, in priority order, whatever the
/// HTTP status: the engine reports these conditions in 200-OK plain text.
/// Then a 400 status fails generically, and only then are the bytes parsed
/// as a track file.
pub fn decode_response(status: u16, body: &Vec<u8>) -> (r: Result<gpx::Gpx, Error>)
    ensures
        decode_post(status, body@, r),
{
    proof {
        reveal_strlit("datafile ");
        reveal_strlit(" not found\n");
        reveal_strlit("no track found at pass=");
        reveal_strlit("pass");
        reveal_strlit(" timeout after ");
        reveal_strlit(" seconds\n");
        reveal_strlit("HTTP error: 400");
    }
    let md_prefix = ascii_bytes("datafile ");
    let md_suffix = ascii_bytes(" not found\n");
    if body.len() >= md_prefix.len() + md_suffix.len() && match_at(body, 0, &md_prefix) && match_at(
        body,
        body.len() - md_suffix.len(),
        &md_suffix,
    ) && range_lacks(body, md_prefix.len(), body.len() - md_suffix.len(), 0x0A) {
        let name = subvec(body, md_prefix.len(), body.len() - md_suffix.len());
        proof {
            assert(body@.take(md_prefix@.len() as int) =~= body@.subrange(
                0,
                md_prefix@.len() as int,
            ));
            assert(body@.skip(body@.len() - md_suffix@.len()) =~= body@.subrange(
                body@.len() - md_suffix@.len(),
                body@.len() as int,
            ));
            assert(spec_missing_datafile(body@) matches Some(n) && n == name@);
        }
        return Err(Error::MissingDataFile(lossy_string(&name)));
    }
    proof {
        if body@.len() >= md_prefix@.len() + md_suffix@.len() {
            assert(body@.take(md_prefix@.len() as int) =~= body@.subrange(
                0,
                md_prefix@.len() as int,
            ));
            assert(body@.skip(body@.len() - md_suffix@.len()) =~= body@.subrange(
                body@.len() - md_suffix@.len(),
                body@.len() as int,
            ));
        }
        assert(spec_missing_datafile(body@) is None);
    }
    let nr_prefix = ascii_bytes("no track found at pass=");
    if body.len() >= nr_prefix.len() + 2 && match_at(body, 0, &nr_prefix) && body[body.len() - 1]
        == 0x0A {
        proof {
            assert(body@.take(nr_prefix@.len() as int) =~= body@.subrange(
                0,
                nr_prefix@.len() as int,
            ));
        }
        let num_from: usize = nr_prefix.len();
        let num_to: usize = body.len() - 1;
        let ghost num = body@.subrange(num_from as int, num_to as int);
        let negative: bool = body[num_from] == 0x2D;
        let digits_from: usize = if negative {
            num_from + 1
        } else {
            num_from
        };
        if digits_from < num_to && digits_in_range(body, digits_from, num_to) {
            let digits = subvec(body, digits_from, num_to);
            proof {
                if negative {
                    assert(num.drop_first() =~= digits@);
                } else {
                    assert(num =~= digits@);
                }
                assert(spec_no_route(body@) matches Some(p) && p == (negative, digits@));
            }
            match parse_decimal_isize(&digits, negative) {
                Some(n) => {
                    return Err(Error::NoRouteFound(n));
                },
                None => {
                    return Err(Error::InvalidGpx(lossy_string(body)));
                },
            }
        } else if negative && digits_from < num_to {
            // digits present but not all numeric
            proof {
                assert(num.drop_first() =~= body@.subrange(digits_from as int, num_to as int));
                assert(spec_no_route(body@) is None);
            }
        } else if negative {
            proof {
                assert(num[0] == 0x2Du8 && num.len() < 2);
                assert(spec_no_route(body@) is None);
            }
        } else {
            proof {
                assert(num =~= body@.subrange(digits_from as int, num_to as int));
                assert(spec_no_route(body@) is None);
            }
        }
    } else {
        proof {
            if body@.len() >= nr_prefix@.len() + 2 {
                assert(body@.take(nr_prefix@.len() as int) =~= body@.subrange(
                    0,
                    nr_prefix@.len() as int,
                ));
            }
            assert(spec_no_route(body@) is None);
        }
    }
    let pt_p1 = ascii_bytes("pass");
    let pt_p2 = ascii_bytes(" timeout after ");
    let pt_p3 = ascii_bytes(" seconds\n");
    if body.len() >= pt_p1.len() + 1 + pt_p2.len() + 1 + pt_p3.len() && match_at(body, 0, &pt_p1)
        && body[pt_p1.len()] >= 0x30 && body[pt_p1.len()] <= 0x39 && match_at(
        body,
        pt_p1.len() + 1,
        &pt_p2,
    ) && match_at(body, body.len() - pt_p3.len(), &pt_p3) && digits_in_range(
        body,
        pt_p1.len() + 1 + pt_p2.len(),
        body.len() - pt_p3.len(),
    ) {
        let pass_digit = subvec(body, pt_p1.len(), pt_p1.len() + 1);
        let timeout_digits = subvec(body, pt_p1.len() + 1 + pt_p2.len(), body.len() - pt_p3.len());
        proof {
            assert(body@.take(pt_p1@.len() as int) =~= body@.subrange(0, pt_p1@.len() as int));
            assert(body@.skip(body@.len() - pt_p3@.len()) =~= body@.subrange(
                body@.len() - pt_p3@.len(),
                body@.len() as int,
            ));
            assert(pass_digit@ =~= seq![body@[pt_p1@.len() as int]]);
            assert(spec_pass_timeout(body@) matches Some(pt) && pt.0 == pass_digit@ && pt.1
                == timeout_digits@);
            assert(all_digits(pass_digit@));
            assert(all_digits(timeout_digits@));
        }
        let pass = ascii_string(pass_digit);
        let timeout = ascii_string(timeout_digits);
        return Err(Error::PassTimeout { pass, timeout });
    } else {
        proof {
            if body@.len() >= pt_p1@.len() + 1 + pt_p2@.len() + 1 + pt_p3@.len() {
                assert(body@.take(pt_p1@.len() as int) =~= body@.subrange(
                    0,
                    pt_p1@.len() as int,
                ));
                assert(body@.skip(body@.len() - pt_p3@.len()) =~= body@.subrange(
                    body@.len() - pt_p3@.len(),
                    body@.len() as int,
                ));
            }
            assert(spec_pass_timeout(body@) is None);
        }
    }
    if status == 400 {
        return Err(Error::Other(String::from_str("HTTP error: 400")));
    }
    match parse_gpx(body) {
        Ok(g) => Ok(g),
        Err(_) => Err(Error::InvalidGpx(lossy_string(body))),
    }
}

/// The decoded body of a profile-upload response: the engine answers with
/// a generated profile identifier and, when it rejects the profile, an
/// error string.
#[derive(Debug)]
pub struct UploadProfileResponse {
    /// The profile identifier the engine generated.
    pub profileid: String,
    /// The reason the engine rejected the profile, when it did.
    pub error: Option<String>,
}

impl UploadProfileResponse {
    /// The upload outcome: a present engine-reported error fails with
    /// `UploadProfileError` carrying that reason; otherwise the generated
    /// identifier is returned, for later use as a profile name.
    pub fn into_result(self) -> (r: Result<String, Error>)
        ensures
            match self.error {
                Some(reason) => r matches Err(e) && e matches Error::UploadProfileError(m) && m@
                    == reason@,
                None => r matches Ok(id) && id@ == self.profileid@,
            },
    {
        match self.error {
            Some(reason) => Err(Error::UploadProfileError(reason)),
            None => Ok(self.profileid),
        }
    }
}

} // verus!
