//! Choosing the points offered to the node as chain-sync intersection.
//!
//! Precedence, the first source with a non-empty result winning: the
//! `intersect` setting, then the deprecated single `since` point, then no
//! point at all (the caller then starts from the tip).
use vstd::prelude::*;
use vstd::string::StringSliceAdditionalSpecFns;
use vstd::utf8::encode_utf8;
use crate::rollback::{Point, Position};

verus! {

/// A point as written in the configuration: a slot and the block hash in hex.
#[derive(Debug, Clone, PartialEq, Eq)]
pub struct PointArg {
    pub slot: u64,
    pub hash: String,
}

/// Where chain-sync should start.
#[derive(Debug, Clone, PartialEq, Eq)]
pub enum IntersectArg {
    /// From the node's tip: no point is offered.
    Tip,
    /// From the start of the chain.
    Origin,
    /// From one point.
    Point(PointArg),
    /// From the first of these points that the node knows, most preferred first.
    Fallbacks(Vec<PointArg>),
}

#[derive(Debug, PartialEq, Eq, Structural)]
pub enum ConfigError {
    /// A configured point's hash is not an even number of hex digits.
    MalformedPoint,
}

/// The value of one hex digit, given as an ASCII byte.
pub open spec fn hex_val(b: u8) -> Option<u8> {
    if 0x30 <= b <= 0x39 {
        Some((b - 0x30) as u8)
    } else if 0x61 <= b <= 0x66 {
        Some((b - 0x61 + 10) as u8)
    } else if 0x41 <= b <= 0x46 {
        Some((b - 0x41 + 10) as u8)
    } else {
        None
    }
}

/// An even number of hex digits.
pub open spec fn is_hex(s: Seq<u8>) -> bool {
    &&& s.len() % 2 == 0
    &&& forall|i: int| 0 <= i < s.len() ==> (#[trigger] hex_val(s[i])) is Some
}

/// The bytes that hex text stands for, two digits each, high digit first.
pub open spec fn hex_bytes(s: Seq<u8>) -> Seq<u8> {
    Seq::new(
        s.len() / 2,
        |k: int| (16 * hex_val(s[2 * k])->Some_0 + hex_val(s[2 * k + 1])->Some_0) as u8,
    )
}

fn hex_digit(b: u8) -> (r: Option<u8>)
    ensures
        r == hex_val(b),
{
    if 0x30 <= b && b <= 0x39 {
        Some(b - 0x30)
    } else if 0x61 <= b && b <= 0x66 {
        Some(b - 0x61 + 10)
    } else if 0x41 <= b && b <= 0x46 {
        Some(b - 0x41 + 10)
    } else {
        None
    }
}

/// Decodes a hex block hash.
pub fn decode_hash(text: &str) -> (r: Option<Vec<u8>>)
    ensures
        r is Some <==> is_hex(text.spec_bytes()),
        r matches Some(v) ==> v@ == hex_bytes(text.spec_bytes()),
{
    let bytes = text.as_bytes();
    let n = bytes.len();
    if n % 2 != 0 {
        return None;
    }
    let mut out: Vec<u8> = Vec::new();
    let mut k: usize = 0;
    while k < n / 2
        invariant
            bytes@ == text.spec_bytes(),
            n == bytes@.len(),
            n % 2 == 0,
            k <= n / 2,
            forall|i: int| 0 <= i < 2 * k ==> (#[trigger] hex_val(bytes@[i])) is Some,
            out@ == hex_bytes(bytes@).take(k as int),
        decreases n / 2 - k,
    {
        let hi = hex_digit(bytes[2 * k]);
        let lo = hex_digit(bytes[2 * k + 1]);
        match (hi, lo) {
            (Some(h), Some(l)) => {
                proof {
                    assert(h < 16 && l < 16);
                }
                out.push(16 * h + l);
                proof {
                    assert(hex_bytes(bytes@).take(k + 1) == hex_bytes(bytes@).take(k as int).push(
                        (16 * h + l) as u8,
                    ));
                    assert forall|i: int| 0 <= i < 2 * (k + 1) implies (#[trigger] hex_val(
                        bytes@[i],
                    )) is Some by {
                        if i == 2 * k {
                        } else if i == 2 * k + 1 {
                        }
                    }
                }
            },
            _ => {
                proof {
                    if hi is None {
                        assert(hex_val(bytes@[2 * k as int]) is None);
                    } else {
                        assert(hex_val(bytes@[2 * k + 1]) is None);
                    }
                }
                return None;
            },
        }
        k = k + 1;
    }
    proof {
        assert(hex_bytes(bytes@).take(k as int) == hex_bytes(bytes@));
    }
    Some(out)
}

/// What a chain point holds, as plain values.
pub open spec fn point_view(p: Point) -> (Position, Seq<u8>) {
    match p {
        Point::Origin => (Position::Origin, Seq::empty()),
        Point::Specific(s, h) => (Position::Slot(s), h@),
    }
}

/// The point a configured point stands for, or `None` when it is malformed.
pub open spec fn arg_point(a: PointArg) -> Option<(Position, Seq<u8>)> {
    if is_hex(encode_utf8(a.hash@)) {
        Some((Position::Slot(a.slot), hex_bytes(encode_utf8(a.hash@))))
    } else {
        None
    }
}

/// The points of a list of configured points, or `None` when one is malformed.
pub open spec fn arg_points(args: Seq<PointArg>) -> Option<Seq<(Position, Seq<u8>)>> {
    if forall|i: int| 0 <= i < args.len() ==> (#[trigger] arg_point(args[i])) is Some {
        Some(args.map_values(|a: PointArg| arg_point(a)->Some_0))
    } else {
        None
    }
}

/// The candidates that an `intersect` setting yields, or `None` when malformed.
pub open spec fn intersect_points(a: IntersectArg) -> Option<Seq<(Position, Seq<u8>)>> {
    match a {
        IntersectArg::Tip => Some(Seq::empty()),
        IntersectArg::Origin => Some(seq![(Position::Origin, Seq::empty())]),
        IntersectArg::Point(p) => match arg_point(p) {
            None => None,
            Some(v) => Some(seq![v]),
        },
        IntersectArg::Fallbacks(v) => arg_points(v@),
    }
}

/// The candidate list for a configuration, most preferred first, or `None`
/// when the source that decides holds a malformed point.
pub open spec fn resolve_spec(intersect: Option<IntersectArg>, since: Option<PointArg>) -> Option<
    Seq<(Position, Seq<u8>)>,
> {
    let first = match intersect {
        None => Some(Seq::empty()),
        Some(a) => intersect_points(a),
    };
    match first {
        None => None,
        Some(s) => if s.len() > 0 {
            Some(s)
        } else {
            match since {
                None => Some(Seq::empty()),
                Some(p) => match arg_point(p) {
                    None => None,
                    Some(v) => Some(seq![v]),
                },
            }
        },
    }
}

/// `r` is what resolving this configuration gives.
pub open spec fn resolves_to(
    intersect: Option<IntersectArg>,
    since: Option<PointArg>,
    r: Result<Vec<Point>, ConfigError>,
) -> bool {
    match resolve_spec(intersect, since) {
        None => r == Err::<Vec<Point>, ConfigError>(ConfigError::MalformedPoint),
        Some(s) => r is Ok && r->Ok_0@.map_values(|p: Point| point_view(p)) == s,
    }
}

fn parse_point(a: &PointArg) -> (r: Option<Point>)
    ensures
        arg_point(*a) is None <==> r is None,
        r matches Some(p) ==> arg_point(*a) == Some(point_view(p)),
{
    match decode_hash(a.hash.as_str()) {
        None => None,
        Some(h) => Some(Point::Specific(a.slot, h)),
    }
}

fn parse_points(args: &Vec<PointArg>) -> (r: Option<Vec<Point>>)
    ensures
        arg_points(args@) is None <==> r is None,
        r matches Some(v) ==> arg_points(args@) == Some(
            v@.map_values(|p: Point| point_view(p)),
        ),
{
    let mut out: Vec<Point> = Vec::new();
    let mut i: usize = 0;
    while i < args.len()
        invariant
            i <= args@.len(),
            out@.len() == i,
            forall|j: int| 0 <= j < i ==> (#[trigger] arg_point(args@[j])) == Some(
                point_view(out@[j]),
            ),
        decreases args@.len() - i,
    {
        match parse_point(&args[i]) {
            None => {
                return None;
            },
            Some(p) => {
                out.push(p);
            },
        }
        i = i + 1;
    }
    proof {
        assert(args@.map_values(|a: PointArg| arg_point(a)->Some_0) == out@.map_values(
            |p: Point| point_view(p),
        ));
    }
    Some(out)
}

fn single(p: Point) -> (r: Vec<Point>)
    ensures
        r@.map_values(|p: Point| point_view(p)) == seq![point_view(p)],
{
    let ghost v = point_view(p);
    let r = vec![p];
    proof {
        assert(r@.map_values(|p: Point| point_view(p)) =~= seq![v]);
    }
    r
}

fn intersect_candidates(a: &IntersectArg) -> (r: Option<Vec<Point>>)
    ensures
        intersect_points(*a) is None <==> r is None,
        r matches Some(v) ==> intersect_points(*a) == Some(v@.map_values(|p: Point| point_view(p))),
{
    match a {
        IntersectArg::Tip => {
            let r: Vec<Point> = Vec::new();
            proof {
                assert(r@.map_values(|p: Point| point_view(p)) =~= Seq::empty());
            }
            Some(r)
        },
        IntersectArg::Origin => Some(single(Point::Origin)),
        IntersectArg::Point(p) => match parse_point(p) {
            None => None,
            Some(x) => Some(single(x)),
        },
        IntersectArg::Fallbacks(v) => parse_points(v),
    }
}

/// The points to offer the node as intersection, most preferred first. An
/// empty list leaves the start to the caller (the node's tip).
pub fn resolve_intersection(intersect: &Option<IntersectArg>, since: &Option<PointArg>) -> (r:
    Result<Vec<Point>, ConfigError>)
    ensures
        resolves_to(*intersect, *since, r),
{
    let first = match intersect {
        None => Vec::new(),
        Some(a) => match intersect_candidates(a) {
            None => {
                return Err(ConfigError::MalformedPoint);
            },
            Some(f) => f,
        },
    };
    proof {
        if intersect is None {
            assert(first@.map_values(|p: Point| point_view(p)) =~= Seq::empty());
        }
    }
    if first.len() > 0 {
        return Ok(first);
    }
    let r = match since {
        None => Vec::new(),
        Some(p) => match parse_point(p) {
            None => {
                return Err(ConfigError::MalformedPoint);
            },
            Some(x) => single(x),
        },
    };
    proof {
        if since is None {
            assert(r@.map_values(|p: Point| point_view(p)) =~= Seq::empty());
        }
    }
    Ok(r)
}

/// Resolving the same configuration twice gives the same outcome: both fail,
/// or both give the same candidate list.
pub proof fn lemma_resolution_is_deterministic(
    intersect: Option<IntersectArg>,
    since: Option<PointArg>,
    r1: Result<Vec<Point>, ConfigError>,
    r2: Result<Vec<Point>, ConfigError>,
)
    requires
        resolves_to(intersect, since, r1),
        resolves_to(intersect, since, r2),
    ensures
        r1 is Ok <==> r2 is Ok,
        r1 is Err ==> r1 == r2,
        r1 is Ok ==> r1->Ok_0@.map_values(|p: Point| point_view(p)) == r2->Ok_0@.map_values(
            |p: Point| point_view(p),
        ),
{
}

} // verus!
