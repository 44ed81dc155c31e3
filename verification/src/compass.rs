use vstd::prelude::*;
use vstd::string::StringExecFns;

verus! {

/// The sixteen points of the compass, clockwise from North, each one
/// notch of 22.5 degrees from the last.
pub open spec fn compass_names() -> Seq<Seq<char>> {
    seq![
        "North"@,
        "North Northeast"@,
        "Northeast"@,
        "East Northeast"@,
        "East"@,
        "East Southeast"@,
        "Southeast"@,
        "South Southeast"@,
        "South"@,
        "South Southwest"@,
        "Southwest"@,
        "West Southwest"@,
        "West"@,
        "West Northwest"@,
        "Northwest"@,
        "North Northwest"@,
    ]
}

/// The largest heading, 360 degrees, in quarter degrees.
pub open spec fn full_circle() -> int {
    1440
}

/// For a heading of `q` quarter degrees, the number of notches of 22.5
/// degrees (90 quarter degrees) to the point that it is closest to: 0 up to
/// 11.25 degrees, then one more for every further notch; 16, North again,
/// above 348.75 degrees.
pub open spec fn notches(q: int) -> int {
    if q <= 45 {
        0
    } else {
        (q + 44) / 90
    }
}

/// The name of the point of the compass at notch `i`.
fn compass_name(i: usize) -> (name: String)
    requires
        i < 16,
    ensures
        name@ == compass_names()[i as int],
{
    let s = match i {
        0 => "North",
        1 => "North Northeast",
        2 => "Northeast",
        3 => "East Northeast",
        4 => "East",
        5 => "East Southeast",
        6 => "Southeast",
        7 => "South Southeast",
        8 => "South",
        9 => "South Southwest",
        10 => "Southwest",
        11 => "West Southwest",
        12 => "West",
        13 => "West Northwest",
        14 => "Northwest",
        _ => "North Northwest",
    };
    String::from_str(s)
}

/// The point of the compass that a heading points to.
///
/// The heading is given as `Some(q)`, where `q` is the least whole number of
/// quarter degrees not below the heading in degrees (which determines every
/// comparison with a multiple of 11.25 degrees), or as `None` for a reading
/// that is not a number. A heading of at most 360 degrees gets the point whose
/// notch is nearest, ties going to the earlier point; one above 360 degrees,
/// or one that is not a number, gets none.
pub fn compass_direction(quarter_degrees: Option<i64>) -> (res: Option<String>)
    ensures
        match quarter_degrees {
            Some(q) => if q <= full_circle() {
                &&& res matches Some(name)
                &&& name@ == compass_names()[notches(q as int) % 16]
                &&& 0 <= notches(q as int) <= 16
                &&& q <= 90 * notches(q as int) + 45
                &&& notches(q as int) > 0 ==> 90 * notches(q as int) - 45 < q
                &&& name@ == seq![
                    "North"@,
                    "North Northeast"@,
                    "Northeast"@,
                    "East Northeast"@,
                    "East"@,
                    "East Southeast"@,
                    "Southeast"@,
                    "South Southeast"@,
                    "South"@,
                    "South Southwest"@,
                    "Southwest"@,
                    "West Southwest"@,
                    "West"@,
                    "West Northwest"@,
                    "Northwest"@,
                    "North Northwest"@,
                ][(if q <= 45 {
                    0
                } else {
                    (q + 44) / 90
                }) % 16]
            } else {
                res is None
            },
            None => res is None,
        },
{
    let q = match quarter_degrees {
        Some(q) => q,
        None => return None,
    };
    let mut index: usize = 0;
    let mut notch: i64 = 0;
    while index <= 16 && q <= 1440
        invariant
            quarter_degrees == Some(q),
            index <= 16,
            notch == 90 * index,
            index > 0 ==> q > notch - 45,
        decreases 17 - index,
    {
        if index == 16 {
            assert(notches(q as int) == 16);
            return Some(compass_name(0));
        }
        if q <= notch + 45 {
            assert(notches(q as int) == index) by (nonlinear_arith)
                requires
                    q <= 90 * index + 45,
                    index > 0 ==> q > 90 * (index - 1) + 45,
                    index == 0 ==> q <= 45,
                    notches(q as int) == if q <= 45 { 0 } else { (q + 44) / 90 },
            ;
            return Some(compass_name(index));
        }
        notch += 90;
        index += 1;
    }
    None
}

/// Law: of the sixteen points and North again at 360 degrees, a heading from
/// 0 to 360 degrees goes to the one whose direction is nearest, and of two
/// equally near it goes to the earlier.
pub proof fn law_nearest_point(q: int, k: int)
    requires
        0 <= q <= full_circle(),
        0 <= k <= 16,
    ensures
        abs(q - 90 * notches(q)) <= abs(q - 90 * k),
        abs(q - 90 * notches(q)) == abs(q - 90 * k) ==> notches(q) <= k,
{
    let n = notches(q);
    assert(0 <= n <= 16 && (n > 0 ==> 90 * n - 45 < q) && q <= 90 * n + 45) by (nonlinear_arith)
        requires
            0 <= q <= 1440,
            n == if q <= 45 { 0 } else { (q + 44) / 90 },
    ;
}

/// The distance between two integers.
pub open spec fn abs(x: int) -> int {
    if x < 0 {
        -x
    } else {
        x
    }
}

} // verus!
