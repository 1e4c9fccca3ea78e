//! Resolving a geocoding response to one location.
//!
//! The service answers a search with a JSON array of candidates, pre-ranked by
//! its own relevance score.  The logic here validates that shape, keeps
//! candidate index 0, and reads its display name and coordinates.  Coordinates
//! arrive as decimal strings; they are parsed into fixed-point integers that
//! count ten-millionths of a degree, so a latitude of 90 degrees is
//! `900_000_000` units.

use vstd::prelude::*;

use crate::digit_val;
use crate::is_digit;
use crate::json::JsonValue;
use crate::json::fields_of;
use crate::json::field_is_string;
use crate::json::get_field;
use crate::json::json_of;
use crate::json::lookup_field;
use crate::json::parse_document;
use crate::json::str_field;

verus! {

/// Why a place query could not be resolved.
#[derive(Debug, Clone, Copy, PartialEq, Eq, Structural)]
pub enum GeocodeError {
    /// The request never produced a response.
    Transport,
    /// The response carried a client- or server-error status.
    HttpStatus(u16),
    /// The body was not valid JSON, or not an array of well-formed candidates.
    DecodeError,
    /// The candidate list was empty.
    NoResults,
    /// A coordinate string was not a decimal number within range.
    InvalidCoordinate,
}

/// A resolved geographic anchor point.  `lat` and `lon` count ten-millionths
/// of a degree.
#[derive(Debug, Clone)]
pub struct Location {
    pub display_name: String,
    pub lat: i64,
    pub lon: i64,
}

// ---------------------------------------------------------------------------
// Decimal coordinate strings.
// ---------------------------------------------------------------------------

/// Whether every character of `s` is a decimal digit.
pub open spec fn all_digits(s: Seq<char>) -> bool {
    forall|i: int| 0 <= i < s.len() ==> is_digit(#[trigger] s[i])
}

/// The number denoted by a sequence of digit characters, read base ten.
pub open spec fn digits_val(s: Seq<char>) -> int
    decreases s.len(),
{
    if s.len() == 0 {
        0
    } else {
        digits_val(s.drop_last()) * 10 + digit_val(s.last())
    }
}

/// The index of the first `'.'` in `s`, or `s.len()` if there is none.
pub open spec fn dot_pos(s: Seq<char>) -> int
    decreases s.len(),
{
    if s.len() == 0 {
        0
    } else if s[0] == '.' {
        0
    } else {
        1 + dot_pos(s.drop_first())
    }
}

/// Whether `s` opens with a minus sign.
pub open spec fn is_negative(s: Seq<char>) -> bool {
    s.len() > 0 && s[0] == '-'
}

/// `s` without its leading minus sign, if any.
pub open spec fn unsigned_part(s: Seq<char>) -> Seq<char> {
    if is_negative(s) {
        s.drop_first()
    } else {
        s
    }
}

/// The digits before the first dot.
pub open spec fn int_digits(u: Seq<char>) -> Seq<char> {
    u.take(dot_pos(u))
}

/// The digits after the first dot; empty if there is no dot.
pub open spec fn frac_digits(u: Seq<char>) -> Seq<char> {
    if dot_pos(u) == u.len() {
        Seq::empty()
    } else {
        u.skip(dot_pos(u) + 1)
    }
}

/// A coordinate literal: an optional leading `'-'`, then decimal digits with
/// at most one `'.'` among them, and at least one digit.  Exponents, infinities
/// and a leading `'+'` are not part of this grammar.
pub open spec fn is_coord_text(s: Seq<char>) -> bool {
    let u = unsigned_part(s);
    &&& all_digits(int_digits(u))
    &&& all_digits(frac_digits(u))
    &&& int_digits(u).len() + frac_digits(u).len() >= 1
}

/// The fraction digits cut to seven places and padded with zeros, so that
/// their value counts ten-millionths.
pub open spec fn pad7(fp: Seq<char>) -> Seq<char> {
    let t = if fp.len() <= 7 {
        fp
    } else {
        fp.take(7)
    };
    t + Seq::new((7 - t.len()) as nat, |i: int| '0')
}

/// How many ten-millionths of a degree the text denotes, ignoring the sign;
/// fraction digits past the seventh are dropped.
pub open spec fn coord_magnitude_e7(s: Seq<char>) -> int {
    let u = unsigned_part(s);
    digits_val(int_digits(u)) * 10_000_000 + digits_val(pad7(frac_digits(u)))
}

/// The signed value of a coordinate text, in ten-millionths of a degree.
pub open spec fn coord_val_e7(s: Seq<char>) -> int {
    if is_negative(s) {
        -coord_magnitude_e7(s)
    } else {
        coord_magnitude_e7(s)
    }
}

/// A coordinate text whose value stays within `max_deg` degrees of zero.
pub open spec fn coord_in_range(s: Seq<char>, max_deg: int) -> bool {
    &&& is_coord_text(s)
    &&& -max_deg * 10_000_000 <= coord_val_e7(s) <= max_deg * 10_000_000
}

/// Powers of ten.
pub open spec fn pow10(n: nat) -> int
    decreases n,
{
    if n == 0 {
        1
    } else {
        10 * pow10((n - 1) as nat)
    }
}

proof fn lemma_pow10_pos(n: nat)
    ensures
        pow10(n) >= 1,
    decreases n,
{
    if n > 0 {
        lemma_pow10_pos((n - 1) as nat);
    }
}

proof fn lemma_pow10_mono(a: nat, b: nat)
    requires
        a <= b,
    ensures
        pow10(a) <= pow10(b),
    decreases b,
{
    if a < b {
        lemma_pow10_mono(a, (b - 1) as nat);
        lemma_pow10_pos((b - 1) as nat);
    }
}

proof fn lemma_pow10_at_most_seven(n: nat)
    requires
        n <= 7,
    ensures
        pow10(n) <= 10_000_000,
{
    lemma_pow10_mono(n, 7);
    assert(pow10(7) == 10_000_000) by {
        reveal_with_fuel(pow10, 8);
    }
}

proof fn lemma_digits_val_nonneg(s: Seq<char>)
    requires
        all_digits(s),
    ensures
        digits_val(s) >= 0,
    decreases s.len(),
{
    if s.len() > 0 {
        assert(all_digits(s.drop_last()));
        lemma_digits_val_nonneg(s.drop_last());
    }
}

/// Reading more digits can only grow the value.
proof fn lemma_digits_val_prefix(s: Seq<char>, j: int)
    requires
        all_digits(s),
        0 <= j <= s.len(),
    ensures
        digits_val(s.take(j)) <= digits_val(s),
    decreases s.len() - j,
{
    if j == s.len() {
        assert(s.take(j) =~= s);
    } else {
        lemma_digits_val_prefix(s, j + 1);
        assert(s.take(j + 1).drop_last() =~= s.take(j));
        assert(all_digits(s.take(j)));
        lemma_digits_val_nonneg(s.take(j));
        assert(digits_val(s.take(j + 1)) == digits_val(s.take(j)) * 10 + digit_val(s[j]));
    }
}

/// Where a scan that saw no dot so far places `dot_pos`.
proof fn lemma_dot_pos_scan(u: Seq<char>, k: int)
    requires
        0 <= k <= u.len(),
        forall|j: int| 0 <= j < k ==> u[j] != '.',
    ensures
        dot_pos(u) >= k,
        k < u.len() && u[k] == '.' ==> dot_pos(u) == k,
        k == u.len() ==> dot_pos(u) == k,
    decreases k + 1,
{
    if u.len() == 0 {
    } else if u[0] == '.' {
    } else {
        let t = u.drop_first();
        if k == 0 {
            lemma_dot_pos_bounds(t);
        } else {
            assert(forall|j: int| 0 <= j < k - 1 ==> t[j] != '.');
            lemma_dot_pos_scan(t, k - 1);
        }
    }
}

proof fn lemma_dot_pos_bounds(u: Seq<char>)
    ensures
        0 <= dot_pos(u) <= u.len(),
        dot_pos(u) < u.len() ==> u[dot_pos(u)] == '.',
    decreases u.len(),
{
    if u.len() > 0 && u[0] != '.' {
        lemma_dot_pos_bounds(u.drop_first());
    }
}

/// Padding fraction digits keeps them digits and fills seven places.
proof fn lemma_pad7_digits(fp: Seq<char>)
    requires
        all_digits(fp),
    ensures
        all_digits(pad7(fp)),
        pad7(fp).len() == 7,
{
    assert forall|i: int| 0 <= i < pad7(fp).len() implies is_digit(#[trigger] pad7(fp)[i]) by {
        let t = if fp.len() <= 7 {
            fp
        } else {
            fp.take(7)
        };
        if i < t.len() {
            assert(pad7(fp)[i] == fp[i]);
        } else {
            assert(pad7(fp)[i] == '0');
        }
    }
}

proof fn lemma_digits_val_zeros(n: nat)
    ensures
        digits_val(Seq::new(n, |i: int| '0')) == 0,
    decreases n,
{
    if n > 0 {
        let z = Seq::new(n, |i: int| '0');
        assert(z.drop_last() =~= Seq::new((n - 1) as nat, |i: int| '0'));
        lemma_digits_val_zeros((n - 1) as nat);
    }
}

/// The numeric value of a digit character.
fn digit_value(c: char) -> (d: u8)
    requires
        is_digit(c),
    ensures
        d == digit_val(c),
        d <= 9,
{
    ((c as u32) - ('0' as u32)) as u8
}

/// Whether the character at `i` is a digit.
fn digit_at(s: &str, i: usize) -> (r: bool)
    requires
        i < s@.len(),
    ensures
        r == is_digit(s@[i as int]),
{
    let c = s.get_char(i);
    '0' <= c && c <= '9'
}

/// Read the characters of `s` from `from` to the end as fraction digits, and
/// give their value in ten-millionths; digits past the seventh are dropped.
fn frac_value_e7(s: &str, from: usize) -> (r: Option<i64>)
    requires
        from <= s@.len(),
    ensures
        (match r {
            Some(f) => {
                &&& all_digits(s@.skip(from as int))
                &&& f == digits_val(pad7(s@.skip(from as int)))
                &&& 0 <= f < 10_000_000
            },
            None => !all_digits(s@.skip(from as int)),
        }),
{
    let ghost fp = s@.skip(from as int);
    let len = s.unicode_len();
    let mut i: usize = from;
    let mut f: i64 = 0;
    let mut slots: usize = 0;
    proof {
        assert(fp.take(0) =~= Seq::<char>::empty());
    }
    while i < len
        invariant
            from <= i <= len,
            len == s@.len(),
            fp == s@.skip(from as int),
            forall|j: int| from <= j < i ==> is_digit(#[trigger] s@[j]),
            slots == if i - from <= 7 {
                i - from
            } else {
                7int
            },
            f == digits_val(fp.take(slots as int)),
            0 <= f < pow10(slots as nat),
        decreases len - i,
    {
        if !digit_at(s, i) {
            proof {
                assert(fp[i - from as int] == s@[i as int]);
            }
            return None;
        }
        let c = s.get_char(i);
        let d = digit_value(c);
        if slots < 7 {
            proof {
                lemma_pow10_at_most_seven(slots as nat);
                assert(fp.take(slots as int + 1).drop_last() =~= fp.take(slots as int));
                assert(fp[slots as int] == s@[i as int]);
            }
            f = f * 10 + (d as i64);
            slots = slots + 1;
        }
        i = i + 1;
    }
    proof {
        assert forall|j: int| 0 <= j < fp.len() implies is_digit(#[trigger] fp[j]) by {
            assert(fp[j] == s@[from as int + j]);
        }
        let t = if fp.len() <= 7 {
            fp
        } else {
            fp.take(7)
        };
        assert(fp.take(slots as int) =~= t);
        assert(pad7(fp).take(slots as int) =~= t);
        lemma_pad7_digits(fp);
    }
    while slots < 7
        invariant
            slots <= 7,
            (if fp.len() <= 7 {
                fp.len()
            } else {
                7nat
            }) <= slots,
            all_digits(fp),
            f == digits_val(pad7(fp).take(slots as int)),
            0 <= f < pow10(slots as nat),
            pad7(fp).len() == 7,
        decreases 7 - slots,
    {
        proof {
            lemma_pow10_at_most_seven(slots as nat);
            assert(pad7(fp).take(slots as int + 1).drop_last() =~= pad7(fp).take(slots as int));
            assert(pad7(fp)[slots as int] == '0') by {
                let t = if fp.len() <= 7 {
                    fp
                } else {
                    fp.take(7)
                };
                assert(t.len() <= slots < 7);
            };
        }
        f = f * 10;
        slots = slots + 1;
    }
    proof {
        assert(pad7(fp).take(7) =~= pad7(fp));
        assert(pow10(7) == 10_000_000) by {
            reveal_with_fuel(pow10, 8);
        }
    }
    Some(f)
}

/// Parse a coordinate text, requiring its value to lie within `max_deg`
/// degrees of zero.  The result counts ten-millionths of a degree.
pub fn parse_coordinate_e7(s: &str, max_deg: i64) -> (r: Option<i64>)
    requires
        0 < max_deg <= 1000,
    ensures
        (match r {
            Some(v) => coord_in_range(s@, max_deg as int) && v == coord_val_e7(s@),
            None => !coord_in_range(s@, max_deg as int),
        }),
{
    let len = s.unicode_len();
    let neg = if len > 0 {
        s.get_char(0) == '-'
    } else {
        false
    };
    let start: usize = if neg {
        1
    } else {
        0
    };
    let ghost u = unsigned_part(s@);
    proof {
        assert(u =~= s@.skip(start as int));
        assert(s@.subrange(start as int, start as int) =~= Seq::<char>::empty());
    }
    let mut i: usize = start;
    let mut ip: i64 = 0;
    while i < len && digit_at(s, i)
        invariant
            0 < max_deg <= 1000,
            len == s@.len(),
            start <= i <= len,
            neg == is_negative(s@),
            start == if neg {
                1int
            } else {
                0int
            },
            u == unsigned_part(s@),
            u =~= s@.skip(start as int),
            forall|j: int| start <= j < i ==> is_digit(#[trigger] s@[j]),
            ip == digits_val(s@.subrange(start as int, i as int)),
            0 <= ip <= max_deg,
        decreases len - i,
    {
        let c = s.get_char(i);
        let d = digit_value(c);
        let next = ip * 10 + (d as i64);
        proof {
            assert(s@.subrange(start as int, i as int + 1).drop_last() =~= s@.subrange(
                start as int,
                i as int,
            ));
        }
        if next > max_deg {
            proof {
                if is_coord_text(s@) {
                    let k = i + 1 - start as int;
                    assert forall|j: int| 0 <= j < k implies u[j] != '.' by {
                        assert(u[j] == s@[start as int + j]);
                    }
                    lemma_dot_pos_bounds(u);
                    lemma_dot_pos_scan(u, k);
                    assert(dot_pos(u) >= k);
                    assert(u.take(k) =~= s@.subrange(start as int, i as int + 1));
                    assert(int_digits(u).take(k) =~= u.take(k));
                    lemma_digits_val_prefix(int_digits(u), k);
                    assert(digits_val(int_digits(u)) >= next);
                    lemma_pad7_digits(frac_digits(u));
                    lemma_digits_val_nonneg(pad7(frac_digits(u)));
                    assert(coord_magnitude_e7(s@) > max_deg * 10_000_000);
                }
            }
            return None;
        }
        ip = next;
        i = i + 1;
    }
    let mut fv: i64 = 0;
    let ghost mut fpg = Seq::<char>::empty();
    if i == len {
        proof {
            assert forall|j: int| 0 <= j < u.len() implies u[j] != '.' by {
                assert(u[j] == s@[start as int + j]);
            }
            lemma_dot_pos_scan(u, u.len() as int);
            assert(int_digits(u) =~= u);
            assert(frac_digits(u) =~= Seq::<char>::empty());
            assert forall|j: int| 0 <= j < u.len() implies is_digit(#[trigger] u[j]) by {
                assert(u[j] == s@[start as int + j]);
            }
        }
        if i == start {
            proof {
                assert(int_digits(u).len() + frac_digits(u).len() == 0);
            }
            return None;
        }
        proof {
            assert(pad7(Seq::<char>::empty()) =~= Seq::new(7, |j: int| '0'));
            lemma_digits_val_zeros(7);
            assert(int_digits(u) =~= s@.subrange(start as int, i as int));
        }
    } else {
        let c = s.get_char(i);
        proof {
            let k = i as int - start as int;
            assert forall|j: int| 0 <= j < k implies u[j] != '.' by {
                assert(u[j] == s@[start as int + j]);
            }
            lemma_dot_pos_bounds(u);
            lemma_dot_pos_scan(u, k);
            assert(u[k] == s@[i as int]);
        }
        if c != '.' {
            proof {
                let k = i as int - start as int;
                assert(dot_pos(u) > k);
                assert(int_digits(u)[k] == u[k]);
                assert(!is_digit(u[k]));
            }
            return None;
        }
        proof {
            let k = i as int - start as int;
            assert(dot_pos(u) == k);
        }
        match frac_value_e7(s, i + 1) {
            None => {
                proof {
                    assert(frac_digits(u) =~= s@.skip(i as int + 1));
                }
                return None;
            },
            Some(f) => {
                fv = f;
                proof {
                    fpg = s@.skip(i as int + 1);
                    assert(frac_digits(u) =~= fpg);
                    assert(int_digits(u) =~= s@.subrange(start as int, i as int));
                    assert forall|j: int| 0 <= j < int_digits(u).len() implies is_digit(
                        #[trigger] int_digits(u)[j],
                    ) by {
                        assert(int_digits(u)[j] == s@[start as int + j]);
                    }
                }
                if i == start && i + 1 == len {
                    proof {
                        assert(int_digits(u).len() + frac_digits(u).len() == 0);
                    }
                    return None;
                }
            },
        }
    }
    proof {
        assert(all_digits(int_digits(u)));
        assert(all_digits(frac_digits(u)));
        assert(int_digits(u).len() + frac_digits(u).len() >= 1);
        assert(is_coord_text(s@));
        assert(ip == digits_val(int_digits(u)));
        assert(fv == digits_val(pad7(frac_digits(u))));
        assert(coord_magnitude_e7(s@) == ip * 10_000_000 + fv);
    }
    let mag = ip * 10_000_000 + fv;
    if mag > max_deg * 10_000_000 {
        return None;
    }
    if neg {
        Some(-mag)
    } else {
        Some(mag)
    }
}

// ---------------------------------------------------------------------------
// The search request.
// ---------------------------------------------------------------------------

/// The view of an optional string.
pub open spec fn opt_view(o: Option<String>) -> Option<Seq<char>> {
    match o {
        Some(s) => Some(s@),
        None => None,
    }
}

/// The parameters a search request carries, in order: city, country, the
/// fixed JSON format selector, then the optional refinements.
pub open spec fn query_params_spec(
    city: Seq<char>,
    country: Seq<char>,
    state: Option<Seq<char>>,
    postal_code: Option<Seq<char>>,
) -> Seq<(Seq<char>, Seq<char>)> {
    let base = seq![("city"@, city), ("country"@, country), ("format"@, "jsonv2"@)];
    let with_state = match state {
        Some(st) => base.push(("state"@, st)),
        None => base,
    };
    match postal_code {
        Some(pc) => with_state.push(("postalcode"@, pc)),
        None => with_state,
    }
}

/// The key/value pairs of the search request for one place query.  `city`
/// and `country` are required and must be non-empty; the optional
/// refinements are forwarded verbatim.
pub fn build_query(
    city: &str,
    country: &str,
    state: &Option<String>,
    postal_code: &Option<String>,
) -> (r: Vec<(String, String)>)
    requires
        city@.len() > 0,
        country@.len() > 0,
    ensures
        r.deep_view() == query_params_spec(
            city@,
            country@,
            opt_view(*state),
            opt_view(*postal_code),
        ),
{
    let mut r: Vec<(String, String)> = Vec::new();
    r.push((String::from_str("city"), String::from_str(city)));
    r.push((String::from_str("country"), String::from_str(country)));
    r.push((String::from_str("format"), String::from_str("jsonv2")));
    match state {
        Some(st) => r.push((String::from_str("state"), st.clone())),
        None => {},
    }
    match postal_code {
        Some(pc) => r.push((String::from_str("postalcode"), pc.clone())),
        None => {},
    }
    proof {
        assert(r.deep_view() =~~= query_params_spec(
            city@,
            country@,
            opt_view(*state),
            opt_view(*postal_code),
        ));
    }
    r
}

// ---------------------------------------------------------------------------
// The candidate schema.
// ---------------------------------------------------------------------------

/// Whether the named member is an unsigned integer no larger than `max`.
pub open spec fn field_is_uint_at_most(
    fs: Seq<(String, JsonValue)>,
    name: Seq<char>,
    max: u64,
) -> bool {
    lookup_field(fs, name) matches Some(JsonValue::Num(Some(x))) && x <= max
}

/// Whether the named member is a number of any kind.
pub open spec fn field_is_number(fs: Seq<(String, JsonValue)>, name: Seq<char>) -> bool {
    lookup_field(fs, name) matches Some(JsonValue::Num(_))
}

/// Whether every element of a sequence of values is a string.
pub open spec fn all_strings(items: Seq<JsonValue>) -> bool {
    forall|i: int| 0 <= i < items.len() ==> (#[trigger] items[i]) is Str
}

/// Whether the named member is an array holding strings only.
pub open spec fn field_is_string_array(fs: Seq<(String, JsonValue)>, name: Seq<char>) -> bool {
    lookup_field(fs, name) matches Some(JsonValue::Arr(a)) && all_strings(a@)
}

/// One well-formed candidate: an object with every field of the search
/// result schema, each of its required type.
pub open spec fn candidate_ok(c: JsonValue) -> bool {
    let fs = fields_of(c);
    &&& c is Obj
    &&& field_is_uint_at_most(fs, "place_id"@, u32::MAX as u64)
    &&& field_is_string(fs, "licence"@)
    &&& field_is_string(fs, "osm_type"@)
    &&& field_is_uint_at_most(fs, "osm_id"@, u32::MAX as u64)
    &&& field_is_string(fs, "lat"@)
    &&& field_is_string(fs, "lon"@)
    &&& field_is_string(fs, "category"@)
    &&& field_is_string(fs, "type"@)
    &&& field_is_uint_at_most(fs, "place_rank"@, u8::MAX as u64)
    &&& field_is_number(fs, "importance"@)
    &&& field_is_string(fs, "addresstype"@)
    &&& field_is_string(fs, "name"@)
    &&& field_is_string(fs, "display_name"@)
    &&& field_is_string_array(fs, "boundingbox"@)
}

/// The candidates of a response document; any non-array has none.
pub open spec fn candidates_of(v: JsonValue) -> Seq<JsonValue> {
    match v {
        JsonValue::Arr(a) => a@,
        _ => Seq::empty(),
    }
}

/// Whether every candidate in a sequence is well formed.
pub open spec fn all_candidates_ok(cs: Seq<JsonValue>) -> bool {
    forall|i: int| 0 <= i < cs.len() ==> candidate_ok(#[trigger] cs[i])
}

/// A response body of the expected shape: an array of well-formed candidates.
pub open spec fn response_ok(v: JsonValue) -> bool {
    &&& v is Arr
    &&& all_candidates_ok(candidates_of(v))
}

fn check_string_field(fields: &Vec<(String, JsonValue)>, name: &str) -> (r: bool)
    ensures
        r == field_is_string(fields@, name@),
{
    match get_field(fields, name) {
        Some(JsonValue::Str(_)) => true,
        _ => false,
    }
}

fn check_uint_field(fields: &Vec<(String, JsonValue)>, name: &str, max: u64) -> (r: bool)
    ensures
        r == field_is_uint_at_most(fields@, name@, max),
{
    match get_field(fields, name) {
        Some(JsonValue::Num(Some(x))) => *x <= max,
        _ => false,
    }
}

fn check_number_field(fields: &Vec<(String, JsonValue)>, name: &str) -> (r: bool)
    ensures
        r == field_is_number(fields@, name@),
{
    match get_field(fields, name) {
        Some(JsonValue::Num(_)) => true,
        _ => false,
    }
}

fn check_string_array_field(fields: &Vec<(String, JsonValue)>, name: &str) -> (r: bool)
    ensures
        r == field_is_string_array(fields@, name@),
{
    let got = get_field(fields, name);
    match got {
        Some(jv) => match jv {
            JsonValue::Arr(a) => {
                proof {
                    assert(*jv == JsonValue::Arr(*a));
                }
                let n = a.len();
                let mut i: usize = 0;
                while i < n
                    invariant
                        n == a@.len(),
                        i <= n,
                        lookup_field(fields@, name@) == Some(JsonValue::Arr(*a)),
                        forall|j: int| 0 <= j < i ==> (#[trigger] a@[j]) is Str,
                    decreases n - i,
                {
                    let elem = &a[i];
                    match elem {
                        JsonValue::Str(_) => {},
                        _ => {
                            proof {
                                assert(!((a@[i as int]) is Str));
                                assert(!all_strings(a@));
                            }
                            return false;
                        },
                    }
                    i = i + 1;
                }
                proof {
                    assert(all_strings(a@));
                }
                true
            },
            _ => false,
        },
        None => false,
    }
}

fn check_candidate(c: &JsonValue) -> (r: bool)
    ensures
        r == candidate_ok(*c),
{
    match c {
        JsonValue::Obj(fields) => {
            check_uint_field(fields, "place_id", u32::MAX as u64) && check_string_field(
                fields,
                "licence",
            ) && check_string_field(fields, "osm_type") && check_uint_field(
                fields,
                "osm_id",
                u32::MAX as u64,
            ) && check_string_field(fields, "lat") && check_string_field(fields, "lon")
                && check_string_field(fields, "category") && check_string_field(fields, "type")
                && check_uint_field(fields, "place_rank", u8::MAX as u64) && check_number_field(
                fields,
                "importance",
            ) && check_string_field(fields, "addresstype") && check_string_field(fields, "name")
                && check_string_field(fields, "display_name") && check_string_array_field(
                fields,
                "boundingbox",
            )
        },
        _ => false,
    }
}

fn check_response(v: &JsonValue) -> (r: bool)
    ensures
        r == response_ok(*v),
{
    match v {
        JsonValue::Arr(cands) => {
            proof {
                assert(*v == JsonValue::Arr(*cands));
            }
            let n = cands.len();
            let mut i: usize = 0;
            while i < n
                invariant
                    n == cands@.len(),
                    i <= n,
                    *v == JsonValue::Arr(*cands),
                    forall|j: int| 0 <= j < i ==> candidate_ok(#[trigger] cands@[j]),
                decreases n - i,
            {
                let cand = &cands[i];
                if !check_candidate(cand) {
                    proof {
                        assert(!candidate_ok(cands@[i as int]));
                        assert(!all_candidates_ok(cands@));
                    }
                    return false;
                }
                i = i + 1;
            }
            proof {
                assert(all_candidates_ok(cands@));
            }
            true
        },
        _ => false,
    }
}

// ---------------------------------------------------------------------------
// Resolution.
// ---------------------------------------------------------------------------

/// The error a response must be answered with, if any: an error status first,
/// then a body that decodes to well-formed candidates, of which there must be
/// at least one, whose coordinates must be decimal numbers in range.
pub open spec fn resolve_err(status: u16, body: Seq<char>) -> Option<GeocodeError> {
    if 400 <= status <= 599 {
        Some(GeocodeError::HttpStatus(status))
    } else {
        match json_of(body) {
            None => Some(GeocodeError::DecodeError),
            Some(v) => if !response_ok(v) {
                Some(GeocodeError::DecodeError)
            } else if candidates_of(v).len() == 0 {
                Some(GeocodeError::NoResults)
            } else {
                let fs = fields_of(candidates_of(v)[0]);
                if !coord_in_range(str_field(fs, "lat"@), 90) || !coord_in_range(
                    str_field(fs, "lon"@),
                    180,
                ) {
                    Some(GeocodeError::InvalidCoordinate)
                } else {
                    None
                }
            },
        }
    }
}

impl Location {
    /// The invariant of every resolved location: at most ninety degrees of
    /// latitude and one hundred eighty of longitude from zero.
    pub open spec fn valid(self) -> bool {
        &&& -900_000_000 <= self.lat <= 900_000_000
        &&& -1_800_000_000 <= self.lon <= 1_800_000_000
    }

    /// The location a successful response resolves to: the display name and
    /// the parsed coordinates of candidate index 0, exactly.
    pub open spec fn matches_response(self, body: Seq<char>) -> bool {
        json_of(body) matches Some(v) && {
            let fs = fields_of(candidates_of(v)[0]);
            &&& self.display_name@ == str_field(fs, "display_name"@)
            &&& self.lat == coord_val_e7(str_field(fs, "lat"@))
            &&& self.lon == coord_val_e7(str_field(fs, "lon"@))
        }
    }

    /// Resolve a geocoding response: keep candidate index 0 and read its
    /// display name and coordinates.  Every failure is one typed error.
    pub fn from_response(status: u16, body: &str) -> (r: Result<Location, GeocodeError>)
        ensures
            (match r {
                Ok(loc) => {
                    &&& resolve_err(status, body@) is None
                    &&& loc.valid()
                    &&& loc.matches_response(body@)
                },
                Err(e) => resolve_err(status, body@) == Some(e),
            }),
    {
        if 400 <= status && status <= 599 {
            return Err(GeocodeError::HttpStatus(status));
        }
        let doc = parse_document(body);
        match doc {
            None => Err(GeocodeError::DecodeError),
            Some(v) => {
                if !check_response(&v) {
                    return Err(GeocodeError::DecodeError);
                }
                match &v {
                    JsonValue::Arr(cands) => {
                        if cands.len() == 0 {
                            return Err(GeocodeError::NoResults);
                        }
                        match &cands[0] {
                            JsonValue::Obj(fields) => {
                                proof {
                                    assert(candidate_ok(candidates_of(v)[0]));
                                }
                                let lat = match get_field(fields, "lat") {
                                    Some(JsonValue::Str(t)) => {
                                        match parse_coordinate_e7(t.as_str(), 90) {
                                            Some(x) => x,
                                            None => {
                                                return Err(GeocodeError::InvalidCoordinate);
                                            },
                                        }
                                    },
                                    _ => {
                                        return Err(GeocodeError::InvalidCoordinate);
                                    },
                                };
                                let lon = match get_field(fields, "lon") {
                                    Some(JsonValue::Str(t)) => {
                                        match parse_coordinate_e7(t.as_str(), 180) {
                                            Some(x) => x,
                                            None => {
                                                return Err(GeocodeError::InvalidCoordinate);
                                            },
                                        }
                                    },
                                    _ => {
                                        return Err(GeocodeError::InvalidCoordinate);
                                    },
                                };
                                let display_name = match get_field(fields, "display_name") {
                                    Some(JsonValue::Str(t)) => t.clone(),
                                    _ => {
                                        return Err(GeocodeError::DecodeError);
                                    },
                                };
                                Ok(Location { display_name, lat, lon })
                            },
                            _ => Err(GeocodeError::DecodeError),
                        }
                    },
                    _ => Err(GeocodeError::DecodeError),
                }
            },
        }
    }
}

} // verus!
