//! One poster run: resolve the geocoding response and name the output file.

use vstd::prelude::*;

use crate::location::GeocodeError;
use crate::location::Location;
use crate::location::resolve_err;

verus! {

/// What lowercasing a text yields.
pub uninterp spec fn lower_of(s: Seq<char>) -> Seq<char>;

/// Relies on `str::to_lowercase`: the result depends on the characters alone.
#[verifier::external_body]
fn lowercase(s: &str) -> (r: String)
    ensures
        r@ == lower_of(s@),
{
    s.to_lowercase()
}

/// Blanks replaced by underscores.
pub open spec fn underscored(s: Seq<char>) -> Seq<char> {
    s.map_values(
        |c: char|
            if c == ' ' {
                '_'
            } else {
                c
            },
    )
}

/// The city part of an output file name: lowercased, blanks underscored.
pub open spec fn city_slug(city: Seq<char>) -> Seq<char> {
    underscored(lower_of(city))
}

fn slugify(city: &str) -> (r: String)
    ensures
        r@ == city_slug(city@),
{
    let lowered = lowercase(city);
    let lo = lowered.as_str();
    let n = lo.unicode_len();
    let mut out = String::new();
    let mut i: usize = 0;
    proof {
        assert(out@ =~= underscored(lo@.take(0)));
    }
    while i < n
        invariant
            n == lo@.len(),
            i <= n,
            lo@ == lower_of(city@),
            out@ == underscored(lo@.take(i as int)),
        decreases n - i,
    {
        let c = lo.get_char(i);
        if c == ' ' {
            out.append("_");
            proof {
                reveal_strlit("_");
                assert(out@ =~= underscored(lo@.take(i as int + 1)));
            }
        } else {
            let piece = lo.substring_char(i, i + 1);
            out.append(piece);
            proof {
                assert(piece@ =~= seq![lo@[i as int]]);
                assert(out@ =~= underscored(lo@.take(i as int + 1)));
            }
        }
        i = i + 1;
    }
    proof {
        assert(lo@.take(n as int) =~= lo@);
    }
    out
}

/// The name of the file a poster is written to:
/// `<dir>/<city slug>_<theme>_<timestamp>.png`.
pub open spec fn output_filename_spec(
    city: Seq<char>,
    theme_name: Seq<char>,
    theme_dir: Seq<char>,
    timestamp: Seq<char>,
) -> Seq<char> {
    theme_dir + "/"@ + city_slug(city) + "_"@ + theme_name + "_"@ + timestamp + ".png"@
}

/// Build the output file name for a poster from the city, the theme name,
/// the directory and a timestamp text.
pub fn generate_output_filename(
    city: &str,
    theme_name: &str,
    theme_dir: &str,
    timestamp: &str,
) -> (r: String)
    ensures
        r@ == output_filename_spec(city@, theme_name@, theme_dir@, timestamp@),
{
    let slug = slugify(city);
    let mut out = String::from_str(theme_dir);
    out.append("/");
    out.append(slug.as_str());
    out.append("_");
    out.append(theme_name);
    out.append("_");
    out.append(timestamp);
    out.append(".png");
    out
}

/// One poster run after the outside work is done: resolve the geocoding
/// response (`status` and `body`) into a location, and name the output file
/// with the given timestamp.  Every failure is the response's own error.
pub fn create_poster(
    city: &str,
    theme_name: &str,
    theme_dir: &str,
    status: u16,
    body: &str,
    timestamp: &str,
) -> (r: Result<(Location, String), GeocodeError>)
    ensures
        (match r {
            Ok(p) => {
                &&& resolve_err(status, body@) is None
                &&& p.0.valid()
                &&& p.0.matches_response(body@)
                &&& p.1@ == output_filename_spec(city@, theme_name@, theme_dir@, timestamp@)
            },
            Err(e) => resolve_err(status, body@) == Some(e),
        }),
{
    let location = match Location::from_response(status, body) {
        Ok(l) => l,
        Err(e) => {
            return Err(e);
        },
    };
    let output_file = generate_output_filename(city, theme_name, theme_dir, timestamp);
    Ok((location, output_file))
}

} // verus!
