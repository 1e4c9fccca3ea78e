//! The theme catalog: discovering theme descriptors among directory entries
//! and loading one against the fixed thirteen-field schema.
//!
//! A theme file is named `<identifier>.json`; the identifier is the file name
//! with the extension cut off, distinct from the display name inside the file.

use vstd::prelude::*;

use crate::json::JsonValue;
use crate::json::field_is_string;
use crate::json::fields_of;
use crate::json::get_field;
use crate::json::json_of;
use crate::json::parse_document;
use crate::json::str_field;

verus! {

/// Why a theme could not be loaded.
#[derive(Debug, Clone, PartialEq, Eq)]
pub enum ThemeError {
    /// The theme file is missing or unreadable.
    NotFound,
    /// The file's content is not valid JSON.
    MalformedJson,
    /// The named required field is missing or not a string.
    InvalidSchema(String),
}

/// A named set of rendering colors.
#[derive(Debug, Clone, PartialEq, Eq)]
pub struct Theme {
    pub name: String,
    pub description: String,
    pub bg: String,
    pub text: String,
    pub gradient_color: String,
    pub water: String,
    pub parks: String,
    pub road_motorway: String,
    pub road_primary: String,
    pub road_secondary: String,
    pub road_tertiary: String,
    pub road_residential: String,
    pub road_default: String,
}

/// The name of the first required field that is missing or not a string, in
/// the fixed schema order; `None` when the object satisfies the schema.
pub open spec fn theme_schema_error(fs: Seq<(String, JsonValue)>) -> Option<Seq<char>> {
    if !field_is_string(fs, "name"@) {
        Some("name"@)
    } else if !field_is_string(fs, "description"@) {
        Some("description"@)
    } else if !field_is_string(fs, "bg"@) {
        Some("bg"@)
    } else if !field_is_string(fs, "text"@) {
        Some("text"@)
    } else if !field_is_string(fs, "gradient_color"@) {
        Some("gradient_color"@)
    } else if !field_is_string(fs, "water"@) {
        Some("water"@)
    } else if !field_is_string(fs, "parks"@) {
        Some("parks"@)
    } else if !field_is_string(fs, "road_motorway"@) {
        Some("road_motorway"@)
    } else if !field_is_string(fs, "road_primary"@) {
        Some("road_primary"@)
    } else if !field_is_string(fs, "road_secondary"@) {
        Some("road_secondary"@)
    } else if !field_is_string(fs, "road_tertiary"@) {
        Some("road_tertiary"@)
    } else if !field_is_string(fs, "road_residential"@) {
        Some("road_residential"@)
    } else if !field_is_string(fs, "road_default"@) {
        Some("road_default"@)
    } else {
        None
    }
}

/// The theme carries exactly the strings of the thirteen schema fields.
pub open spec fn theme_matches_fields(t: Theme, fs: Seq<(String, JsonValue)>) -> bool {
    &&& t.name@ == str_field(fs, "name"@)
    &&& t.description@ == str_field(fs, "description"@)
    &&& t.bg@ == str_field(fs, "bg"@)
    &&& t.text@ == str_field(fs, "text"@)
    &&& t.gradient_color@ == str_field(fs, "gradient_color"@)
    &&& t.water@ == str_field(fs, "water"@)
    &&& t.parks@ == str_field(fs, "parks"@)
    &&& t.road_motorway@ == str_field(fs, "road_motorway"@)
    &&& t.road_primary@ == str_field(fs, "road_primary"@)
    &&& t.road_secondary@ == str_field(fs, "road_secondary"@)
    &&& t.road_tertiary@ == str_field(fs, "road_tertiary"@)
    &&& t.road_residential@ == str_field(fs, "road_residential"@)
    &&& t.road_default@ == str_field(fs, "road_default"@)
}

/// A directory entry that names a theme file: its final five characters are
/// the theme extension.
pub open spec fn is_theme_file(s: Seq<char>) -> bool {
    s.len() >= 5 && s.subrange(s.len() - 5, s.len() as int) == ".json"@
}

/// The identifier of a theme file: its name with the extension cut off.
pub open spec fn stem_of(s: Seq<char>) -> Seq<char> {
    s.subrange(0, s.len() - 5)
}

/// The identifiers contributed by a sequence of directory entries, in entry
/// order.
pub open spec fn theme_names_of(entries: Seq<Seq<char>>) -> Seq<Seq<char>>
    decreases entries.len(),
{
    if entries.len() == 0 {
        Seq::empty()
    } else {
        let rest = theme_names_of(entries.drop_last());
        if is_theme_file(entries.last()) {
            rest.push(stem_of(entries.last()))
        } else {
            rest
        }
    }
}

/// Whether a file name ends in the theme extension.
fn has_theme_extension(s: &String) -> (r: bool)
    ensures
        r == is_theme_file(s@),
{
    let st = s.as_str();
    let n = st.unicode_len();
    if n < 5 {
        return false;
    }
    let c1 = st.get_char(n - 5);
    let c2 = st.get_char(n - 4);
    let c3 = st.get_char(n - 3);
    let c4 = st.get_char(n - 2);
    let c5 = st.get_char(n - 1);
    let r = c1 == '.' && c2 == 'j' && c3 == 's' && c4 == 'o' && c5 == 'n';
    proof {
        reveal_strlit(".json");
        let t = s@.subrange(n as int - 5, n as int);
        assert(t[0] == c1 && t[1] == c2 && t[2] == c3 && t[3] == c4 && t[4] == c5);
        if r {
            assert(t =~= ".json"@);
        } else {
            assert(t != ".json"@);
        }
    }
    r
}

/// The identifier of a theme file's name.
fn stem_string(s: &String) -> (r: String)
    requires
        is_theme_file(s@),
    ensures
        r@ == stem_of(s@),
{
    let st = s.as_str();
    let n = st.unicode_len();
    let stem = st.substring_char(0, n - 5);
    String::from_str(stem)
}

/// Pull one required string field out of an object, or name it in the error.
fn take_string_field(fields: &Vec<(String, JsonValue)>, name: &str) -> (r: Result<
    String,
    ThemeError,
>)
    ensures
        (match r {
            Ok(t) => field_is_string(fields@, name@) && t@ == str_field(fields@, name@),
            Err(e) => {
                &&& !field_is_string(fields@, name@)
                &&& e matches ThemeError::InvalidSchema(f) && f@ == name@
            },
        }),
{
    let got = get_field(fields, name);
    match got {
        Some(jv) => match jv {
            JsonValue::Str(t) => Ok(t.clone()),
            _ => Err(ThemeError::InvalidSchema(String::from_str(name))),
        },
        None => Err(ThemeError::InvalidSchema(String::from_str(name))),
    }
}

fn theme_from_fields(fields: &Vec<(String, JsonValue)>) -> (r: Result<Theme, ThemeError>)
    ensures
        (match r {
            Ok(t) => theme_schema_error(fields@) is None && theme_matches_fields(t, fields@),
            Err(e) => e matches ThemeError::InvalidSchema(f) && theme_schema_error(fields@)
                == Some(f@),
        }),
{
    let name = match take_string_field(fields, "name") {
        Ok(t) => t,
        Err(e) => {
            return Err(e);
        },
    };
    let description = match take_string_field(fields, "description") {
        Ok(t) => t,
        Err(e) => {
            return Err(e);
        },
    };
    let bg = match take_string_field(fields, "bg") {
        Ok(t) => t,
        Err(e) => {
            return Err(e);
        },
    };
    let text = match take_string_field(fields, "text") {
        Ok(t) => t,
        Err(e) => {
            return Err(e);
        },
    };
    let gradient_color = match take_string_field(fields, "gradient_color") {
        Ok(t) => t,
        Err(e) => {
            return Err(e);
        },
    };
    let water = match take_string_field(fields, "water") {
        Ok(t) => t,
        Err(e) => {
            return Err(e);
        },
    };
    let parks = match take_string_field(fields, "parks") {
        Ok(t) => t,
        Err(e) => {
            return Err(e);
        },
    };
    let road_motorway = match take_string_field(fields, "road_motorway") {
        Ok(t) => t,
        Err(e) => {
            return Err(e);
        },
    };
    let road_primary = match take_string_field(fields, "road_primary") {
        Ok(t) => t,
        Err(e) => {
            return Err(e);
        },
    };
    let road_secondary = match take_string_field(fields, "road_secondary") {
        Ok(t) => t,
        Err(e) => {
            return Err(e);
        },
    };
    let road_tertiary = match take_string_field(fields, "road_tertiary") {
        Ok(t) => t,
        Err(e) => {
            return Err(e);
        },
    };
    let road_residential = match take_string_field(fields, "road_residential") {
        Ok(t) => t,
        Err(e) => {
            return Err(e);
        },
    };
    let road_default = match take_string_field(fields, "road_default") {
        Ok(t) => t,
        Err(e) => {
            return Err(e);
        },
    };
    Ok(
        Theme {
            name,
            description,
            bg,
            text,
            gradient_color,
            water,
            parks,
            road_motorway,
            road_primary,
            road_secondary,
            road_tertiary,
            road_residential,
            road_default,
        },
    )
}

impl Theme {
    /// Check a parsed document against the theme schema; any value that is
    /// not an object misses every required field.
    pub fn from_json(v: &JsonValue) -> (r: Result<Theme, ThemeError>)
        ensures
            (match r {
                Ok(t) => theme_schema_error(fields_of(*v)) is None && theme_matches_fields(
                    t,
                    fields_of(*v),
                ),
                Err(e) => e matches ThemeError::InvalidSchema(f) && theme_schema_error(
                    fields_of(*v),
                ) == Some(f@),
            }),
    {
        match v {
            JsonValue::Obj(fs) => theme_from_fields(fs),
            _ => {
                proof {
                    assert(fields_of(*v) =~= Seq::<(String, JsonValue)>::empty());
                }
                Err(ThemeError::InvalidSchema(String::from_str("name")))
            },
        }
    }

    /// The identifiers contributed by the given directory entries: the stem
    /// of every entry that ends in the theme extension, in entry order.
    /// Entries that do not look like theme files are silently skipped.
    pub fn get_available_names(entries: &Vec<String>) -> (r: Vec<String>)
        ensures
            r.deep_view() == theme_names_of(entries.deep_view()),
    {
        let ghost dv = entries.deep_view();
        let mut out: Vec<String> = Vec::new();
        let n = entries.len();
        let mut i: usize = 0;
        proof {
            assert(dv.len() == entries@.len());
            assert(out.deep_view() =~= theme_names_of(dv.take(0))) by {
                assert(dv.take(0) =~= Seq::<Seq<char>>::empty());
            }
        }
        while i < n
            invariant
                n == entries@.len(),
                i <= n,
                dv == entries.deep_view(),
                dv.len() == n,
                out.deep_view() == theme_names_of(dv.take(i as int)),
            decreases n - i,
        {
            let e = &entries[i];
            let ghost prev = out.deep_view();
            if has_theme_extension(e) {
                let stem = stem_string(e);
                out.push(stem);
                proof {
                    assert(out.deep_view() =~= prev.push(stem_of(dv[i as int]))) by {
                        assert(dv[i as int] == entries@[i as int]@);
                    }
                }
            }
            proof {
                assert(dv.take(i as int + 1).drop_last() =~= dv.take(i as int));
                assert(dv.take(i as int + 1).last() == dv[i as int]);
                assert(dv[i as int] == entries@[i as int]@);
            }
            i = i + 1;
        }
        proof {
            assert(dv.take(n as int) =~= dv);
        }
        out
    }

    /// The path of the file that holds the named theme: the identifier with
    /// the extension appended, under the theme directory.
    pub fn theme_file_path(theme_dir: &str, name: &str) -> (r: String)
        ensures
            r@ == theme_dir@ + "/"@ + name@ + ".json"@,
    {
        let mut p = String::from_str(theme_dir);
        p.append("/");
        p.append(name);
        p.append(".json");
        p
    }

    /// Load a theme from the content of its file; `None` stands for a file
    /// that is missing or could not be read.  Fails with `NotFound` for such
    /// a file, `MalformedJson` for a body that is not JSON, and
    /// `InvalidSchema` naming the first bad field otherwise.
    pub fn get_by_name(content: &Option<String>) -> (r: Result<Theme, ThemeError>)
        ensures
            (match content {
                None => r == Err::<Theme, ThemeError>(ThemeError::NotFound),
                Some(text) => (match json_of(text@) {
                    None => r == Err::<Theme, ThemeError>(ThemeError::MalformedJson),
                    Some(v) => (match r {
                        Ok(t) => theme_schema_error(fields_of(v)) is None && theme_matches_fields(
                            t,
                            fields_of(v),
                        ),
                        Err(e) => e matches ThemeError::InvalidSchema(f) && theme_schema_error(
                            fields_of(v),
                        ) == Some(f@),
                    }),
                }),
            }),
    {
        match content {
            None => Err(ThemeError::NotFound),
            Some(text) => match parse_document(text.as_str()) {
                None => Err(ThemeError::MalformedJson),
                Some(v) => Theme::from_json(&v),
            },
        }
    }
}

/// An identifier with the extension appended names a theme file, and that
/// file's identifier is the one appended to.
proof fn lemma_extension_roundtrip(x: Seq<char>)
    ensures
        is_theme_file(x + ".json"@),
        stem_of(x + ".json"@) == x,
{
    reveal_strlit(".json");
    let e = x + ".json"@;
    assert(e.subrange(e.len() - 5, e.len() as int) =~= ".json"@);
    assert(e.subrange(0, e.len() - 5) =~= x);
}

/// A theme file is its identifier with the extension appended.
proof fn lemma_theme_file_shape(e: Seq<char>)
    requires
        is_theme_file(e),
    ensures
        e == stem_of(e) + ".json"@,
{
    assert(e =~= e.subrange(0, e.len() - 5) + e.subrange(e.len() - 5, e.len() as int));
}

/// An identifier is listed exactly when the entries hold the file that names
/// it.
pub proof fn lemma_theme_names_membership(entries: Seq<Seq<char>>, x: Seq<char>)
    ensures
        theme_names_of(entries).contains(x) <==> entries.contains(x + ".json"@),
    decreases entries.len(),
{
    if entries.len() == 0 {
        assert(!theme_names_of(entries).contains(x));
        assert(!entries.contains(x + ".json"@));
    } else {
        let head = entries.drop_last();
        let last = entries.last();
        lemma_theme_names_membership(head, x);
        let names = theme_names_of(entries);
        if theme_names_of(entries).contains(x) {
            if is_theme_file(last) && x == stem_of(last) {
                lemma_theme_file_shape(last);
                assert(entries[entries.len() - 1] == x + ".json"@);
                assert(entries.contains(x + ".json"@));
            } else {
                let i = choose|i: int| 0 <= i < names.len() && names[i] == x;
                assert(theme_names_of(head).contains(x)) by {
                    if is_theme_file(last) {
                        assert(names == theme_names_of(head).push(stem_of(last)));
                        assert(i < names.len() - 1);
                        assert(theme_names_of(head)[i] == x);
                    }
                }
                let j = choose|j: int| 0 <= j < head.len() && head[j] == x + ".json"@;
                assert(entries[j] == x + ".json"@);
                assert(entries.contains(x + ".json"@));
            }
        }
        if entries.contains(x + ".json"@) {
            let i = choose|i: int| 0 <= i < entries.len() && entries[i] == x + ".json"@;
            if i == entries.len() - 1 {
                lemma_extension_roundtrip(x);
                assert(is_theme_file(last) && stem_of(last) == x);
                assert(names == theme_names_of(head).push(x));
                assert(names[names.len() - 1] == x);
                assert(names.contains(x));
            } else {
                assert(head[i] == x + ".json"@);
                assert(head.contains(x + ".json"@));
                let k = choose|k: int|
                    0 <= k < theme_names_of(head).len() && theme_names_of(head)[k] == x;
                assert(names.len() >= theme_names_of(head).len());
                assert(names[k] == x);
                assert(names.contains(x));
            }
        }
    }
}

/// Listing is a function of the entry set alone: two directory scans that see
/// the same entries, in whatever order and multiplicity, list the same
/// identifier set.
pub proof fn lemma_list_order_independent(e1: Seq<Seq<char>>, e2: Seq<Seq<char>>)
    requires
        e1.to_set() == e2.to_set(),
    ensures
        theme_names_of(e1).to_set() == theme_names_of(e2).to_set(),
{
    broadcast use vstd::set::group_set_axioms;

    assert forall|x: Seq<char>|
        theme_names_of(e1).to_set().contains(x) == theme_names_of(e2).to_set().contains(x) by {
        lemma_theme_names_membership(e1, x);
        lemma_theme_names_membership(e2, x);
        assert(e1.to_set().contains(x + ".json"@) == e2.to_set().contains(x + ".json"@));
        assert(theme_names_of(e1).to_set().contains(x) == theme_names_of(e1).contains(x));
        assert(theme_names_of(e2).to_set().contains(x) == theme_names_of(e2).contains(x));
        assert(e1.to_set().contains(x + ".json"@) == e1.contains(x + ".json"@));
        assert(e2.to_set().contains(x + ".json"@) == e2.contains(x + ".json"@));
    }
    assert(theme_names_of(e1).to_set() =~= theme_names_of(e2).to_set());
}

} // verus!
