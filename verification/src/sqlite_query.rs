//! Query filters: the optional `i16` filter of a query string and the
//! pattern of a case-insensitive `LIKE` filter.
use vstd::prelude::*;

use crate::error::CoreError;
use crate::numparse::{parse_i16, parse_int};
use crate::text::{opt_view_str, owned, push_str, str_eq, trim, trim_str};

verus! {

/// What `str::to_lowercase` returns: the Unicode lowercase mapping of the
/// text, in which a capital sigma at the end of a word becomes a final
/// sigma; a function of the whole text.
pub uninterp spec fn unicode_lowercase(s: Seq<char>) -> Seq<char>;

/// `str::to_lowercase`, a function of the text alone.
#[verifier::external_body]
fn to_lowercase(s: &str) -> (r: String)
    ensures
        r@ == unicode_lowercase(s@),
{
    s.to_lowercase()
}

/// The bound value of a `LIKE` filter: the trimmed value, lowercased,
/// between `%` wildcards; `None` when the value is absent or blank.
pub open spec fn ilike_pattern_of(value: Option<Seq<char>>) -> Option<Seq<char>> {
    match value {
        Some(v) => if trim(v).len() == 0 {
            None
        } else {
            Some("%"@ + unicode_lowercase(trim(v)) + "%"@)
        },
        None => None,
    }
}

/// The bound value of a case-insensitive `LIKE` filter on `value`, or
/// `None` when no filter applies.
pub fn ilike_pattern(value: Option<&str>) -> (r: Option<String>)
    ensures
        r matches Some(p) ==> ilike_pattern_of(opt_view_str(value)) == Some(p@),
        r is None ==> ilike_pattern_of(opt_view_str(value)) is None,
{
    match value {
        Some(v) => {
            let t = trim_str(v);
            if t.as_str().is_empty() {
                None
            } else {
                let lower = to_lowercase(t.as_str());
                let mut p = owned("%");
                push_str(&mut p, lower.as_str());
                push_str(&mut p, "%");
                Some(p)
            }
        },
        None => None,
    }
}

/// The result of `parse_optional_i16_filter` on a value present in the
/// query: `Ok(default)` when blank, `Ok(None)` for `all`, the parsed number,
/// or `Err(text)` with the trimmed text that is no `i16`.
pub open spec fn i16_filter_of(value: Option<Seq<char>>, default_on_empty: Option<i16>) -> Result<
    Option<i16>,
    Seq<char>,
> {
    match value {
        None => Ok(default_on_empty),
        Some(v) => {
            let t = trim(v);
            if t.len() == 0 {
                Ok(default_on_empty)
            } else if t == "all"@ {
                Ok(None)
            } else {
                match parse_int(t, i16::MIN as int, i16::MAX as int) {
                    Some(n) => Ok(Some(n as i16)),
                    None => Err(t),
                }
            }
        },
    }
}

/// Parses an optional `i16` filter from query text: a missing or blank
/// value gives `default_on_empty`, `all` disables the filter, anything else
/// must be an `i16`, else `invalid input: Invalid <field> value: <text>`.
pub fn parse_optional_i16_filter(
    value: Option<&str>,
    field_name: &str,
    default_on_empty: Option<i16>,
) -> (r: Result<Option<i16>, CoreError>)
    ensures
        r matches Ok(x) ==> i16_filter_of(opt_view_str(value), default_on_empty) == Ok::<
            Option<i16>,
            Seq<char>,
        >(x),
        r matches Err(e) ==> (match i16_filter_of(opt_view_str(value), default_on_empty) {
            Err(t) => (e matches CoreError::InvalidInput(m) && m@ == "Invalid "@ + field_name@
                + " value: "@ + t),
            Ok(_) => false,
        }),
        i16_filter_of(opt_view_str(value), default_on_empty) is Ok ==> r is Ok,
{
    match value {
        None => Ok(default_on_empty),
        Some(v) => {
            let t = trim_str(v);
            if t.as_str().is_empty() {
                Ok(default_on_empty)
            } else if str_eq(t.as_str(), "all") {
                Ok(None)
            } else {
                match parse_i16(t.as_str()) {
                    Some(n) => Ok(Some(n)),
                    None => {
                        let mut m = owned("Invalid ");
                        push_str(&mut m, field_name);
                        push_str(&mut m, " value: ");
                        push_str(&mut m, t.as_str());
                        Err(CoreError::InvalidInput(m))
                    },
                }
            }
        },
    }
}


/// The SQL text a case-insensitive `LIKE` filter on `column` adds before
/// its bound pattern.
pub open spec fn ilike_filter_text(column: Seq<char>) -> Seq<char> {
    " AND LOWER("@ + column + ") LIKE "@
}

/// The SQL text of a case-insensitive `LIKE` filter on `column`, to be
/// followed by the bound pattern.
pub fn ilike_filter_sql(column: &str) -> (r: String)
    ensures
        r@ == ilike_filter_text(column@),
{
    let mut r = owned(" AND LOWER(");
    push_str(&mut r, column);
    push_str(&mut r, ") LIKE ");
    r
}

/// The SQL text an equality filter on `column` adds before its bound value.
pub open spec fn eq_filter_text(column: Seq<char>) -> Seq<char> {
    " AND "@ + column + " = "@
}

/// The SQL text of an equality filter on `column`, to be followed by the
/// bound value.
pub fn eq_filter_sql(column: &str) -> (r: String)
    ensures
        r@ == eq_filter_text(column@),
{
    let mut r = owned(" AND ");
    push_str(&mut r, column);
    push_str(&mut r, " = ");
    r
}

} // verus!
