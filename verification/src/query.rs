//! The query contract: the external filename parse consumed through its
//! output shape (a mandatory title, an optional year and season), the search
//! strings built from it, and the slug used by the poster fallback.

use vstd::prelude::*;
use vstd::string::StrSliceExecFns;
use vstd::string::StringExecFns;

use crate::text::chars_of;
use crate::text::contains_nul;
use crate::text::has_nul;
use crate::text::is_digit;
use crate::text::join_sep;
use crate::text::join_with_sep;
use crate::text::lower_of;
use crate::text::lowercase;
use crate::text::string_from_chars;
use crate::text::string_views;
use crate::text::views_of;

verus! {

/// Whether anitomy parses this string at all.
pub uninterp spec fn filename_parse_ok(q: Seq<char>) -> bool;

/// The anime title anitomy extracts, when the parse succeeds.
pub uninterp spec fn filename_title(q: Seq<char>) -> Option<Seq<char>>;

/// The anime year anitomy extracts, when the parse succeeds.
pub uninterp spec fn filename_year(q: Seq<char>) -> Option<Seq<char>>;

/// The anime season anitomy extracts, when the parse succeeds.
pub uninterp spec fn filename_season(q: Seq<char>) -> Option<Seq<char>>;

/// Relies on anitomy's `Anitomy::parse` and `Elements::get`: the parse of a
/// release filename is a function of its characters alone, and `get` hands
/// back the element of the asked category when one was extracted. The parse
/// converts its input through `CString::new` and panics on an interior NUL
/// character, so NUL-holding queries are excluded here; `parse_query` tests
/// for them before calling.
#[verifier::external_body]
fn parse_filename(query: &str) -> (r: Option<(Option<String>, Option<String>, Option<String>)>)
    requires
        !has_nul(query@),
    ensures
        match r {
            Some(t) => filename_parse_ok(query@) && t.0.deep_view() == filename_title(query@)
                && t.1.deep_view() == filename_year(query@) && t.2.deep_view() == filename_season(
                query@,
            ),
            None => !filename_parse_ok(query@),
        },
{
    let mut parser = anitomy::Anitomy::new();
    match parser.parse(query) {
        Ok(elements) => Some(
            (
                elements.get(anitomy::ElementCategory::AnimeTitle).map(str::to_string),
                elements.get(anitomy::ElementCategory::AnimeYear).map(str::to_string),
                elements.get(anitomy::ElementCategory::AnimeSeason).map(str::to_string),
            ),
        ),
        Err(_) => None,
    }
}

/// One request's parsed query: the raw text and the external parser's
/// title/year/season extraction. A missing title makes the whole query
/// invalid, so a `ParsedQuery` always carries one.
#[derive(Clone, Debug)]
pub struct ParsedQuery {
    pub file_name: String,
    pub anime_title: String,
    pub anime_year: Option<String>,
    pub anime_season: Option<String>,
}

/// Parses a raw query: `Some` exactly when the query is free of NUL
/// characters (which the parser cannot take), anitomy parses it and extracts
/// a title; the raw text is kept verbatim beside the extracted fields.
pub fn parse_query(query: &str) -> (r: Option<ParsedQuery>)
    ensures
        match r {
            Some(p) => !has_nul(query@) && filename_parse_ok(query@) && p.file_name@ == query@
                && filename_title(query@) == Some(p.anime_title@) && p.anime_year.deep_view()
                == filename_year(query@) && p.anime_season.deep_view() == filename_season(query@),
            None => has_nul(query@) || !filename_parse_ok(query@) || filename_title(
                query@,
            ) is None,
        },
{
    let qv = chars_of(query);
    if contains_nul(&qv) {
        return None;
    }
    match parse_filename(query) {
        Option::Some(parts) => {
            let (title_opt, year, season) = parts;
            match title_opt {
                Option::Some(title) => Some(
                    ParsedQuery {
                        file_name: query.to_owned(),
                        anime_title: title,
                        anime_year: year,
                        anime_season: season,
                    },
                ),
                Option::None => None,
            }
        },
        Option::None => None,
    }
}

/// The title-based search string: `"{title} ({year})"` when a year was
/// parsed, the bare title otherwise.
pub open spec fn spec_search_string(p: ParsedQuery) -> Seq<char> {
    match p.anime_year {
        Some(y) => p.anime_title@ + " ("@ + y@ + ")"@,
        None => p.anime_title@,
    }
}

pub fn get_search_string(parsed: &ParsedQuery) -> (r: String)
    ensures
        r@ == spec_search_string(*parsed),
{
    match &parsed.anime_year {
        Option::Some(y) => {
            let mut s = parsed.anime_title.clone();
            s.append(" (");
            s.append(y.as_str());
            s.append(")");
            proof {
                assert(s@ =~= parsed.anime_title@ + " ("@ + y@ + ")"@);
            }
            s
        },
        Option::None => parsed.anime_title.clone(),
    }
}

/// The title-only rungs of the search ladder: the combined
/// `"{title} ({year})"` form first, then — only when a year was parsed — the
/// bare title as a retry.
pub open spec fn spec_title_searches(p: ParsedQuery) -> Seq<Seq<char>> {
    match p.anime_year {
        Some(_) => seq![spec_search_string(p), p.anime_title@],
        None => seq![p.anime_title@],
    }
}

/// The full search ladder: the raw query text verbatim when it is non-empty,
/// then the title-based rungs. The caller runs the searches in this order and
/// stops at the first non-empty result set, which also fixes the query string
/// scoring uses.
pub open spec fn spec_search_attempts(p: ParsedQuery) -> Seq<Seq<char>> {
    if p.file_name@.len() > 0 {
        seq![p.file_name@] + spec_title_searches(p)
    } else {
        spec_title_searches(p)
    }
}

/// The title-only search plan (the fallback ladder that bypasses the raw
/// filename attempt).
pub fn search_by_title_attempts(parsed: &ParsedQuery) -> (r: Vec<String>)
    ensures
        string_views(r@) == spec_title_searches(*parsed),
{
    let mut out: Vec<String> = Vec::new();
    out.push(get_search_string(parsed));
    if parsed.anime_year.is_some() {
        out.push(parsed.anime_title.clone());
    }
    proof {
        assert(string_views(out@) =~= spec_title_searches(*parsed));
    }
    out
}

/// The full search plan for a request, in the order the strategies are tried.
pub fn search_candidate_attempts(parsed: &ParsedQuery) -> (r: Vec<String>)
    ensures
        string_views(r@) == spec_search_attempts(*parsed),
{
    let mut out: Vec<String> = Vec::new();
    if parsed.file_name.as_str().unicode_len() > 0 {
        out.push(parsed.file_name.clone());
    }
    out.push(get_search_string(parsed));
    if parsed.anime_year.is_some() {
        out.push(parsed.anime_title.clone());
    }
    proof {
        assert(string_views(out@) =~= spec_search_attempts(*parsed));
    }
    out
}

/// Characters a slug keeps as they are: ASCII letters, digits and `_`.
pub open spec fn slug_keep(c: char) -> bool {
    ||| (0x61 <= c as u32 && c as u32 <= 0x7a)
    ||| (0x41 <= c as u32 && c as u32 <= 0x5a)
    ||| is_digit(c)
    ||| c == '_'
}

/// Characters the slug silently drops: parentheses, the two apostrophes, `+`
/// and `@`.
pub open spec fn slug_dropped(c: char) -> bool {
    c == '(' || c == ')' || c == '\'' || c as u32 == 0x2019 || c == '+' || c == '@'
}

/// Index of the first `]` with no newline before it, `-1` when the bracket
/// never closes on this line (the span a non-greedy `\[.*?\]` would cover).
pub open spec fn bracket_close(s: Seq<char>) -> int
    decreases s.len(),
{
    if s.len() == 0 {
        -1
    } else if s[0] == ']' {
        0
    } else if s[0] == '\n' {
        -1
    } else {
        let r = bracket_close(s.drop_first());
        if r >= 0 {
            1 + r
        } else {
            -1
        }
    }
}

pub proof fn lemma_bracket_close_bounds(s: Seq<char>)
    ensures
        -1 <= bracket_close(s) < s.len(),
    decreases s.len(),
{
    if s.len() > 0 && s[0] != ']' && s[0] != '\n' {
        lemma_bracket_close_bounds(s.drop_first());
    }
}

/// Bracketed spans removed: from each `[`, everything through the first `]`
/// on the same line goes; a `[` that never closes stays.
pub open spec fn strip_brackets(s: Seq<char>) -> Seq<char>
    decreases s.len(),
    via strip_brackets_decreases
{
    if s.len() == 0 {
        Seq::empty()
    } else if s[0] == '[' {
        let r = bracket_close(s.drop_first());
        if r >= 0 {
            strip_brackets(s.subrange(r + 2, s.len() as int))
        } else {
            seq!['['] + strip_brackets(s.drop_first())
        }
    } else {
        seq![s[0]] + strip_brackets(s.drop_first())
    }
}

#[via_fn]
proof fn strip_brackets_decreases(s: Seq<char>) {
    if s.len() > 0 && s[0] == '[' {
        lemma_bracket_close_bounds(s.drop_first());
    }
}

fn strip_brackets_chars(v: &Vec<char>) -> (r: Vec<char>)
    ensures
        r@ == strip_brackets(v@),
{
    let n = v.len();
    let mut out: Vec<char> = Vec::new();
    let mut i: usize = 0;
    proof {
        assert(v@.skip(0) =~= v@);
    }
    while i < n
        invariant
            n == v@.len(),
            i <= n,
            strip_brackets(v@) =~= out@ + strip_brackets(v@.skip(i as int)),
        decreases n - i,
    {
        let c = v[i];
        if c == '[' {
            proof {
                assert(v@.skip(i as int).drop_first() =~= v@.skip(i + 1));
            }
            let mut j: usize = i + 1;
            while j < n && v[j] != ']' && v[j] != '\n'
                invariant
                    n == v@.len(),
                    i + 1 <= j <= n,
                    bracket_close(v@.skip(i + 1)) == if bracket_close(v@.skip(j as int)) >= 0 {
                        (j - i - 1) + bracket_close(v@.skip(j as int))
                    } else {
                        -1int
                    },
                decreases n - j,
            {
                proof {
                    assert(v@.skip(j as int).drop_first() =~= v@.skip(j + 1));
                    lemma_bracket_close_bounds(v@.skip(j + 1));
                }
                j = j + 1;
            }
            if j < n && v[j] == ']' {
                proof {
                    assert(bracket_close(v@.skip(j as int)) == 0);
                    let r = bracket_close(v@.skip(i + 1));
                    assert(r == j - i - 1);
                    assert(v@.skip(i as int).subrange(r + 2, v@.skip(i as int).len() as int)
                        =~= v@.skip(j + 1));
                }
                i = j + 1;
            } else {
                proof {
                    if j < n {
                        assert(bracket_close(v@.skip(j as int)) == -1);
                    } else {
                        assert(v@.skip(j as int) =~= Seq::<char>::empty());
                    }
                    assert(bracket_close(v@.skip(i + 1)) == -1);
                }
                out.push('[');
                proof {
                    assert(out@ + strip_brackets(v@.skip(i + 1)) =~= out@.drop_last()
                        + strip_brackets(v@.skip(i as int)));
                }
                i = i + 1;
            }
        } else {
            out.push(c);
            proof {
                assert(v@.skip(i as int).drop_first() =~= v@.skip(i + 1));
                assert(out@ + strip_brackets(v@.skip(i + 1)) =~= out@.drop_last()
                    + strip_brackets(v@.skip(i as int)));
            }
            i = i + 1;
        }
    }
    proof {
        assert(v@.skip(n as int) =~= Seq::<char>::empty());
        assert(out@ =~= strip_brackets(v@));
    }
    out
}

/// The dropped punctuation removed.
pub open spec fn strip_punct(s: Seq<char>) -> Seq<char>
    decreases s.len(),
{
    if s.len() == 0 {
        Seq::empty()
    } else if slug_dropped(s[0]) {
        strip_punct(s.drop_first())
    } else {
        seq![s[0]] + strip_punct(s.drop_first())
    }
}

fn slug_dropped_char(c: char) -> (r: bool)
    ensures
        r == slug_dropped(c),
{
    c == '(' || c == ')' || c == '\'' || c as u32 == 0x2019 || c == '+' || c == '@'
}

fn strip_punct_chars(v: &Vec<char>) -> (r: Vec<char>)
    ensures
        r@ == strip_punct(v@),
{
    let n = v.len();
    let mut out: Vec<char> = Vec::new();
    let mut i: usize = 0;
    proof {
        assert(v@.skip(0) =~= v@);
    }
    while i < n
        invariant
            n == v@.len(),
            i <= n,
            strip_punct(v@) =~= out@ + strip_punct(v@.skip(i as int)),
        decreases n - i,
    {
        let c = v[i];
        proof {
            assert(v@.skip(i as int).drop_first() =~= v@.skip(i + 1));
        }
        if !slug_dropped_char(c) {
            out.push(c);
            proof {
                assert(out@ + strip_punct(v@.skip(i + 1)) =~= out@.drop_last() + strip_punct(
                    v@.skip(i as int),
                ));
            }
        }
        i = i + 1;
    }
    proof {
        assert(v@.skip(n as int) =~= Seq::<char>::empty());
        assert(out@ =~= strip_punct(v@));
    }
    out
}

/// Every maximal run of non-slug characters replaced by one `-`;
/// `prev_dash` says whether such a run is already open.
pub open spec fn collapse_runs(s: Seq<char>, prev_dash: bool) -> Seq<char>
    decreases s.len(),
{
    if s.len() == 0 {
        Seq::empty()
    } else if slug_keep(s[0]) {
        seq![s[0]] + collapse_runs(s.drop_first(), false)
    } else if prev_dash {
        collapse_runs(s.drop_first(), true)
    } else {
        seq!['-'] + collapse_runs(s.drop_first(), true)
    }
}

fn slug_keep_char(c: char) -> (r: bool)
    ensures
        r == slug_keep(c),
{
    let u = c as u32;
    (0x61 <= u && u <= 0x7a) || (0x41 <= u && u <= 0x5a) || (0x30 <= u && u <= 0x39) || c == '_'
}

fn collapse_runs_chars(v: &Vec<char>) -> (r: Vec<char>)
    ensures
        r@ == collapse_runs(v@, false),
{
    let n = v.len();
    let mut out: Vec<char> = Vec::new();
    let mut i: usize = 0;
    let mut prev_dash = false;
    proof {
        assert(v@.skip(0) =~= v@);
    }
    while i < n
        invariant
            n == v@.len(),
            i <= n,
            collapse_runs(v@, false) =~= out@ + collapse_runs(v@.skip(i as int), prev_dash),
        decreases n - i,
    {
        let c = v[i];
        proof {
            assert(v@.skip(i as int).drop_first() =~= v@.skip(i + 1));
        }
        if slug_keep_char(c) {
            out.push(c);
            proof {
                assert(out@ + collapse_runs(v@.skip(i + 1), false) =~= out@.drop_last()
                    + collapse_runs(v@.skip(i as int), prev_dash));
            }
            prev_dash = false;
        } else if prev_dash {
        } else {
            out.push('-');
            proof {
                assert(out@ + collapse_runs(v@.skip(i + 1), true) =~= out@.drop_last()
                    + collapse_runs(v@.skip(i as int), prev_dash));
            }
            prev_dash = true;
        }
        i = i + 1;
    }
    proof {
        assert(v@.skip(n as int) =~= Seq::<char>::empty());
        assert(out@ =~= collapse_runs(v@, false));
    }
    out
}

pub open spec fn drop_leading_dashes(s: Seq<char>) -> Seq<char>
    decreases s.len(),
{
    if s.len() > 0 && s[0] == '-' {
        drop_leading_dashes(s.drop_first())
    } else {
        s
    }
}

pub open spec fn drop_trailing_dashes(s: Seq<char>) -> Seq<char>
    decreases s.len(),
{
    if s.len() > 0 && s.last() == '-' {
        drop_trailing_dashes(s.drop_last())
    } else {
        s
    }
}

/// Leading and trailing dashes removed, as `str::trim_matches('-')` does.
pub open spec fn trim_dashes(s: Seq<char>) -> Seq<char> {
    drop_trailing_dashes(drop_leading_dashes(s))
}

fn trim_dashes_chars(v: &Vec<char>) -> (r: Vec<char>)
    ensures
        r@ == trim_dashes(v@),
{
    let n = v.len();
    let mut a: usize = 0;
    proof {
        assert(v@.skip(0) =~= v@);
    }
    while a < n && v[a] == '-'
        invariant
            n == v@.len(),
            a <= n,
            drop_leading_dashes(v@) == drop_leading_dashes(v@.skip(a as int)),
        decreases n - a,
    {
        proof {
            assert(v@.skip(a as int).drop_first() =~= v@.skip(a + 1));
        }
        a = a + 1;
    }
    proof {
        if a < n {
            assert(drop_leading_dashes(v@.skip(a as int)) == v@.skip(a as int));
        } else {
            assert(v@.skip(a as int) =~= Seq::<char>::empty());
        }
        assert(drop_leading_dashes(v@) == v@.skip(a as int));
    }
    let ghost led = v@.skip(a as int);
    let mut b: usize = n;
    while b > a && v[b - 1] == '-'
        invariant
            n == v@.len(),
            a <= b <= n,
            led == v@.skip(a as int),
            drop_trailing_dashes(led) == drop_trailing_dashes(v@.subrange(a as int, b as int)),
        decreases b,
    {
        proof {
            assert(v@.subrange(a as int, b as int).drop_last() =~= v@.subrange(a as int, b - 1));
            assert(v@.subrange(a as int, b as int).last() == v@[b - 1]);
        }
        b = b - 1;
    }
    proof {
        let cur = v@.subrange(a as int, b as int);
        if b > a {
            assert(cur.last() == v@[b - 1]);
            assert(drop_trailing_dashes(cur) == cur);
        } else {
            assert(cur =~= Seq::<char>::empty());
        }
        assert(trim_dashes(v@) == v@.subrange(a as int, b as int));
    }
    let mut out: Vec<char> = Vec::new();
    let mut i: usize = a;
    while i < b
        invariant
            b <= n,
            n == v@.len(),
            a <= i <= b,
            out@ =~= v@.subrange(a as int, i as int),
        decreases b - i,
    {
        out.push(v[i]);
        proof {
            assert(v@.subrange(a as int, i + 1) =~= v@.subrange(a as int, i as int).push(
                v@[i as int],
            ));
        }
        i = i + 1;
    }
    out
}

/// What `slugify` yields: the case fold of the text, bracketed spans and the
/// dropped punctuation removed, every other non-slug run one `-`, and outer
/// dashes trimmed.
pub open spec fn slug_of(s: Seq<char>) -> Seq<char> {
    trim_dashes(collapse_runs(strip_punct(strip_brackets(lower_of(s))), false))
}

/// The lowercase, hyphen-delimited slug of a title.
pub fn slugify(text: &str) -> (r: String)
    ensures
        r@ == slug_of(text@),
{
    let trimmed = slug_chars(text);
    string_from_chars(&trimmed)
}

pub(crate) fn slug_chars(text: &str) -> (r: Vec<char>)
    ensures
        r@ == slug_of(text@),
{
    let lowered = chars_of(lowercase(text).as_str());
    let no_brackets = strip_brackets_chars(&lowered);
    let no_punct = strip_punct_chars(&no_brackets);
    let collapsed = collapse_runs_chars(&no_punct);
    trim_dashes_chars(&collapsed)
}

} // verus!
