//! Candidate scoring and selection.
//!
//! Scores are exact rationals kept as integers: for a fixed query every
//! candidate shares the denominator `rel_den(q)` (the count of its scoring
//! tokens, at least 1), so `title relevance = num / rel_den` and
//! `hybrid score = hybrid_num / (10 * rel_den)`. Comparing the scaled
//! numerators compares the real scores, with no floating point anywhere.

use vstd::prelude::*;

use crate::candidate::CandidateRecord;
use crate::candidate::spec_image_url;
use crate::candidate::extract_image_url;
use crate::text::chars_eq;
use crate::text::chars_of;
use crate::text::contains_chars;
use crate::text::contains_sub;
use crate::text::count_contained;
use crate::text::count_contained_tokens;
use crate::text::is_blank;
use crate::text::is_blank_chars;
use crate::text::is_digit;
use crate::text::join_space;
use crate::text::join_with_space;
use crate::text::long_tokens;
use crate::text::lower_of;
use crate::text::lowercase;
use crate::text::replace_char;
use crate::text::replace_chars;
use crate::text::split_long_tokens;
use crate::text::views_of;

verus! {

/// The case-folded view of an optional field, absent meaning empty.
pub open spec fn lowered_field(o: Option<String>) -> Seq<char> {
    match o {
        Some(s) => lower_of(s@),
        None => Seq::empty(),
    }
}

fn lowered_chars(o: &Option<String>) -> (r: Vec<char>)
    ensures
        r@ == lowered_field(*o),
{
    match o {
        Option::Some(s) => chars_of(lowercase(s.as_str()).as_str()),
        Option::None => Vec::new(),
    }
}

/// The case-folded views of a record's aliases.
pub open spec fn lowered_aliases(a: Seq<String>) -> Seq<Seq<char>> {
    a.map_values(|s: String| lower_of(s@))
}

fn lowered_aliases_chars(aliases: &Vec<String>) -> (r: Vec<Vec<char>>)
    ensures
        views_of(r@) == lowered_aliases(aliases@),
{
    let n = aliases.len();
    let mut out: Vec<Vec<char>> = Vec::new();
    let mut i: usize = 0;
    while i < n
        invariant
            n == aliases@.len(),
            i <= n,
            views_of(out@) =~= lowered_aliases(aliases@.take(i as int)),
        decreases n - i,
    {
        let ghost old_views = views_of(out@);
        let low = chars_of(lowercase(aliases[i].as_str()).as_str());
        let ghost lowv = low@;
        out.push(low);
        proof {
            assert(views_of(out@) =~= old_views.push(lowv));
            assert(lowered_aliases(aliases@.take(i + 1)) =~= lowered_aliases(
                aliases@.take(i as int),
            ).push(lower_of(aliases@[i as int]@)));
        }
        i = i + 1;
    }
    proof {
        assert(aliases@.take(n as int) =~= aliases@);
    }
    out
}

/// Start index of the maximal all-digit suffix of `s` (`s.len()` when the
/// last character is not a digit).
pub open spec fn trailing_digits_start(s: Seq<char>) -> int
    decreases s.len(),
{
    if s.len() == 0 || !is_digit(s.last()) {
        s.len() as int
    } else {
        trailing_digits_start(s.drop_last())
    }
}

/// A trailing `-<digits>` suffix removed, as the pattern `-\d+$` strips it:
/// the hyphen immediately before the maximal all-digit suffix, when both are
/// there, and everything after it.
pub open spec fn strip_digit_suffix(s: Seq<char>) -> Seq<char> {
    let k = trailing_digits_start(s);
    if k < s.len() && 0 < k && s[k - 1] == '-' {
        s.take(k - 1)
    } else {
        s
    }
}

fn digit_char(c: char) -> (r: bool)
    ensures
        r == is_digit(c),
{
    let u = c as u32;
    0x30 <= u && u <= 0x39
}

fn strip_digit_suffix_chars(v: &Vec<char>) -> (r: Vec<char>)
    ensures
        r@ == strip_digit_suffix(v@),
{
    let n = v.len();
    let mut j: usize = n;
    proof {
        assert(v@.take(n as int) =~= v@);
    }
    while j > 0 && digit_char(v[j - 1])
        invariant
            n == v@.len(),
            j <= n,
            trailing_digits_start(v@) == trailing_digits_start(v@.take(j as int)),
        decreases j,
    {
        proof {
            assert(v@.take(j as int).drop_last() =~= v@.take(j - 1));
            assert(v@.take(j as int).last() == v@[j - 1]);
        }
        j = j - 1;
    }
    proof {
        if j > 0 {
            assert(v@.take(j as int).last() == v@[j - 1]);
        }
        assert(trailing_digits_start(v@) == j);
    }
    if j < n && j > 0 && v[j - 1] == '-' {
        let mut out = Vec::new();
        let mut i: usize = 0;
        while i < j - 1
            invariant
                j >= 1,
                j - 1 <= v@.len(),
                i <= j - 1,
                out@ =~= v@.take(i as int),
            decreases j - i,
        {
            out.push(v[i]);
            proof {
                assert(v@.take(i + 1) =~= v@.take(i as int).push(v@[i as int]));
            }
            i = i + 1;
        }
        out
    } else {
        let mut out = Vec::new();
        let mut i: usize = 0;
        while i < n
            invariant
                n == v@.len(),
                i <= n,
                out@ =~= v@.take(i as int),
            decreases n - i,
        {
            out.push(v[i]);
            proof {
                assert(v@.take(i + 1) =~= v@.take(i as int).push(v@[i as int]));
            }
            i = i + 1;
        }
        proof {
            assert(v@.take(n as int) =~= v@);
        }
        out
    }
}

/// Exact (case-folded) title match: the English translation, the name or an
/// alias equals the query, or the slug with a trailing `-<digits>` suffix
/// stripped and hyphens replaced by spaces equals the query.
pub open spec fn spec_exact_match(c: CandidateRecord, ql: Seq<char>) -> bool {
    ||| lowered_field(c.eng_translation) == ql
    ||| lowered_field(c.name) == ql
    ||| (exists|i: int|
        0 <= i < c.aliases@.len() && lowered_aliases(c.aliases@)[i] == ql)
    ||| replace_char(strip_digit_suffix(lowered_field(c.slug)), '-', ' ') == ql
}

/// Partial match: the translation, name or spaced slug contains the query,
/// the hyphenated slug contains the query with spaces turned to hyphens, or
/// an alias contains the query.
pub open spec fn spec_partial_match(c: CandidateRecord, ql: Seq<char>) -> bool {
    let slug_l = lowered_field(c.slug);
    ||| contains_sub(lowered_field(c.eng_translation), ql)
    ||| contains_sub(lowered_field(c.name), ql)
    ||| contains_sub(replace_char(slug_l, '-', ' '), ql)
    ||| contains_sub(slug_l, replace_char(ql, ' ', '-'))
    ||| (exists|i: int|
        0 <= i < c.aliases@.len() && contains_sub(lowered_aliases(c.aliases@)[i], ql))
}

/// The haystack for the word-overlap tier: translation, name, spaced slug
/// and aliases joined with single spaces.
pub open spec fn spec_all_text(c: CandidateRecord) -> Seq<char> {
    join_space(
        seq![
            lowered_field(c.eng_translation),
            lowered_field(c.name),
            replace_char(lowered_field(c.slug), '-', ' '),
        ] + lowered_aliases(c.aliases@),
    )
}

/// The common score denominator for a query: the number of its case-folded
/// whitespace tokens longer than one character, and 1 when there are none.
pub open spec fn rel_den(q: Seq<char>) -> int {
    let n = long_tokens(lower_of(q)).len();
    if n > 0 {
        n as int
    } else {
        1
    }
}

/// The title-relevance numerator on the `rel_den(q)` scale:
/// `0` for a blank query, `100 * rel_den(q)` on an exact match,
/// `90 * rel_den(q)` on a partial match, else `80 *` the number of query
/// tokens found in the record's text (so `relevance = result / rel_den(q)`).
pub open spec fn spec_title_relevance_num(c: CandidateRecord, q: Seq<char>) -> int {
    let ql = lower_of(q);
    if is_blank(q) {
        0
    } else if spec_exact_match(c, ql) {
        100 * rel_den(q)
    } else if spec_partial_match(c, ql) {
        90 * rel_den(q)
    } else {
        80 * count_contained(long_tokens(ql), spec_all_text(c))
    }
}

fn alias_eq_any(aliases: &Vec<Vec<char>>, ql: &Vec<char>) -> (r: bool)
    ensures
        r == exists|i: int| 0 <= i < aliases@.len() && views_of(aliases@)[i] == ql@,
{
    let n = aliases.len();
    let mut i: usize = 0;
    while i < n
        invariant
            n == aliases@.len(),
            i <= n,
            forall|k: int| 0 <= k < i ==> views_of(aliases@)[k] != ql@,
        decreases n - i,
    {
        if chars_eq(&aliases[i], ql) {
            proof {
                assert(views_of(aliases@)[i as int] == aliases@[i as int]@);
            }
            return true;
        }
        i = i + 1;
    }
    false
}

fn alias_contains_any(aliases: &Vec<Vec<char>>, ql: &Vec<char>) -> (r: bool)
    ensures
        r == exists|i: int| 0 <= i < aliases@.len() && contains_sub(views_of(aliases@)[i], ql@),
{
    let n = aliases.len();
    let mut i: usize = 0;
    while i < n
        invariant
            n == aliases@.len(),
            i <= n,
            forall|k: int| 0 <= k < i ==> !contains_sub(views_of(aliases@)[k], ql@),
        decreases n - i,
    {
        if contains_chars(&aliases[i], ql) {
            proof {
                assert(views_of(aliases@)[i as int] == aliases@[i as int]@);
            }
            return true;
        }
        i = i + 1;
    }
    false
}

/// Title relevance of a candidate for a query, as the pair
/// `(numerator, denominator)`; see `spec_title_relevance_num`.
#[verifier::rlimit(50)]
pub fn title_relevance_parts(c: &CandidateRecord, query: &str) -> (r: (u128, usize))
    ensures
        r.0 == spec_title_relevance_num(*c, query@),
        r.1 == rel_den(query@),
        r.0 <= 100 * r.1,
{
    let qv = chars_of(query);
    let ql = chars_of(lowercase(query).as_str());
    let tokens = split_long_tokens(&ql);
    let den: usize = if tokens.len() > 0 {
        tokens.len()
    } else {
        1
    };
    if is_blank_chars(&qv) {
        return (0, den);
    }
    let trans_l = lowered_chars(&c.eng_translation);
    let name_l = lowered_chars(&c.name);
    let slug_l = lowered_chars(&c.slug);
    let slug_spaced = replace_chars(&slug_l, '-', ' ');
    let aliases_l = lowered_aliases_chars(&c.aliases);
    let exact = chars_eq(&trans_l, &ql) || chars_eq(&name_l, &ql) || alias_eq_any(&aliases_l, &ql)
        || {
        let trimmed = strip_digit_suffix_chars(&slug_l);
        let trimmed_spaced = replace_chars(&trimmed, '-', ' ');
        chars_eq(&trimmed_spaced, &ql)
    };
    if exact {
        return ((den as u128) * 100, den);
    }
    let q_hyphen = replace_chars(&ql, ' ', '-');
    let partial = contains_chars(&trans_l, &ql) || contains_chars(&name_l, &ql)
        || contains_chars(&slug_spaced, &ql) || contains_chars(&slug_l, &q_hyphen)
        || alias_contains_any(&aliases_l, &ql);
    if partial {
        proof {
            assert(!is_blank(query@));
            assert(den as int == rel_den(query@));
            assert(!spec_exact_match(*c, lower_of(query@)));
            assert(spec_partial_match(*c, lower_of(query@)));
            assert(spec_title_relevance_num(*c, query@) == 90 * rel_den(query@));
        }
        return ((den as u128) * 90, den);
    }
    if tokens.len() == 0 {
        return (0, den);
    }
    let mut parts: Vec<Vec<char>> = Vec::new();
    parts.push(trans_l);
    parts.push(name_l);
    parts.push(slug_spaced);
    let mut rest = aliases_l;
    let ghost head = views_of(parts@);
    let ghost tail = views_of(rest@);
    parts.append(&mut rest);
    proof {
        assert(views_of(parts@) =~= head + tail);
        assert(head =~= seq![
            lowered_field(c.eng_translation),
            lowered_field(c.name),
            replace_char(lowered_field(c.slug), '-', ' '),
        ]);
    }
    let all_text = join_with_space(&parts);
    let m = count_contained_tokens(&tokens, &all_text);
    ((m as u128) * 80, den)
}

/// Title relevance of a candidate for a query, scaled by `rel_den(query)`:
/// exactly `100 * rel_den` on an exact case-folded match, `90 * rel_den` on
/// a partial match, `0` on a blank query, and `80 * matched tokens` (out of
/// `rel_den` tokens) otherwise.
pub fn calculate_enhanced_title_relevance(c: &CandidateRecord, query: &str) -> (r: u128)
    ensures
        r == spec_title_relevance_num(*c, query@),
        is_blank(query@) ==> r == 0,
        !is_blank(query@) && spec_exact_match(*c, lower_of(query@)) ==> r == 100 * rel_den(query@),
        !is_blank(query@) && !spec_exact_match(*c, lower_of(query@)) && spec_partial_match(
            *c,
            lower_of(query@),
        ) ==> r == 90 * rel_den(query@),
{
    let (num, _den) = title_relevance_parts(c, query);
    num
}

/// The record's image is present and does not mention `missing`.
pub open spec fn spec_has_image(c: CandidateRecord) -> bool {
    match spec_image_url(c) {
        Some(u) => !contains_sub(u, "missing"@),
        None => false,
    }
}

/// The record's primary language is Japanese, Korean or Chinese.
pub open spec fn spec_is_asian(c: CandidateRecord) -> bool {
    match c.primary_language {
        Some(s) => s@ == "jpn"@ || s@ == "kor"@ || s@ == "zho"@,
        None => false,
    }
}

/// The record is a series.
pub open spec fn spec_is_series(c: CandidateRecord) -> bool {
    match c.media_kind {
        Some(s) => s@ == "series"@,
        None => false,
    }
}

/// The record's case-folded serialization mentions `anime` or `crunchyroll`.
pub open spec fn spec_anime_text(c: CandidateRecord) -> bool {
    contains_sub(lower_of(c.raw_text@), "anime"@) || contains_sub(
        lower_of(c.raw_text@),
        "crunchyroll"@,
    )
}

/// The anime-affinity score: 20 for a usable image, 30 for an Asian primary
/// language, 10 for a series, 20 for an anime-marked serialization.
pub open spec fn spec_anime_score(c: CandidateRecord) -> int {
    (if spec_has_image(c) {
        20int
    } else {
        0int
    }) + (if spec_is_asian(c) {
        30int
    } else {
        0int
    }) + (if spec_is_series(c) {
        10int
    } else {
        0int
    }) + (if spec_anime_text(c) {
        20int
    } else {
        0int
    })
}

fn string_eq_lit(s: &String, lit: &str) -> (r: bool)
    ensures
        r == (s@ == lit@),
{
    let a = chars_of(s.as_str());
    let b = chars_of(lit);
    chars_eq(&a, &b)
}

fn anime_score_of(c: &CandidateRecord) -> (r: u64)
    ensures
        r == spec_anime_score(*c),
        r <= 80,
{
    let has_image: bool = match extract_image_url(c) {
        Option::Some(u) => {
            let uv = chars_of(u.as_str());
            let missing = chars_of("missing");
            !contains_chars(&uv, &missing)
        },
        Option::None => false,
    };
    let is_asian: bool = match &c.primary_language {
        Option::Some(s) => string_eq_lit(s, "jpn") || string_eq_lit(s, "kor") || string_eq_lit(
            s,
            "zho",
        ),
        Option::None => false,
    };
    let is_series: bool = match &c.media_kind {
        Option::Some(s) => string_eq_lit(s, "series"),
        Option::None => false,
    };
    let data = chars_of(lowercase(c.raw_text.as_str()).as_str());
    let anime = chars_of("anime");
    let crunchyroll = chars_of("crunchyroll");
    let is_anime: bool = contains_chars(&data, &anime) || contains_chars(&data, &crunchyroll);
    let mut score: u64 = 0;
    if has_image {
        score = score + 20;
    }
    if is_asian {
        score = score + 30;
    }
    if is_series {
        score = score + 10;
    }
    if is_anime {
        score = score + 20;
    }
    score
}

/// The hybrid score numerator on the `10 * rel_den(q)` scale:
/// `hybrid = 0.6 * relevance + 0.4 * anime score = result / (10 * rel_den)`.
pub open spec fn spec_hybrid_num(c: CandidateRecord, q: Seq<char>) -> int {
    6 * spec_title_relevance_num(c, q) + 4 * spec_anime_score(c) * rel_den(q)
}

/// The hybrid priority score of a candidate for a query, scaled by
/// `10 * rel_den(query)`; comparing these numerators for one query compares
/// the real scores `0.6 * relevance + 0.4 * anime score`.
pub fn hybrid_priority_score(c: &CandidateRecord, query: &str) -> (r: u128)
    ensures
        r == spec_hybrid_num(*c, query@),
{
    let (num, den) = title_relevance_parts(c, query);
    let anime = anime_score_of(c);
    proof {
        assert(6 * num + 4 * (anime as u128) * (den as u128) <= u128::MAX) by (nonlinear_arith)
            requires
                num <= 100 * (den as int),
                den <= usize::MAX,
                anime <= 80,
        ;
    }
    6 * num + 4 * (anime as u128) * (den as u128)
}

/// Where selection lands for a non-empty candidate list: the index of the
/// last candidate with the maximal hybrid score.
pub fn select_best_match(results: &Vec<CandidateRecord>, query: &str) -> (r: Option<usize>)
    ensures
        r is Some <==> results@.len() > 0,
        match r {
            Some(i) => i < results@.len() && (forall|j: int|
                0 <= j < results@.len() ==> spec_hybrid_num(results@[j], query@)
                    <= spec_hybrid_num(results@[i as int], query@)) && (forall|j: int|
                i < j < results@.len() ==> spec_hybrid_num(results@[j], query@) < spec_hybrid_num(
                    results@[i as int],
                    query@,
                )),
            None => true,
        },
{
    let n = results.len();
    if n == 0 {
        return None;
    }
    let mut best: usize = 0;
    let mut best_score = hybrid_priority_score(&results[0], query);
    let mut j: usize = 1;
    while j < n
        invariant
            n == results@.len(),
            1 <= j <= n,
            best < j,
            best_score == spec_hybrid_num(results@[best as int], query@),
            forall|k: int|
                0 <= k < j ==> spec_hybrid_num(results@[k], query@) <= best_score,
            forall|k: int|
                best < k < j ==> spec_hybrid_num(results@[k], query@) < best_score,
        decreases n - j,
    {
        let s = hybrid_priority_score(&results[j], query);
        if s >= best_score {
            best = j;
            best_score = s;
        }
        j = j + 1;
    }
    Some(best)
}

/// Candidate `a` is ranked before candidate `b` for query `q`: its hybrid
/// score is higher, or equal with `a` appearing earlier (the stable
/// descending order).
pub open spec fn ranked_before(rs: Seq<CandidateRecord>, q: Seq<char>, a: int, b: int) -> bool {
    ||| spec_hybrid_num(rs[a], q) > spec_hybrid_num(rs[b], q)
    ||| (spec_hybrid_num(rs[a], q) == spec_hybrid_num(rs[b], q) && a < b)
}

/// The candidate indices in stable descending hybrid-score order: the order
/// the fanart path probes candidates in.
pub fn rank_candidates(results: &Vec<CandidateRecord>, query: &str) -> (r: Vec<usize>)
    ensures
        r@.len() == results@.len(),
        forall|k: int| 0 <= k < r@.len() ==> r@[k] < results@.len(),
        r@.no_duplicates(),
        forall|k: int, l: int|
            0 <= k < l < r@.len() ==> ranked_before(results@, query@, r@[k] as int, r@[l] as int),
{
    let n = results.len();
    let mut scores: Vec<u128> = Vec::new();
    let mut i: usize = 0;
    while i < n
        invariant
            n == results@.len(),
            i <= n,
            scores@.len() == i,
            forall|k: int| 0 <= k < i ==> scores@[k] == spec_hybrid_num(results@[k], query@),
        decreases n - i,
    {
        let s = hybrid_priority_score(&results[i], query);
        scores.push(s);
        i = i + 1;
    }
    let mut order: Vec<usize> = Vec::new();
    let mut idx: usize = 0;
    while idx < n
        invariant
            n == results@.len(),
            idx <= n,
            scores@.len() == n,
            forall|k: int| 0 <= k < n ==> scores@[k] == spec_hybrid_num(results@[k], query@),
            order@.len() == idx,
            forall|k: int| 0 <= k < order@.len() ==> order@[k] < idx,
            order@.no_duplicates(),
            forall|k: int, l: int|
                0 <= k < l < order@.len() ==> ranked_before(
                    results@,
                    query@,
                    order@[k] as int,
                    order@[l] as int,
                ),
        decreases n - idx,
    {
        let mut p: usize = 0;
        while p < order.len() && scores[order[p]] >= scores[idx]
            invariant
                n == results@.len(),
                idx < n,
                scores@.len() == n,
                order@.len() == idx,
                forall|k: int| 0 <= k < order@.len() ==> order@[k] < idx,
                p <= order@.len(),
                forall|k: int| 0 <= k < p ==> scores@[order@[k] as int] >= scores@[idx as int],
            decreases order@.len() - p,
        {
            p = p + 1;
        }
        let ghost old_order = order@;
        order.insert(p, idx);
        proof {
            assert forall|k: int| 0 <= k < order@.len() implies order@[k] == (if k < p {
                old_order[k]
            } else if k == p {
                idx as usize
            } else {
                old_order[k - 1]
            }) by {
                assert(order@ == old_order.insert(p as int, idx as usize));
            }
            assert(order@.no_duplicates());
            assert forall|k: int, l: int|
                0 <= k < l < order@.len() implies ranked_before(
                results@,
                query@,
                order@[k] as int,
                order@[l] as int,
            ) by {
                if k == p {
                    assert(order@[l] == old_order[l - 1]);
                    assert(p < old_order.len());
                    assert(scores@[old_order[p as int] as int] < scores@[idx as int]);
                    if l - 1 > p {
                        assert(ranked_before(
                            results@,
                            query@,
                            old_order[p as int] as int,
                            old_order[l - 1] as int,
                        ));
                    }
                    assert(scores@[order@[l] as int] < scores@[idx as int]);
                } else if l == p {
                    assert(order@[k] == old_order[k]);
                    assert(scores@[order@[k] as int] >= scores@[idx as int]);
                    assert(order@[k] < idx);
                }
            }
        }
        idx = idx + 1;
    }
    order
}

/// Raising the primary language from a non-Asian value to an Asian one, all
/// other fields unchanged, strictly raises the hybrid score for every query.
pub proof fn lemma_asian_language_raises_hybrid(
    a: CandidateRecord,
    b: CandidateRecord,
    q: Seq<char>,
)
    requires
        b.tvdb_id == a.tvdb_id,
        b.id == a.id,
        b.object_id_upper == a.object_id_upper,
        b.object_id_camel == a.object_id_camel,
        b.object_id_snake == a.object_id_snake,
        b.image_url == a.image_url,
        b.image == a.image,
        b.media_kind == a.media_kind,
        b.name == a.name,
        b.slug == a.slug,
        b.eng_translation == a.eng_translation,
        b.aliases == a.aliases,
        b.raw_text == a.raw_text,
        !spec_is_asian(a),
        spec_is_asian(b),
    ensures
        spec_hybrid_num(b, q) > spec_hybrid_num(a, q),
{
    assert(spec_title_relevance_num(b, q) == spec_title_relevance_num(a, q));
    assert(spec_anime_score(b) == spec_anime_score(a) + 30);
    let d = rel_den(q);
    assert(d >= 1);
    assert(4 * spec_anime_score(b) * d == 4 * spec_anime_score(a) * d + 120 * d)
        by (nonlinear_arith)
        requires
            spec_anime_score(b) == spec_anime_score(a) + 30,
    ;
    assert(120 * d >= 120) by (nonlinear_arith)
        requires
            d >= 1,
    ;
}

} // verus!
