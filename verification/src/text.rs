//! Character-level text utilities shared by the resolution pipeline.
//!
//! All algorithms work on `Vec<char>` so that every step is verified against
//! a `Seq<char>` model; two small trusted wrappers move between `str` and
//! `Vec<char>`, and one names the result of Unicode case folding.

use vstd::prelude::*;

verus! {

/// What `str::to_lowercase` returns: the case-folded copy of a string.
/// The folded form depends on the characters of the input alone.
pub uninterp spec fn lower_of(s: Seq<char>) -> Seq<char>;

/// Relies on `str::to_lowercase`: the result is a function of the input's
/// characters alone, named here by `lower_of`.
#[verifier::external_body]
pub fn lowercase(s: &str) -> (r: String)
    ensures
        r@ == lower_of(s@),
{
    s.to_lowercase()
}

/// Relies on `str::chars`: yields exactly the string's characters in order.
#[verifier::external_body]
pub fn chars_of(s: &str) -> (r: Vec<char>)
    ensures
        r@ == s@,
{
    s.chars().collect()
}

/// Relies on `String`'s `FromIterator<char>`: builds the string holding
/// exactly these characters in order.
#[verifier::external_body]
pub fn string_from_chars(v: &Vec<char>) -> (r: String)
    ensures
        r@ == v@,
{
    v.iter().collect()
}

/// The Unicode `White_Space` characters, the set behind `char::is_whitespace`,
/// `str::trim` and `str::split_whitespace`.
pub open spec fn is_space_char(c: char) -> bool {
    ||| c == ' '
    ||| c == '\t'
    ||| c == '\n'
    ||| c == '\r'
    ||| c as u32 == 0x0b
    ||| c as u32 == 0x0c
    ||| c as u32 == 0x85
    ||| c as u32 == 0xa0
    ||| c as u32 == 0x1680
    ||| (0x2000 <= c as u32 && c as u32 <= 0x200a)
    ||| c as u32 == 0x2028
    ||| c as u32 == 0x2029
    ||| c as u32 == 0x202f
    ||| c as u32 == 0x205f
    ||| c as u32 == 0x3000
}

pub fn is_space(c: char) -> (r: bool)
    ensures
        r == is_space_char(c),
{
    let u = c as u32;
    u == 0x20 || u == 0x09 || u == 0x0a || u == 0x0d || u == 0x0b || u == 0x0c || u == 0x85
        || u == 0xa0 || u == 0x1680 || (0x2000 <= u && u <= 0x200a) || u == 0x2028 || u == 0x2029
        || u == 0x202f || u == 0x205f || u == 0x3000
}

/// The string holds a NUL character somewhere.
pub open spec fn has_nul(s: Seq<char>) -> bool {
    exists|i: int| 0 <= i < s.len() && s[i] == '\0'
}

pub fn contains_nul(v: &Vec<char>) -> (r: bool)
    ensures
        r == has_nul(v@),
{
    let mut i: usize = 0;
    while i < v.len()
        invariant
            i <= v.len(),
            forall|j: int| 0 <= j < i ==> v@[j] != '\0',
        decreases v.len() - i,
    {
        if v[i] == '\0' {
            return true;
        }
        i = i + 1;
    }
    false
}

/// A string is blank when every character is whitespace; `str::trim` leaves
/// nothing of it.
pub open spec fn is_blank(s: Seq<char>) -> bool {
    forall|i: int| 0 <= i < s.len() ==> is_space_char(s[i])
}

pub fn is_blank_chars(v: &Vec<char>) -> (r: bool)
    ensures
        r == is_blank(v@),
{
    let mut i: usize = 0;
    while i < v.len()
        invariant
            i <= v.len(),
            forall|j: int| 0 <= j < i ==> is_space_char(v@[j]),
        decreases v.len() - i,
    {
        if !is_space(v[i]) {
            return false;
        }
        i = i + 1;
    }
    true
}

pub fn chars_eq(a: &Vec<char>, b: &Vec<char>) -> (r: bool)
    ensures
        r == (a@ == b@),
{
    if a.len() != b.len() {
        return false;
    }
    let mut i: usize = 0;
    while i < a.len()
        invariant
            a@.len() == b@.len(),
            i <= a.len(),
            forall|j: int| 0 <= j < i ==> a@[j] == b@[j],
        decreases a.len() - i,
    {
        if a[i] != b[i] {
            return false;
        }
        i = i + 1;
    }
    proof {
        assert(a@ =~= b@);
    }
    true
}

/// `needle` occurs in `hay` starting at position `i`.
pub open spec fn occurs_at(hay: Seq<char>, needle: Seq<char>, i: int) -> bool {
    0 <= i && i + needle.len() <= hay.len() && hay.subrange(i, i + needle.len()) == needle
}

/// `str::contains`: `needle` occurs somewhere in `hay`.
pub open spec fn contains_sub(hay: Seq<char>, needle: Seq<char>) -> bool {
    exists|i: int| occurs_at(hay, needle, i)
}

pub fn matches_at(hay: &Vec<char>, needle: &Vec<char>, i: usize) -> (r: bool)
    requires
        i + needle@.len() <= hay@.len(),
    ensures
        r == occurs_at(hay@, needle@, i as int),
{
    let hlen = hay.len();
    let nlen = needle.len();
    let mut j: usize = 0;
    while j < nlen
        invariant
            hlen == hay@.len(),
            nlen == needle@.len(),
            i + needle@.len() <= hay@.len(),
            j <= needle.len(),
            forall|k: int| 0 <= k < j ==> hay@[i + k] == needle@[k],
        decreases needle.len() - j,
    {
        if hay[i + j] != needle[j] {
            assert(hay@.subrange(i as int, i + needle@.len()) != needle@) by {
                assert(hay@.subrange(i as int, i + needle@.len())[j as int] != needle@[j as int]);
            }
            return false;
        }
        j = j + 1;
    }
    proof {
        assert(hay@.subrange(i as int, i + needle@.len()) =~= needle@);
    }
    true
}

/// `str::starts_with`: the needle occurs at position 0.
pub fn starts_with_chars(s: &Vec<char>, prefix: &Vec<char>) -> (r: bool)
    ensures
        r == occurs_at(s@, prefix@, 0),
{
    if prefix.len() > s.len() {
        return false;
    }
    matches_at(s, prefix, 0)
}

pub fn contains_chars(hay: &Vec<char>, needle: &Vec<char>) -> (r: bool)
    ensures
        r == contains_sub(hay@, needle@),
{
    if needle.len() == 0 {
        proof {
            assert(hay@.subrange(0, 0) =~= needle@);
            assert(occurs_at(hay@, needle@, 0));
        }
        return true;
    }
    if needle.len() > hay.len() {
        assert(forall|i: int| !occurs_at(hay@, needle@, i));
        return false;
    }
    let last = hay.len() - needle.len();
    let mut i: usize = 0;
    while i <= last
        invariant
            1 <= needle@.len() <= hay@.len() <= usize::MAX,
            last == hay@.len() - needle@.len(),
            i <= last + 1,
            forall|k: int| 0 <= k < i ==> !occurs_at(hay@, needle@, k),
        decreases last + 1 - i,
    {
        if matches_at(hay, needle, i) {
            return true;
        }
        i = i + 1;
    }
    assert(forall|k: int| 0 <= k ==> !occurs_at(hay@, needle@, k));
    false
}

/// Every `from` character replaced by `to`; `str::replace` with
/// single-character patterns.
pub open spec fn replace_char(s: Seq<char>, from: char, to: char) -> Seq<char> {
    s.map_values(|c: char| if c == from { to } else { c })
}

pub fn replace_chars(v: &Vec<char>, from: char, to: char) -> (r: Vec<char>)
    ensures
        r@ == replace_char(v@, from, to),
{
    let mut out: Vec<char> = Vec::new();
    let mut i: usize = 0;
    while i < v.len()
        invariant
            i <= v.len(),
            out@ == replace_char(v@.take(i as int), from, to),
        decreases v.len() - i,
    {
        let c = v[i];
        if c == from {
            out.push(to);
        } else {
            out.push(c);
        }
        proof {
            assert(v@.take(i + 1).map_values(|c: char| if c == from { to } else { c }) =~= v@.take(
                i as int,
            ).map_values(|c: char| if c == from { to } else { c }).push(
                if v@[i as int] == from {
                    to
                } else {
                    v@[i as int]
                },
            ));
        }
        i = i + 1;
    }
    proof {
        assert(v@.take(v@.len() as int) =~= v@);
    }
    out
}

/// Length of the maximal non-whitespace prefix of `s`.
pub open spec fn word_len(s: Seq<char>) -> int
    decreases s.len(),
{
    if s.len() == 0 || is_space_char(s[0]) {
        0
    } else {
        1 + word_len(s.drop_first())
    }
}

pub proof fn lemma_word_len_bounds(s: Seq<char>)
    ensures
        0 <= word_len(s) <= s.len(),
        s.len() > 0 && !is_space_char(s[0]) ==> word_len(s) >= 1,
    decreases s.len(),
{
    if s.len() > 0 && !is_space_char(s[0]) {
        lemma_word_len_bounds(s.drop_first());
    }
}

/// The whitespace-separated words of `s` that are longer than one character,
/// in order: `str::split_whitespace` filtered to tokens of two or more
/// characters.
pub open spec fn long_tokens(s: Seq<char>) -> Seq<Seq<char>>
    decreases s.len(),
    via long_tokens_decreases
{
    if s.len() == 0 {
        Seq::empty()
    } else if is_space_char(s[0]) {
        long_tokens(s.drop_first())
    } else {
        let w = word_len(s);
        let rest = long_tokens(s.subrange(w, s.len() as int));
        if w > 1 {
            seq![s.subrange(0, w)] + rest
        } else {
            rest
        }
    }
}

#[via_fn]
proof fn long_tokens_decreases(s: Seq<char>) {
    lemma_word_len_bounds(s);
}

/// The `Seq<char>` views of a sequence of character vectors.
pub open spec fn views_of(s: Seq<Vec<char>>) -> Seq<Seq<char>> {
    s.map_values(|v: Vec<char>| v@)
}

/// The `Seq<char>` views of a sequence of strings.
pub open spec fn string_views(s: Seq<String>) -> Seq<Seq<char>> {
    s.map_values(|v: String| v@)
}

pub fn split_long_tokens(v: &Vec<char>) -> (r: Vec<Vec<char>>)
    ensures
        views_of(r@) == long_tokens(v@),
{
    let n = v.len();
    let mut out: Vec<Vec<char>> = Vec::new();
    let mut i: usize = 0;
    proof {
        assert(v@.skip(0) =~= v@);
        assert(views_of(out@) + long_tokens(v@) =~= long_tokens(v@));
    }
    while i < n
        invariant
            n == v@.len(),
            i <= n,
            long_tokens(v@) =~= views_of(out@) + long_tokens(v@.skip(i as int)),
        decreases n - i,
    {
        if is_space(v[i]) {
            proof {
                assert(v@.skip(i as int).drop_first() =~= v@.skip(i + 1));
            }
            i = i + 1;
        } else {
            let start = i;
            let mut word: Vec<char> = Vec::new();
            let ghost suffix = v@.skip(start as int);
            while i < n && !is_space(v[i])
                invariant
                    n == v@.len(),
                    start <= i <= n,
                    suffix == v@.skip(start as int),
                    word@ =~= v@.subrange(start as int, i as int),
                    word_len(suffix) == (i - start) + word_len(v@.skip(i as int)),
                    forall|k: int| start <= k < i ==> !is_space_char(v@[k]),
                decreases n - i,
            {
                word.push(v[i]);
                proof {
                    assert(v@.skip(i as int).drop_first() =~= v@.skip(i + 1));
                    assert(v@.subrange(start as int, i + 1) =~= v@.subrange(
                        start as int,
                        i as int,
                    ).push(v@[i as int]));
                }
                i = i + 1;
            }
            proof {
                if i < n {
                    assert(word_len(v@.skip(i as int)) == 0);
                } else {
                    assert(v@.skip(i as int) =~= Seq::<char>::empty());
                }
                assert(word_len(suffix) == i - start);
                assert(suffix.subrange(0, word_len(suffix)) =~= v@.subrange(
                    start as int,
                    i as int,
                ));
                assert(suffix.subrange(word_len(suffix), suffix.len() as int) =~= v@.skip(
                    i as int,
                ));
            }
            if word.len() > 1 {
                let ghost old_out = views_of(out@);
                let ghost wordv = word@;
                out.push(word);
                proof {
                    assert(views_of(out@) =~= old_out.push(wordv));
                    assert(long_tokens(suffix) =~= seq![v@.subrange(start as int, i as int)]
                        + long_tokens(v@.skip(i as int)));
                    assert(views_of(out@) + long_tokens(v@.skip(i as int)) =~= old_out
                        + long_tokens(suffix));
                }
            } else {
                proof {
                    assert(long_tokens(suffix) =~= long_tokens(v@.skip(i as int)));
                }
            }
        }
    }
    proof {
        assert(v@.skip(n as int) =~= Seq::<char>::empty());
        assert(views_of(out@) =~= long_tokens(v@));
    }
    out
}

/// How many of `tokens` occur somewhere in `text`.
pub open spec fn count_contained(tokens: Seq<Seq<char>>, text: Seq<char>) -> int
    decreases tokens.len(),
{
    if tokens.len() == 0 {
        0
    } else {
        count_contained(tokens.drop_last(), text) + if contains_sub(text, tokens.last()) {
            1 as int
        } else {
            0 as int
        }
    }
}

pub fn count_contained_tokens(tokens: &Vec<Vec<char>>, text: &Vec<char>) -> (r: usize)
    ensures
        r == count_contained(views_of(tokens@), text@),
        r <= tokens@.len(),
{
    let n = tokens.len();
    let mut count: usize = 0;
    let mut i: usize = 0;
    while i < n
        invariant
            n == tokens@.len(),
            i <= n,
            count <= i,
            count == count_contained(views_of(tokens@).take(i as int), text@),
        decreases n - i,
    {
        if contains_chars(text, &tokens[i]) {
            count = count + 1;
        }
        proof {
            assert(views_of(tokens@).take(i + 1).drop_last() =~= views_of(tokens@).take(i as int));
            assert(views_of(tokens@).take(i + 1).last() == tokens@[i as int]@);
        }
        i = i + 1;
    }
    proof {
        assert(views_of(tokens@).take(n as int) =~= views_of(tokens@));
    }
    count
}

/// The parts joined with a single `sep` between consecutive parts.
pub open spec fn join_sep(parts: Seq<Seq<char>>, sep: char) -> Seq<char>
    decreases parts.len(),
{
    if parts.len() == 0 {
        Seq::empty()
    } else if parts.len() == 1 {
        parts[0]
    } else {
        join_sep(parts.drop_last(), sep) + seq![sep] + parts.last()
    }
}

/// The parts joined with a single space between consecutive parts.
pub open spec fn join_space(parts: Seq<Seq<char>>) -> Seq<char> {
    join_sep(parts, ' ')
}

pub fn join_with_sep(parts: &Vec<Vec<char>>, sep: char) -> (r: Vec<char>)
    ensures
        r@ == join_sep(views_of(parts@), sep),
{
    let n = parts.len();
    let mut out: Vec<char> = Vec::new();
    let mut i: usize = 0;
    while i < n
        invariant
            n == parts@.len(),
            i <= n,
            out@ =~= join_sep(views_of(parts@).take(i as int), sep),
        decreases n - i,
    {
        if i > 0 {
            out.push(sep);
        }
        let mut j: usize = 0;
        let part_len = parts[i].len();
        let ghost mid = out@;
        while j < part_len
            invariant
                n == parts@.len(),
                i < n,
                part_len == parts@[i as int]@.len(),
                j <= part_len,
                out@ =~= mid + parts@[i as int]@.take(j as int),
            decreases part_len - j,
        {
            out.push(parts[i][j]);
            proof {
                assert(parts@[i as int]@.take(j + 1) =~= parts@[i as int]@.take(j as int).push(
                    parts@[i as int]@[j as int],
                ));
            }
            j = j + 1;
        }
        proof {
            assert(parts@[i as int]@.take(part_len as int) =~= parts@[i as int]@);
            assert(views_of(parts@).take(i + 1).drop_last() =~= views_of(parts@).take(i as int));
            assert(views_of(parts@).take(i + 1).last() == parts@[i as int]@);
        }
        i = i + 1;
    }
    proof {
        assert(views_of(parts@).take(n as int) =~= views_of(parts@));
    }
    out
}

pub fn join_with_space(parts: &Vec<Vec<char>>) -> (r: Vec<char>)
    ensures
        r@ == join_space(views_of(parts@)),
{
    join_with_sep(parts, ' ')
}

pub open spec fn is_digit(c: char) -> bool {
    0x30 <= c as u32 && c as u32 <= 0x39
}

pub open spec fn digit_val(c: char) -> int {
    c as u32 - 0x30
}

pub open spec fn all_digits(s: Seq<char>) -> bool {
    forall|i: int| 0 <= i < s.len() ==> is_digit(s[i])
}

/// The value of a string of decimal digits, most significant first.
pub open spec fn digits_val(s: Seq<char>) -> int
    decreases s.len(),
{
    if s.len() == 0 {
        0
    } else {
        digits_val(s.drop_last()) * 10 + digit_val(s.last())
    }
}

pub proof fn lemma_digits_val_nonneg(s: Seq<char>)
    requires
        all_digits(s),
    ensures
        digits_val(s) >= 0,
    decreases s.len(),
{
    if s.len() > 0 {
        assert(all_digits(s.drop_last()));
        lemma_digits_val_nonneg(s.drop_last());
    }
}

/// What `str::parse::<i64>` returns: an optional sign, then one or more
/// decimal digits, and a value within `i64`'s range; anything else is `None`.
pub open spec fn parsed_i64(s: Seq<char>) -> Option<int> {
    if s.len() == 0 {
        None
    } else {
        let signed = s[0] == '-' || s[0] == '+';
        let ds = if signed {
            s.drop_first()
        } else {
            s
        };
        if ds.len() == 0 || !all_digits(ds) {
            None
        } else {
            let v = if s[0] == '-' {
                -digits_val(ds)
            } else {
                digits_val(ds)
            };
            if i64::MIN <= v <= i64::MAX {
                Some(v)
            } else {
                None
            }
        }
    }
}

/// `str::parse::<i64>` on a character vector.
pub fn parse_i64(v: &Vec<char>) -> (r: Option<i64>)
    ensures
        match r {
            Some(n) => parsed_i64(v@) == Some(n as int),
            None => parsed_i64(v@) is None,
        },
{
    let n = v.len();
    if n == 0 {
        return None;
    }
    let c0 = v[0];
    let neg = c0 == '-';
    let signed = neg || c0 == '+';
    let start: usize = if signed {
        1
    } else {
        0
    };
    let ghost ds = if signed {
        v@.drop_first()
    } else {
        v@
    };
    proof {
        assert(ds =~= v@.subrange(start as int, n as int));
    }
    if n == start {
        return None;
    }
    let mut mag: u64 = 0;
    let mut i: usize = start;
    while i < n
        invariant
            n == v@.len(),
            n >= 1,
            start <= i <= n,
            start < n,
            neg == (v@[0] == '-'),
            start == if v@[0] == '-' || v@[0] == '+' {
                1int
            } else {
                0int
            },
            ds == if v@[0] == '-' || v@[0] == '+' {
                v@.drop_first()
            } else {
                v@
            },
            ds == v@.subrange(start as int, n as int),
            all_digits(ds.take(i - start)),
            mag == digits_val(ds.take(i - start)),
        decreases n - i,
    {
        let c = v[i];
        let u = c as u32;
        if u < 0x30 || u > 0x39 {
            proof {
                assert(ds[i - start] == v@[i as int]);
                assert(!all_digits(ds));
            }
            return None;
        }
        let d = (u - 0x30) as u64;
        proof {
            assert(ds.take(i - start + 1).drop_last() =~= ds.take(i - start));
            assert(ds.take(i - start + 1).last() == v@[i as int]);
            assert(all_digits(ds.take(i - start + 1)));
        }
        if mag > (u64::MAX - d) / 10 {
            proof {
                assert(mag * 10 + d > u64::MAX) by (nonlinear_arith)
                    requires
                        mag > (u64::MAX - d) / 10,
                        d <= 9,
                ;
                assert(digits_val(ds.take(i - start + 1)) == mag * 10 + d);
                if all_digits(ds) {
                    lemma_digits_val_take_grows(ds, i - start + 1);
                    assert(digits_val(ds) > u64::MAX);
                }
            }
            return None;
        }
        mag = mag * 10 + d;
        i = i + 1;
    }
    proof {
        assert(ds.take(n - start) =~= ds);
    }
    if neg {
        if mag <= i64::MAX as u64 {
            Some(-(mag as i64))
        } else if mag == i64::MAX as u64 + 1 {
            Some(i64::MIN)
        } else {
            None
        }
    } else {
        if mag <= i64::MAX as u64 {
            Some(mag as i64)
        } else {
            None
        }
    }
}

/// Once a prefix of an all-digit string exceeds some value, the whole
/// string's value exceeds it too.
pub proof fn lemma_digits_val_take_grows(s: Seq<char>, k: int)
    requires
        all_digits(s),
        0 <= k <= s.len(),
    ensures
        digits_val(s) >= digits_val(s.take(k)),
    decreases s.len() - k,
{
    lemma_digits_val_nonneg(s);
    if k < s.len() {
        assert(all_digits(s.take(k + 1)));
        assert(s.take(k + 1).drop_last() =~= s.take(k));
        assert(all_digits(s.take(k)));
        lemma_digits_val_nonneg(s.take(k));
        assert(digits_val(s.take(k + 1)) == digits_val(s.take(k)) * 10 + digit_val(s[k]));
        lemma_digits_val_take_grows(s, k + 1);
    } else {
        assert(s.take(k) =~= s);
    }
}

} // verus!
