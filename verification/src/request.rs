//! Request-level decisions: picking the cache key out of a request target's
//! query string, and validating the torrent page URL.

use vstd::prelude::*;

use crate::text::chars_eq;
use crate::text::chars_of;
use crate::text::occurs_at;
use crate::text::starts_with_chars;

verus! {

/// What url's `form_urlencoded::parse` decodes a query string to: its
/// key/value pairs, in order.
pub uninterp spec fn form_decoded_pairs(q: Seq<char>) -> Seq<(Seq<char>, Seq<char>)>;

/// Relies on url's `form_urlencoded::parse`: decodes the
/// `application/x-www-form-urlencoded` pairs of a query string, a function
/// of its characters alone.
#[verifier::external_body]
fn parse_query_pairs(q: &str) -> (r: Vec<(String, String)>)
    ensures
        r.deep_view() == form_decoded_pairs(q@),
{
    url::form_urlencoded::parse(q.as_bytes()).map(
        |(k, v): (std::borrow::Cow<str>, std::borrow::Cow<str>)| (k.into_owned(), v.into_owned()),
    ).collect()
}

/// The value of the first pair whose key equals `key`.
pub open spec fn spec_first_param(pairs: Seq<(Seq<char>, Seq<char>)>, key: Seq<char>) -> Option<
    Seq<char>,
>
    decreases pairs.len(),
{
    if pairs.len() == 0 {
        None
    } else if pairs[0].0 == key {
        Some(pairs[0].1)
    } else {
        spec_first_param(pairs.drop_first(), key)
    }
}

proof fn lemma_first_param_at(pairs: Seq<(Seq<char>, Seq<char>)>, key: Seq<char>, i: int)
    requires
        0 <= i < pairs.len(),
        pairs[i].0 == key,
        forall|k: int| 0 <= k < i ==> pairs[k].0 != key,
    ensures
        spec_first_param(pairs, key) == Some(pairs[i].1),
    decreases i,
{
    if i > 0 {
        assert(forall|k: int|
            0 <= k < i - 1 ==> pairs.drop_first()[k] == pairs[k + 1]);
        lemma_first_param_at(pairs.drop_first(), key, i - 1);
    }
}

proof fn lemma_first_param_none(pairs: Seq<(Seq<char>, Seq<char>)>, key: Seq<char>)
    requires
        forall|k: int| 0 <= k < pairs.len() ==> pairs[k].0 != key,
    ensures
        spec_first_param(pairs, key) is None,
    decreases pairs.len(),
{
    if pairs.len() > 0 {
        lemma_first_param_none(pairs.drop_first(), key);
    }
}

/// Picks the named parameter's decoded value out of a request target's query
/// string (absent target: no value): the literal raw value the cache keys on.
pub fn extract_query_param(query: Option<&str>, key: &str) -> (r: Option<String>)
    ensures
        query is None ==> r is None,
        query is Some ==> match r {
            Some(v) => spec_first_param(form_decoded_pairs(query->Some_0@), key@) == Some(v@),
            None => spec_first_param(form_decoded_pairs(query->Some_0@), key@) is None,
        },
{
    let q = match query {
        Option::Some(q) => q,
        Option::None => {
            return None;
        },
    };
    let pairs = parse_query_pairs(q);
    let ghost pview = form_decoded_pairs(q@);
    let kv = chars_of(key);
    let n = pairs.len();
    let mut i: usize = 0;
    while i < n
        invariant
            n == pairs@.len(),
            query == Some(q),
            pairs.deep_view() == pview,
            pview == form_decoded_pairs(q@),
            pview.len() == pairs@.len(),
            kv@ == key@,
            i <= n,
            forall|k: int| 0 <= k < i ==> pview[k].0 != key@,
        decreases n - i,
    {
        proof {
            assert(pview[i as int] == (pairs@[i as int].0@, pairs@[i as int].1@));
        }
        let pk = chars_of(pairs[i].0.as_str());
        if chars_eq(&pk, &kv) {
            let value = pairs[i].1.clone();
            proof {
                lemma_first_param_at(pview, key@, i as int);
                assert(pview[i as int].1 == pairs@[i as int].1@);
                assert(value@ == pairs@[i as int].1@);
                assert(spec_first_param(form_decoded_pairs(q@), key@) == Some(value@));
            }
            return Some(value);
        }
        i = i + 1;
    }
    proof {
        lemma_first_param_none(pview, key@);
    }
    None
}

/// A torrent page URL the service accepts: one on `nyaa.si` or
/// `sukebei.nyaa.si`.
pub open spec fn spec_allowed_torrent_url(u: Seq<char>) -> bool {
    occurs_at(u, "https://nyaa.si"@, 0) || occurs_at(u, "https://sukebei.nyaa.si/"@, 0)
}

pub fn is_allowed_torrent_url(url_text: &str) -> (r: bool)
    ensures
        r == spec_allowed_torrent_url(url_text@),
{
    let u = chars_of(url_text);
    let a = chars_of("https://nyaa.si");
    let b = chars_of("https://sukebei.nyaa.si/");
    starts_with_chars(&u, &a) || starts_with_chars(&u, &b)
}

} // verus!
