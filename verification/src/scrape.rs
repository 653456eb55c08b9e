//! The two scraping fallbacks, at the interface level the pipeline needs:
//! what page to fetch next and what a fetched page yields. HTML element
//! location is trusted to the scraper crate; the image-URL grammar inside a
//! torrent description is verified here.

use vstd::prelude::*;

use crate::query::slug_chars;
use crate::query::slug_of;
use crate::text::chars_of;
use crate::text::is_space_char;
use crate::text::is_space;
use crate::text::join_sep;
use crate::text::join_with_sep;
use crate::text::matches_at;
use crate::text::occurs_at;
use crate::text::string_from_chars;
use crate::text::string_views;
use crate::text::views_of;

verus! {

/// An HTTP status in the success range.
pub open spec fn is_success_status(s: u16) -> bool {
    200 <= s < 300
}

/// What scraper finds as the inner HTML of the first `div#torrent-description`
/// element of a document, a function of the document text alone.
pub uninterp spec fn torrent_description_html(body: Seq<char>) -> Option<Seq<char>>;

/// Relies on scraper's `Html::parse_document` and `Selector::parse`: locates
/// the torrent page's description container and hands back its inner HTML.
#[verifier::external_body]
fn extract_torrent_description(body: &str) -> (r: Option<String>)
    ensures
        r.deep_view() == torrent_description_html(body@),
{
    let document = scraper::Html::parse_document(body);
    let selector = scraper::Selector::parse("div#torrent-description").unwrap();
    document.select(&selector).next().map(|d| d.inner_html())
}

/// What scraper finds as the `src` attribute of the first `img` element of a
/// document, a function of the document text alone.
pub uninterp spec fn first_img_src(body: Seq<char>) -> Option<Seq<char>>;

/// Relies on scraper's `Html::parse_document` and `Selector::parse`: hands
/// back the `src` attribute of the document's first image tag.
#[verifier::external_body]
fn extract_first_image_src(body: &str) -> (r: Option<String>)
    ensures
        r.deep_view() == first_img_src(body@),
{
    let document = scraper::Html::parse_document(body);
    let selector = scraper::Selector::parse("img").unwrap();
    document.select(&selector).next().and_then(|img| img.value().attr("src")).map(str::to_string)
}

/// A character the middle of an image URL may hold: anything but whitespace
/// and the two quote characters.
pub open spec fn url_mid_char(c: char) -> bool {
    !is_space_char(c) && c != '"' && c != '\''
}

/// The image-extension alternatives, tried in order at a candidate position:
/// the length of `.jpg`, `.jpeg`, `.png` or `.gif` when one starts there.
pub open spec fn spec_ext_at(t: Seq<char>, d: int) -> Option<int> {
    if occurs_at(t, ".jpg"@, d) {
        Some(4int)
    } else if occurs_at(t, ".jpeg"@, d) {
        Some(5int)
    } else if occurs_at(t, ".png"@, d) {
        Some(4int)
    } else if occurs_at(t, ".gif"@, d) {
        Some(4int)
    } else {
        None
    }
}

/// The end of the lazily matched URL body: from `pos` on, the first position
/// where an image extension follows wins; the scan extends one URL character
/// at a time and gives up at a character the middle may not hold.
pub open spec fn url_end_scan(t: Seq<char>, pos: int) -> Option<int>
    decreases t.len() - pos,
    when 0 <= pos <= t.len()
{
    if pos == t.len() {
        None
    } else if spec_ext_at(t, pos) is Some {
        Some(pos + spec_ext_at(t, pos)->Some_0)
    } else if url_mid_char(t[pos]) {
        url_end_scan(t, pos + 1)
    } else {
        None
    }
}

/// The scheme alternatives at a position: `https://` is preferred, then
/// `http://` (they cannot both start at one position).
pub open spec fn url_prefix_at(t: Seq<char>, s: int) -> Option<int> {
    if occurs_at(t, "https://"@, s) {
        Some(8int)
    } else if occurs_at(t, "http://"@, s) {
        Some(7int)
    } else {
        None
    }
}

/// The end of an image-URL match starting at `s`: a scheme, at least one URL
/// character, then the lazy scan for the extension.
pub open spec fn url_match_at(t: Seq<char>, s: int) -> Option<int> {
    match url_prefix_at(t, s) {
        Some(p) => if s + p < t.len() && url_mid_char(t[s + p]) {
            url_end_scan(t, s + p + 1)
        } else {
            None
        },
        None => None,
    }
}

/// The leftmost image-URL match at or after `s`, as start and end positions.
pub open spec fn first_match_from(t: Seq<char>, s: int) -> Option<(int, int)>
    decreases t.len() - s,
    when 0 <= s <= t.len()
{
    if s == t.len() {
        None
    } else {
        match url_match_at(t, s) {
            Some(e) => Some((s, e)),
            None => first_match_from(t, s + 1),
        }
    }
}

/// The first image URL in a text: the leftmost, lazily shortest substring of
/// the shape `http(s)://<URL characters>.<image extension>`.
pub open spec fn spec_first_image_url(t: Seq<char>) -> Option<Seq<char>> {
    match first_match_from(t, 0) {
        Some(m) => Some(t.subrange(m.0, m.1)),
        None => None,
    }
}

proof fn lemma_url_end_scan_bounds(t: Seq<char>, pos: int)
    requires
        0 <= pos <= t.len(),
        url_end_scan(t, pos) is Some,
    ensures
        pos < url_end_scan(t, pos)->Some_0 <= t.len(),
    decreases t.len() - pos,
{
    reveal_strlit(".jpg");
    reveal_strlit(".jpeg");
    reveal_strlit(".png");
    reveal_strlit(".gif");
    if pos < t.len() && spec_ext_at(t, pos) is None && url_mid_char(t[pos]) {
        lemma_url_end_scan_bounds(t, pos + 1);
    }
}

fn url_mid(c: char) -> (r: bool)
    ensures
        r == url_mid_char(c),
{
    !is_space(c) && c != '"' && c != '\''
}

fn ext_len_at(t: &Vec<char>, pos: usize) -> (r: Option<usize>)
    ensures
        match r {
            Some(l) => spec_ext_at(t@, pos as int) == Some(l as int),
            None => spec_ext_at(t@, pos as int) is None,
        },
{
    proof {
        reveal_strlit(".jpg");
        reveal_strlit(".jpeg");
        reveal_strlit(".png");
        reveal_strlit(".gif");
    }
    let n = t.len();
    if pos > n {
        return None;
    }
    let jpg = chars_of(".jpg");
    let jpeg = chars_of(".jpeg");
    let png = chars_of(".png");
    let gif = chars_of(".gif");
    if n - pos >= 4 && matches_at(t, &jpg, pos) {
        return Some(4);
    }
    if n - pos >= 5 && matches_at(t, &jpeg, pos) {
        return Some(5);
    }
    if n - pos >= 4 && matches_at(t, &png, pos) {
        return Some(4);
    }
    if n - pos >= 4 && matches_at(t, &gif, pos) {
        return Some(4);
    }
    None
}

fn scan_url_end(t: &Vec<char>, start: usize) -> (r: Option<usize>)
    requires
        start <= t@.len(),
    ensures
        match r {
            Some(e) => url_end_scan(t@, start as int) == Some(e as int) && start < e <= t@.len(),
            None => url_end_scan(t@, start as int) is None,
        },
{
    let n = t.len();
    let mut pos = start;
    while pos < n
        invariant
            n == t@.len(),
            start <= pos <= n,
            url_end_scan(t@, start as int) == url_end_scan(t@, pos as int),
        decreases n - pos,
    {
        match ext_len_at(t, pos) {
            Option::Some(l) => {
                proof {
                    assert(url_end_scan(t@, pos as int) == Some(pos + l as int));
                    lemma_url_end_scan_bounds(t@, start as int);
                }
                return Some(pos + l);
            },
            Option::None => {
                if !url_mid(t[pos]) {
                    return None;
                }
                pos = pos + 1;
            },
        }
    }
    None
}

/// Finds the first image URL in a text, exactly as `spec_first_image_url`
/// describes it.
pub fn find_image_url(body: &str) -> (r: Option<String>)
    ensures
        match r {
            Some(u) => spec_first_image_url(body@) == Some(u@),
            None => spec_first_image_url(body@) is None,
        },
{
    let t = chars_of(body);
    let n = t.len();
    let https = chars_of("https://");
    let http = chars_of("http://");
    let mut s: usize = 0;
    while s < n
        invariant
            t@ == body@,
            n == t@.len(),
            https@ == "https://"@,
            http@ == "http://"@,
            s <= n,
            first_match_from(t@, 0) == first_match_from(t@, s as int),
        decreases n - s,
    {
        proof {
            reveal_strlit("https://");
            reveal_strlit("http://");
        }
        let p_opt: Option<usize> = if n - s >= 8 && matches_at(&t, &https, s) {
            Some(8)
        } else if n - s >= 7 && matches_at(&t, &http, s) {
            Some(7)
        } else {
            None
        };
        match p_opt {
            Option::Some(p) => {
                if s + p < n && url_mid(t[s + p]) {
                    match scan_url_end(&t, s + p + 1) {
                        Option::Some(e) => {
                            proof {
                                assert(url_match_at(t@, s as int) == Some(e as int));
                                assert(first_match_from(t@, s as int) == Some((s as int, e as int)));
                                assert(spec_first_image_url(body@) == Some(
                                    t@.subrange(s as int, e as int),
                                ));
                            }
                            let mut out: Vec<char> = Vec::new();
                            let mut i: usize = s;
                            while i < e
                                invariant
                                    s <= i <= e <= t@.len(),
                                    out@ =~= t@.subrange(s as int, i as int),
                                decreases e - i,
                            {
                                out.push(t[i]);
                                proof {
                                    assert(t@.subrange(s as int, i + 1) =~= t@.subrange(
                                        s as int,
                                        i as int,
                                    ).push(t@[i as int]));
                                }
                                i = i + 1;
                            }
                            return Some(string_from_chars(&out));
                        },
                        Option::None => {
                            proof {
                                assert(url_match_at(t@, s as int) is None);
                            }
                        },
                    }
                } else {
                    proof {
                        assert(url_match_at(t@, s as int) is None);
                    }
                }
            },
            Option::None => {
                proof {
                    assert(url_prefix_at(t@, s as int) is None);
                    assert(url_match_at(t@, s as int) is None);
                }
            },
        }
        s = s + 1;
    }
    proof {
        assert(first_match_from(t@, n as int) is None);
    }
    None
}

/// What the torrent-art scrape yields for a fetched page: nothing for an
/// unsuccessful status; else the first image URL inside the description
/// container, when the container is there.
pub fn torrent_art_from_page(status: u16, body: &str) -> (r: Option<String>)
    ensures
        !is_success_status(status) ==> r is None,
        is_success_status(status) ==> match torrent_description_html(body@) {
            Some(d) => match r {
                Some(u) => spec_first_image_url(d) == Some(u@),
                None => spec_first_image_url(d) is None,
            },
            None => r is None,
        },
{
    if !(200 <= status && status < 300) {
        return None;
    }
    match extract_torrent_description(body) {
        Option::Some(d) => find_image_url(d.as_str()),
        Option::None => None,
    }
}

/// Length of the maximal dash-free prefix of `s`.
pub open spec fn dash_word_len(s: Seq<char>) -> int
    decreases s.len(),
{
    if s.len() == 0 || s[0] == '-' {
        0
    } else {
        1 + dash_word_len(s.drop_first())
    }
}

proof fn lemma_dash_word_len_bounds(s: Seq<char>)
    ensures
        0 <= dash_word_len(s) <= s.len(),
        s.len() > 0 && s[0] != '-' ==> dash_word_len(s) >= 1,
    decreases s.len(),
{
    if s.len() > 0 && s[0] != '-' {
        lemma_dash_word_len_bounds(s.drop_first());
    }
}

/// The non-empty dash-separated words of `s`, in order: `str::split('-')`
/// with the empty pieces dropped.
pub open spec fn dash_words(s: Seq<char>) -> Seq<Seq<char>>
    decreases s.len(),
    via dash_words_decreases
{
    if s.len() == 0 {
        Seq::empty()
    } else if s[0] == '-' {
        dash_words(s.drop_first())
    } else {
        seq![s.subrange(0, dash_word_len(s))] + dash_words(
            s.subrange(dash_word_len(s), s.len() as int),
        )
    }
}

#[via_fn]
proof fn dash_words_decreases(s: Seq<char>) {
    lemma_dash_word_len_bounds(s);
}

fn split_dash_words(v: &Vec<char>) -> (r: Vec<Vec<char>>)
    ensures
        views_of(r@) == dash_words(v@),
{
    let n = v.len();
    let mut out: Vec<Vec<char>> = Vec::new();
    let mut i: usize = 0;
    proof {
        assert(v@.skip(0) =~= v@);
        assert(views_of(out@) + dash_words(v@) =~= dash_words(v@));
    }
    while i < n
        invariant
            n == v@.len(),
            i <= n,
            dash_words(v@) =~= views_of(out@) + dash_words(v@.skip(i as int)),
        decreases n - i,
    {
        if v[i] == '-' {
            proof {
                assert(v@.skip(i as int).drop_first() =~= v@.skip(i + 1));
            }
            i = i + 1;
        } else {
            let start = i;
            let mut word: Vec<char> = Vec::new();
            let ghost suffix = v@.skip(start as int);
            while i < n && v[i] != '-'
                invariant
                    n == v@.len(),
                    start <= i <= n,
                    suffix == v@.skip(start as int),
                    word@ =~= v@.subrange(start as int, i as int),
                    dash_word_len(suffix) == (i - start) + dash_word_len(v@.skip(i as int)),
                decreases n - i,
            {
                word.push(v[i]);
                proof {
                    assert(v@.skip(i as int).drop_first() =~= v@.skip(i + 1));
                    assert(v@.subrange(start as int, i + 1) =~= v@.subrange(
                        start as int,
                        i as int,
                    ).push(v@[i as int]));
                }
                i = i + 1;
            }
            proof {
                if i < n {
                    assert(dash_word_len(v@.skip(i as int)) == 0);
                } else {
                    assert(v@.skip(i as int) =~= Seq::<char>::empty());
                }
                assert(dash_word_len(suffix) == i - start);
                assert(suffix.subrange(0, dash_word_len(suffix)) =~= v@.subrange(
                    start as int,
                    i as int,
                ));
                assert(suffix.subrange(dash_word_len(suffix), suffix.len() as int) =~= v@.skip(
                    i as int,
                ));
            }
            let ghost old_out = views_of(out@);
            let ghost wordv = word@;
            out.push(word);
            proof {
                assert(views_of(out@) =~= old_out.push(wordv));
                assert(dash_words(suffix) =~= seq![v@.subrange(start as int, i as int)]
                    + dash_words(v@.skip(i as int)));
                assert(views_of(out@) + dash_words(v@.skip(i as int)) =~= old_out + dash_words(
                    suffix,
                ));
            }
        }
    }
    proof {
        assert(v@.skip(n as int) =~= Seq::<char>::empty());
        assert(views_of(out@) =~= dash_words(v@));
    }
    out
}

/// The word pool the poster fallback probes with: the slug's dash-separated
/// words, or one empty word when the slug has none.
pub open spec fn spec_subsplease_words(name: Seq<char>) -> Seq<Seq<char>> {
    let words = dash_words(slug_of(name));
    if words.len() == 0 {
        seq![Seq::<char>::empty()]
    } else {
        words
    }
}

/// The pages the poster fallback probes, in order: the slug of the title,
/// then the slug with its last word dropped, and so on down to the bare
/// listing page.
pub open spec fn spec_subsplease_urls(name: Seq<char>) -> Seq<Seq<char>> {
    let ws = spec_subsplease_words(name);
    Seq::new((ws.len() + 1) as nat, |t: int| "https://subsplease.org/shows/"@ + join_sep(
        ws.take(ws.len() - t),
        '-',
    ))
}

/// The probe plan for the poster-scrape fallback, built from the title alone.
pub fn subsplease_urls(name: &str) -> (r: Vec<String>)
    ensures
        string_views(r@) == spec_subsplease_urls(name@),
{
    let slug = slug_chars(name);
    let mut words = split_dash_words(&slug);
    if words.len() == 0 {
        words.push(Vec::new());
        proof {
            assert(views_of(words@) =~= spec_subsplease_words(name@));
        }
    } else {
        proof {
            assert(views_of(words@) =~= spec_subsplease_words(name@));
        }
    }
    let ghost ws = spec_subsplease_words(name@);
    let total = words.len();
    let mut out: Vec<String> = Vec::new();
    let mut keep = total;
    while keep > 0
        invariant
            views_of(words@) == ws,
            words@.len() == total,
            keep <= total,
            out@.len() == total - keep,
            forall|k: int|
                0 <= k < out@.len() ==> out@[k]@ == "https://subsplease.org/shows/"@ + join_sep(
                    ws.take(ws.len() - k),
                    '-',
                ),
        decreases keep,
    {
        out.push(subsplease_candidate(&words, keep));
        keep = keep - 1;
    }
    out.push(subsplease_candidate(&words, 0));
    proof {
        assert(string_views(out@) =~= spec_subsplease_urls(name@));
    }
    out
}

fn subsplease_candidate(words: &Vec<Vec<char>>, keep: usize) -> (r: String)
    requires
        keep <= words@.len(),
    ensures
        r@ == "https://subsplease.org/shows/"@ + join_sep(views_of(words@).take(keep as int), '-'),
{
    let prefix = chars_of("https://subsplease.org/shows/");
    let mut head: Vec<Vec<char>> = Vec::new();
    let mut i: usize = 0;
    while i < keep
        invariant
            keep <= words@.len(),
            i <= keep,
            views_of(head@) =~= views_of(words@).take(i as int),
        decreases keep - i,
    {
        let mut w: Vec<char> = Vec::new();
        let wl = words[i].len();
        let mut j: usize = 0;
        while j < wl
            invariant
                i < words@.len(),
                wl == words@[i as int]@.len(),
                j <= wl,
                w@ =~= words@[i as int]@.take(j as int),
            decreases wl - j,
        {
            w.push(words[i][j]);
            proof {
                assert(words@[i as int]@.take(j + 1) =~= words@[i as int]@.take(j as int).push(
                    words@[i as int]@[j as int],
                ));
            }
            j = j + 1;
        }
        proof {
            assert(w@ =~= words@[i as int]@);
        }
        let ghost old_head = views_of(head@);
        let ghost wv = w@;
        head.push(w);
        proof {
            assert(views_of(head@) =~= old_head.push(wv));
            assert(views_of(words@).take(i + 1) =~= views_of(words@).take(i as int).push(
                views_of(words@)[i as int],
            ));
        }
        i = i + 1;
    }
    let joined = join_with_sep(&head, '-');
    let mut url: Vec<char> = Vec::new();
    let mut p: usize = 0;
    while p < prefix.len()
        invariant
            prefix@ == "https://subsplease.org/shows/"@,
            p <= prefix@.len(),
            url@ =~= prefix@.take(p as int),
        decreases prefix@.len() - p,
    {
        url.push(prefix[p]);
        proof {
            assert(prefix@.take(p + 1) =~= prefix@.take(p as int).push(prefix@[p as int]));
        }
        p = p + 1;
    }
    proof {
        assert(url@ =~= prefix@);
    }
    let mut q: usize = 0;
    let ghost urlbase = url@;
    while q < joined.len()
        invariant
            q <= joined@.len(),
            url@ =~= urlbase + joined@.take(q as int),
        decreases joined@.len() - q,
    {
        url.push(joined[q]);
        proof {
            assert(joined@.take(q + 1) =~= joined@.take(q as int).push(joined@[q as int]));
        }
        q = q + 1;
    }
    proof {
        assert(joined@.take(joined@.len() as int) =~= joined@);
        assert(views_of(head@) =~= views_of(words@).take(keep as int));
        assert(url@ =~= "https://subsplease.org/shows/"@ + join_sep(
            views_of(words@).take(keep as int),
            '-',
        ));
    }
    string_from_chars(&url)
}

/// What one probed fallback page yields: nothing for an unsuccessful status;
/// else, when the page has an image tag with a source, that source resolved
/// against the fallback site.
pub fn subsplease_image_from_page(status: u16, body: &str) -> (r: Option<String>)
    ensures
        !is_success_status(status) ==> r is None,
        is_success_status(status) ==> match first_img_src(body@) {
            Some(src) => match r {
                Some(u) => u@ == "https://subsplease.org"@ + src,
                None => false,
            },
            None => r is None,
        },
{
    if !(200 <= status && status < 300) {
        return None;
    }
    match extract_first_image_src(body) {
        Option::Some(src) => {
            let site = chars_of("https://subsplease.org");
            let srcv = chars_of(src.as_str());
            let mut url: Vec<char> = Vec::new();
            let mut i: usize = 0;
            while i < site.len()
                invariant
                    i <= site@.len(),
                    url@ =~= site@.take(i as int),
                decreases site@.len() - i,
            {
                url.push(site[i]);
                proof {
                    assert(site@.take(i + 1) =~= site@.take(i as int).push(site@[i as int]));
                }
                i = i + 1;
            }
            proof {
                assert(url@ =~= site@);
            }
            let ghost base = url@;
            let mut j: usize = 0;
            while j < srcv.len()
                invariant
                    j <= srcv@.len(),
                    url@ =~= base + srcv@.take(j as int),
                decreases srcv@.len() - j,
            {
                url.push(srcv[j]);
                proof {
                    assert(srcv@.take(j + 1) =~= srcv@.take(j as int).push(srcv@[j as int]));
                }
                j = j + 1;
            }
            proof {
                assert(srcv@.take(srcv@.len() as int) =~= srcv@);
                assert(url@ =~= "https://subsplease.org"@ + src@);
            }
            Some(string_from_chars(&url))
        },
        Option::None => None,
    }
}

} // verus!
