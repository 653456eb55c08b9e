//! Artwork extraction: per-media-type selection of poster, season poster and
//! fanart images from resolved catalog records.

use vstd::prelude::*;

use crate::candidate::CandidateRecord;
use crate::candidate::spec_tvdb_id;
use crate::candidate::extract_tvdb_id;
use crate::text::chars_of;
use crate::text::parse_i64;
use crate::text::parsed_i64;
use crate::text::string_views;

verus! {

/// The artwork type code of a season poster.
pub const SEASON_POSTER_TYPE: i64 = 7;

/// The artwork type code of a movie backdrop.
pub const MOVIE_BACKDROP_TYPE: i64 = 15;

/// The artwork type code of series fanart.
pub const SERIES_FANART_TYPE: i64 = 3;

/// One entry of a series' season list: its numeric `number` and `id` fields,
/// when they are numeric.
pub struct SeasonEntry {
    pub number: Option<i64>,
    pub id: Option<i64>,
}

/// One entry of an artwork list: its numeric `type` field and its `image`
/// field, when present.
pub struct ArtworkEntry {
    pub kind: Option<i64>,
    pub image: Option<String>,
}

/// What the parsed season string denotes: a number, or nothing when it does
/// not parse — and a string that denotes no number matches no season.
pub open spec fn spec_season_target(s: Seq<char>) -> Option<i64> {
    match parsed_i64(s) {
        Some(v) => Some(v as i64),
        None => None,
    }
}

/// The id of the first season whose numeric `number` equals the target and
/// whose own id is present.
pub open spec fn spec_first_season_id(seasons: Seq<SeasonEntry>, target: i64) -> Option<i64>
    decreases seasons.len(),
{
    if seasons.len() == 0 {
        None
    } else if seasons[0].number == Some(target) && seasons[0].id is Some {
        seasons[0].id
    } else {
        spec_first_season_id(seasons.drop_first(), target)
    }
}

proof fn lemma_first_season_id_at(seasons: Seq<SeasonEntry>, target: i64, i: int)
    requires
        0 <= i < seasons.len(),
        seasons[i].number == Some(target) && seasons[i].id is Some,
        forall|k: int|
            0 <= k < i ==> !(seasons[k].number == Some(target) && seasons[k].id is Some),
    ensures
        spec_first_season_id(seasons, target) == seasons[i].id,
    decreases i,
{
    if i > 0 {
        assert(forall|k: int|
            0 <= k < i - 1 ==> seasons.drop_first()[k] == seasons[k + 1]);
        lemma_first_season_id_at(seasons.drop_first(), target, i - 1);
    }
}

proof fn lemma_first_season_id_none(seasons: Seq<SeasonEntry>, target: i64)
    requires
        forall|k: int|
            0 <= k < seasons.len() ==> !(seasons[k].number == Some(target)
                && seasons[k].id is Some),
    ensures
        spec_first_season_id(seasons, target) is None,
    decreases seasons.len(),
{
    if seasons.len() > 0 {
        lemma_first_season_id_none(seasons.drop_first(), target);
    }
}

/// Resolves a parsed season string against a series' season list: the id of
/// the first season entry whose numeric `number` equals the parse of the
/// string; a season string that does not parse matches no season.
pub fn season_id_for(seasons: &Vec<SeasonEntry>, season_number: &str) -> (r: Option<i64>)
    ensures
        r == match spec_season_target(season_number@) {
            Some(t) => spec_first_season_id(seasons@, t),
            None => None::<i64>,
        },
{
    let sv = chars_of(season_number);
    let target = match parse_i64(&sv) {
        Option::Some(t) => t,
        Option::None => {
            return None;
        },
    };
    proof {
        assert(spec_season_target(season_number@) == Some(target));
    }
    let n = seasons.len();
    let mut i: usize = 0;
    while i < n
        invariant
            n == seasons@.len(),
            i <= n,
            spec_season_target(season_number@) == Some(target),
            forall|k: int|
                0 <= k < i ==> !(seasons@[k].number == Some(target) && seasons@[k].id is Some),
        decreases n - i,
    {
        let matches_number = match &seasons[i].number {
            Option::Some(a) => *a == target,
            Option::None => false,
        };
        if matches_number {
            if let Option::Some(id) = &seasons[i].id {
                proof {
                    lemma_first_season_id_at(seasons@, target, i as int);
                }
                return Some(*id);
            }
        }
        i = i + 1;
    }
    proof {
        lemma_first_season_id_none(seasons@, target);
    }
    None
}

/// The image of the first artwork entry carrying the season-poster type code
/// and an image.
pub open spec fn spec_season_poster(artwork: Seq<ArtworkEntry>) -> Option<Seq<char>>
    decreases artwork.len(),
{
    if artwork.len() == 0 {
        None
    } else if artwork[0].kind == Some(SEASON_POSTER_TYPE) && artwork[0].image is Some {
        Some(artwork[0].image->Some_0@)
    } else {
        spec_season_poster(artwork.drop_first())
    }
}

proof fn lemma_season_poster_at(artwork: Seq<ArtworkEntry>, i: int)
    requires
        0 <= i < artwork.len(),
        artwork[i].kind == Some(SEASON_POSTER_TYPE) && artwork[i].image is Some,
        forall|k: int|
            0 <= k < i ==> !(artwork[k].kind == Some(SEASON_POSTER_TYPE)
                && artwork[k].image is Some),
    ensures
        spec_season_poster(artwork) == Some(artwork[i].image->Some_0@),
    decreases i,
{
    if i > 0 {
        assert(forall|k: int|
            0 <= k < i - 1 ==> artwork.drop_first()[k] == artwork[k + 1]);
        lemma_season_poster_at(artwork.drop_first(), i - 1);
    }
}

proof fn lemma_season_poster_none(artwork: Seq<ArtworkEntry>)
    requires
        forall|k: int|
            0 <= k < artwork.len() ==> !(artwork[k].kind == Some(SEASON_POSTER_TYPE)
                && artwork[k].image is Some),
    ensures
        spec_season_poster(artwork) is None,
    decreases artwork.len(),
{
    if artwork.len() > 0 {
        lemma_season_poster_none(artwork.drop_first());
    }
}

/// Scans a season's artwork list for its poster: the first entry with type
/// code 7 and an image.
pub fn season_poster_from(artwork: &Vec<ArtworkEntry>) -> (r: Option<String>)
    ensures
        match r {
            Some(s) => spec_season_poster(artwork@) == Some(s@),
            None => spec_season_poster(artwork@) is None,
        },
{
    let n = artwork.len();
    let mut i: usize = 0;
    while i < n
        invariant
            n == artwork@.len(),
            i <= n,
            forall|k: int|
                0 <= k < i ==> !(artwork@[k].kind == Some(SEASON_POSTER_TYPE)
                    && artwork@[k].image is Some),
        decreases n - i,
    {
        let kind_matches = match &artwork[i].kind {
            Option::Some(k) => *k == SEASON_POSTER_TYPE,
            Option::None => false,
        };
        if kind_matches {
            if let Option::Some(img) = &artwork[i].image {
                proof {
                    lemma_season_poster_at(artwork@, i as int);
                }
                return Some(img.clone());
            }
        }
        i = i + 1;
    }
    proof {
        lemma_season_poster_none(artwork@);
    }
    None
}

/// The poster path's final choice: the season poster when one was resolved,
/// else the series- or movie-level image (possibly absent).
pub fn poster_image_choice(season: Option<String>, series: Option<String>) -> (r: Option<String>)
    ensures
        r == if season is Some {
            season
        } else {
            series
        },
{
    match season {
        Option::Some(s) => Some(s),
        Option::None => series,
    }
}

/// The media kind of a record equals the given word.
pub open spec fn media_kind_is(c: CandidateRecord, k: Seq<char>) -> bool {
    match c.media_kind {
        Some(s) => s@ == k,
        None => false,
    }
}

/// What the fanart path does with one candidate: fetch the series' fanart
/// class, fetch the extended movie record, or skip to the next candidate.
pub enum FanartAction {
    FetchSeriesArtworks { series_id: i64 },
    FetchMovieExtended { movie_id: i64 },
    Skip,
}

/// Decides the fanart probe for one candidate: a resolvable identifier and a
/// `series`/`movie` kind pick the fetch; anything else skips the candidate.
pub fn fanart_plan(c: &CandidateRecord) -> (r: FanartAction)
    ensures
        match r {
            FanartAction::FetchSeriesArtworks { series_id } => spec_tvdb_id(*c) == Some(
                series_id as int,
            ) && media_kind_is(*c, "series"@),
            FanartAction::FetchMovieExtended { movie_id } => spec_tvdb_id(*c) == Some(
                movie_id as int,
            ) && media_kind_is(*c, "movie"@),
            FanartAction::Skip => spec_tvdb_id(*c) is None || (!media_kind_is(*c, "series"@)
                && !media_kind_is(*c, "movie"@)),
        },
{
    let id = match extract_tvdb_id(c) {
        Option::Some(id) => id,
        Option::None => {
            return FanartAction::Skip;
        },
    };
    match &c.media_kind {
        Option::Some(k) => {
            let kv = chars_of(k.as_str());
            let series_lit = chars_of("series");
            let movie_lit = chars_of("movie");
            if crate::text::chars_eq(&kv, &series_lit) {
                FanartAction::FetchSeriesArtworks { series_id: id }
            } else if crate::text::chars_eq(&kv, &movie_lit) {
                FanartAction::FetchMovieExtended { movie_id: id }
            } else {
                FanartAction::Skip
            }
        },
        Option::None => FanartAction::Skip,
    }
}

/// The artwork entries carrying the movie-backdrop type code, in order.
pub open spec fn spec_movie_backdrops(s: Seq<ArtworkEntry>) -> Seq<ArtworkEntry>
    decreases s.len(),
{
    if s.len() == 0 {
        Seq::empty()
    } else if s[0].kind == Some(MOVIE_BACKDROP_TYPE) {
        seq![s[0]] + spec_movie_backdrops(s.drop_first())
    } else {
        spec_movie_backdrops(s.drop_first())
    }
}

fn dup_artwork(a: &ArtworkEntry) -> (r: ArtworkEntry)
    ensures
        r == *a,
{
    ArtworkEntry {
        kind: match &a.kind {
            Option::Some(k) => Some(*k),
            Option::None => None,
        },
        image: match &a.image {
            Option::Some(s) => Some(s.clone()),
            Option::None => None,
        },
    }
}

/// The movie fanart rule: keep the backdrop-typed artwork entries, and yield
/// nothing when none remain.
pub fn movie_fanart_filter(artworks: &Vec<ArtworkEntry>) -> (r: Option<Vec<ArtworkEntry>>)
    ensures
        match r {
            Some(v) => v@ == spec_movie_backdrops(artworks@) && v@.len() > 0,
            None => spec_movie_backdrops(artworks@).len() == 0,
        },
{
    let n = artworks.len();
    let mut out: Vec<ArtworkEntry> = Vec::new();
    let mut i: usize = 0;
    proof {
        assert(artworks@.skip(0) =~= artworks@);
    }
    while i < n
        invariant
            n == artworks@.len(),
            i <= n,
            spec_movie_backdrops(artworks@) =~= out@ + spec_movie_backdrops(
                artworks@.skip(i as int),
            ),
        decreases n - i,
    {
        proof {
            assert(artworks@.skip(i as int).drop_first() =~= artworks@.skip(i + 1));
        }
        let kind_matches = match &artworks[i].kind {
            Option::Some(k) => *k == MOVIE_BACKDROP_TYPE,
            Option::None => false,
        };
        if kind_matches {
            out.push(dup_artwork(&artworks[i]));
            proof {
                assert(out@ + spec_movie_backdrops(artworks@.skip(i + 1)) =~= out@.drop_last()
                    + spec_movie_backdrops(artworks@.skip(i as int)));
            }
        }
        i = i + 1;
    }
    proof {
        assert(artworks@.skip(n as int) =~= Seq::<ArtworkEntry>::empty());
        assert(out@ =~= spec_movie_backdrops(artworks@));
    }
    if out.len() == 0 {
        None
    } else {
        Some(out)
    }
}

/// How many entries of a series' fanart-class artwork list are considered.
pub const SERIES_FANART_LIMIT: usize = 3;

/// The series fanart rule: of the fetched fanart-class artwork list, only
/// the first three entries are kept.
pub fn limit_series_fanart(artworks: &Vec<ArtworkEntry>) -> (r: Vec<ArtworkEntry>)
    ensures
        r@ == artworks@.take(
            if artworks@.len() < 3 {
                artworks@.len() as int
            } else {
                3
            },
        ),
{
    let cap: usize = if artworks.len() < SERIES_FANART_LIMIT {
        artworks.len()
    } else {
        SERIES_FANART_LIMIT
    };
    let mut out: Vec<ArtworkEntry> = Vec::new();
    let mut i: usize = 0;
    while i < cap
        invariant
            cap <= artworks@.len(),
            i <= cap,
            out@ =~= artworks@.take(i as int),
        decreases cap - i,
    {
        out.push(dup_artwork(&artworks[i]));
        proof {
            assert(artworks@.take(i + 1) =~= artworks@.take(i as int).push(artworks@[i as int]));
        }
        i = i + 1;
    }
    out
}

/// The images of the artwork entries that carry one, in order: the pool the
/// fanart response draws from.
pub open spec fn spec_fanart_images(s: Seq<ArtworkEntry>) -> Seq<Seq<char>>
    decreases s.len(),
{
    if s.len() == 0 {
        Seq::empty()
    } else if s[0].image is Some {
        seq![s[0].image->Some_0@] + spec_fanart_images(s.drop_first())
    } else {
        spec_fanart_images(s.drop_first())
    }
}

/// The image pool of an artwork collection.
pub fn fanart_images(artworks: &Vec<ArtworkEntry>) -> (r: Vec<String>)
    ensures
        string_views(r@) == spec_fanart_images(artworks@),
{
    let n = artworks.len();
    let mut out: Vec<String> = Vec::new();
    let mut i: usize = 0;
    proof {
        assert(artworks@.skip(0) =~= artworks@);
        assert(string_views(out@) + spec_fanart_images(artworks@) =~= spec_fanart_images(
            artworks@,
        ));
    }
    while i < n
        invariant
            n == artworks@.len(),
            i <= n,
            spec_fanart_images(artworks@) =~= string_views(out@) + spec_fanart_images(
                artworks@.skip(i as int),
            ),
        decreases n - i,
    {
        proof {
            assert(artworks@.skip(i as int).drop_first() =~= artworks@.skip(i + 1));
        }
        if let Option::Some(img) = &artworks[i].image {
            let ghost old_views = string_views(out@);
            out.push(img.clone());
            proof {
                assert(string_views(out@) =~= old_views.push(artworks@[i as int].image->Some_0@));
                assert(string_views(out@) + spec_fanart_images(artworks@.skip(i + 1)) =~= old_views
                    + spec_fanart_images(artworks@.skip(i as int)));
            }
        }
        i = i + 1;
    }
    proof {
        assert(artworks@.skip(n as int) =~= Seq::<ArtworkEntry>::empty());
        assert(string_views(out@) =~= spec_fanart_images(artworks@));
    }
    out
}

/// Relies on `rand::random_range`: a uniformly distributed index below `n`.
#[verifier::external_body]
fn random_index_below(n: usize) -> (r: usize)
    requires
        n > 0,
    ensures
        r < n,
{
    rand::random_range(0..n)
}

/// Draws one fanart image uniformly at random from the collection's entries
/// that carry an image; nothing when no entry does.
pub fn choose_fanart_image(artworks: &Vec<ArtworkEntry>) -> (r: Option<String>)
    ensures
        r is Some <==> spec_fanart_images(artworks@).len() > 0,
        match r {
            Some(s) => spec_fanart_images(artworks@).contains(s@),
            None => true,
        },
{
    let images = fanart_images(artworks);
    if images.len() == 0 {
        proof {
            assert(string_views(images@).len() == 0);
        }
        None
    } else {
        let i = random_index_below(images.len());
        let img = images[i].clone();
        proof {
            assert(string_views(images@)[i as int] == images@[i as int]@);
        }
        Some(img)
    }
}

} // verus!
