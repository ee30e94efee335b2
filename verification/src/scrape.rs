//! Reading a bird out of the pages of ebird.org and the Macaulay Library:
//! its name, description and photo asset, the size of its photo, and how
//! tall the embedded player is.
use vstd::prelude::*;
use vstd::utf8::encode_utf8;
use crate::arith::{div_i32, rem_i32, trunc_div, trunc_rem};
use crate::models::BirdEntry;
use crate::text::{
    after_first, after_first_exec, chars_of, contains_text, first_match_from, is_white_space,
    lemma_first_match_at, lemma_first_match_bounds, lemma_prefix_before, lemma_split_last_piece, lemma_trim_padded,
    matches_at, prefix_before, prefix_before_exec, split_all, split_from, split_pieces,
    string_chars, string_of, strip_trailing, strip_trailing_exec, trim, trim_exec,
};

verus! {

/// What went wrong while reading a bird.
#[derive(Debug, Clone, Copy, PartialEq, Eq, Structural)]
pub enum ScrapeError {
    NoBirdName,
    DescriptionNotFound,
    NoPhotoAssets,
    NoCitationUrl,
    MissingSpan1,
    MissingSpan2,
    MissingAuthorSpan,
    MissingLocationSpan,
    NoImageDimensions,
    MissingEntries,
    NoImageSize,
}

/// The text an error is reported with.
pub open spec fn scrape_error_text(e: ScrapeError) -> Seq<char> {
    match e {
        ScrapeError::NoBirdName => "no bird name"@,
        ScrapeError::DescriptionNotFound => "description not found"@,
        ScrapeError::NoPhotoAssets => "error no photoAssets Script"@,
        ScrapeError::NoCitationUrl => "no citiaon Url in photoAssets"@,
        ScrapeError::MissingSpan1 => "Couldn't get span 1"@,
        ScrapeError::MissingSpan2 => "Couldn't get span 2"@,
        ScrapeError::MissingAuthorSpan => "Couldn't get author span (span 3)"@,
        ScrapeError::MissingLocationSpan => "Couldn't get location span (span 4)"@,
        ScrapeError::NoImageDimensions => "Could not get image dimensions"@,
        ScrapeError::MissingEntries => "Missing entries"@,
        ScrapeError::NoImageSize => "Could not get image size"@,
    }
}

impl ScrapeError {
    /// The text the error is reported with.
    pub fn message(&self) -> (r: &'static str)
        ensures
            r@ == scrape_error_text(*self),
    {
        match self {
            ScrapeError::NoBirdName => "no bird name",
            ScrapeError::DescriptionNotFound => "description not found",
            ScrapeError::NoPhotoAssets => "error no photoAssets Script",
            ScrapeError::NoCitationUrl => "no citiaon Url in photoAssets",
            ScrapeError::MissingSpan1 => "Couldn't get span 1",
            ScrapeError::MissingSpan2 => "Couldn't get span 2",
            ScrapeError::MissingAuthorSpan => "Couldn't get author span (span 3)",
            ScrapeError::MissingLocationSpan => "Couldn't get location span (span 4)",
            ScrapeError::NoImageDimensions => "Could not get image dimensions",
            ScrapeError::MissingEntries => "Missing entries",
            ScrapeError::NoImageSize => "Could not get image size",
        }
    }
}

/// The page that redirects to a random species.
pub const SURPRISE_ME_URL: &'static str = "https://ebird.org/species/surprise-me";

/// What precedes the bird's name on a species page.
pub const NAME_MARKER: &'static str = "Media--hero-title\">";

/// What precedes the bird's description on a species page.
pub const DESCRIPTION_MARKER: &'static str = "<p class=\"u-stack-sm\">";

/// The script that lists the photos of a species page.
pub const PHOTO_ASSETS_MARKER: &'static str = "var photoAssetsJson";

/// What precedes the citation URL of a photo.
pub const CITATION_MARKER: &'static str = "citationUrl\" : ";

/// The start of a `span` element.
pub const SPAN_TAG: &'static str = "<span";

/// The piece after the first occurrence of `pat` in `s`, up to the next one.
pub open spec fn after_marker(s: Seq<char>, pat: Seq<char>) -> Option<Seq<char>> {
    let pieces = split_pieces(s, pat);
    if pieces.len() > 1 {
        Some(pieces[1])
    } else {
        None
    }
}

/// The bird's name on a species page: what follows the name marker, up to `<`.
pub open spec fn bird_name(data: Seq<char>) -> Option<Seq<char>> {
    match after_marker(data, NAME_MARKER@) {
        Some(p) => Some(prefix_before(p, '<')),
        None => None,
    }
}

/// The bird's description: what follows the description marker, up to `<`,
/// without surrounding white space.
pub open spec fn bird_description(data: Seq<char>) -> Option<Seq<char>> {
    match after_marker(data, DESCRIPTION_MARKER@) {
        Some(p) => Some(trim(prefix_before(p, '<'))),
        None => None,
    }
}

/// The photo's asset id: in the photo script, the citation URL up to `,`,
/// its last `/`-separated part, without trailing `"`.
pub open spec fn embed_id(data: Seq<char>) -> Result<Seq<char>, ScrapeError> {
    match after_marker(data, PHOTO_ASSETS_MARKER@) {
        None => Err(ScrapeError::NoPhotoAssets),
        Some(script) => match after_marker(script, CITATION_MARKER@) {
            None => Err(ScrapeError::NoCitationUrl),
            Some(url) => Ok(
                strip_trailing(split_pieces(prefix_before(url, ','), seq!['/']).last(), '"'),
            ),
        },
    }
}

/// The marker texts are not empty.
proof fn lemma_markers_nonempty()
    ensures
        NAME_MARKER@.len() > 0,
        DESCRIPTION_MARKER@.len() > 0,
        PHOTO_ASSETS_MARKER@.len() > 0,
        CITATION_MARKER@.len() > 0,
        SPAN_TAG@.len() > 0,
{
    reveal_strlit("Media--hero-title\">");
    reveal_strlit("<p class=\"u-stack-sm\">");
    reveal_strlit("var photoAssetsJson");
    reveal_strlit("citationUrl\" : ");
    reveal_strlit("<span");
}

/// Splitting always yields at least one piece.
pub proof fn lemma_split_nonempty(s: Seq<char>, pat: Seq<char>, start: int)
    ensures
        split_from(s, pat, start).len() >= 1,
{
}

/// The piece of `v` after the first `pat`, up to the next one.
fn after_marker_exec(v: &Vec<char>, marker: &str) -> (r: Option<Vec<char>>)
    requires
        marker@.len() > 0,
    ensures
        match r {
            Some(p) => after_marker(v@, marker@) == Some(p@),
            None => after_marker(v@, marker@) is None,
        },
{
    let pat = chars_of(marker);
    let pieces = split_all(v, &pat);
    if pieces.len() > 1 {
        let p = string_chars(&pieces[1], 0, pieces[1].len());
        assert(p@ =~= pieces@[1]@);
        Some(p)
    } else {
        None
    }
}

/// `get_bird_name`: the bird's name on a species page.
pub fn get_bird_name(data: &str) -> (r: Result<String, ScrapeError>)
    ensures
        match bird_name(data@) {
            Some(n) => r matches Ok(s) && s@ == n,
            None => r == Err::<String, ScrapeError>(ScrapeError::NoBirdName),
        },
{
    proof {
        lemma_markers_nonempty();
    }
    let v = chars_of(data);
    match after_marker_exec(&v, NAME_MARKER) {
        Some(p) => {
            let name = prefix_before_exec(&p, '<');
            Ok(string_of(&name, 0, name.len()))
        },
        None => Err(ScrapeError::NoBirdName),
    }
}

/// `get_description`: the bird's description on a species page.
pub fn get_description(data: &str) -> (r: Result<String, ScrapeError>)
    ensures
        match bird_description(data@) {
            Some(d) => r matches Ok(s) && s@ == d,
            None => r == Err::<String, ScrapeError>(ScrapeError::DescriptionNotFound),
        },
{
    proof {
        lemma_markers_nonempty();
    }
    let v = chars_of(data);
    match after_marker_exec(&v, DESCRIPTION_MARKER) {
        Some(p) => {
            let d = trim_exec(&prefix_before_exec(&p, '<'));
            Ok(string_of(&d, 0, d.len()))
        },
        None => Err(ScrapeError::DescriptionNotFound),
    }
}

/// `get_embbed`: the asset id of the bird's photo on a species page.
pub fn get_embbed(data: &str) -> (r: Result<String, ScrapeError>)
    ensures
        match embed_id(data@) {
            Ok(id) => r matches Ok(s) && s@ == id,
            Err(e) => r == Err::<String, ScrapeError>(e),
        },
{
    proof {
        lemma_markers_nonempty();
    }
    let v = chars_of(data);
    let script = match after_marker_exec(&v, PHOTO_ASSETS_MARKER) {
        Some(s) => s,
        None => {
            return Err(ScrapeError::NoPhotoAssets);
        },
    };
    let url = match after_marker_exec(&script, CITATION_MARKER) {
        Some(u) => u,
        None => {
            return Err(ScrapeError::NoCitationUrl);
        },
    };
    let head = prefix_before_exec(&url, ',');
    let mut slash: Vec<char> = Vec::new();
    slash.push('/');
    let parts = split_all(&head, &slash);
    proof {
        lemma_split_nonempty(head@, slash@, 0);
        assert(slash@ =~= seq!['/']);
    }
    let last = &parts[parts.len() - 1];
    let id = strip_trailing_exec(last, '"');
    Ok(string_of(&id, 0, id.len()))
}

/// A marker whose first character occurs nowhere else in it, and which
/// holds no `<` after its first character.
pub open spec fn marker_ok(pat: Seq<char>) -> bool {
    &&& pat.len() > 0
    &&& forall|t: int| 1 <= t < pat.len() ==> #[trigger] pat[t] != pat[0] && pat[t] != '<'
}

/// The name and description markers are such markers; the description
/// marker starts with `<`.
proof fn lemma_markers_ok()
    ensures
        marker_ok(NAME_MARKER@),
        marker_ok(DESCRIPTION_MARKER@),
        DESCRIPTION_MARKER@[0] == '<',
{
    reveal_strlit("Media--hero-title\">");
    reveal_strlit("<p class=\"u-stack-sm\">");
    let m = NAME_MARKER@;
    assert(m =~= seq![
        'M', 'e', 'd', 'i', 'a', '-', '-', 'h', 'e', 'r', 'o', '-', 't', 'i', 't', 'l', 'e',
        '"', '>',
    ]);
    let d = DESCRIPTION_MARKER@;
    assert(d =~= seq![
        '<', 'p', ' ', 'c', 'l', 'a', 's', 's', '=', '"', 'u', '-', 's', 't', 'a', 'c', 'k',
        '-', 's', 'm', '"', '>',
    ]);
}

/// On a text made of a prefix without the marker, the marker, a body
/// without the marker, a stop character and anything, the piece after the
/// marker starts with the body, followed by the stop character where the
/// piece goes on; it does go on when the marker does not start with the
/// stop character. The marker's first character occurs nowhere else in it,
/// and the stop character nowhere after its first character.
pub proof fn lemma_piece_after_marker(
    pfx: Seq<char>,
    pat: Seq<char>,
    body: Seq<char>,
    stop: char,
    tail: Seq<char>,
)
    requires
        pat.len() > 0,
        forall|t: int| 1 <= t < pat.len() ==> #[trigger] pat[t] != pat[0] && pat[t] != stop,
        !contains_text(pfx, pat),
        !contains_text(body, pat),
    ensures
        after_marker(pfx + pat + body + seq![stop] + tail, pat) is Some,
        ({
            let p = after_marker(pfx + pat + body + seq![stop] + tail, pat)->0;
            &&& body.len() <= p.len()
            &&& p.take(body.len() as int) == body
            &&& p.len() > body.len() ==> p[body.len() as int] == stop
            &&& pat[0] != stop ==> p.len() > body.len()
        }),
{
    let page = pfx + pat + body + seq![stop] + tail;
    let a = pfx.len() as int;
    let n = pat.len() as int;
    let q = a + n;
    let pos = q + body.len();
    assert(page.subrange(a, a + n) =~= pat);
    assert(matches_at(page, pat, a));
    assert forall|j: int| 0 <= j < a implies !#[trigger] matches_at(page, pat, j) by {
        if matches_at(page, pat, j) {
            if j + n <= a {
                assert(pfx.subrange(j, j + n) =~= page.subrange(j, j + n));
                assert(matches_at(pfx, pat, j));
            } else {
                let t = a - j;
                assert(page.subrange(j, j + n)[t] == page[a]);
                assert(page[a] == pat[0]);
                assert(pat[t] != pat[0]);
            }
        }
    }
    lemma_first_match_at(page, pat, 0, a);
    assert forall|j: int| q <= j < pos implies !#[trigger] matches_at(page, pat, j) by {
        if matches_at(page, pat, j) {
            if j + n <= pos {
                assert(body.subrange(j - q, j - q + n) =~= page.subrange(j, j + n));
                assert(matches_at(body, pat, j - q));
            } else {
                let t = pos - j;
                assert(page.subrange(j, j + n)[t] == page[pos]);
                assert(page[pos] == stop);
                assert(pat[t] != stop);
            }
        }
    }
    if pat[0] != stop {
        if matches_at(page, pat, pos) {
            assert(page.subrange(pos, pos + n)[0] == page[pos]);
        }
    }
    lemma_first_match_bounds(page, pat, q);
    let e = match first_match_from(page, pat, q) {
        Some(i) => i,
        None => page.len() as int,
    };
    assert(pos <= e <= page.len());
    assert(pat[0] != stop ==> e > pos);
    let pieces = split_pieces(page, pat);
    assert(pieces == seq![page.subrange(0, a)] + split_from(page, pat, q));
    assert(split_from(page, pat, q)[0] == page.subrange(q, e));
    let p = page.subrange(q, e);
    assert(pieces[1] == p);
    assert(p.take(body.len() as int) =~= body);
    if e > pos {
        assert(p[body.len() as int] == stop);
    }
}

/// On a page made of a prefix without the marker, the marker, a body with
/// neither the marker nor `<`, then `<` and anything, the piece after the
/// marker reads, up to `<`, as the body.
pub proof fn lemma_after_marker_page(
    pfx: Seq<char>,
    pat: Seq<char>,
    body: Seq<char>,
    tail: Seq<char>,
)
    requires
        marker_ok(pat),
        !contains_text(pfx, pat),
        !contains_text(body, pat),
        !body.contains('<'),
    ensures
        after_marker(pfx + pat + body + seq!['<'] + tail, pat) matches Some(p) && prefix_before(
            p,
            '<',
        ) == body,
{
    lemma_piece_after_marker(pfx, pat, body, '<', tail);
    let p = after_marker(pfx + pat + body + seq!['<'] + tail, pat)->0;
    assert forall|k: int| 0 <= k < body.len() implies p[k] != '<' by {
        assert(p[k] == p.take(body.len() as int)[k]);
    }
    lemma_prefix_before(p, '<', body.len() as int);
}

/// A species page that holds the name marker once, followed by a name
/// without `<` and then `<`, gives that name.
pub proof fn lemma_bird_name_of_page(pfx: Seq<char>, name: Seq<char>, rest: Seq<char>)
    requires
        !contains_text(pfx, NAME_MARKER@),
        !contains_text(name, NAME_MARKER@),
        !name.contains('<'),
    ensures
        bird_name(pfx + NAME_MARKER@ + name + seq!['<'] + rest) == Some(name),
{
    lemma_markers_ok();
    lemma_after_marker_page(pfx, NAME_MARKER@, name, rest);
}

/// A species page with the description marker, then a trimmed description
/// without `<` between white space, then `<`, gives that description.
pub proof fn lemma_description_of_page(
    pfx: Seq<char>,
    ws1: Seq<char>,
    description: Seq<char>,
    ws2: Seq<char>,
    rest: Seq<char>,
)
    requires
        !contains_text(pfx, DESCRIPTION_MARKER@),
        forall|i: int| 0 <= i < ws1.len() ==> is_white_space(#[trigger] ws1[i]),
        forall|i: int| 0 <= i < ws2.len() ==> is_white_space(#[trigger] ws2[i]),
        !description.contains('<'),
        trim(description) == description,
    ensures
        bird_description(pfx + DESCRIPTION_MARKER@ + ws1 + description + ws2 + seq!['<'] + rest)
            == Some(description),
{
    lemma_markers_ok();
    let body = ws1 + description + ws2;
    let pat = DESCRIPTION_MARKER@;
    assert forall|k: int| 0 <= k < body.len() implies body[k] != '<' by {
        if k < ws1.len() {
            assert(body[k] == ws1[k]);
        } else if k < ws1.len() + description.len() {
            assert(body[k] == description[k - ws1.len()]);
            assert(!description.contains('<'));
        } else {
            assert(body[k] == ws2[k - ws1.len() - description.len()]);
        }
    }
    assert(!body.contains('<'));
    if contains_text(body, pat) {
        let j = choose|j: int| matches_at(body, pat, j);
        assert(body.subrange(j, j + pat.len())[0] == body[j]);
    }
    assert(pfx + pat + ws1 + description + ws2 + seq!['<'] + rest =~= pfx + pat + body + seq![
        '<',
    ] + rest);
    lemma_after_marker_page(pfx, pat, body, rest);
    lemma_trim_padded(ws1, description, ws2);
}

/// The photo and citation markers start with a character found nowhere
/// else in them, and hold no `,`.
proof fn lemma_photo_markers()
    ensures
        PHOTO_ASSETS_MARKER@.len() > 0,
        PHOTO_ASSETS_MARKER@[0] != ',',
        forall|t: int|
            1 <= t < PHOTO_ASSETS_MARKER@.len() ==> #[trigger] PHOTO_ASSETS_MARKER@[t]
                != PHOTO_ASSETS_MARKER@[0] && PHOTO_ASSETS_MARKER@[t] != ',',
        CITATION_MARKER@.len() > 0,
        CITATION_MARKER@[0] != ',',
        forall|t: int|
            1 <= t < CITATION_MARKER@.len() ==> #[trigger] CITATION_MARKER@[t]
                != CITATION_MARKER@[0] && CITATION_MARKER@[t] != ',',
{
    reveal_strlit("var photoAssetsJson");
    reveal_strlit("citationUrl\" : ");
    assert(PHOTO_ASSETS_MARKER@ =~= seq![
        'v', 'a', 'r', ' ', 'p', 'h', 'o', 't', 'o', 'A', 's', 's', 'e', 't', 's', 'J', 's', 'o',
        'n',
    ]);
    assert(CITATION_MARKER@ =~= seq![
        'c', 'i', 't', 'a', 't', 'i', 'o', 'n', 'U', 'r', 'l', '"', ' ', ':', ' ',
    ]);
}

/// The photo's asset id comes from the first citation URL of the photo
/// script: on a page with the photo marker, a stretch without a citation
/// marker, the citation marker and a URL `head/id"` followed by `,`, the id
/// is `id`, whatever follows (further citation URLs among it). The URL
/// holds no `,` and no citation marker, the id no `/`, `,` or `"`, and
/// nothing from the photo marker to that `,` holds another photo marker.
pub proof fn lemma_embed_id_of_page(
    dpfx: Seq<char>,
    spfx: Seq<char>,
    head: Seq<char>,
    id: Seq<char>,
    rest: Seq<char>,
)
    requires
        !contains_text(dpfx, PHOTO_ASSETS_MARKER@),
        !contains_text(
            spfx + CITATION_MARKER@ + head + seq!['/'] + id + seq!['"'],
            PHOTO_ASSETS_MARKER@,
        ),
        !contains_text(spfx, CITATION_MARKER@),
        !contains_text(head + seq!['/'] + id + seq!['"'], CITATION_MARKER@),
        !head.contains(','),
        !id.contains('/'),
        !id.contains(','),
        !id.contains('"'),
    ensures
        embed_id(
            dpfx + PHOTO_ASSETS_MARKER@ + spfx + CITATION_MARKER@ + head + seq!['/'] + id + seq![
                '"',
                ',',
            ] + rest,
        ) == Ok::<Seq<char>, ScrapeError>(id),
{
    lemma_photo_markers();
    let photo = PHOTO_ASSETS_MARKER@;
    let cite = CITATION_MARKER@;
    let body2 = head + seq!['/'] + id + seq!['"'];
    let b1 = spfx + cite + body2;
    let page = dpfx + photo + spfx + cite + head + seq!['/'] + id + seq!['"', ','] + rest;
    assert(page =~= dpfx + photo + b1 + seq![','] + rest);
    assert(b1 =~= spfx + cite + head + seq!['/'] + id + seq!['"']);
    lemma_piece_after_marker(dpfx, photo, b1, ',', rest);
    let script = after_marker(page, photo)->0;
    let tail2 = script.skip(b1.len() as int + 1);
    assert(script =~= spfx + cite + body2 + seq![','] + tail2) by {
        assert(script =~= script.take(b1.len() as int) + seq![','] + tail2);
    }
    lemma_piece_after_marker(spfx, cite, body2, ',', tail2);
    let url = after_marker(script, cite)->0;
    assert forall|k: int| 0 <= k < body2.len() implies url[k] != ',' by {
        assert(url[k] == url.take(body2.len() as int)[k]);
        if k < head.len() {
            assert(body2[k] == head[k]);
        } else if k == head.len() {
        } else if k < head.len() + 1 + id.len() {
            assert(body2[k] == id[k - head.len() - 1]);
        }
    }
    lemma_prefix_before(url, ',', body2.len() as int);
    assert(prefix_before(url, ',') == body2);
    let last = id + seq!['"'];
    assert(!last.contains('/')) by {
        assert forall|k: int| 0 <= k < last.len() implies last[k] != '/' by {
            if k < id.len() {
                assert(last[k] == id[k]);
            }
        }
    }
    lemma_split_last_piece(head, '/', last);
    assert(body2 =~= head + seq!['/'] + last);
    assert(last.drop_last() =~= id);
    if id.len() > 0 {
        assert(id.last() == id[id.len() - 1]);
    }
    assert(strip_trailing(id, '"') == id);
    assert(strip_trailing(last, '"') == id);
}

/// The text of a `span` piece: after its first `>`, up to the next `<`.
pub open spec fn span_text(piece: Seq<char>) -> Seq<char> {
    prefix_before(after_first(piece, '>'), '<')
}

/// The length of `s` in UTF-8 bytes (`str::len`).
pub open spec fn utf8_len(s: Seq<char>) -> int {
    encode_utf8(s).len() as int
}

/// The lines that `count` characters take at `max` to a line: `count / max`
/// (toward zero), plus one when it leaves a remainder.
pub open spec fn lines_to_add(count: int, max: int) -> int {
    trunc_div(count, max) + if trunc_rem(count, max) != 0 {
        1int
    } else {
        0int
    }
}

/// `lines_to_add` is the fewest lines of `max` characters that hold
/// `count` characters: they hold them, and one line less would not.
pub proof fn lemma_lines_to_add_fewest(count: int, max: int)
    requires
        0 <= count,
        0 < max,
    ensures
        0 <= lines_to_add(count, max),
        count <= lines_to_add(count, max) * max,
        (lines_to_add(count, max) - 1) * max < count,
{
    let q = count / max;
    let r = count % max;
    vstd::arithmetic::div_mod::lemma_fundamental_div_mod(count, max);
    vstd::arithmetic::div_mod::lemma_mod_bound(count, max);
    vstd::arithmetic::div_mod::lemma_div_pos_is_pos(count, max);
    assert(trunc_div(count, max) == q);
    assert(trunc_rem(count, max) == r);
    let k = lines_to_add(count, max);
    if r != 0 {
        assert(k == q + 1);
        assert(k * max == q * max + max) by (nonlinear_arith)
            requires
                k == q + 1,
        ;
        assert((k - 1) * max == q * max) by (nonlinear_arith)
            requires
                k == q + 1,
        ;
    } else {
        assert(k == q);
        assert((k - 1) * max == q * max - max) by (nonlinear_arith)
            requires
                k == q,
        ;
    }
    assert(max * q == q * max) by (nonlinear_arith);
}

/// The byte lengths of the two caption spans, the author span and the
/// location span of an embedded photo, or the span that is missing.
pub open spec fn span_lengths(text: Seq<char>) -> Result<(int, int, int), ScrapeError> {
    let p = split_pieces(text, SPAN_TAG@);
    if p.len() < 2 {
        Err(ScrapeError::MissingSpan1)
    } else if p.len() < 3 {
        Err(ScrapeError::MissingSpan2)
    } else if p.len() < 4 {
        Err(ScrapeError::MissingAuthorSpan)
    } else if p.len() < 5 {
        Err(ScrapeError::MissingLocationSpan)
    } else {
        Ok(
            (
                utf8_len(span_text(p[1])) + utf8_len(span_text(p[2])),
                utf8_len(span_text(p[3])),
                utf8_len(span_text(p[4])),
            ),
        )
    }
}

/// The lines of text below an embedded photo: caption lines of 50
/// characters take 21 pixels, author lines of 50 take 20, location lines of
/// 40 take 24.
pub open spec fn text_lines(first: int, author: int, location: int) -> int {
    lines_to_add(first, 50) * 21 + lines_to_add(author, 50) * 20 + lines_to_add(location, 40)
        * 24
}

/// The computation of `text_lines` stays within `i32`.
pub open spec fn text_size_fits(text: Seq<char>) -> bool {
    match span_lengths(text) {
        Ok((first, author, location)) => {
            &&& first <= i32::MAX
            &&& author <= i32::MAX
            &&& location <= i32::MAX
            &&& text_lines(first, author, location) <= i32::MAX
        },
        Err(_) => true,
    }
}

/// The lines that `chars_count` characters take at `max_chars_count` to a
/// line, rounded up for a non-negative count.
pub fn calculate_lines_to_add(chars_count: i32, max_chars_count: i32) -> (r: i32)
    requires
        max_chars_count != 0,
        !(chars_count == i32::MIN && max_chars_count == -1),
    ensures
        r == lines_to_add(chars_count as int, max_chars_count as int),
        chars_count >= 0 && max_chars_count > 0 ==> r == (chars_count + max_chars_count - 1)
            / max_chars_count as int,
{
    let q = div_i32(chars_count, max_chars_count);
    let m = rem_i32(chars_count, max_chars_count);
    assert(trunc_div(chars_count as int, max_chars_count as int) < i32::MAX || m == 0) by (
    nonlinear_arith)
        requires
            q == trunc_div(chars_count as int, max_chars_count as int),
            m == trunc_rem(chars_count as int, max_chars_count as int),
            max_chars_count != 0,
            !(chars_count == i32::MIN && max_chars_count == -1),
    {
    }
    if chars_count >= 0 && max_chars_count > 0 {
        let ghost c = chars_count as int;
        let ghost k = max_chars_count as int;
        assert(trunc_div(c, k) + (if trunc_rem(c, k) != 0 {
            1int
        } else {
            0int
        }) == (c + k - 1) / k) by (nonlinear_arith)
            requires
                c >= 0,
                k > 0,
        {
        }
    }
    q + if m != 0 {
        1
    } else {
        0
    }
}

/// The UTF-8 byte length of `v[..]`.
fn utf8_len_exec(v: &Vec<char>) -> (r: usize)
    ensures
        r == utf8_len(v@) as usize,
{
    let s = string_of(v, 0, v.len());
    assert(s@ =~= v@);
    s.as_str().len()
}

/// `get_text_size`, on the text of the embedded player of a photo: the
/// pixels that its caption, author and location lines take.
pub fn get_text_size(text: &str) -> (r: Result<usize, ScrapeError>)
    requires
        text_size_fits(text@),
    ensures
        match span_lengths(text@) {
            Ok((first, author, location)) => r == Ok::<usize, ScrapeError>(
                text_lines(first, author, location) as usize,
            ),
            Err(e) => r == Err::<usize, ScrapeError>(e),
        },
{
    proof {
        lemma_markers_nonempty();
    }
    let v = chars_of(text);
    let tag = chars_of(SPAN_TAG);
    let p = split_all(&v, &tag);
    if p.len() < 2 {
        return Err(ScrapeError::MissingSpan1);
    }
    if p.len() < 3 {
        return Err(ScrapeError::MissingSpan2);
    }
    if p.len() < 4 {
        return Err(ScrapeError::MissingAuthorSpan);
    }
    if p.len() < 5 {
        return Err(ScrapeError::MissingLocationSpan);
    }
    let s1 = prefix_before_exec(&after_first_exec(&p[1], '>'), '<');
    let s2 = prefix_before_exec(&after_first_exec(&p[2], '>'), '<');
    let s3 = prefix_before_exec(&after_first_exec(&p[3], '>'), '<');
    let s4 = prefix_before_exec(&after_first_exec(&p[4], '>'), '<');
    let l1 = utf8_len_exec(&s1);
    let l2 = utf8_len_exec(&s2);
    let l3 = utf8_len_exec(&s3);
    let l4 = utf8_len_exec(&s4);
    let first = l1 + l2;
    let a = calculate_lines_to_add(first as i32, 50);
    let b = calculate_lines_to_add(l3 as i32, 50);
    let c = calculate_lines_to_add(l4 as i32, 40);
    let lines = a * 21 + b * 20 + c * 24;
    Ok(lines as usize)
}

/// UTF-8 lengths add up over a concatenation.
pub proof fn lemma_utf8_len_concat(a: Seq<char>, b: Seq<char>)
    ensures
        utf8_len(a + b) == utf8_len(a) + utf8_len(b),
    decreases a.len(),
{
    if a.len() == 0 {
        assert(a + b =~= b);
    } else {
        lemma_utf8_len_concat(a.drop_first(), b);
        assert((a + b).drop_first() =~= a.drop_first() + b);
        assert((a + b)[0] == a[0]);
    }
}

/// The UTF-8 width of `c` (`char::len_utf8`).
fn utf8_width(c: char) -> (r: usize)
    ensures
        r == utf8_len(seq![c]),
        1 <= r <= 4,
{
    assert(encode_utf8(seq![c]) =~= vstd::utf8::encode_scalar(c as u32) + encode_utf8(
        seq![c].drop_first(),
    ));
    assert(seq![c].drop_first() =~= Seq::<char>::empty());
    let u = c as u32;
    if u < 0x80 {
        1
    } else if u < 0x800 {
        2
    } else if u < 0x10000 {
        3
    } else {
        4
    }
}

/// The UTF-8 length of `v`, or `None` when it exceeds `cap`.
fn utf8_len_capped(v: &Vec<char>, cap: usize) -> (r: Option<usize>)
    ensures
        match r {
            Some(n) => n == utf8_len(v@) && n <= cap,
            None => utf8_len(v@) > cap,
        },
{
    let n = v.len();
    let mut total: usize = 0;
    let mut i: usize = 0;
    while i < n
        invariant
            i <= n == v@.len(),
            total == utf8_len(v@.take(i as int)),
            total <= cap,
        decreases n - i,
    {
        let w = utf8_width(v[i]);
        proof {
            assert(v@.take(i + 1) =~= v@.take(i as int) + seq![v@[i as int]]);
            lemma_utf8_len_concat(v@.take(i as int), seq![v@[i as int]]);
        }
        if w > cap - total {
            proof {
                assert(v@ =~= v@.take(i + 1) + v@.skip(i + 1));
                lemma_utf8_len_concat(v@.take(i + 1), v@.skip(i + 1));
            }
            return None;
        }
        total = total + w;
        i = i + 1;
    }
    assert(v@.take(n as int) =~= v@);
    Some(total)
}

/// Whether the line count of a player page fits in `i32` (`text_size_fits`).
pub fn text_size_fits_exec(text: &str) -> (r: bool)
    ensures
        r == text_size_fits(text@),
{
    proof {
        lemma_markers_nonempty();
    }
    let v = chars_of(text);
    let tag = chars_of(SPAN_TAG);
    let p = split_all(&v, &tag);
    if p.len() < 5 {
        return true;
    }
    let cap: usize = 2147483647;
    let s1 = prefix_before_exec(&after_first_exec(&p[1], '>'), '<');
    let s2 = prefix_before_exec(&after_first_exec(&p[2], '>'), '<');
    let s3 = prefix_before_exec(&after_first_exec(&p[3], '>'), '<');
    let s4 = prefix_before_exec(&after_first_exec(&p[4], '>'), '<');
    let l1 = match utf8_len_capped(&s1, cap) {
        Some(n) => n,
        None => {
            return false;
        },
    };
    let l2 = match utf8_len_capped(&s2, cap) {
        Some(n) => n,
        None => {
            return false;
        },
    };
    if l1 + l2 > cap {
        return false;
    }
    let l3 = match utf8_len_capped(&s3, cap) {
        Some(n) => n,
        None => {
            return false;
        },
    };
    let l4 = match utf8_len_capped(&s4, cap) {
        Some(n) => n,
        None => {
            return false;
        },
    };
    let a = calculate_lines_to_add((l1 + l2) as i32, 50) as i64;
    let b = calculate_lines_to_add(l3 as i32, 50) as i64;
    let c = calculate_lines_to_add(l4 as i32, 40) as i64;
    assert(0 <= a <= 2147483647 && 0 <= b <= 2147483647 && 0 <= c <= 2147483647);
    a * 21 + b * 20 + c * 24 <= 2147483647
}

/// `get_text_size` on a player page whose line count fits in `i32`; `None`
/// on one whose line count overflows it.
pub fn text_size_of_page(text: &str) -> (r: Option<Result<usize, ScrapeError>>)
    ensures
        text_size_fits(text@) ==> match span_lengths(text@) {
            Ok((first, author, location)) => r == Some(
                Ok::<usize, ScrapeError>(text_lines(first, author, location) as usize),
            ),
            Err(e) => r == Some(Err::<usize, ScrapeError>(e)),
        },
        !text_size_fits(text@) ==> r is None,
{
    if text_size_fits_exec(text) {
        Some(get_text_size(text))
    } else {
        None
    }
}

/// The named result of `imagesize::blob_size`: the width and height it
/// reads from image data, `None` where it returns an error.
pub uninterp spec fn blob_dimensions(data: Seq<u8>) -> Option<(usize, usize)>;

/// Calls `imagesize::blob_size`, which reads the dimensions of an image
/// from the header of its data. Its result depends on the data alone; it
/// needs at least 12 bytes, and fails on less.
#[verifier::external_body]
fn blob_size(data: &[u8]) -> (r: Option<(usize, usize)>)
    ensures
        r == blob_dimensions(data@),
        data@.len() < 12 ==> r is None,
{
    match imagesize::blob_size(data) {
        Ok(dim) => Some((dim.width, dim.height)),
        Err(_) => None,
    }
}

/// The image size, or the error when no dimensions could be read.
pub fn image_size_from(dims: Option<(usize, usize)>) -> (r: Result<(usize, usize), ScrapeError>)
    ensures
        match dims {
            Some(d) => r == Ok::<(usize, usize), ScrapeError>(d),
            None => r == Err::<(usize, usize), ScrapeError>(ScrapeError::NoImageDimensions),
        },
{
    match dims {
        Some(d) => Ok(d),
        None => Err(ScrapeError::NoImageDimensions),
    }
}

/// `get_image_size`, on the downloaded photo: its width and height.
pub fn get_image_size(data: &[u8]) -> (r: Result<(usize, usize), ScrapeError>)
    ensures
        match blob_dimensions(data@) {
            Some(d) => r == Ok::<(usize, usize), ScrapeError>(d),
            None => r == Err::<(usize, usize), ScrapeError>(ScrapeError::NoImageDimensions),
        },
        data@.len() < 12 ==> r == Err::<(usize, usize), ScrapeError>(
            ScrapeError::NoImageDimensions,
        ),
{
    image_size_from(blob_size(data))
}

/// The pixels below the text of an embedded player.
pub const DEFAULT_BOTTOM_HEIGHT: usize = 32;

/// The margin above and below an embedded player.
pub const MARGIN_TOP_BOTTOM: usize = 21;

/// `get_iframe_size`: the player is as wide as the photo, and as tall as the
/// photo plus its text lines, its bottom bar and its margins.
pub fn get_iframe_size(image: (usize, usize), add_lines: usize) -> (r: (usize, usize))
    requires
        image.1 + add_lines + DEFAULT_BOTTOM_HEIGHT + MARGIN_TOP_BOTTOM <= usize::MAX,
    ensures
        r.0 == image.0,
        r.1 == image.1 + add_lines + 53,
{
    (image.0, image.1 + add_lines + DEFAULT_BOTTOM_HEIGHT + MARGIN_TOP_BOTTOM)
}

/// The page of the embedded player of a photo.
pub fn text_size_url(embed_id: &str) -> (r: String)
    ensures
        r@ == "https://macaulaylibrary.org/asset/"@ + embed_id@ + "/embed/320"@,
{
    let mut s = String::from_str("https://macaulaylibrary.org/asset/");
    s.append(embed_id);
    s.append("/embed/320");
    s
}

/// The photo itself, 320 pixels wide.
pub fn image_url(embed_id: &str) -> (r: String)
    ensures
        r@ == "https://cdn.download.ams.birds.cornell.edu/api/v1/asset/"@ + embed_id@ + "/320"@,
{
    let mut s = String::from_str("https://cdn.download.ams.birds.cornell.edu/api/v1/asset/");
    s.append(embed_id);
    s.append("/320");
    s
}

/// The name, description and photo id of a species page, or
/// `MissingEntries` when any of them cannot be read.
pub fn parse_bird_page(data: &str) -> (r: Result<(String, String, String), ScrapeError>)
    ensures
        match (bird_name(data@), bird_description(data@), embed_id(data@)) {
            (Some(n), Some(d), Ok(e)) => r matches Ok((rn, rd, re)) && rn@ == n && rd@ == d
                && re@ == e,
            _ => r == Err::<(String, String, String), ScrapeError>(ScrapeError::MissingEntries),
        },
{
    let name = get_bird_name(data);
    let description = get_description(data);
    let embed = get_embbed(data);
    match (name, description, embed) {
        (Ok(n), Ok(d), Ok(e)) => Ok((n, d, e)),
        _ => Err(ScrapeError::MissingEntries),
    }
}

/// The new bird of a species page, once the size of its photo is known;
/// `NoImageSize` when it is not. Dimensions are stored as `i32`, cut as `as`
/// cuts them.
pub fn new_bird_entry(
    url: String,
    name: String,
    description: String,
    assetid: String,
    image: Result<(usize, usize), ScrapeError>,
) -> (r: Result<BirdEntry, ScrapeError>)
    ensures
        match image {
            Ok((w, h)) => r matches Ok(b) && b.url == url && b.name == name && b.description
                == description && b.assetid == assetid && b.width == w as i32 && b.height == h
                as i32,
            Err(_) => r == Err::<BirdEntry, ScrapeError>(ScrapeError::NoImageSize),
        },
{
    match image {
        Ok((width, height)) => Ok(
            BirdEntry {
                url,
                name,
                description,
                assetid,
                width: width as i32,
                height: height as i32,
            },
        ),
        Err(_) => Err(ScrapeError::NoImageSize),
    }
}

} // verus!
