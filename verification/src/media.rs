//! oEmbed lookups: the endpoint for each source, reading the response, and
//! the fallback metadata.

use vstd::prelude::*;

use crate::error::AppError;
use crate::json::{json_parsed, parse_json, spec_as_str, spec_get, Json};
use crate::song::{MediaMetadata, Source};
use crate::text::{chars_of, chars_of_string, push_all, string_of};

verus! {

/// A byte the form encoding keeps as it is: ASCII letters and digits and
/// `*`, `-`, `.`, `_`.
pub open spec fn form_unreserved(b: u8) -> bool {
    ||| 0x30 <= b <= 0x39
    ||| 0x41 <= b <= 0x5A
    ||| 0x61 <= b <= 0x7A
    ||| b == 0x2A
    ||| b == 0x2D
    ||| b == 0x2E
    ||| b == 0x5F
}

/// The upper-case hex digit of `n` (below 16).
pub open spec fn hex_upper(n: int) -> char {
    if n < 10 {
        (0x30 + n) as char
    } else {
        (0x37 + n) as char
    }
}

/// One byte form-encoded: kept when unreserved, a space as `+`, any other
/// byte as `%` and two upper-case hex digits.
pub open spec fn form_byte(b: u8) -> Seq<char> {
    if form_unreserved(b) {
        seq![b as char]
    } else if b == 0x20 {
        seq!['+']
    } else {
        seq!['%', hex_upper(b as int / 16), hex_upper(b as int % 16)]
    }
}

/// Bytes form-encoded one by one, in order.
pub open spec fn form_bytes(bs: Seq<u8>) -> Seq<char>
    decreases bs.len(),
{
    if bs.len() == 0 {
        Seq::empty()
    } else {
        form_bytes(bs.drop_last()) + form_byte(bs.last())
    }
}

/// What `url::form_urlencoded::byte_serialize` makes of the UTF-8 bytes of
/// `s` (the `application/x-www-form-urlencoded` byte serializer).
pub open spec fn byte_serialized(s: Seq<char>) -> Seq<char> {
    form_bytes(vstd::utf8::encode_utf8(s))
}

/// `url::form_urlencoded::byte_serialize(s.as_bytes())`, collected: each
/// byte kept, turned into `+` or percent-encoded as `form_byte` says.
#[verifier::external_body]
fn url_encode(s: &str) -> (r: String)
    ensures
        r@ == byte_serialized(s@),
{
    url::form_urlencoded::byte_serialize(s.as_bytes()).collect()
}

/// The oEmbed endpoint for `url` on its source.
pub open spec fn spec_oembed_url(source: Source, url: Seq<char>) -> Seq<char> {
    let enc = byte_serialized(url);
    match source {
        Source::Youtube => "https://www.youtube.com/oembed?url="@ + enc + "&format=json"@,
        Source::Soundcloud => "https://soundcloud.com/oembed?url="@ + enc + "&format=json"@,
        Source::Spotify => "https://open.spotify.com/oembed?url="@ + enc,
    }
}

/// The oEmbed endpoint for `url` (see `spec_oembed_url`).
pub fn oembed_url(source: Source, url: &str) -> (r: String)
    ensures
        r@ == spec_oembed_url(source, url@),
{
    let enc = url_encode(url);
    let ec = chars_of_string(&enc);
    let (head, tail) = match source {
        Source::Youtube => ("https://www.youtube.com/oembed?url=", "&format=json"),
        Source::Soundcloud => ("https://soundcloud.com/oembed?url=", "&format=json"),
        Source::Spotify => ("https://open.spotify.com/oembed?url=", ""),
    };
    let mut v = chars_of(head);
    push_all(&mut v, ec.as_slice());
    let tc = chars_of(tail);
    push_all(&mut v, tc.as_slice());
    proof {
        reveal_strlit("");
        assert(v@ =~= spec_oembed_url(source, url@));
    }
    string_of(v.as_slice())
}

/// Fallback used when the lookup fails: the URL as the title, nothing else.
pub fn placeholder(source: Source, url: &str) -> (m: MediaMetadata)
    ensures
        m.title@ == url@,
        m.artist is None,
        m.thumbnail is None,
        m.duration_sec is None,
        m.source == source,
        m.source_url@ == url@,
{
    let u = chars_of(url);
    MediaMetadata {
        title: string_of(u.as_slice()),
        artist: None,
        thumbnail: None,
        duration_sec: None,
        source,
        source_url: string_of(u.as_slice()),
    }
}

pub open spec fn spec_str_field(v: Json, key: Seq<char>) -> Option<Seq<char>> {
    match spec_get(v, key) {
        Some(f) => spec_as_str(f),
        None => None,
    }
}

fn str_field(v: &Json, key: &str) -> (r: Option<String>)
    ensures
        match r {
            Some(s) => spec_str_field(*v, key@) == Some(s@),
            None => spec_str_field(*v, key@) is None,
        },
{
    match v.get(key) {
        Some(f) => match f.as_str() {
            Some(s) => Some(s.clone()),
            None => None,
        },
        None => None,
    }
}

/// The metadata an oEmbed response gives for `url`: its `title` (else
/// `Untitled`), `author_name` as the artist, `thumbnail_url`; no duration.
pub fn oembed_metadata(source: Source, url: &str, v: &Json) -> (m: MediaMetadata)
    ensures
        m.title@ == (match spec_str_field(*v, "title"@) {
            Some(t) => t,
            None => "Untitled"@,
        }),
        crate::song::opt_view(m.artist) == spec_str_field(*v, "author_name"@),
        crate::song::opt_view(m.thumbnail) == spec_str_field(*v, "thumbnail_url"@),
        m.duration_sec is None,
        m.source == source,
        m.source_url@ == url@,
{
    let title = match str_field(v, "title") {
        Some(t) => t,
        None => crate::error::msg("Untitled"),
    };
    let u = chars_of(url);
    MediaMetadata {
        title,
        artist: str_field(v, "author_name"),
        thumbnail: str_field(v, "thumbnail_url"),
        duration_sec: None,
        source,
        source_url: string_of(u.as_slice()),
    }
}

/// The oEmbed lookup for one source.
pub struct OEmbed {
    pub source: Source,
}

/// A media lookup for song links: the URL to ask about a link, and the
/// metadata read from the answer. Another provider implements it.
pub trait MediaProvider {
    /// The lookup URL for a song link.
    fn endpoint(&self, url: &str) -> String;

    /// The metadata in the lookup's raw answer for `url`.
    fn metadata_in(&self, url: &str, body: &str) -> Result<MediaMetadata, AppError>;
}

impl MediaProvider for OEmbed {
    /// The endpoint to ask about `url` (see `spec_oembed_url`).
    fn endpoint(&self, url: &str) -> (r: String)
        ensures
            r@ == spec_oembed_url(self.source, url@),
    {
        oembed_url(self.source, url)
    }

    /// The metadata in the endpoint's raw answer: refused with `oembed answer
    /// is not JSON` when it does not parse, else as `metadata` reads it.
    fn metadata_in(&self, url: &str, body: &str) -> (r: Result<MediaMetadata, AppError>)
        ensures
            match json_parsed(body@) {
                None => r matches Err(e) && e matches AppError::Other(m) && m@
                    == "oembed answer is not JSON"@,
                Some(v) => r matches Ok(m) && {
                    &&& m.title@ == (match spec_str_field(v, "title"@) {
                        Some(t) => t,
                        None => "Untitled"@,
                    })
                    &&& crate::song::opt_view(m.artist) == spec_str_field(v, "author_name"@)
                    &&& crate::song::opt_view(m.thumbnail) == spec_str_field(v, "thumbnail_url"@)
                    &&& m.duration_sec is None
                    &&& m.source == self.source
                    &&& m.source_url@ == url@
                },
            },
    {
        match parse_json(body) {
            Some(v) => Ok(oembed_metadata(self.source, url, &v)),
            None => Err(AppError::Other(crate::error::msg("oembed answer is not JSON"))),
        }
    }
}

} // verus!
