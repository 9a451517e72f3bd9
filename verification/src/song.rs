//! Battle contestants and where they come from.

use vstd::prelude::*;

use crate::text::{ascii_lower, chars_eq, chars_of_string, lower_all};

verus! {

/// Where a song came from.
#[derive(Debug, Clone, Copy, PartialEq, Eq, Structural)]
pub enum Source {
    Youtube,
    Spotify,
    Soundcloud,
}

/// A battle contestant. `metadata` holds provider metadata as JSON text.
#[derive(Debug, Clone)]
pub struct Song {
    pub id: String,
    pub title: String,
    pub artist: Option<String>,
    pub thumbnail: Option<String>,
    pub duration_sec: Option<u32>,
    pub source: Source,
    pub source_url: String,
    pub submitter: Option<String>,
    pub metadata: Option<String>,
}

/// What a media lookup returns for a URL (no id/submitter yet).
#[derive(Debug, Clone)]
pub struct MediaMetadata {
    pub title: String,
    pub artist: Option<String>,
    pub thumbnail: Option<String>,
    pub duration_sec: Option<u32>,
    pub source: Source,
    pub source_url: String,
}

/// A copy of an optional string.
pub fn dup_opt(o: &Option<String>) -> (r: Option<String>)
    ensures
        r == *o,
{
    match o {
        Some(s) => Some(s.clone()),
        None => None,
    }
}

impl Song {
    /// An identical copy of this song.
    pub fn duplicate(&self) -> (r: Song)
        ensures
            r == *self,
    {
        Song {
            id: self.id.clone(),
            title: self.title.clone(),
            artist: dup_opt(&self.artist),
            thumbnail: dup_opt(&self.thumbnail),
            duration_sec: self.duration_sec,
            source: self.source,
            source_url: self.source_url.clone(),
            submitter: dup_opt(&self.submitter),
            metadata: dup_opt(&self.metadata),
        }
    }
}

/// A copy of an optional song.
pub fn dup_song(o: &Option<Song>) -> (r: Option<Song>)
    ensures
        r == *o,
{
    match o {
        Some(s) => Some(s.duplicate()),
        None => None,
    }
}

/// The components of a parsed absolute URL.
pub struct UrlParts {
    pub scheme: String,
    pub host: Option<String>,
    pub path: String,
    pub query: Option<String>,
}

/// Scheme, host, path and query of a parsed URL.
pub type UrlModel = (Seq<char>, Option<Seq<char>>, Seq<char>, Option<Seq<char>>);

pub open spec fn opt_view(o: Option<String>) -> Option<Seq<char>> {
    match o {
        Some(s) => Some(s@),
        None => None,
    }
}

impl View for UrlParts {
    type V = UrlModel;

    open spec fn view(&self) -> UrlModel {
        (self.scheme@, opt_view(self.host), self.path@, opt_view(self.query))
    }
}

/// What `url::Url::parse` makes of `input`: `None` when it is not an absolute
/// URL, else the scheme, host, path and query of the result.
pub uninterp spec fn parsed_url(input: Seq<char>) -> Option<UrlModel>;

/// `url::Url::parse`, reduced to the scheme, host, path and query the
/// library reads.
#[verifier::external_body]
pub(crate) fn parse_url(input: &str) -> (r: Option<UrlParts>)
    ensures
        match r {
            Some(p) => parsed_url(input@) == Some(p@),
            None => parsed_url(input@) is None,
        },
{
    match url::Url::parse(input) {
        Ok(u) => Some(
            UrlParts {
                scheme: u.scheme().to_string(),
                host: u.host_str().map(str::to_string),
                path: u.path().to_string(),
                query: u.query().map(str::to_string),
            },
        ),
        Err(_) => None,
    }
}

/// The source a (lower-cased) host belongs to.
pub open spec fn source_of_host(h: Seq<char>) -> Option<Source> {
    if h == "youtube.com"@ || h == "www.youtube.com"@ || h == "m.youtube.com"@ || h
        == "music.youtube.com"@ || h == "youtu.be"@ {
        Some(Source::Youtube)
    } else if h == "open.spotify.com"@ {
        Some(Source::Spotify)
    } else if h == "soundcloud.com"@ || h == "www.soundcloud.com"@ || h == "m.soundcloud.com"@ {
        Some(Source::Soundcloud)
    } else {
        None
    }
}

/// The source of a parsed URL: it must be `https` with a known host.
pub open spec fn spec_source_of(p: Option<UrlModel>) -> Option<Source> {
    match p {
        None => None,
        Some((scheme, host, _, _)) => if scheme != "https"@ {
            None
        } else {
            match host {
                None => None,
                Some(h) => source_of_host(ascii_lower(h)),
            }
        },
    }
}

/// The source detected for a raw URL string.
pub open spec fn spec_detect_source(url: Seq<char>) -> Option<Source> {
    spec_source_of(parsed_url(url))
}

/// The source of already-parsed URL components (`None` for a failed parse,
/// a scheme other than `https`, no host, or an unknown host).
pub fn source_of_parts(p: &Option<UrlParts>) -> (r: Option<Source>)
    ensures
        r == spec_source_of(match p {
            Some(q) => Some(q@),
            None => None,
        }),
{
    match p {
        None => None,
        Some(parts) => {
            let scheme = chars_of_string(&parts.scheme);
            if !chars_eq(scheme.as_slice(), "https") {
                return None;
            }
            match &parts.host {
                None => None,
                Some(h) => {
                    let hc = chars_of_string(h);
                    let lc = lower_all(hc.as_slice());
                    let l = lc.as_slice();
                    if chars_eq(l, "youtube.com") || chars_eq(l, "www.youtube.com") || chars_eq(
                        l,
                        "m.youtube.com",
                    ) || chars_eq(l, "music.youtube.com") || chars_eq(l, "youtu.be") {
                        Some(Source::Youtube)
                    } else if chars_eq(l, "open.spotify.com") {
                        Some(Source::Spotify)
                    } else if chars_eq(l, "soundcloud.com") || chars_eq(l, "www.soundcloud.com")
                        || chars_eq(l, "m.soundcloud.com") {
                        Some(Source::Soundcloud)
                    } else {
                        None
                    }
                },
            }
        },
    }
}

/// Detect the source from a URL: it must parse as an absolute `https` URL
/// whose host (case-insensitively) is a known YouTube, Spotify or SoundCloud
/// host. `javascript:`, `data:`, `http:` and unknown hosts give `None`.
pub fn detect_source(url: &str) -> (r: Option<Source>)
    ensures
        r == spec_detect_source(url@),
{
    let p = parse_url(url);
    source_of_parts(&p)
}

/// The source of a song URL, or `UnsupportedUrl` carrying the URL when it
/// is not a supported https media link (see `spec_detect_source`).
pub fn require_source(url: &str) -> (r: Result<Source, crate::error::AppError>)
    ensures
        match r {
            Ok(s) => spec_detect_source(url@) == Some(s),
            Err(e) => spec_detect_source(url@) is None && (e matches crate::error::AppError::UnsupportedUrl(
                u,
            ) && u@ == url@),
        },
{
    match detect_source(url) {
        Some(s) => Ok(s),
        None => Err(crate::error::AppError::UnsupportedUrl(crate::error::msg(url))),
    }
}

} // verus!
