use songbattle::error::AppError;
use songbattle::media::{oembed_url, placeholder, MediaProvider, OEmbed};
use songbattle::song::Source;

#[test]
fn builds_encoded_endpoints() {
    let u = oembed_url(Source::Youtube, "https://youtu.be/a b?c=1");
    assert!(u.starts_with("https://www.youtube.com/oembed?url="));
    assert!(u.contains("format=json"));
    assert!(!u.contains(' ')); // url-encoded
    assert!(oembed_url(Source::Spotify, "https://open.spotify.com/track/x")
        .starts_with("https://open.spotify.com/oembed?url="));
}

// ── further cases ──────────────────────────────────────────────────────────
#[test]
fn endpoint_encodes_the_whole_url() {
    assert_eq!(
        oembed_url(Source::Soundcloud, "https://soundcloud.com/a/b"),
        "https://soundcloud.com/oembed?url=https%3A%2F%2Fsoundcloud.com%2Fa%2Fb&format=json"
    );
    assert_eq!(
        OEmbed { source: Source::Spotify }.endpoint("x y"),
        "https://open.spotify.com/oembed?url=x+y"
    );
}

#[test]
fn metadata_reads_the_oembed_fields() {
    let yt = OEmbed { source: Source::Youtube };
    let m = yt
        .metadata_in(
            "https://youtu.be/x",
            r#"{"title":"Song","author_name":"Band","thumbnail_url":"https://i/t.jpg"}"#,
        )
        .unwrap();
    assert_eq!(m.title, "Song");
    assert_eq!(m.artist.as_deref(), Some("Band"));
    assert_eq!(m.thumbnail.as_deref(), Some("https://i/t.jpg"));
    assert_eq!(m.duration_sec, None);
    assert_eq!(m.source_url, "https://youtu.be/x");
    let m = OEmbed { source: Source::Spotify }.metadata_in("u", r#"{"title":5}"#).unwrap();
    assert_eq!(m.title, "Untitled");
    assert!(m.artist.is_none() && m.thumbnail.is_none());
    assert_eq!(m.source, Source::Spotify);
    match yt.metadata_in("u", "not json") {
        Err(AppError::Other(msg)) => assert_eq!(msg, "oembed answer is not JSON"),
        other => panic!("unexpected {other:?}"),
    }
}

#[test]
fn placeholder_uses_the_url_as_title() {
    let m = placeholder(Source::Soundcloud, "https://soundcloud.com/a");
    assert_eq!(m.title, "https://soundcloud.com/a");
    assert_eq!(m.source_url, "https://soundcloud.com/a");
    assert!(m.artist.is_none() && m.thumbnail.is_none() && m.duration_sec.is_none());
}

#[test]
fn endpoint_percent_encodes_reserved_and_non_ascii_bytes() {
    assert_eq!(
        oembed_url(Source::Spotify, "a*b-c.d_e~f?g=ü"),
        "https://open.spotify.com/oembed?url=a*b-c.d_e%7Ef%3Fg%3D%C3%BC"
    );
}
