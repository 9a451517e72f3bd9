use songbattle::song::{detect_source, Source};

#[test]
fn detects_known_sources() {
    assert_eq!(detect_source("https://youtu.be/abc"), Some(Source::Youtube));
    assert_eq!(
        detect_source("https://www.youtube.com/watch?v=x"),
        Some(Source::Youtube)
    );
    assert_eq!(
        detect_source("https://open.spotify.com/track/x"),
        Some(Source::Spotify)
    );
    assert_eq!(
        detect_source("https://soundcloud.com/a/b"),
        Some(Source::Soundcloud)
    );
    assert_eq!(detect_source("https://example.com/x"), None);
}

#[test]
fn rejects_unsafe_and_non_https_urls() {
    assert_eq!(detect_source("javascript:alert(1)"), None);
    assert_eq!(detect_source("data:text/html,<script>x</script>"), None);
    assert_eq!(detect_source("http://www.youtube.com/watch?v=x"), None); // not https
    assert_eq!(detect_source("not a url"), None);
    assert_eq!(detect_source("https://evil.com/youtube.com"), None); // host, not path
}

// ── further cases ──────────────────────────────────────────────────────────
#[test]
fn detects_every_listed_host() {
    for h in ["youtube.com", "www.youtube.com", "m.youtube.com", "music.youtube.com", "youtu.be"] {
        assert_eq!(detect_source(&format!("https://{h}/x")), Some(Source::Youtube), "{h}");
    }
    for h in ["soundcloud.com", "www.soundcloud.com", "m.soundcloud.com"] {
        assert_eq!(detect_source(&format!("https://{h}/x")), Some(Source::Soundcloud), "{h}");
    }
    assert_eq!(detect_source("https://spotify.com/track/x"), None);
}

#[test]
fn host_case_is_folded_by_the_url_parser() {
    assert_eq!(detect_source("https://YOUTU.BE/abc"), Some(Source::Youtube));
}
