use m3u8::{ParseError, M3U8};

const SAMPLE: &str = "#EXTM3U\n\
#EXT-X-INDEPENDENT-SEGMENTS\n\
#EXT-X-MEDIA:TYPE=AUDIO,GROUP-ID=\"aac-128k\",CHANNELS=\"2\",URI=\"audio/unenc/aac_128k/vod.m3u8\"\n\
#EXT-X-STREAM-INF:BANDWIDTH=10429877,CODECS=hvc1.2.4.L150.90\n\
hdr10/unenc/10000k/vod.m3u8\n\
#EXT-X-STREAM-INF:BANDWIDTH=9661857\n\
hdr10/unenc/6000k/vod.m3u8\n\
#EXT-X-I-FRAME-STREAM-INF:BANDWIDTH=222552,URI=\"hdr10/unenc/3300k/vod-iframe.m3u8\"\n\
#EXT-X-I-FRAME-STREAM-INF:BANDWIDTH=77758,URI=\"hdr10/unenc/900k/vod-iframe.m3u8\"\n";

#[test]
fn valid_document_parses() {
    let parsed = M3U8::parse(SAMPLE).unwrap();
    assert_eq!(parsed.version, "2");
    assert_eq!(parsed.independent_segments, true);
    assert_eq!(parsed.media_tags.len(), 1);
    assert_eq!(parsed.variant_streams.len(), 2);
    assert_eq!(parsed.media_resources.len(), 2);
    assert_eq!(
        parsed.media_tags.first().unwrap().get("TYPE"),
        Some(&"AUDIO".to_string())
    );
    assert_eq!(
        parsed.media_tags.first().unwrap().get("URI"),
        Some(&"audio/unenc/aac_128k/vod.m3u8".to_string())
    );
    assert_eq!(
        parsed.media_resources.first().unwrap().get("URI"),
        Some(&"hdr10/unenc/3300k/vod-iframe.m3u8".to_string())
    );
}

#[test]
fn empty_document_fails() {
    let result = M3U8::parse("");
    assert!(matches!(result, Err(ParseError::InvalidM3U8(_))));
    let result = M3U8::parse("\n\n\n");
    assert!(matches!(result, Err(ParseError::InvalidM3U8(_))));
}

#[test]
fn missing_header_fails() {
    let result = M3U8::parse("#EXT-X-VERSION:4\nsegment.m3u8\n");
    assert!(matches!(result, Err(ParseError::InvalidM3U8(_))));
    // a header token with a payload is not exactly the header token
    let result = M3U8::parse("#EXTM3U:extra\n#EXT-X-VERSION:4\n");
    assert!(matches!(result, Err(ParseError::InvalidM3U8(_))));
}

#[test]
fn duplicate_version_fails() {
    let result = M3U8::parse("#EXTM3U\n#EXT-X-VERSION:3\n#EXT-X-VERSION:4\n");
    assert!(matches!(result, Err(ParseError::InvalidM3U8(_))));
}

#[test]
fn single_version_is_kept() {
    let parsed = M3U8::parse("#EXTM3U\n#EXT-X-VERSION:7\n").unwrap();
    assert_eq!(parsed.version, "7");
}

#[test]
fn default_version_is_two() {
    let parsed = M3U8::parse("#EXTM3U\n#EXT-X-MEDIA:TYPE=AUDIO\n").unwrap();
    assert_eq!(parsed.version, "2");
}

#[test]
fn independent_segments_flag() {
    let with_tag = M3U8::parse("#EXTM3U\n#EXT-X-INDEPENDENT-SEGMENTS\n").unwrap();
    assert_eq!(with_tag.independent_segments, true);
    let without_tag = M3U8::parse("#EXTM3U\n#EXT-X-MEDIA:TYPE=AUDIO\n").unwrap();
    assert_eq!(without_tag.independent_segments, false);
}

#[test]
fn stream_inf_consumes_next_line() {
    let parsed = M3U8::parse("#EXTM3U\n#EXT-X-STREAM-INF:BANDWIDTH=5\nlow/vod.m3u8\n").unwrap();
    assert_eq!(parsed.variant_streams.len(), 1);
    let stream = parsed.variant_streams.first().unwrap();
    assert_eq!(stream.get("uri"), Some(&"low/vod.m3u8".to_string()));
    assert_eq!(stream.get("BANDWIDTH"), Some(&"5".to_string()));
}

#[test]
fn stream_inf_at_end_gets_empty_uri() {
    let parsed = M3U8::parse("#EXTM3U\n#EXT-X-STREAM-INF:BANDWIDTH=5\n").unwrap();
    assert_eq!(parsed.variant_streams.len(), 1);
    let stream = parsed.variant_streams.first().unwrap();
    assert_eq!(stream.get("uri"), Some(&"".to_string()));
}

#[test]
fn quoted_value_with_comma_splits() {
    // the naive comma split cuts a quoted value: the part after the comma
    // has no `=` and is dropped
    let parsed = M3U8::parse("#EXTM3U\n#EXT-X-MEDIA:CODECS=\"avc1,mp4a\"\n").unwrap();
    assert_eq!(parsed.media_tags.len(), 1);
    let tag = parsed.media_tags.first().unwrap();
    assert_eq!(tag.get("CODECS"), Some(&"avc1".to_string()));
}

#[test]
fn quotes_are_stripped_from_values() {
    let parsed =
        M3U8::parse("#EXTM3U\n#EXT-X-MEDIA:GROUP-ID=\"aac\",NAME='English',DEFAULT=YES\n").unwrap();
    let tag = parsed.media_tags.first().unwrap();
    assert_eq!(tag.get("GROUP-ID"), Some(&"aac".to_string()));
    assert_eq!(tag.get("NAME"), Some(&"English".to_string()));
    assert_eq!(tag.get("DEFAULT"), Some(&"YES".to_string()));
}

#[test]
fn later_duplicate_key_wins() {
    let parsed = M3U8::parse("#EXTM3U\n#EXT-X-MEDIA:TYPE=AUDIO,TYPE=VIDEO\n").unwrap();
    let tag = parsed.media_tags.first().unwrap();
    assert_eq!(tag.get("TYPE"), Some(&"VIDEO".to_string()));
}

#[test]
fn unknown_tags_are_ignored() {
    let with_unknown =
        M3U8::parse("#EXTM3U\n#EXT-X-FOO:WHATEVER=1\n#EXT-X-MEDIA:TYPE=AUDIO\n#EXT-X-BAR\n")
            .unwrap();
    assert_eq!(with_unknown.media_tags.len(), 1);
    assert_eq!(with_unknown.variant_streams.len(), 0);
    assert_eq!(with_unknown.media_resources.len(), 0);
    assert_eq!(with_unknown.version, "2");
    assert_eq!(with_unknown.independent_segments, false);
}

#[test]
fn round_trip_is_stable() {
    let a = M3U8::parse(SAMPLE).unwrap();
    let b = M3U8::parse(SAMPLE).unwrap();
    assert_eq!(a.version, b.version);
    assert_eq!(a.independent_segments, b.independent_segments);
    assert_eq!(a.media_tags.len(), b.media_tags.len());
    assert_eq!(a.variant_streams.len(), b.variant_streams.len());
    assert_eq!(a.media_resources.len(), b.media_resources.len());
    for key in ["TYPE", "GROUP-ID", "CHANNELS", "URI"] {
        assert_eq!(
            a.media_tags.first().unwrap().get(key),
            b.media_tags.first().unwrap().get(key)
        );
    }
    for key in ["BANDWIDTH", "CODECS", "uri"] {
        assert_eq!(
            a.variant_streams.first().unwrap().get(key),
            b.variant_streams.first().unwrap().get(key)
        );
        assert_eq!(
            a.variant_streams.last().unwrap().get(key),
            b.variant_streams.last().unwrap().get(key)
        );
    }
}
