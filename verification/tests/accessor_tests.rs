use m3u8::{TagTypes, M3U8};

const SORT_SAMPLE: &str = "#EXTM3U\n\
#EXT-X-MEDIA:TYPE=AUDIO,CHANNELS=\"16/JOC\"\n\
#EXT-X-MEDIA:TYPE=AUDIO,CHANNELS=\"6\"\n\
#EXT-X-STREAM-INF:BANDWIDTH=9661857\n\
six/vod.m3u8\n\
#EXT-X-STREAM-INF:BANDWIDTH=10429877\n\
ten/vod.m3u8\n\
#EXT-X-I-FRAME-STREAM-INF:BANDWIDTH=77758\n\
#EXT-X-I-FRAME-STREAM-INF:BANDWIDTH=222552\n";

#[test]
fn media_resources_sort_by_bandwidth() {
    let mut parsed = M3U8::parse(SORT_SAMPLE).unwrap();
    // string order: "222552" sorts before "77758"
    let media_resources = parsed.get_media_resources("BANDWIDTH");
    assert_eq!(media_resources.first().unwrap().get("BANDWIDTH").unwrap().as_str(), "222552");
    assert_eq!(media_resources.last().unwrap().get("BANDWIDTH").unwrap().as_str(), "77758");
    // reverse the underlying group and sort again: same order comes back
    parsed.media_resources.reverse();
    let media_resources = parsed.get_media_resources("BANDWIDTH");
    assert_eq!(media_resources.first().unwrap().get("BANDWIDTH").unwrap().as_str(), "222552");
    assert_eq!(media_resources.last().unwrap().get("BANDWIDTH").unwrap().as_str(), "77758");
}

#[test]
fn media_tags_sort_by_channels() {
    let mut parsed = M3U8::parse(SORT_SAMPLE).unwrap();
    parsed.media_tags.reverse();
    let media_tags = parsed.get_media_tags("CHANNELS");
    assert_eq!(media_tags.first().unwrap().get("CHANNELS").unwrap().as_str(), "16/JOC");
    assert_eq!(media_tags.last().unwrap().get("CHANNELS").unwrap().as_str(), "6");
}

#[test]
fn variant_streams_sort_by_bandwidth() {
    let mut parsed = M3U8::parse(SORT_SAMPLE).unwrap();
    let variant_streams = parsed.get_variant_streams("BANDWIDTH");
    assert_eq!(variant_streams.first().unwrap().get("BANDWIDTH").unwrap().as_str(), "10429877");
    assert_eq!(variant_streams.last().unwrap().get("BANDWIDTH").unwrap().as_str(), "9661857");
    assert_eq!(variant_streams.first().unwrap().get("uri").unwrap().as_str(), "ten/vod.m3u8");
}

#[test]
fn records_missing_the_key_sort_first() {
    let mut parsed = M3U8::parse(
        "#EXTM3U\n#EXT-X-MEDIA:TYPE=AUDIO,NAME=en\n#EXT-X-MEDIA:TYPE=VIDEO\n",
    )
    .unwrap();
    let tags = parsed.get_media_tags("NAME");
    assert_eq!(tags.first().unwrap().get("NAME"), None);
    assert_eq!(tags.last().unwrap().get("NAME"), Some(&"en".to_string()));
}

#[test]
fn sorting_returns_a_copy() {
    let mut parsed = M3U8::parse(SORT_SAMPLE).unwrap();
    let mut copy = parsed.get_media_resources("BANDWIDTH");
    copy.clear();
    // the playlist still holds its records
    assert_eq!(parsed.media_resources.len(), 2);
}

#[test]
fn key_value_pair_splits_at_first_equals() {
    assert_eq!(
        M3U8::get_key_value_pair("A=B=C"),
        Some(("A".to_string(), "B=C".to_string()))
    );
    assert_eq!(
        M3U8::get_key_value_pair("CODECS=\"avc1\""),
        Some(("CODECS".to_string(), "avc1".to_string()))
    );
    assert_eq!(M3U8::get_key_value_pair("NOEQUALS"), None);
    assert_eq!(M3U8::get_key_value_pair(""), None);
}

#[test]
fn by_value_splits_at_first_colon() {
    let (tag, data) = M3U8::by_value("#EXT-X-VERSION:4");
    assert_eq!(tag, "#EXT-X-VERSION");
    assert_eq!(data, "4");
    let (tag, data) = M3U8::by_value("no-colon-here");
    assert_eq!(tag, "no-colon-here");
    assert_eq!(data, "");
}

#[test]
fn classification_is_exact() {
    assert_eq!(TagTypes::from_str("#EXTM3U"), Ok(TagTypes::ExtM3U));
    assert_eq!(TagTypes::from_str("#EXT-X-VERSION"), Ok(TagTypes::ExtXVersion));
    assert_eq!(TagTypes::from_str("#EXT-X-MEDIA"), Ok(TagTypes::ExtXMedia));
    assert_eq!(
        TagTypes::from_str("#EXT-X-INDEPENDENT-SEGMENTS"),
        Ok(TagTypes::ExtXIndependentSegments)
    );
    assert_eq!(
        TagTypes::from_str("#EXT-X-I-FRAME-STREAM-INF"),
        Ok(TagTypes::ExtXIFrameStreamInf)
    );
    assert_eq!(TagTypes::from_str("#EXT-X-STREAM-INF"), Ok(TagTypes::ExtXStreamInf));
    // no prefix or partial matches
    assert_eq!(TagTypes::from_str("#EXTM3U2"), Err(()));
    assert_eq!(TagTypes::from_str("#EXT-X-MEDI"), Err(()));
    assert_eq!(TagTypes::from_str(""), Err(()));
    assert_eq!(TagTypes::classify("#EXT-X-VERSION:4"), Ok(TagTypes::ExtXVersion));
    assert_eq!(TagTypes::classify("#EXT-X-FOO:1"), Err(()));
    assert_eq!(TagTypes::from_str(TagTypes::ExtXMedia.as_str()), Ok(TagTypes::ExtXMedia));
}

#[test]
fn validate_checks_structure() {
    let good = vec!["#EXTM3U".to_string(), "#EXT-X-VERSION:4".to_string()];
    assert!(M3U8::validate(&good).is_ok());
    let empty: Vec<String> = Vec::new();
    assert!(M3U8::validate(&empty).is_err());
    let bad_header = vec!["#EXT-X-VERSION:4".to_string()];
    assert!(M3U8::validate(&bad_header).is_err());
    let two_versions = vec![
        "#EXTM3U".to_string(),
        "#EXT-X-VERSION:4".to_string(),
        "#EXT-X-VERSION:5".to_string(),
    ];
    assert!(M3U8::validate(&two_versions).is_err());
}

#[test]
fn by_attribute_builds_a_record() {
    let rec = M3U8::by_attribute("TYPE=AUDIO,GROUP-ID=\"aac\",bare,LANG='en'");
    assert_eq!(rec.get("TYPE"), Some(&"AUDIO".to_string()));
    assert_eq!(rec.get("GROUP-ID"), Some(&"aac".to_string()));
    assert_eq!(rec.get("LANG"), Some(&"en".to_string()));
    assert_eq!(rec.get("bare"), None);
    assert_eq!(rec.get("MISSING"), None);
}

#[test]
fn windows_line_endings_are_handled() {
    let parsed = M3U8::parse("#EXTM3U\r\n#EXT-X-VERSION:4\r\n").unwrap();
    assert_eq!(parsed.version, "4");
}
