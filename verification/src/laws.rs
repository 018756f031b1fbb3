//! Document-level laws of the parser, proved over the spec model that
//! [`crate::playlist::M3U8::parse`] is specified against.

use vstd::prelude::*;

use crate::playlist::{
    count_versions, spec_attrs, spec_build, spec_init, spec_parse, spec_validate, SpecPlaylist,
};
use crate::tags::{spec_classify, TagTypes};
use crate::text::{after_ch, spec_lines};

verus! {

/// Every document that passes validation parses successfully.
pub proof fn lemma_valid_documents_parse(text: Seq<char>)
    requires
        spec_validate(spec_lines(text)),
    ensures
        spec_parse(text) is Some,
{
}

/// A document that is empty, or whose first line is not exactly the header
/// token, fails to parse.
pub proof fn lemma_missing_header_rejected(text: Seq<char>)
    requires
        spec_lines(text).len() == 0 || spec_lines(text)[0] != "#EXTM3U"@,
    ensures
        spec_parse(text) is None,
{
}

/// A document with two or more version tags fails to parse.
pub proof fn lemma_multiple_versions_rejected(text: Seq<char>)
    requires
        count_versions(spec_lines(text)) >= 2,
    ensures
        spec_parse(text) is None,
{
}

/// Parsing is deterministic: two playlists produced from the same text have
/// the same contents.
pub proof fn lemma_parse_deterministic(text: Seq<char>, a: SpecPlaylist, b: SpecPlaylist)
    requires
        spec_parse(text) == Some(a),
        spec_parse(text) == Some(b),
    ensures
        a == b,
{
}

/// The forward pass never touches the version unless a line classifies as
/// the version tag.
proof fn lemma_build_version_unchanged(lines: Seq<Seq<char>>, i: int, acc: SpecPlaylist)
    requires
        forall|m: int|
            0 <= m < lines.len() ==> spec_classify(lines[m]) != Ok::<TagTypes, ()>(
                TagTypes::ExtXVersion,
            ),
    ensures
        spec_build(lines, i, acc).version == acc.version,
    decreases lines.len() - i,
{
    if i < 0 || i >= lines.len() {
    } else {
        let line = lines[i];
        let payload = after_ch(line, ':');
        match spec_classify(line) {
            Ok(TagTypes::ExtM3U) => {
                lemma_build_version_unchanged(lines, i + 1, acc);
            },
            Ok(TagTypes::ExtXIndependentSegments) => {
                lemma_build_version_unchanged(
                    lines,
                    i + 1,
                    SpecPlaylist { independent_segments: true, ..acc },
                );
            },
            Ok(TagTypes::ExtXVersion) => {
                assert(false);
            },
            Ok(TagTypes::ExtXMedia) => {
                lemma_build_version_unchanged(
                    lines,
                    i + 1,
                    SpecPlaylist { media_tags: acc.media_tags.push(spec_attrs(payload)), ..acc },
                );
            },
            Ok(TagTypes::ExtXIFrameStreamInf) => {
                lemma_build_version_unchanged(
                    lines,
                    i + 1,
                    SpecPlaylist {
                        media_resources: acc.media_resources.push(spec_attrs(payload)),
                        ..acc
                    },
                );
            },
            Ok(TagTypes::ExtXStreamInf) => {
                let uri = if i + 1 < lines.len() {
                    lines[i + 1]
                } else {
                    Seq::empty()
                };
                let rec = spec_attrs(payload).insert("uri"@, uri);
                let next = if i + 2 <= lines.len() {
                    i + 2
                } else {
                    lines.len() as int
                };
                lemma_build_version_unchanged(
                    lines,
                    next,
                    SpecPlaylist { variant_streams: acc.variant_streams.push(rec), ..acc },
                );
            },
            Err(_) => {
                lemma_build_version_unchanged(lines, i + 1, acc);
            },
        }
    }
}

/// A document without a version tag parses to the default version `"2"`.
pub proof fn lemma_default_version(text: Seq<char>)
    requires
        spec_parse(text) is Some,
        forall|m: int|
            0 <= m < spec_lines(text).len() ==> spec_classify(spec_lines(text)[m]) != Ok::<
                TagTypes,
                (),
            >(TagTypes::ExtXVersion),
    ensures
        spec_parse(text)->Some_0.version == "2"@,
{
    lemma_build_version_unchanged(spec_lines(text), 0, spec_init());
}

/// In a document where no line classifies as the stream-info tag, the
/// forward pass raises the independent-segments flag exactly when a line
/// from position `i` on classifies as the independent-segments tag. (After a
/// stream-info tag the following line is consumed as a URI, so an
/// independent-segments line standing there would not count.)
proof fn lemma_build_independent_segments(lines: Seq<Seq<char>>, i: int, acc: SpecPlaylist)
    requires
        0 <= i,
        forall|m: int|
            0 <= m < lines.len() ==> spec_classify(lines[m]) != Ok::<TagTypes, ()>(
                TagTypes::ExtXStreamInf,
            ),
    ensures
        spec_build(lines, i, acc).independent_segments == (acc.independent_segments || exists|m: int|
            i <= m < lines.len() && spec_classify(lines[m]) == Ok::<TagTypes, ()>(
                TagTypes::ExtXIndependentSegments,
            )),
    decreases lines.len() - i,
{
    if i < 0 || i >= lines.len() {
    } else {
        let line = lines[i];
        let payload = after_ch(line, ':');
        let here = spec_classify(line) == Ok::<TagTypes, ()>(TagTypes::ExtXIndependentSegments);
        match spec_classify(line) {
            Ok(TagTypes::ExtXIndependentSegments) => {
                lemma_build_independent_segments(
                    lines,
                    i + 1,
                    SpecPlaylist { independent_segments: true, ..acc },
                );
                assert(i <= i < lines.len() && spec_classify(lines[i]) == Ok::<TagTypes, ()>(
                    TagTypes::ExtXIndependentSegments,
                ));
            },
            Ok(TagTypes::ExtM3U) => {
                lemma_build_independent_segments(lines, i + 1, acc);
            },
            Ok(TagTypes::ExtXVersion) => {
                lemma_build_independent_segments(
                    lines,
                    i + 1,
                    SpecPlaylist { version: payload, ..acc },
                );
            },
            Ok(TagTypes::ExtXMedia) => {
                lemma_build_independent_segments(
                    lines,
                    i + 1,
                    SpecPlaylist { media_tags: acc.media_tags.push(spec_attrs(payload)), ..acc },
                );
            },
            Ok(TagTypes::ExtXIFrameStreamInf) => {
                lemma_build_independent_segments(
                    lines,
                    i + 1,
                    SpecPlaylist {
                        media_resources: acc.media_resources.push(spec_attrs(payload)),
                        ..acc
                    },
                );
            },
            Ok(TagTypes::ExtXStreamInf) => {
                assert(false);
            },
            Err(_) => {
                lemma_build_independent_segments(lines, i + 1, acc);
            },
        }
        if !here {
            assert((exists|m: int|
                i <= m < lines.len() && spec_classify(lines[m]) == Ok::<TagTypes, ()>(
                    TagTypes::ExtXIndependentSegments,
                )) == (exists|m: int|
                i + 1 <= m < lines.len() && spec_classify(lines[m]) == Ok::<TagTypes, ()>(
                    TagTypes::ExtXIndependentSegments,
                ))) by {
                if exists|m: int|
                    i <= m < lines.len() && spec_classify(lines[m]) == Ok::<TagTypes, ()>(
                        TagTypes::ExtXIndependentSegments,
                    ) {
                    let m = choose|m: int|
                        i <= m < lines.len() && spec_classify(lines[m]) == Ok::<TagTypes, ()>(
                            TagTypes::ExtXIndependentSegments,
                        );
                    assert(m != i);
                    assert(i + 1 <= m < lines.len() && spec_classify(lines[m]) == Ok::<
                        TagTypes,
                        (),
                    >(TagTypes::ExtXIndependentSegments));
                }
            }
        }
    }
}

/// In a document without stream-info tags, the independent-segments flag of
/// the parsed playlist is true exactly when some line classifies as the
/// independent-segments tag.
pub proof fn lemma_independent_segments(text: Seq<char>)
    requires
        spec_parse(text) is Some,
        forall|m: int|
            0 <= m < spec_lines(text).len() ==> spec_classify(spec_lines(text)[m]) != Ok::<
                TagTypes,
                (),
            >(TagTypes::ExtXStreamInf),
    ensures
        spec_parse(text)->Some_0.independent_segments == exists|m: int|
            0 <= m < spec_lines(text).len() && spec_classify(spec_lines(text)[m]) == Ok::<
                TagTypes,
                (),
            >(TagTypes::ExtXIndependentSegments),
{
    lemma_build_independent_segments(spec_lines(text), 0, spec_init());
}

/// A line that no tag matches never raises the independent-segments flag:
/// without an independent-segments line the flag stays down.
pub proof fn lemma_independent_segments_absent(text: Seq<char>)
    requires
        spec_parse(text) is Some,
        forall|m: int|
            0 <= m < spec_lines(text).len() ==> spec_classify(spec_lines(text)[m]) != Ok::<
                TagTypes,
                (),
            >(TagTypes::ExtXIndependentSegments),
    ensures
        !spec_parse(text)->Some_0.independent_segments,
{
    lemma_build_flag_unchanged(spec_lines(text), 0, spec_init());
}

/// The forward pass only appends to the variant streams: whatever the
/// accumulator already holds stays, in place.
proof fn lemma_build_appends(lines: Seq<Seq<char>>, i: int, acc: SpecPlaylist)
    ensures
        spec_build(lines, i, acc).variant_streams.len() >= acc.variant_streams.len(),
        forall|k: int|
            0 <= k < acc.variant_streams.len() ==> spec_build(lines, i, acc).variant_streams[k]
                == acc.variant_streams[k],
    decreases lines.len() - i,
{
    if i < 0 || i >= lines.len() {
    } else {
        let line = lines[i];
        let payload = after_ch(line, ':');
        match spec_classify(line) {
            Ok(TagTypes::ExtM3U) => {
                lemma_build_appends(lines, i + 1, acc);
            },
            Ok(TagTypes::ExtXIndependentSegments) => {
                lemma_build_appends(
                    lines,
                    i + 1,
                    SpecPlaylist { independent_segments: true, ..acc },
                );
            },
            Ok(TagTypes::ExtXVersion) => {
                lemma_build_appends(lines, i + 1, SpecPlaylist { version: payload, ..acc });
            },
            Ok(TagTypes::ExtXMedia) => {
                lemma_build_appends(
                    lines,
                    i + 1,
                    SpecPlaylist { media_tags: acc.media_tags.push(spec_attrs(payload)), ..acc },
                );
            },
            Ok(TagTypes::ExtXIFrameStreamInf) => {
                lemma_build_appends(
                    lines,
                    i + 1,
                    SpecPlaylist {
                        media_resources: acc.media_resources.push(spec_attrs(payload)),
                        ..acc
                    },
                );
            },
            Ok(TagTypes::ExtXStreamInf) => {
                let uri = if i + 1 < lines.len() {
                    lines[i + 1]
                } else {
                    Seq::empty()
                };
                let rec = spec_attrs(payload).insert("uri"@, uri);
                let next = if i + 2 <= lines.len() {
                    i + 2
                } else {
                    lines.len() as int
                };
                lemma_build_appends(
                    lines,
                    next,
                    SpecPlaylist { variant_streams: acc.variant_streams.push(rec), ..acc },
                );
            },
            Err(_) => {
                lemma_build_appends(lines, i + 1, acc);
            },
        }
    }
}

/// Each stream-info tag produces one variant-stream record: the tag's
/// attributes plus, under `"uri"`, the line that follows the tag — or the
/// empty string when the tag is the last line.
pub proof fn lemma_stream_inf_uri(lines: Seq<Seq<char>>, i: int, acc: SpecPlaylist)
    requires
        0 <= i < lines.len(),
        spec_classify(lines[i]) == Ok::<TagTypes, ()>(TagTypes::ExtXStreamInf),
    ensures
        spec_build(lines, i, acc).variant_streams.len() > acc.variant_streams.len(),
        spec_build(lines, i, acc).variant_streams[acc.variant_streams.len() as int] == spec_attrs(
            after_ch(lines[i], ':'),
        ).insert(
            "uri"@,
            if i + 1 < lines.len() {
                lines[i + 1]
            } else {
                Seq::empty()
            },
        ),
        spec_build(lines, i, acc).variant_streams[acc.variant_streams.len() as int]["uri"@] == (
        if i + 1 < lines.len() {
            lines[i + 1]
        } else {
            Seq::empty()
        }),
{
    let payload = after_ch(lines[i], ':');
    let uri = if i + 1 < lines.len() {
        lines[i + 1]
    } else {
        Seq::empty()
    };
    let rec = spec_attrs(payload).insert("uri"@, uri);
    let next = if i + 2 <= lines.len() {
        i + 2
    } else {
        lines.len() as int
    };
    let acc2 = SpecPlaylist { variant_streams: acc.variant_streams.push(rec), ..acc };
    assert(spec_build(lines, i, acc) == spec_build(lines, next, acc2));
    lemma_build_appends(lines, next, acc2);
    assert(acc2.variant_streams[acc.variant_streams.len() as int] == rec);
}

/// How many version-tag lines a sequence holds does not change when a line
/// of another classification is removed.
proof fn lemma_count_versions_remove(lines: Seq<Seq<char>>, k: int)
    requires
        0 <= k < lines.len(),
        spec_classify(lines[k]) != Ok::<TagTypes, ()>(TagTypes::ExtXVersion),
    ensures
        count_versions(lines.remove(k)) == count_versions(lines),
    decreases lines.len(),
{
    if k == lines.len() - 1 {
        assert(lines.remove(k) =~= lines.drop_last());
    } else {
        let r = lines.remove(k);
        assert(r.drop_last() =~= lines.drop_last().remove(k));
        assert(r.last() == lines.last());
        lemma_count_versions_remove(lines.drop_last(), k);
    }
}

/// Two line sequences that agree from the given positions onward build the
/// same playlist from there.
proof fn lemma_build_congruent(
    a: Seq<Seq<char>>,
    ai: int,
    b: Seq<Seq<char>>,
    bi: int,
    acc: SpecPlaylist,
)
    requires
        0 <= ai <= a.len(),
        0 <= bi <= b.len(),
        a.len() - ai == b.len() - bi,
        forall|m: int| 0 <= m < a.len() - ai ==> #[trigger] a[ai + m] == b[bi + m],
    ensures
        spec_build(a, ai, acc) == spec_build(b, bi, acc),
    decreases a.len() - ai,
{
    if ai >= a.len() {
    } else {
        assert(a[ai] == b[bi]) by {
            assert(a[ai + 0] == b[bi + 0]);
        }
        assert forall|m: int| 0 <= m < a.len() - (ai + 1) implies #[trigger] a[ai + 1 + m] == b[bi
            + 1 + m] by {
            assert(a[ai + (m + 1)] == b[bi + (m + 1)]);
            assert(ai + (m + 1) == ai + 1 + m);
        }
        let line = a[ai];
        let payload = after_ch(line, ':');
        match spec_classify(line) {
            Ok(TagTypes::ExtM3U) => {
                lemma_build_congruent(a, ai + 1, b, bi + 1, acc);
            },
            Ok(TagTypes::ExtXIndependentSegments) => {
                lemma_build_congruent(
                    a,
                    ai + 1,
                    b,
                    bi + 1,
                    SpecPlaylist { independent_segments: true, ..acc },
                );
            },
            Ok(TagTypes::ExtXVersion) => {
                lemma_build_congruent(a, ai + 1, b, bi + 1, SpecPlaylist { version: payload, ..acc });
            },
            Ok(TagTypes::ExtXMedia) => {
                lemma_build_congruent(
                    a,
                    ai + 1,
                    b,
                    bi + 1,
                    SpecPlaylist { media_tags: acc.media_tags.push(spec_attrs(payload)), ..acc },
                );
            },
            Ok(TagTypes::ExtXIFrameStreamInf) => {
                lemma_build_congruent(
                    a,
                    ai + 1,
                    b,
                    bi + 1,
                    SpecPlaylist {
                        media_resources: acc.media_resources.push(spec_attrs(payload)),
                        ..acc
                    },
                );
            },
            Ok(TagTypes::ExtXStreamInf) => {
                if ai + 1 < a.len() {
                    assert(a[ai + 1] == b[bi + 1]);
                }
                let uri = if ai + 1 < a.len() {
                    a[ai + 1]
                } else {
                    Seq::empty()
                };
                let rec = spec_attrs(payload).insert("uri"@, uri);
                let acc2 = SpecPlaylist { variant_streams: acc.variant_streams.push(rec), ..acc };
                if ai + 2 <= a.len() {
                    assert forall|m: int|
                        0 <= m < a.len() - (ai + 2) implies #[trigger] a[ai + 2 + m] == b[bi + 2
                        + m] by {
                        assert(a[ai + (m + 2)] == b[bi + (m + 2)]);
                        assert(ai + (m + 2) == ai + 2 + m);
                    }
                    lemma_build_congruent(a, ai + 2, b, bi + 2, acc2);
                } else {
                    lemma_build_congruent(a, a.len() as int, b, b.len() as int, acc2);
                }
            },
            Err(_) => {
                lemma_build_congruent(a, ai + 1, b, bi + 1, acc);
            },
        }
    }
}

/// Removing an unrecognized line does not change what the forward pass
/// builds, in a document without stream-info tags (after a stream-info tag
/// the following line is consumed whatever it holds).
proof fn lemma_build_skip(lines: Seq<Seq<char>>, k: int, i: int, acc: SpecPlaylist)
    requires
        0 <= k < lines.len(),
        spec_classify(lines[k]) is Err,
        forall|m: int|
            0 <= m < lines.len() ==> spec_classify(lines[m]) != Ok::<TagTypes, ()>(
                TagTypes::ExtXStreamInf,
            ),
        0 <= i <= k,
    ensures
        spec_build(lines.remove(k), i, acc) == spec_build(lines, i, acc),
    decreases k - i,
{
    let r = lines.remove(k);
    if i == k {
        assert(spec_build(lines, k, acc) == spec_build(lines, k + 1, acc));
        assert(forall|m: int| 0 <= m < r.len() - k ==> #[trigger] r[k + m] == lines[k + 1 + m]);
        lemma_build_congruent(r, k, lines, k + 1, acc);
    } else {
        assert(r[i] == lines[i]);
        let line = lines[i];
        let payload = after_ch(line, ':');
        match spec_classify(line) {
            Ok(TagTypes::ExtM3U) => {
                lemma_build_skip(lines, k, i + 1, acc);
            },
            Ok(TagTypes::ExtXIndependentSegments) => {
                lemma_build_skip(lines, k, i + 1, SpecPlaylist { independent_segments: true, ..acc });
            },
            Ok(TagTypes::ExtXVersion) => {
                lemma_build_skip(lines, k, i + 1, SpecPlaylist { version: payload, ..acc });
            },
            Ok(TagTypes::ExtXMedia) => {
                lemma_build_skip(
                    lines,
                    k,
                    i + 1,
                    SpecPlaylist { media_tags: acc.media_tags.push(spec_attrs(payload)), ..acc },
                );
            },
            Ok(TagTypes::ExtXIFrameStreamInf) => {
                lemma_build_skip(
                    lines,
                    k,
                    i + 1,
                    SpecPlaylist {
                        media_resources: acc.media_resources.push(spec_attrs(payload)),
                        ..acc
                    },
                );
            },
            Ok(TagTypes::ExtXStreamInf) => {
                assert(false);
            },
            Err(_) => {
                lemma_build_skip(lines, k, i + 1, acc);
            },
        }
    }
}

/// An unrecognized tag line has no effect: removing it changes neither
/// whether the document validates nor the playlist that is built, in a
/// document without stream-info tags (after a stream-info tag the following
/// line is consumed as a URI whatever it holds).
pub proof fn lemma_unknown_tag_ignored(lines: Seq<Seq<char>>, k: int)
    requires
        0 < k < lines.len(),
        spec_classify(lines[k]) is Err,
        forall|m: int|
            0 <= m < lines.len() ==> spec_classify(lines[m]) != Ok::<TagTypes, ()>(
                TagTypes::ExtXStreamInf,
            ),
    ensures
        spec_validate(lines.remove(k)) == spec_validate(lines),
        spec_build(lines.remove(k), 0, spec_init()) == spec_build(lines, 0, spec_init()),
{
    lemma_count_versions_remove(lines, k);
    assert(lines.remove(k)[0] == lines[0]);
    lemma_build_skip(lines, k, 0, spec_init());
}

/// The forward pass never raises the flag unless a line classifies as the
/// independent-segments tag.
proof fn lemma_build_flag_unchanged(lines: Seq<Seq<char>>, i: int, acc: SpecPlaylist)
    requires
        forall|m: int|
            0 <= m < lines.len() ==> spec_classify(lines[m]) != Ok::<TagTypes, ()>(
                TagTypes::ExtXIndependentSegments,
            ),
    ensures
        spec_build(lines, i, acc).independent_segments == acc.independent_segments,
    decreases lines.len() - i,
{
    if i < 0 || i >= lines.len() {
    } else {
        let line = lines[i];
        let payload = after_ch(line, ':');
        match spec_classify(line) {
            Ok(TagTypes::ExtM3U) => {
                lemma_build_flag_unchanged(lines, i + 1, acc);
            },
            Ok(TagTypes::ExtXIndependentSegments) => {
                assert(false);
            },
            Ok(TagTypes::ExtXVersion) => {
                lemma_build_flag_unchanged(lines, i + 1, SpecPlaylist { version: payload, ..acc });
            },
            Ok(TagTypes::ExtXMedia) => {
                lemma_build_flag_unchanged(
                    lines,
                    i + 1,
                    SpecPlaylist { media_tags: acc.media_tags.push(spec_attrs(payload)), ..acc },
                );
            },
            Ok(TagTypes::ExtXIFrameStreamInf) => {
                lemma_build_flag_unchanged(
                    lines,
                    i + 1,
                    SpecPlaylist {
                        media_resources: acc.media_resources.push(spec_attrs(payload)),
                        ..acc
                    },
                );
            },
            Ok(TagTypes::ExtXStreamInf) => {
                let uri = if i + 1 < lines.len() {
                    lines[i + 1]
                } else {
                    Seq::empty()
                };
                let rec = spec_attrs(payload).insert("uri"@, uri);
                let next = if i + 2 <= lines.len() {
                    i + 2
                } else {
                    lines.len() as int
                };
                lemma_build_flag_unchanged(
                    lines,
                    next,
                    SpecPlaylist { variant_streams: acc.variant_streams.push(rec), ..acc },
                );
            },
            Err(_) => {
                lemma_build_flag_unchanged(lines, i + 1, acc);
            },
        }
    }
}

} // verus!
