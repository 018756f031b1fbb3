//! Classification of playlist lines into the closed set of recognized tags.
//!
//! A line is classified by its leading token: the part before the first `:`
//! (the whole line when no `:` is present), compared for exact equality
//! against the six fixed tag names. Anything else is unrecognized.

use vstd::prelude::*;

use crate::text::{before_ch, split_first, str_eq};

verus! {

/// The master-playlist tag kinds this parser recognizes.
#[derive(Debug, PartialEq, Eq, Structural, Clone, Copy)]
pub enum TagTypes {
    ExtM3U,
    ExtXIndependentSegments,
    ExtXVersion,
    ExtXMedia,
    ExtXIFrameStreamInf,
    ExtXStreamInf,
}

/// The tag kind whose name is exactly `s`, or `Err(())` for any other token.
pub open spec fn spec_tag_of(s: Seq<char>) -> Result<TagTypes, ()> {
    if s == "#EXTM3U"@ {
        Ok(TagTypes::ExtM3U)
    } else if s == "#EXT-X-INDEPENDENT-SEGMENTS"@ {
        Ok(TagTypes::ExtXIndependentSegments)
    } else if s == "#EXT-X-VERSION"@ {
        Ok(TagTypes::ExtXVersion)
    } else if s == "#EXT-X-MEDIA"@ {
        Ok(TagTypes::ExtXMedia)
    } else if s == "#EXT-X-I-FRAME-STREAM-INF"@ {
        Ok(TagTypes::ExtXIFrameStreamInf)
    } else if s == "#EXT-X-STREAM-INF"@ {
        Ok(TagTypes::ExtXStreamInf)
    } else {
        Err(())
    }
}

/// The classification of a whole line: its leading token, before any `:`,
/// resolved by `spec_tag_of`.
pub open spec fn spec_classify(line: Seq<char>) -> Result<TagTypes, ()> {
    spec_tag_of(before_ch(line, ':'))
}

impl TagTypes {
    /// The tag kind whose name is exactly `input`, or `Err(())` for any other
    /// token. No prefix or partial matches.
    pub fn from_str(input: &str) -> (r: Result<TagTypes, ()>)
        ensures
            r == spec_tag_of(input@),
    {
        if str_eq(input, "#EXTM3U") {
            Ok(TagTypes::ExtM3U)
        } else if str_eq(input, "#EXT-X-INDEPENDENT-SEGMENTS") {
            Ok(TagTypes::ExtXIndependentSegments)
        } else if str_eq(input, "#EXT-X-VERSION") {
            Ok(TagTypes::ExtXVersion)
        } else if str_eq(input, "#EXT-X-MEDIA") {
            Ok(TagTypes::ExtXMedia)
        } else if str_eq(input, "#EXT-X-I-FRAME-STREAM-INF") {
            Ok(TagTypes::ExtXIFrameStreamInf)
        } else if str_eq(input, "#EXT-X-STREAM-INF") {
            Ok(TagTypes::ExtXStreamInf)
        } else {
            Err(())
        }
    }

    /// Classifies a whole line by its leading token.
    pub fn classify(line: &str) -> (r: Result<TagTypes, ()>)
        ensures
            r == spec_classify(line@),
    {
        let (tag, _) = split_first(line, ':');
        TagTypes::from_str(tag)
    }

    /// The tag's name, exactly as it stands in a playlist.
    pub fn as_str(&self) -> (r: &'static str)
        ensures
            spec_tag_of(r@) == Ok::<TagTypes, ()>(*self),
    {
        proof {
            reveal_strlit("#EXTM3U");
            reveal_strlit("#EXT-X-INDEPENDENT-SEGMENTS");
            reveal_strlit("#EXT-X-VERSION");
            reveal_strlit("#EXT-X-MEDIA");
            reveal_strlit("#EXT-X-I-FRAME-STREAM-INF");
            reveal_strlit("#EXT-X-STREAM-INF");
            assert("#EXTM3U"@.len() == 7);
            assert("#EXT-X-INDEPENDENT-SEGMENTS"@.len() == 27);
            assert("#EXT-X-VERSION"@.len() == 14);
            assert("#EXT-X-MEDIA"@.len() == 12);
            assert("#EXT-X-I-FRAME-STREAM-INF"@.len() == 25);
            assert("#EXT-X-STREAM-INF"@.len() == 17);
        }
        match self {
            TagTypes::ExtM3U => "#EXTM3U",
            TagTypes::ExtXIndependentSegments => "#EXT-X-INDEPENDENT-SEGMENTS",
            TagTypes::ExtXVersion => "#EXT-X-VERSION",
            TagTypes::ExtXMedia => "#EXT-X-MEDIA",
            TagTypes::ExtXIFrameStreamInf => "#EXT-X-I-FRAME-STREAM-INF",
            TagTypes::ExtXStreamInf => "#EXT-X-STREAM-INF",
        }
    }
}

} // verus!
