//! The playlist document model: validation, attribute-list parsing, and the
//! single forward pass that builds an [`M3U8`] value from the lines of a
//! master playlist.
//!
//! The whole pipeline is mirrored by spec functions over `Seq<char>`; the
//! executable parser is proved to produce exactly the model's result.

use vstd::prelude::*;

use crate::record::AttributeRecord;
use crate::tags::{spec_classify, TagTypes};
use crate::text::{
    after_ch, before_ch, after_idx, before_idx, find_ch, find_char, lemma_find_ch, remove_quotes,
    spec_lines, split_first, split_lines, str_eq, strip_quotes, views_of,
};

verus! {

/// Relied on for the error that the HTTP fetch in front of this library can
/// fail with: `reqwest::Error`, carried through [`ParseError`] unchanged.
#[verifier::external_type_specification]
#[verifier::external_body]
pub struct ExReqwestError(reqwest::Error);

/// Why a playlist could not be produced.
#[derive(Debug)]
pub enum ParseError {
    /// The document fails structural validation.
    InvalidM3U8(String),
    /// The text could not be fetched; the transport error is forwarded
    /// unchanged.
    ReqwestError(reqwest::Error),
}

impl From<reqwest::Error> for ParseError {
    fn from(err: reqwest::Error) -> (r: ParseError) {
        ParseError::ReqwestError(err)
    }
}

impl vstd::std_specs::convert::FromSpecImpl<reqwest::Error> for ParseError {
    open spec fn obeys_from_spec() -> bool {
        true
    }

    open spec fn from_spec(err: reqwest::Error) -> ParseError {
        ParseError::ReqwestError(err)
    }
}

/// The items of a comma-separated attribute list: `payload` split on every
/// comma. Commas inside quoted values split too; that naive split is a
/// documented limitation of the format handling, not an error.
pub open spec fn spec_items(payload: Seq<char>) -> Seq<Seq<char>>
    decreases payload.len(),
{
    if payload.len() == 0 {
        seq![payload]
    } else {
        match find_ch(payload, ',') {
            None => seq![payload],
            Some(i) => seq![before_idx(payload, i)] + spec_items(after_idx(payload, i)),
        }
    }
}

/// The key/value pair of one item: the part before the first `=` and the
/// part after it with quotes stripped. An item without `=` yields nothing.
pub open spec fn spec_pair(item: Seq<char>) -> Option<(Seq<char>, Seq<char>)> {
    match find_ch(item, '=') {
        None => None,
        Some(i) => Some((before_idx(item, i), strip_quotes(after_idx(item, i)))),
    }
}

/// The mapping described by a sequence of items, later items overwriting
/// earlier ones under the same key.
pub open spec fn attrs_of_items(items: Seq<Seq<char>>) -> Map<Seq<char>, Seq<char>>
    decreases items.len(),
{
    if items.len() == 0 {
        Map::empty()
    } else {
        let m = attrs_of_items(items.drop_last());
        match spec_pair(items.last()) {
            None => m,
            Some(p) => m.insert(p.0, p.1),
        }
    }
}

/// The attribute mapping of a tag's payload.
pub open spec fn spec_attrs(payload: Seq<char>) -> Map<Seq<char>, Seq<char>> {
    attrs_of_items(spec_items(payload))
}

/// The abstract value of a parsed playlist.
#[verifier::ext_equal]
pub struct SpecPlaylist {
    pub independent_segments: bool,
    pub version: Seq<char>,
    pub media_tags: Seq<Map<Seq<char>, Seq<char>>>,
    pub variant_streams: Seq<Map<Seq<char>, Seq<char>>>,
    pub media_resources: Seq<Map<Seq<char>, Seq<char>>>,
}

/// The playlist before any line is processed: version `"2"`, the
/// independent-segments flag down, no records.
pub open spec fn spec_init() -> SpecPlaylist {
    SpecPlaylist {
        independent_segments: false,
        version: "2"@,
        media_tags: Seq::empty(),
        variant_streams: Seq::empty(),
        media_resources: Seq::empty(),
    }
}

/// How many lines classify as the version tag.
pub open spec fn count_versions(lines: Seq<Seq<char>>) -> nat
    decreases lines.len(),
{
    if lines.len() == 0 {
        0
    } else {
        count_versions(lines.drop_last()) + if spec_classify(lines.last()) == Ok::<TagTypes, ()>(
            TagTypes::ExtXVersion,
        ) {
            1nat
        } else {
            0nat
        }
    }
}

/// A document passes validation when it has at least one line, its first
/// line is exactly the header token, and at most one line classifies as the
/// version tag.
pub open spec fn spec_validate(lines: Seq<Seq<char>>) -> bool {
    &&& lines.len() > 0
    &&& lines[0] == "#EXTM3U"@
    &&& count_versions(lines) <= 1
}

/// One forward pass over `lines` from position `i`, folding each line's
/// effect into `acc`. A stream-info tag consumes the following line as its
/// URI, with the empty string at the end of the document.
pub open spec fn spec_build(lines: Seq<Seq<char>>, i: int, acc: SpecPlaylist) -> SpecPlaylist
    decreases lines.len() - i,
{
    if i < 0 || i >= lines.len() {
        acc
    } else {
        let line = lines[i];
        let payload = after_ch(line, ':');
        match spec_classify(line) {
            Ok(TagTypes::ExtM3U) => spec_build(lines, i + 1, acc),
            Ok(TagTypes::ExtXIndependentSegments) => spec_build(
                lines,
                i + 1,
                SpecPlaylist { independent_segments: true, ..acc },
            ),
            Ok(TagTypes::ExtXVersion) => spec_build(
                lines,
                i + 1,
                SpecPlaylist { version: payload, ..acc },
            ),
            Ok(TagTypes::ExtXMedia) => spec_build(
                lines,
                i + 1,
                SpecPlaylist { media_tags: acc.media_tags.push(spec_attrs(payload)), ..acc },
            ),
            Ok(TagTypes::ExtXIFrameStreamInf) => spec_build(
                lines,
                i + 1,
                SpecPlaylist {
                    media_resources: acc.media_resources.push(spec_attrs(payload)),
                    ..acc
                },
            ),
            Ok(TagTypes::ExtXStreamInf) => {
                let uri = if i + 1 < lines.len() {
                    lines[i + 1]
                } else {
                    Seq::empty()
                };
                let rec = spec_attrs(payload).insert("uri"@, uri);
                let next = if i + 2 <= lines.len() {
                    i + 2
                } else {
                    lines.len() as int
                };
                spec_build(
                    lines,
                    next,
                    SpecPlaylist { variant_streams: acc.variant_streams.push(rec), ..acc },
                )
            },
            Err(_) => spec_build(lines, i + 1, acc),
        }
    }
}

/// The playlist that a document's text describes: `None` when validation
/// fails, otherwise the result of the forward pass over its lines.
pub open spec fn spec_parse(text: Seq<char>) -> Option<SpecPlaylist> {
    let lines = spec_lines(text);
    if spec_validate(lines) {
        Some(spec_build(lines, 0, spec_init()))
    } else {
        None
    }
}

/// The views of a sequence of attribute records.
pub open spec fn records_view(s: Seq<AttributeRecord>) -> Seq<Map<Seq<char>, Seq<char>>> {
    s.map_values(|r: AttributeRecord| r@)
}

/// A parsed master playlist.
#[derive(Debug)]
pub struct M3U8 {
    pub independent_segments: bool,
    pub version: String,
    pub media_tags: Vec<AttributeRecord>,
    pub variant_streams: Vec<AttributeRecord>,
    pub media_resources: Vec<AttributeRecord>,
}

impl View for M3U8 {
    type V = SpecPlaylist;

    open spec fn view(&self) -> SpecPlaylist {
        SpecPlaylist {
            independent_segments: self.independent_segments,
            version: self.version@,
            media_tags: records_view(self.media_tags@),
            variant_streams: records_view(self.variant_streams@),
            media_resources: records_view(self.media_resources@),
        }
    }
}

impl M3U8 {
    /// An empty playlist with the default version `"2"`, the lowest protocol
    /// version, used when the document supplies none.
    pub fn new() -> (r: Self)
        ensures
            r@ == spec_init(),
    {
        let r = M3U8 {
            independent_segments: false,
            version: String::from_str("2"),
            media_tags: Vec::new(),
            variant_streams: Vec::new(),
            media_resources: Vec::new(),
        };
        proof {
            assert(records_view(r.media_tags@) =~= Seq::<Map<Seq<char>, Seq<char>>>::empty());
            assert(records_view(r.variant_streams@) =~= Seq::<Map<Seq<char>, Seq<char>>>::empty());
            assert(records_view(r.media_resources@) =~= Seq::<Map<Seq<char>, Seq<char>>>::empty());
            assert(r@ =~= spec_init());
        }
        r
    }

    /// Checks the structural preconditions over the full line sequence:
    /// a first line that is exactly the header token, and at most one
    /// version tag.
    pub fn validate(lines: &Vec<String>) -> (r: Result<(), ParseError>)
        ensures
            r is Ok <==> spec_validate(views_of(lines@)),
            r is Err ==> r->Err_0 is InvalidM3U8,
    {
        let ghost lv = views_of(lines@);
        if lines.len() == 0 {
            return Err(ParseError::InvalidM3U8(String::from_str("Invalid M3U8 format")));
        }
        if !str_eq(lines[0].as_str(), "#EXTM3U") {
            return Err(ParseError::InvalidM3U8(String::from_str("Missing #EXTM3U")));
        }
        let mut count: usize = 0;
        let mut i: usize = 0;
        proof {
            assert(lv.subrange(0, 0) =~= Seq::<Seq<char>>::empty());
        }
        while i < lines.len()
            invariant
                lv == views_of(lines@),
                lv.len() == lines@.len(),
                0 <= i <= lines@.len(),
                count <= i,
                count == count_versions(lv.subrange(0, i as int)),
            decreases lines@.len() - i,
        {
            proof {
                assert(lv.subrange(0, i + 1int).drop_last() =~= lv.subrange(0, i as int));
                assert(lv.subrange(0, i + 1int).last() == lv[i as int]);
            }
            match TagTypes::classify(lines[i].as_str()) {
                Ok(TagTypes::ExtXVersion) => {
                    count = count + 1;
                },
                _ => {},
            }
            i = i + 1;
        }
        proof {
            assert(lv.subrange(0, lv.len() as int) =~= lv);
        }
        if count > 1 {
            return Err(
                ParseError::InvalidM3U8(
                    String::from_str("Invalid M3U8, multiple version tags found."),
                ),
            );
        }
        Ok(())
    }

    /// Splits one `KEY=VALUE` item at its first `=` and strips quote
    /// characters from the value. An item without `=` yields nothing.
    pub fn get_key_value_pair(item: &str) -> (r: Option<(String, String)>)
        ensures
            match r {
                Some(kv) => spec_pair(item@) == Some((kv.0@, kv.1@)),
                None => spec_pair(item@) is None,
            },
    {
        let n = item.unicode_len();
        match find_char(item, '=') {
            None => None,
            Some(i) => {
                proof {
                    lemma_find_ch(item@, '=');
                }
                let key = String::from_str(item.substring_char(0, i));
                let value = remove_quotes(item.substring_char(i + 1, n));
                Some((key, value))
            },
        }
    }

    /// Parses a comma-separated attribute list into a record; a later
    /// duplicate key overwrites an earlier one.
    pub fn by_attribute(data: &str) -> (r: AttributeRecord)
        ensures
            r@ == spec_attrs(data@),
    {
        let mut rec = AttributeRecord::new();
        let ghost items = spec_items(data@);
        let ghost done: Seq<Seq<char>> = Seq::empty();
        let mut rem: &str = data;
        proof {
            assert(done + spec_items(rem@) =~= items);
            assert(rec@ == attrs_of_items(done));
        }
        loop
            invariant
                items == spec_items(data@),
                done + spec_items(rem@) == items,
                rec@ == attrs_of_items(done),
            decreases rem@.len(),
        {
            let n = rem.unicode_len();
            match find_char(rem, ',') {
                Some(i) => {
                    proof {
                        lemma_find_ch(rem@, ',');
                    }
                    let piece = rem.substring_char(0, i);
                    let rest = rem.substring_char(i + 1, n);
                    if let Some((key, value)) = M3U8::get_key_value_pair(piece) {
                        rec.insert(key, value);
                    }
                    proof {
                        assert(done.push(piece@).drop_last() =~= done);
                        assert(rec@ == attrs_of_items(done.push(piece@)));
                        assert(done.push(piece@) + spec_items(rest@) =~= items);
                    }
                    rem = rest;
                    proof {
                        done = done.push(piece@);
                    }
                },
                None => {
                    if let Some((key, value)) = M3U8::get_key_value_pair(rem) {
                        rec.insert(key, value);
                    }
                    proof {
                        assert(done.push(rem@).drop_last() =~= done);
                        assert(rec@ == attrs_of_items(done.push(rem@)));
                        assert(done.push(rem@) =~= items);
                    }
                    return rec;
                },
            }
        }
    }

    /// Splits a tag line at its first `:` into the tag name and the payload.
    pub fn by_value<'a>(line: &'a str) -> (r: (&'a str, &'a str))
        ensures
            r.0@ == before_ch(line@, ':'),
            r.1@ == after_ch(line@, ':'),
    {
        split_first(line, ':')
    }

    /// Parses the text of a master playlist. Fails with
    /// [`ParseError::InvalidM3U8`] exactly when the document fails
    /// validation; otherwise the result is the playlist that the text
    /// describes.
    pub fn parse(text: &str) -> (r: Result<M3U8, ParseError>)
        ensures
            match r {
                Ok(m) => spec_parse(text@) == Some(m@),
                Err(e) => spec_parse(text@) is None && e is InvalidM3U8,
            },
    {
        let lines = split_lines(text);
        let ghost lv = views_of(lines@);
        match M3U8::validate(&lines) {
            Err(e) => {
                return Err(e);
            },
            Ok(()) => {},
        }
        let mut m = M3U8::new();
        let mut i: usize = 0;
        while i < lines.len()
            invariant
                lv == views_of(lines@),
                lv.len() == lines@.len(),
                0 <= i <= lines@.len(),
                spec_build(lv, 0, spec_init()) == spec_build(lv, i as int, m@),
            decreases lines@.len() - i,
        {
            let line = lines[i].as_str();
            let ghost before = m@;
            match TagTypes::classify(line) {
                Ok(TagTypes::ExtM3U) => {
                    i = i + 1;
                },
                Ok(TagTypes::ExtXIndependentSegments) => {
                    m.independent_segments = true;
                    proof {
                        assert(m@ =~= (SpecPlaylist { independent_segments: true, ..before }));
                    }
                    i = i + 1;
                },
                Ok(TagTypes::ExtXVersion) => {
                    let (_, data) = split_first(line, ':');
                    m.version = String::from_str(data);
                    proof {
                        assert(m@ =~= (SpecPlaylist { version: after_ch(lv[i as int], ':'), ..before }));
                    }
                    i = i + 1;
                },
                Ok(TagTypes::ExtXMedia) => {
                    let (_, data) = split_first(line, ':');
                    let rec = M3U8::by_attribute(data);
                    m.media_tags.push(rec);
                    proof {
                        assert(records_view(m.media_tags@) =~= before.media_tags.push(
                            spec_attrs(after_ch(lv[i as int], ':')),
                        ));
                        assert(m@ =~= (SpecPlaylist {
                            media_tags: before.media_tags.push(
                                spec_attrs(after_ch(lv[i as int], ':')),
                            ),
                            ..before
                        }));
                    }
                    i = i + 1;
                },
                Ok(TagTypes::ExtXIFrameStreamInf) => {
                    let (_, data) = split_first(line, ':');
                    let rec = M3U8::by_attribute(data);
                    m.media_resources.push(rec);
                    proof {
                        assert(records_view(m.media_resources@) =~= before.media_resources.push(
                            spec_attrs(after_ch(lv[i as int], ':')),
                        ));
                        assert(m@ =~= (SpecPlaylist {
                            media_resources: before.media_resources.push(
                                spec_attrs(after_ch(lv[i as int], ':')),
                            ),
                            ..before
                        }));
                    }
                    i = i + 1;
                },
                Ok(TagTypes::ExtXStreamInf) => {
                    let (_, data) = split_first(line, ':');
                    let mut rec = M3U8::by_attribute(data);
                    let ghost uri_spec = if i + 1 < lv.len() {
                        lv[i + 1]
                    } else {
                        Seq::<char>::empty()
                    };
                    let uri = if i + 1 < lines.len() {
                        lines[i + 1].clone()
                    } else {
                        String::new()
                    };
                    rec.insert(String::from_str("uri"), uri);
                    m.variant_streams.push(rec);
                    proof {
                        assert(rec@ == spec_attrs(after_ch(lv[i as int], ':')).insert(
                            "uri"@,
                            uri_spec,
                        ));
                        assert(records_view(m.variant_streams@) =~= before.variant_streams.push(
                            rec@,
                        ));
                        assert(m@ =~= (SpecPlaylist {
                            variant_streams: before.variant_streams.push(rec@),
                            ..before
                        }));
                    }
                    if i + 1 < lines.len() {
                        i = i + 2;
                    } else {
                        i = lines.len();
                    }
                },
                Err(_) => {
                    i = i + 1;
                },
            }
        }
        Ok(m)
    }
}

} // verus!
