//! The formats in which graphs and datasets are read and written, and the
//! format that a media type names.

use vstd::prelude::*;
use vstd::string::StringSliceAdditionalSpecFns;
use vstd::utf8::encode_utf8;

verus! {

/// A format of a graph.
#[derive(Clone, Copy, Debug, PartialEq, Eq, Structural)]
pub enum GraphFormat {
    NTriples,
    Turtle,
    RdfXml,
}

/// A format of a dataset.
#[derive(Clone, Copy, Debug, PartialEq, Eq, Structural)]
pub enum DatasetFormat {
    NQuads,
    TriG,
}

/// Whether a byte is white space.
pub open spec fn is_space(byte: u8) -> bool {
    byte == 0x20 || (0x09 <= byte && byte <= 0x0d)
}

/// The place of the first semicolon of a text, or its length where it has
/// none.
pub open spec fn parameters_start(bytes: Seq<u8>) -> int
    decreases bytes.len(),
{
    if bytes.len() == 0 || bytes[0] == 0x3b {
        0
    } else {
        1 + parameters_start(bytes.drop_first())
    }
}

/// The place of the first byte of a text, from a place on, that is no white
/// space, or the end.
pub open spec fn spaces_end(bytes: Seq<u8>, from: int, to: int) -> int
    decreases to - from,
{
    if from < to && 0 <= from < bytes.len() && is_space(bytes[from]) {
        spaces_end(bytes, from + 1, to)
    } else {
        from
    }
}

/// The place behind the last byte of a text, before a place, that is no
/// white space, or the start.
pub open spec fn spaces_start(bytes: Seq<u8>, from: int, to: int) -> int
    decreases to - from,
{
    if from < to && 0 < to <= bytes.len() && is_space(bytes[to - 1]) {
        spaces_start(bytes, from, to - 1)
    } else {
        to
    }
}

/// The type that a media type names: what stands before its parameters,
/// without the white space around it.
pub open spec fn base_type(bytes: Seq<u8>) -> Seq<u8> {
    let end = parameters_start(bytes);
    let start = spaces_end(bytes, 0, end);
    bytes.subrange(start, spaces_start(bytes, start, end))
}

/// The format of a graph that a media type names, if it names one.
pub open spec fn graph_format_of(media_type: Seq<char>) -> Option<GraphFormat> {
    let base = base_type(encode_utf8(media_type));
    if base == encode_utf8("application/n-triples"@) || base == encode_utf8("text/plain"@) {
        Some(GraphFormat::NTriples)
    } else if base == encode_utf8("text/turtle"@) || base == encode_utf8("application/turtle"@)
        || base == encode_utf8("application/x-turtle"@) {
        Some(GraphFormat::Turtle)
    } else if base == encode_utf8("application/rdf+xml"@) || base == encode_utf8(
        "application/xml"@,
    ) || base == encode_utf8("text/xml"@) {
        Some(GraphFormat::RdfXml)
    } else {
        None
    }
}

/// The format of a dataset that a media type names, if it names one.
pub open spec fn dataset_format_of(media_type: Seq<char>) -> Option<DatasetFormat> {
    let base = base_type(encode_utf8(media_type));
    if base == encode_utf8("application/n-quads"@) || base == encode_utf8("text/x-nquads"@)
        || base == encode_utf8("text/nquads"@) {
        Some(DatasetFormat::NQuads)
    } else if base == encode_utf8("application/trig"@) || base == encode_utf8(
        "application/x-trig"@,
    ) {
        Some(DatasetFormat::TriG)
    } else {
        None
    }
}

/// The place of the first semicolon of a text from a place on is the place
/// of the first semicolon of what stands from there on.
proof fn lemma_parameters_step(bytes: Seq<u8>, at: int)
    requires
        0 <= at < bytes.len(),
        forall|i: int| 0 <= i <= at ==> bytes[i] != 0x3b,
    ensures
        parameters_start(bytes) == at + 1 + parameters_start(bytes.skip(at + 1)),
    decreases at,
{
    if at > 0 {
        let rest = bytes.drop_first();
        assert forall|i: int| 0 <= i <= at - 1 implies rest[i] != 0x3b by {
            assert(rest[i] == bytes[i + 1]);
        }
        lemma_parameters_step(rest, at - 1);
        assert(rest.skip(at) =~= bytes.skip(at + 1));
    } else {
        assert(bytes.drop_first() =~= bytes.skip(1));
    }
}

/// The type that a media type names, as the places between which it
/// stands.
fn base_type_range(bytes: &[u8]) -> (r: (usize, usize))
    ensures
        r.0 <= r.1 <= bytes@.len(),
        bytes@.subrange(r.0 as int, r.1 as int) == base_type(bytes@),
{
    let mut end: usize = 0;
    proof {
        assert(bytes@.skip(0) =~= bytes@);
    }
    while end < bytes.len() && bytes[end] != 0x3b
        invariant
            end <= bytes@.len(),
            parameters_start(bytes@) == end + parameters_start(bytes@.skip(end as int)),
            forall|i: int| 0 <= i < end ==> bytes@[i] != 0x3b,
        decreases bytes@.len() - end,
    {
        proof {
            lemma_parameters_step(bytes@, end as int);
        }
        end += 1;
    }
    proof {
        let rest = bytes@.skip(end as int);
        if end < bytes@.len() {
            assert(rest[0] == bytes@[end as int]);
        }
        assert(parameters_start(rest) == 0);
    }
    let mut start: usize = 0;
    while start < end && is_space_byte(bytes[start])
        invariant
            start <= end <= bytes@.len(),
            spaces_end(bytes@, 0, end as int) == spaces_end(bytes@, start as int, end as int),
        decreases end - start,
    {
        start += 1;
    }
    let mut stop: usize = end;
    while start < stop && is_space_byte(bytes[stop - 1])
        invariant
            start <= stop <= end <= bytes@.len(),
            spaces_start(bytes@, start as int, end as int) == spaces_start(
                bytes@,
                start as int,
                stop as int,
            ),
        decreases stop - start,
    {
        stop -= 1;
    }
    (start, stop)
}

fn is_space_byte(byte: u8) -> (r: bool)
    ensures
        r == is_space(byte),
{
    byte == 0x20 || (0x09 <= byte && byte <= 0x0d)
}

/// Whether what stands between two places of a text is a name.
fn names(bytes: &[u8], start: usize, stop: usize, name: &str) -> (r: bool)
    requires
        start <= stop <= bytes@.len(),
    ensures
        r == (bytes@.subrange(start as int, stop as int) == encode_utf8(name@)),
{
    let wanted = name.as_bytes();
    if wanted.len() != stop - start {
        return false;
    }
    let mut i: usize = 0;
    while i < wanted.len()
        invariant
            i <= wanted@.len(),
            wanted@.len() == stop - start,
            wanted@ == encode_utf8(name@),
            start <= stop <= bytes@.len(),
            forall|j: int| 0 <= j < i ==> bytes@[start + j] == wanted@[j],
        decreases wanted@.len() - i,
    {
        if bytes[start + i] != wanted[i] {
            proof {
                assert(bytes@.subrange(start as int, stop as int)[i as int] == bytes@[start + i]);
            }
            return false;
        }
        i += 1;
    }
    proof {
        assert(bytes@.subrange(start as int, stop as int) =~= wanted@);
    }
    true
}

impl GraphFormat {
    /// The format that a media type names, if it names one. The parameters
    /// of the media type and the white space around its type do not count.
    pub fn from_media_type(media_type: &str) -> (r: Option<Self>)
        ensures
            r == graph_format_of(media_type@),
    {
        let bytes = media_type.as_bytes();
        let (start, stop) = base_type_range(bytes);
        if names(bytes, start, stop, "application/n-triples") || names(
            bytes,
            start,
            stop,
            "text/plain",
        ) {
            Some(GraphFormat::NTriples)
        } else if names(bytes, start, stop, "text/turtle") || names(
            bytes,
            start,
            stop,
            "application/turtle",
        ) || names(bytes, start, stop, "application/x-turtle") {
            Some(GraphFormat::Turtle)
        } else if names(bytes, start, stop, "application/rdf+xml") || names(
            bytes,
            start,
            stop,
            "application/xml",
        ) || names(bytes, start, stop, "text/xml") {
            Some(GraphFormat::RdfXml)
        } else {
            None
        }
    }

    /// The media type of the format.
    pub fn media_type(self) -> (r: &'static str)
        ensures
            r@ == match self {
                GraphFormat::NTriples => "application/n-triples"@,
                GraphFormat::Turtle => "text/turtle"@,
                GraphFormat::RdfXml => "application/rdf+xml"@,
            },
    {
        match self {
            GraphFormat::NTriples => "application/n-triples",
            GraphFormat::Turtle => "text/turtle",
            GraphFormat::RdfXml => "application/rdf+xml",
        }
    }

    /// The extension of the files of the format.
    pub fn file_extension(self) -> (r: &'static str)
        ensures
            r@ == match self {
                GraphFormat::NTriples => "nt"@,
                GraphFormat::Turtle => "ttl"@,
                GraphFormat::RdfXml => "rdf"@,
            },
    {
        match self {
            GraphFormat::NTriples => "nt",
            GraphFormat::Turtle => "ttl",
            GraphFormat::RdfXml => "rdf",
        }
    }
}

impl DatasetFormat {
    /// The format that a media type names, if it names one. The parameters
    /// of the media type and the white space around its type do not count.
    pub fn from_media_type(media_type: &str) -> (r: Option<Self>)
        ensures
            r == dataset_format_of(media_type@),
    {
        let bytes = media_type.as_bytes();
        let (start, stop) = base_type_range(bytes);
        if names(bytes, start, stop, "application/n-quads") || names(
            bytes,
            start,
            stop,
            "text/x-nquads",
        ) || names(bytes, start, stop, "text/nquads") {
            Some(DatasetFormat::NQuads)
        } else if names(bytes, start, stop, "application/trig") || names(
            bytes,
            start,
            stop,
            "application/x-trig",
        ) {
            Some(DatasetFormat::TriG)
        } else {
            None
        }
    }

    /// The media type of the format.
    pub fn media_type(self) -> (r: &'static str)
        ensures
            r@ == match self {
                DatasetFormat::NQuads => "application/n-quads"@,
                DatasetFormat::TriG => "application/trig"@,
            },
    {
        match self {
            DatasetFormat::NQuads => "application/n-quads",
            DatasetFormat::TriG => "application/trig",
        }
    }

    /// The extension of the files of the format.
    pub fn file_extension(self) -> (r: &'static str)
        ensures
            r@ == match self {
                DatasetFormat::NQuads => "nq"@,
                DatasetFormat::TriG => "trig"@,
            },
    {
        match self {
            DatasetFormat::NQuads => "nq",
            DatasetFormat::TriG => "trig",
        }
    }
}

} // verus!
