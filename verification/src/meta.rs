//! Per-file packing options, kept as a small JSON document beside a file:
//! its compression method, its metadata and whether it is binary.
use vstd::prelude::*;

use crate::compression::{
    compression_code, compression_from_code, compression_from_name, compression_name,
    law_codes_follow_declaration, lemma_name_roundtrip, CompressionType,
};

verus! {

/// The value found under a key of a JSON document, as far as the options
/// reader looks at it.
pub enum JsonField {
    /// Absent or `null`.
    Null,
    /// A number, with its value as a byte when it is a whole number from 0
    /// to 255.
    Number(Option<u8>),
    /// A string.
    Text(String),
    /// `true` or `false`.
    Boolean(bool),
    /// An object, in its compact JSON text.
    Object(String),
    /// An array.
    Other,
}

/// What a [`JsonField`] holds.
pub enum JsonFieldView {
    Null,
    Number(Option<u8>),
    Text(Seq<char>),
    Boolean(bool),
    Object(Seq<char>),
    Other,
}

impl View for JsonField {
    type V = JsonFieldView;

    open spec fn view(&self) -> JsonFieldView {
        match self {
            JsonField::Null => JsonFieldView::Null,
            JsonField::Number(n) => JsonFieldView::Number(*n),
            JsonField::Text(s) => JsonFieldView::Text(s@),
            JsonField::Boolean(b) => JsonFieldView::Boolean(*b),
            JsonField::Object(s) => JsonFieldView::Object(s@),
            JsonField::Other => JsonFieldView::Other,
        }
    }
}

/// The field under `key` of the JSON text `src` (`json::parse`, index by
/// key, then the value's kind, `as_u8` for a number and `dump` for an
/// object), or `Err` when `src` is not JSON.
pub uninterp spec fn spec_json_field(src: Seq<char>, key: Seq<char>) -> Result<JsonFieldView, ()>;

/// `json::parse` of `src`, then the value under `key` (`Null` when absent or
/// when the document is not an object), told apart by kind.
#[verifier::external_body]
fn json_field(src: &str, key: &str) -> (r: Result<JsonField, ()>)
    ensures
        spec_json_field(src@, key@) == match r {
            Ok(f) => Ok::<JsonFieldView, ()>(f@),
            Err(_) => Err::<JsonFieldView, ()>(()),
        },
{
    let value = match json::parse(src) { Ok(v) => v, Err(_) => return Err(()) };
    let field = &value[key];
    Ok(match field {
        json::JsonValue::Null => JsonField::Null,
        json::JsonValue::Number(_) => JsonField::Number(field.as_u8()),
        json::JsonValue::Short(s) => JsonField::Text(s.as_str().to_string()),
        json::JsonValue::String(s) => JsonField::Text(s.clone()),
        json::JsonValue::Boolean(b) => JsonField::Boolean(*b),
        json::JsonValue::Object(_) => JsonField::Object(field.dump()),
        json::JsonValue::Array(_) => JsonField::Other,
    })
}

/// The text that `json::stringify_pretty` gives, with `spaces` of
/// indentation, for an object whose entries are these key-value pairs of
/// strings, in this order.
pub uninterp spec fn spec_json_pretty(pairs: Seq<(Seq<char>, Seq<char>)>, spaces: u16) -> Seq<char>;

/// The texts of a list of key-value pairs of strings.
pub open spec fn pair_views(pairs: Seq<(String, String)>) -> Seq<(Seq<char>, Seq<char>)> {
    pairs.map_values(|p: (String, String)| (p.0@, p.1@))
}

/// Whether no key occurs twice in a list of pairs.
pub open spec fn distinct_keys(pairs: Seq<(Seq<char>, Seq<char>)>) -> bool {
    forall|i: int, j: int| 0 <= i < j < pairs.len() ==> pairs[i].0 != pairs[j].0
}

/// Whether a text is the pretty JSON text, with `spaces` of indentation, of an
/// object holding these pairs in some order.
pub open spec fn is_pretty_object_text(t: Seq<char>, pairs: Seq<(Seq<char>, Seq<char>)>, spaces: u16) -> bool {
    exists|order: Seq<(Seq<char>, Seq<char>)>|
        order.to_multiset() == pairs.to_multiset() && t == spec_json_pretty(order, spaces)
}

/// `json::stringify_pretty` of a JSON object made from a `HashMap` holding
/// these key-value pairs (as `From<HashMap>` makes it, by collecting the
/// map's entries in the map's order), with `spaces` of indentation; also the
/// entries in that order, which differs from process to process. The object
/// keeps its entries in the order they were inserted, so the text is the
/// pretty text of the pairs in that order; as no key occurs twice, the order
/// holds each pair once. The text writes each key and value as a JSON string,
/// escaping what must be escaped, so `json::parse` of it reads each value back
/// as a string under its key.
#[verifier::external_body]
fn json_pretty_object(pairs: &Vec<(String, String)>, spaces: u16) -> (r: (String, Vec<(String, String)>))
    requires
        distinct_keys(pair_views(pairs@)),
    ensures
        r.0@ == spec_json_pretty(pair_views(r.1@), spaces),
        pair_views(r.1@).to_multiset() == pair_views(pairs@).to_multiset(),
        fields_read_back(r.0@, pair_views(pairs@)),
{
    let map: std::collections::HashMap<&str, &str> = pairs.iter().map(|(k, v)| (k.as_str(), v.as_str())).collect();
    let order: Vec<(&str, &str)> = map.into_iter().collect();
    let object: json::object::Object = order.iter().map(|(k, v)| (*k, *v)).collect();
    let text = json::stringify_pretty(json::JsonValue::Object(object), spaces);
    (text, order.iter().map(|(k, v)| (k.to_string(), v.to_string())).collect())
}

/// What a set of options holds.
pub struct UpkfMetaView {
    pub compression: CompressionType,
    pub string_meta: Seq<char>,
    pub binary: bool,
}

/// Packing options for one file.
pub struct UpkfMeta {
    compression: CompressionType,
    string_meta: String,
    binary: bool,
}

impl View for UpkfMeta {
    type V = UpkfMetaView;

    closed spec fn view(&self) -> UpkfMetaView {
        UpkfMetaView {
            compression: self.compression,
            string_meta: self.string_meta@,
            binary: self.binary,
        }
    }
}

/// The method a `compression` field selects: a number or a name of a method,
/// else the default.
pub open spec fn compression_of_field(f: JsonFieldView, default_compression: CompressionType) -> CompressionType {
    match f {
        JsonFieldView::Number(Some(n)) => match compression_from_code(n) {
            Some(c) => c,
            None => default_compression,
        },
        JsonFieldView::Text(s) => match compression_from_name(s) {
            Some(c) => c,
            None => default_compression,
        },
        _ => default_compression,
    }
}

/// The flag a `binary` field selects: a boolean, else true.
pub open spec fn binary_of_field(f: JsonFieldView) -> bool {
    match f {
        JsonFieldView::Boolean(b) => b,
        _ => true,
    }
}

/// The metadata a `metadata` field selects: an object's JSON text, else
/// nothing.
pub open spec fn meta_of_field(f: JsonFieldView) -> Seq<char> {
    match f {
        JsonFieldView::Object(s) => s,
        _ => Seq::<char>::empty(),
    }
}

/// The options that three fields select.
pub open spec fn meta_of_fields(
    compression: JsonFieldView,
    binary: JsonFieldView,
    metadata: JsonFieldView,
    default_compression: CompressionType,
) -> UpkfMetaView {
    UpkfMetaView {
        compression: compression_of_field(compression, default_compression),
        string_meta: meta_of_field(metadata),
        binary: binary_of_field(binary),
    }
}

/// Whether the `compression` field of some JSON text is a number that is not
/// a byte (negative, fractional or above 255), on which reading options
/// cannot go on.
pub open spec fn compression_not_a_byte(src: Seq<char>) -> bool {
    spec_json_field(src, "compression"@) == Ok::<JsonFieldView, ()>(JsonFieldView::Number(None))
}

/// Reading options from JSON text: `Err` when the text is not JSON; else the
/// options that the `compression`, `binary` and `metadata` fields select.
pub open spec fn meta_of_json(src: Seq<char>, default_compression: CompressionType) -> Result<UpkfMetaView, ()> {
    match (
        spec_json_field(src, "compression"@),
        spec_json_field(src, "binary"@),
        spec_json_field(src, "metadata"@),
    ) {
        (Ok(c), Ok(b), Ok(m)) => Ok(meta_of_fields(c, b, m, default_compression)),
        _ => Err(()),
    }
}

/// Whether every pair's value reads back, as a string, from JSON text under
/// the pair's key.
pub open spec fn fields_read_back(t: Seq<char>, pairs: Seq<(Seq<char>, Seq<char>)>) -> bool {
    forall|i: int|
        0 <= i < pairs.len() ==> #[trigger] spec_json_field(t, pairs[i].0) == Ok::<
            JsonFieldView,
            (),
        >(JsonFieldView::Text(pairs[i].1))
}

/// The key-value pairs that options are written as.
pub open spec fn meta_pairs(m: UpkfMetaView) -> Seq<(Seq<char>, Seq<char>)> {
    seq![
        ("compression"@, compression_name(m.compression)),
        ("metadata"@, m.string_meta),
        ("binary"@, bool_text(m.binary)),
    ]
}

/// The text `true` or `false`.
pub open spec fn bool_text(b: bool) -> Seq<char> {
    if b {
        "true"@
    } else {
        "false"@
    }
}

impl UpkfMeta {
    /// The options for a binary file without metadata, with this method.
    pub fn default(compression: CompressionType) -> (r: UpkfMeta)
        ensures
            r@ == (UpkfMetaView { compression, string_meta: Seq::<char>::empty(), binary: true }),
    {
        UpkfMeta { compression, string_meta: String::new(), binary: true }
    }

    /// The metadata text.
    pub fn get_string_meta(&self) -> (r: String)
        ensures
            r@ == self@.string_meta,
    {
        self.string_meta.clone()
    }

    /// Whether the file is binary.
    pub fn is_binary(&self) -> (r: bool)
        ensures
            r == self@.binary,
    {
        self.binary
    }

    /// The compression method.
    pub fn get_compression(&self) -> (r: CompressionType)
        ensures
            r == self@.compression,
    {
        self.compression
    }

    /// The options that three JSON fields select, starting from the default
    /// options for `default_compression`: a `compression` number or name of a
    /// method selects that method (an unknown one keeps the default), a
    /// `binary` boolean sets the flag, a `metadata` object becomes the
    /// metadata text; fields of other kinds change nothing.
    pub fn from_fields(
        compression: &JsonField,
        binary: &JsonField,
        metadata: &JsonField,
        default_compression: CompressionType,
    ) -> (r: UpkfMeta)
        requires
            compression@ != JsonFieldView::Number(None),
        ensures
            r@ == meta_of_fields(compression@, binary@, metadata@, default_compression),
    {
        let mut result = UpkfMeta::default(default_compression);
        match compression {
            JsonField::Number(Some(n)) => {
                result.compression = match CompressionType::try_from(*n) {
                    Ok(c) => c,
                    Err(_) => default_compression,
                };
            },
            JsonField::Text(s) => {
                result.compression = match CompressionType::try_from(s.as_str()) {
                    Ok(c) => c,
                    Err(_) => default_compression,
                };
            },
            _ => {},
        }
        match binary {
            JsonField::Boolean(b) => {
                result.binary = *b;
            },
            _ => {},
        }
        match metadata {
            JsonField::Object(text) => {
                result.string_meta = text.clone();
            },
            _ => {},
        }
        result
    }

    /// Reads options from JSON text; see [`meta_of_json`]. A `compression`
    /// number must be a byte: see [`UpkfMeta::try_deserialize`] for text
    /// that may hold another.
    pub fn deserialize(src: &str, default_compression: CompressionType) -> (r: Result<UpkfMeta, ()>)
        requires
            !compression_not_a_byte(src@),
        ensures
            meta_of_json(src@, default_compression) == match r {
                Ok(m) => Ok::<UpkfMetaView, ()>(m@),
                Err(_) => Err::<UpkfMetaView, ()>(()),
            },
    {
        let compression = match json_field(src, "compression") {
            Ok(f) => f,
            Err(_) => return Err(()),
        };
        let binary = match json_field(src, "binary") {
            Ok(f) => f,
            Err(_) => return Err(()),
        };
        let metadata = match json_field(src, "metadata") {
            Ok(f) => f,
            Err(_) => return Err(()),
        };
        Ok(UpkfMeta::from_fields(&compression, &binary, &metadata, default_compression))
    }

    /// Reads options from JSON text that may hold a `compression` number that
    /// is not a byte: `None` then, else what [`UpkfMeta::deserialize`] reads.
    pub fn try_deserialize(src: &str, default_compression: CompressionType) -> (r: Option<Result<UpkfMeta, ()>>)
        ensures
            r is None <==> compression_not_a_byte(src@),
            r matches Some(x) ==> meta_of_json(src@, default_compression) == match x {
                Ok(m) => Ok::<UpkfMetaView, ()>(m@),
                Err(_) => Err::<UpkfMetaView, ()>(()),
            },
    {
        match json_field(src, "compression") {
            Ok(JsonField::Number(None)) => None,
            _ => Some(UpkfMeta::deserialize(src, default_compression)),
        }
    }

    /// The key-value pairs that the options are written as: the method's
    /// name under `compression`, the metadata text under `metadata`, and
    /// `true` or `false` under `binary`, all as strings.
    pub fn serialize_entries(&self) -> (r: Vec<(String, String)>)
        ensures
            r@.len() == 3,
            r@[0].0@ == "compression"@ && r@[0].1@ == compression_name(self@.compression),
            r@[1].0@ == "metadata"@ && r@[1].1@ == self@.string_meta,
            r@[2].0@ == "binary"@ && r@[2].1@ == bool_text(self@.binary),
    {
        let mut pairs: Vec<(String, String)> = Vec::new();
        pairs.push(("compression".to_owned(), self.compression.name().to_owned()));
        pairs.push(("metadata".to_owned(), self.string_meta.clone()));
        let binary = if self.binary { "true".to_owned() } else { "false".to_owned() };
        pairs.push(("binary".to_owned(), binary));
        pairs
    }

    /// The options as pretty-printed JSON (four spaces): an object of the
    /// pairs of [`UpkfMeta::serialize_entries`], in an order that varies.
    pub fn serialize(&self) -> (r: String)
        ensures
            is_pretty_object_text(r@, meta_pairs(self@), 4),
            fields_read_back(r@, meta_pairs(self@)),
    {
        let pairs = self.serialize_entries();
        proof {
            assert(pair_views(pairs@) =~= meta_pairs(self@));
            reveal_strlit("compression");
            reveal_strlit("metadata");
            reveal_strlit("binary");
            assert("compression"@.len() == 11 && "metadata"@.len() == 8 && "binary"@.len() == 6);
            let pv = pair_views(pairs@);
            assert forall|i: int, j: int| 0 <= i < j < pv.len() implies pv[i].0 != pv[j].0 by {
                assert(pv[i].0.len() != pv[j].0.len());
            }
        }
        let (text, order) = json_pretty_object(&pairs, 4);
        assert(is_pretty_object_text(text@, meta_pairs(self@), 4)) by {
            assert(pair_views(order@).to_multiset() == meta_pairs(self@).to_multiset());
        }
        text
    }
}

/// Reading back what `UpkfMeta::serialize` writes keeps the compression
/// method: every field is written as a string, so the method's name selects
/// the method again, while the `binary` and `metadata` strings, not being a
/// boolean and an object, leave the defaults (binary, no metadata). The
/// `compression` field is not a number, so the text can be read.
pub proof fn law_deserialize_after_serialize(m: UpkfMetaView, t: Seq<char>, default_compression: CompressionType)
    requires
        fields_read_back(t, meta_pairs(m)),
    ensures
        !compression_not_a_byte(t),
        meta_of_json(t, default_compression) == Ok::<UpkfMetaView, ()>(
            UpkfMetaView { compression: m.compression, string_meta: Seq::<char>::empty(), binary: true },
        ),
{
    let pairs = meta_pairs(m);
    assert(spec_json_field(t, pairs[0].0) == Ok::<JsonFieldView, ()>(JsonFieldView::Text(pairs[0].1)));
    assert(spec_json_field(t, pairs[1].0) == Ok::<JsonFieldView, ()>(JsonFieldView::Text(pairs[1].1)));
    assert(spec_json_field(t, pairs[2].0) == Ok::<JsonFieldView, ()>(JsonFieldView::Text(pairs[2].1)));
    lemma_name_roundtrip(m.compression);
}

/// What each field selects, for every input: a `binary` boolean sets the
/// flag to that boolean, and anything else leaves it true; a `metadata`
/// object becomes the metadata text, and anything else leaves it empty; a
/// `compression` number that is a method's byte, or a string that is a
/// method's name, selects that method, and anything else keeps the default.
pub proof fn law_fields_select_options(
    compression: JsonFieldView,
    binary: JsonFieldView,
    metadata: JsonFieldView,
    default_compression: CompressionType,
)
    ensures
        binary matches JsonFieldView::Boolean(b) ==> meta_of_fields(
            compression,
            binary,
            metadata,
            default_compression,
        ).binary == b,
        !(binary is Boolean) ==> meta_of_fields(compression, binary, metadata, default_compression).binary,
        metadata matches JsonFieldView::Object(t) ==> meta_of_fields(
            compression,
            binary,
            metadata,
            default_compression,
        ).string_meta == t,
        !(metadata is Object) ==> meta_of_fields(
            compression,
            binary,
            metadata,
            default_compression,
        ).string_meta == Seq::<char>::empty(),
        forall|c: CompressionType|
            #![trigger compression_code(c)]
            compression == JsonFieldView::Number(Some(compression_code(c))) ==> meta_of_fields(
                compression,
                binary,
                metadata,
                default_compression,
            ).compression == c,
        forall|c: CompressionType|
            #![trigger compression_name(c)]
            compression == JsonFieldView::Text(compression_name(c)) ==> meta_of_fields(
                compression,
                binary,
                metadata,
                default_compression,
            ).compression == c,
        compression matches JsonFieldView::Number(Some(n)) && n >= 5 ==> meta_of_fields(
            compression,
            binary,
            metadata,
            default_compression,
        ).compression == default_compression,
        !(compression is Number || compression is Text) ==> meta_of_fields(
            compression,
            binary,
            metadata,
            default_compression,
        ).compression == default_compression,
{
    law_codes_follow_declaration();
    assert forall|c: CompressionType|
        #![trigger compression_code(c)]
        compression == JsonFieldView::Number(Some(compression_code(c))) implies meta_of_fields(
            compression,
            binary,
            metadata,
            default_compression,
        ).compression == c by {
        assert(compression_from_code(compression_code(c)) == Some(c));
    }
    assert forall|c: CompressionType|
        #![trigger compression_name(c)]
        compression == JsonFieldView::Text(compression_name(c)) implies meta_of_fields(
            compression,
            binary,
            metadata,
            default_compression,
        ).compression == c by {
        lemma_name_roundtrip(c);
    }
}

/// Reading options from JSON text whose `binary` field is a boolean gives
/// that boolean as the flag; `true` marks the file binary and `false` marks
/// it as text.
pub proof fn law_binary_field_read(src: Seq<char>, b: bool, default_compression: CompressionType)
    requires
        spec_json_field(src, "binary"@) == Ok::<JsonFieldView, ()>(JsonFieldView::Boolean(b)),
    ensures
        meta_of_json(src, default_compression) matches Ok(m) ==> m.binary == b,
{
    match (spec_json_field(src, "compression"@), spec_json_field(src, "metadata"@)) {
        (Ok(c), Ok(md)) => {
            law_fields_select_options(c, JsonFieldView::Boolean(b), md, default_compression);
        },
        _ => {},
    }
}

/// Reading options from JSON text whose `compression` field is a method's
/// byte gives that method, whatever the default; so a `0` selects NONE.
pub proof fn law_compression_number_read(src: Seq<char>, c: CompressionType, default_compression: CompressionType)
    requires
        spec_json_field(src, "compression"@) == Ok::<JsonFieldView, ()>(
            JsonFieldView::Number(Some(compression_code(c))),
        ),
    ensures
        meta_of_json(src, default_compression) matches Ok(m) ==> m.compression == c,
{
    match (spec_json_field(src, "binary"@), spec_json_field(src, "metadata"@)) {
        (Ok(bf), Ok(md)) => {
            law_fields_select_options(
                JsonFieldView::Number(Some(compression_code(c))),
                bf,
                md,
                default_compression,
            );
        },
        _ => {},
    }
}

/// The text written under `binary` is `true` exactly for binary options and
/// `false` exactly for text ones, so the two are told apart.
pub proof fn law_binary_text_tells_flag(b: bool)
    ensures
        bool_text(b) == "true"@ <==> b,
        bool_text(b) == "false"@ <==> !b,
{
    reveal_strlit("true");
    reveal_strlit("false");
    assert("true"@.len() != "false"@.len());
}

} // verus!
