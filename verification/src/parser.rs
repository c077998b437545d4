//! The opening handshake of a websocket client: its request line and its
//! header fields, parsed from the bytes that the client sent.

use vstd::prelude::*;
use vstd::utf8::*;
use crate::text::{
    chars_of, lemma_split_nonempty, remove_colons, split, split_spec, str_from_utf8, string_of,
    trim, trim_spec, without_colons,
};

verus! {

/// The line feed that ends each line of the request.
pub const LF: u8 = 0x0a;

/// The space that separates the words of a line.
pub const SPACE: u8 = 0x20;

/// The map that a sequence of `(key, value)` pairs denotes when each pair is
/// inserted in turn: a later pair wins over an earlier one with its key.
pub open spec fn pairs_map(s: Seq<(Seq<char>, Seq<char>)>) -> Map<Seq<char>, Seq<char>>
    decreases s.len(),
{
    if s.len() == 0 {
        Map::empty()
    } else {
        pairs_map(s.drop_last()).insert(s.last().0, s.last().1)
    }
}

proof fn lemma_pairs_map_found(s: Seq<(Seq<char>, Seq<char>)>, k: Seq<char>, j: int)
    requires
        0 <= j < s.len(),
        s[j].0 == k,
        forall|m: int| j < m < s.len() ==> (#[trigger] s[m]).0 != k,
    ensures
        pairs_map(s).contains_key(k),
        pairs_map(s)[k] == s[j].1,
    decreases s.len(),
{
    if j < s.len() - 1 {
        assert(s.last() == s[s.len() - 1]);
        lemma_pairs_map_found(s.drop_last(), k, j);
    }
}

proof fn lemma_pairs_map_absent(s: Seq<(Seq<char>, Seq<char>)>, k: Seq<char>)
    requires
        forall|m: int| 0 <= m < s.len() ==> (#[trigger] s[m]).0 != k,
    ensures
        !pairs_map(s).contains_key(k),
    decreases s.len(),
{
    if s.len() > 0 {
        assert(s.last() == s[s.len() - 1]);
        lemma_pairs_map_absent(s.drop_last(), k);
    }
}

proof fn lemma_pairs_map_finite(s: Seq<(Seq<char>, Seq<char>)>)
    ensures
        pairs_map(s).dom().finite(),
        pairs_map(s).dom().len() <= s.len(),
    decreases s.len(),
{
    if s.len() > 0 {
        lemma_pairs_map_finite(s.drop_last());
    }
}

/// The header fields of a request: a map from field names to values.
pub struct Fields {
    entries: Vec<(String, String)>,
}

impl Fields {
    /// The fields as the pairs they were inserted as, in order.
    pub closed spec fn pairs(&self) -> Seq<(Seq<char>, Seq<char>)> {
        self.entries@.map_values(|e: (String, String)| (e.0@, e.1@))
    }

    /// An empty map.
    pub fn new() -> (f: Fields)
        ensures
            f@ == Map::<Seq<char>, Seq<char>>::empty(),
    {
        let f = Fields { entries: Vec::new() };
        assert(f.pairs() =~= Seq::<(Seq<char>, Seq<char>)>::empty());
        f
    }

    /// Maps `key` to `value`, in place of any earlier value of `key`.
    pub fn insert(&mut self, key: String, value: String)
        ensures
            final(self)@ == old(self)@.insert(key@, value@),
    {
        let ghost k = key@;
        let ghost v = value@;
        self.entries.push((key, value));
        assert(self.pairs().drop_last() =~= old(self).pairs());
        assert(self.pairs().last() == (k, v));
    }

    /// The value of `key`, if the map has one.
    pub fn get(&self, key: &String) -> (r: Option<&String>)
        ensures
            r is Some <==> self@.contains_key(key@),
            r matches Some(v) ==> self@[key@] == v@,
    {
        let mut i = self.entries.len();
        while i > 0
            invariant
                i <= self.entries@.len(),
                forall|m: int| i <= m < self.pairs().len() ==> (#[trigger] self.pairs()[m]).0 != key@,
            decreases i,
        {
            i = i - 1;
            if self.entries[i].0 == *key {
                proof {
                    lemma_pairs_map_found(self.pairs(), key@, i as int);
                }
                return Some(&self.entries[i].1);
            }
        }
        proof {
            lemma_pairs_map_absent(self.pairs(), key@);
        }
        None
    }
}

impl Fields {
    /// A map of fields has finitely many names.
    pub proof fn law_fields_finite(&self)
        ensures
            self@.dom().finite(),
    {
        lemma_pairs_map_finite(self.pairs());
    }
}

impl View for Fields {
    type V = Map<Seq<char>, Seq<char>>;

    closed spec fn view(&self) -> Map<Seq<char>, Seq<char>> {
        pairs_map(self.pairs())
    }
}

/// A parsed request: its method, URI, HTTP version and header fields.
pub struct Header {
    pub method: String,
    pub uri: String,
    pub http_version: String,
    pub fields: Fields,
}

impl Header {
    /// A header with empty strings and no fields.
    pub fn new() -> (h: Header)
        ensures
            h.method@ == Seq::<char>::empty(),
            h.uri@ == Seq::<char>::empty(),
            h.http_version@ == Seq::<char>::empty(),
            h.fields@ == Map::<Seq<char>, Seq<char>>::empty(),
    {
        Header {
            method: String::new(),
            uri: String::new(),
            http_version: String::new(),
            fields: Fields::new(),
        }
    }
}

/// The lines of a request: the pieces between line feeds.
pub open spec fn request_lines(body: Seq<u8>) -> Seq<Seq<u8>> {
    split_spec(body, LF)
}

/// The lines after the request line.
pub open spec fn header_lines(body: Seq<u8>) -> Seq<Seq<u8>> {
    request_lines(body).drop_first()
}

/// The request line parses when it has a second word, in UTF-8.
pub open spec fn first_row_parsable(row: Seq<u8>) -> bool {
    let words = split_spec(row, SPACE);
    words.len() >= 2 && valid_utf8(words[1])
}

/// The URI of a request line: its second word.
pub open spec fn first_row_uri(row: Seq<u8>) -> Seq<char> {
    decode_utf8(split_spec(row, SPACE)[1])
}

/// A header line parses when its first word, and its second if it has one,
/// are UTF-8.
pub open spec fn line_parsable(line: Seq<u8>) -> bool {
    let words = split_spec(line, SPACE);
    valid_utf8(words[0]) && (words.len() >= 2 ==> valid_utf8(words[1]))
}

/// The field name of a header line: its first word, trimmed, without colons.
pub open spec fn line_key(line: Seq<u8>) -> Seq<char> {
    without_colons(trim_spec(decode_utf8(split_spec(line, SPACE)[0])))
}

/// The field value of a header line: its second word, trimmed, or the empty
/// string when it has none.
pub open spec fn line_value(line: Seq<u8>) -> Seq<char> {
    let words = split_spec(line, SPACE);
    if words.len() >= 2 {
        trim_spec(decode_utf8(words[1]))
    } else {
        Seq::empty()
    }
}

/// The fields `m` after each of `lines` has been inserted in turn.
pub open spec fn fields_after(m: Map<Seq<char>, Seq<char>>, lines: Seq<Seq<u8>>) -> Map<
    Seq<char>,
    Seq<char>,
>
    decreases lines.len(),
{
    if lines.len() == 0 {
        m
    } else {
        fields_after(m, lines.drop_last()).insert(line_key(lines.last()), line_value(lines.last()))
    }
}

/// The field of a name is the value of the last line with that name.
pub proof fn law_last_field_wins(
    m: Map<Seq<char>, Seq<char>>,
    lines: Seq<Seq<u8>>,
    k: Seq<char>,
    i: int,
)
    requires
        0 <= i < lines.len(),
        line_key(lines[i]) == k,
        forall|j: int| i < j < lines.len() ==> line_key(#[trigger] lines[j]) != k,
    ensures
        fields_after(m, lines).contains_key(k),
        fields_after(m, lines)[k] == line_value(lines[i]),
    decreases lines.len(),
{
    if i < lines.len() - 1 {
        assert(lines.last() == lines[lines.len() - 1]);
        law_last_field_wins(m, lines.drop_last(), k, i);
    }
}

/// Parsing one block of lines after another gives the fields that parsing
/// both blocks in one go gives.
pub proof fn law_fields_compose(m: Map<Seq<char>, Seq<char>>, a: Seq<Seq<u8>>, b: Seq<Seq<u8>>)
    ensures
        fields_after(fields_after(m, a), b) == fields_after(m, a + b),
    decreases b.len(),
{
    if b.len() == 0 {
        assert(a + b =~= a);
    } else {
        law_fields_compose(m, a, b.drop_last());
        assert((a + b).drop_last() =~= a + b.drop_last());
        assert((a + b).last() == b.last());
    }
}

/// Inserting the fields of `lines` keeps the map finite and adds at most
/// one name per line.
pub proof fn law_fields_after_size(m: Map<Seq<char>, Seq<char>>, lines: Seq<Seq<u8>>)
    requires
        m.dom().finite(),
    ensures
        fields_after(m, lines).dom().finite(),
        fields_after(m, lines).dom().len() <= m.dom().len() + lines.len(),
    decreases lines.len(),
{
    if lines.len() > 0 {
        law_fields_after_size(m, lines.drop_last());
    }
}

/// Inserting the fields of `lines` into `m` overrides `m` with the fields
/// that `lines` alone give.
pub proof fn law_fields_override(m: Map<Seq<char>, Seq<char>>, lines: Seq<Seq<u8>>)
    ensures
        fields_after(m, lines) == m.union_prefer_right(fields_after(Map::empty(), lines)),
    decreases lines.len(),
{
    if lines.len() == 0 {
        assert(m.union_prefer_right(Map::empty()) =~= m);
    } else {
        law_fields_override(m, lines.drop_last());
        assert(fields_after(m, lines) =~= m.union_prefer_right(
            fields_after(Map::empty(), lines),
        ));
    }
}

/// Inserting the fields of the same lines a second time changes nothing:
/// parsing a request twice into a header leaves it as parsing it once does.
pub proof fn law_fields_idempotent(m: Map<Seq<char>, Seq<char>>, lines: Seq<Seq<u8>>)
    ensures
        fields_after(fields_after(m, lines), lines) == fields_after(m, lines),
{
    let f = fields_after(Map::empty(), lines);
    law_fields_override(m, lines);
    law_fields_override(fields_after(m, lines), lines);
    assert(m.union_prefer_right(f).union_prefer_right(f) =~= m.union_prefer_right(f));
}

/// What parsing gives depends on the body and the fields held before, and
/// on nothing else: a parser holds no state, and two headers with the same
/// fields get the same fields from the same body.
pub proof fn law_parse_depends_on_body_and_fields(
    m1: Map<Seq<char>, Seq<char>>,
    m2: Map<Seq<char>, Seq<char>>,
    body: Seq<u8>,
)
    requires
        m1 == m2,
    ensures
        fields_after(m1, header_lines(body)) == fields_after(m2, header_lines(body)),
{
}

/// A name that no line holds keeps the field it had before.
pub proof fn law_absent_field_kept(m: Map<Seq<char>, Seq<char>>, lines: Seq<Seq<u8>>, k: Seq<char>)
    requires
        forall|j: int| 0 <= j < lines.len() ==> line_key(#[trigger] lines[j]) != k,
    ensures
        fields_after(m, lines).contains_key(k) == m.contains_key(k),
        m.contains_key(k) ==> fields_after(m, lines)[k] == m[k],
    decreases lines.len(),
{
    if lines.len() > 0 {
        assert(lines.last() == lines[lines.len() - 1]);
        law_absent_field_kept(m, lines.drop_last(), k);
    }
}

/// The URI of a parsed request is the second space-separated word of its
/// first line, whole: encoding the URI in UTF-8 gives back exactly that word,
/// so it has the word's bytes and the word's length.
pub proof fn law_uri_is_second_word(body: Seq<u8>)
    requires
        request_parsable(body),
    ensures
        encode_utf8(request_uri(body)) == split_spec(split_spec(body, LF)[0], SPACE)[1],
        encode_utf8(request_uri(body)).len() == split_spec(split_spec(body, LF)[0], SPACE)[1].len(),
{
    vstd::utf8::decode_utf8_encode_utf8(split_spec(split_spec(body, LF)[0], SPACE)[1]);
}

/// A request parses when its request line and each header line parse.
pub open spec fn request_parsable(body: Seq<u8>) -> bool {
    &&& first_row_parsable(request_lines(body)[0])
    &&& forall|i: int| 1 <= i < request_lines(body).len() ==> line_parsable(
        #[trigger] request_lines(body)[i],
    )
}

/// The URI of a request.
pub open spec fn request_uri(body: Seq<u8>) -> Seq<char> {
    first_row_uri(request_lines(body)[0])
}

/// The views of a sequence of byte slices.
pub open spec fn slice_views(lines: Seq<&[u8]>) -> Seq<Seq<u8>> {
    lines.map_values(|l: &[u8]| l@)
}

/// Decodes bytes that are known to be UTF-8.
fn decode(bytes: &[u8]) -> (s: Vec<char>)
    requires
        valid_utf8(bytes@),
    ensures
        s@ == decode_utf8(bytes@),
{
    match str_from_utf8(bytes) {
        Some(s) => chars_of(s),
        None => Vec::new(),
    }
}

/// Whether `bytes` is valid UTF-8.
fn is_utf8(bytes: &[u8]) -> (b: bool)
    ensures
        b == valid_utf8(bytes@),
{
    str_from_utf8(bytes).is_some()
}

/// Whether a header line parses.
fn line_parses(line: &[u8]) -> (b: bool)
    ensures
        b == line_parsable(line@),
{
    let words = split(line, SPACE);
    proof {
        lemma_split_nonempty(line@, SPACE);
    }
    is_utf8(words[0]) && (words.len() < 2 || is_utf8(words[1]))
}

/// Whether `body` is a request that `Parser::parser` takes: its request
/// line has a second word, and every word that the parser decodes is UTF-8.
pub fn parsable(body: &[u8]) -> (b: bool)
    ensures
        b == request_parsable(body@),
{
    let lines = split(body, LF);
    proof {
        lemma_split_nonempty(body@, LF);
    }
    let first = split(lines[0], SPACE);
    if first.len() < 2 || !is_utf8(first[1]) {
        return false;
    }
    let n = lines.len();
    let mut i: usize = 1;
    while i < n
        invariant
            1 <= i <= n,
            n == lines@.len(),
            n == request_lines(body@).len(),
            forall|j: int| 0 <= j < n ==> (#[trigger] lines@[j])@ == request_lines(body@)[j],
            forall|j: int| 1 <= j < i ==> line_parsable(#[trigger] request_lines(body@)[j]),
        decreases n - i,
    {
        if !line_parses(lines[i]) {
            assert(lines@[i as int]@ == request_lines(body@)[i as int]);
            return false;
        }
        assert(lines@[i as int]@ == request_lines(body@)[i as int]);
        i = i + 1;
    }
    true
}

/// The parser of the opening handshake.
pub struct Parser;

impl Parser {
    /// A parser.
    pub fn new() -> (p: Parser) {
        Parser
    }

    /// Parses `body` into `h`: the request line sets the method, URI and
    /// version, and each following line inserts one field.
    pub fn parser(&self, body: &[u8], h: &mut Header)
        requires
            request_parsable(body@),
        ensures
            final(h).method@ == "Get"@,
            final(h).uri@ == request_uri(body@),
            encode_utf8(final(h).uri@) == split_spec(split_spec(body@, LF)[0], SPACE)[1],
            final(h).http_version@ == "1.1"@,
            final(h).fields@ == fields_after(old(h).fields@, header_lines(body@)),
            final(h).fields@.dom().finite(),
            final(h).fields@.dom().len() <= old(h).fields@.dom().len() + header_lines(
                body@,
            ).len(),
    {
        proof {
            old(h).fields.law_fields_finite();
            law_fields_after_size(old(h).fields@, header_lines(body@));
        }
        let lines = split(body, LF);
        proof {
            lemma_split_nonempty(body@, LF);
        }
        let first_row = self.first_row(lines[0]);
        h.method = first_row.0;
        h.uri = first_row.1;
        h.http_version = first_row.3;
        let rest = vstd::slice::slice_subrange(lines.as_slice(), 1, lines.len());
        proof {
            assert(slice_views(rest@) =~= header_lines(body@));
        }
        self.headers(rest, h);
    }

    /// The method, URI, scheme and version of a request line. The method,
    /// scheme and version are always `Get`, `http` and `1.1`; the URI is the
    /// line's second word.
    fn first_row(&self, buf: &[u8]) -> (row: (String, String, String, String))
        requires
            first_row_parsable(buf@),
        ensures
            row.0@ == "Get"@,
            row.1@ == first_row_uri(buf@),
            encode_utf8(row.1@) == split_spec(buf@, SPACE)[1],
            row.2@ == "http"@,
            row.3@ == "1.1"@,
    {
        proof {
            vstd::utf8::decode_utf8_encode_utf8(split_spec(buf@, SPACE)[1]);
        }
        let words = split(buf, SPACE);
        let method = String::from_str("Get");
        let uri_chars = decode(words[1]);
        let uri = string_of(uri_chars.as_slice());
        let http = String::from_str("http");
        let http_version = String::from_str("1.1");
        (method, uri, http, http_version)
    }

    /// Inserts the field of each of `lines` into `h`, in order.
    fn headers(&self, lines: &[&[u8]], h: &mut Header)
        requires
            forall|i: int| 0 <= i < lines@.len() ==> line_parsable((#[trigger] lines@[i])@),
        ensures
            final(h).method == old(h).method,
            final(h).uri == old(h).uri,
            final(h).http_version == old(h).http_version,
            final(h).fields@ == fields_after(old(h).fields@, slice_views(lines@)),
            final(h).fields@.dom().finite(),
            final(h).fields@.dom().len() <= old(h).fields@.dom().len() + lines@.len(),
    {
        proof {
            old(h).fields.law_fields_finite();
            law_fields_after_size(old(h).fields@, slice_views(lines@));
        }
        let n = lines.len();
        let mut i: usize = 0;
        proof {
            assert(slice_views(lines@).take(0) =~= Seq::<Seq<u8>>::empty());
        }
        while i < n
            invariant
                i <= n,
                n == lines@.len(),
                forall|j: int| 0 <= j < lines@.len() ==> line_parsable((#[trigger] lines@[j])@),
                h.method == old(h).method,
                h.uri == old(h).uri,
                h.http_version == old(h).http_version,
                h.fields@ == fields_after(old(h).fields@, slice_views(lines@).take(i as int)),
            decreases n - i,
        {
            let line = lines[i];
            let words = split(line, SPACE);
            proof {
                lemma_split_nonempty(line@, SPACE);
                assert(line_parsable(lines@[i as int]@));
            }
            let key_chars = remove_colons(trim(decode(words[0]).as_slice()).as_slice());
            let k = string_of(key_chars.as_slice());
            let v = if words.len() >= 2 {
                let value_chars = trim(decode(words[1]).as_slice());
                string_of(value_chars.as_slice())
            } else {
                String::new()
            };
            h.fields.insert(k, v);
            proof {
                let views = slice_views(lines@);
                assert(views.take(i + 1).drop_last() =~= views.take(i as int));
                assert(views.take(i + 1).last() == line@);
            }
            i = i + 1;
        }
        proof {
            assert(slice_views(lines@).take(n as int) =~= slice_views(lines@));
        }
    }
}

} // verus!
