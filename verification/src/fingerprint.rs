//! The JA3 (client) and JA3S (server) fingerprint records and their
//! bidirectional text codec.

use vstd::prelude::*;
use crate::codes::{CipherSuite, Code, ECPointFormat, ExtensionType, NamedGroup, ProtocolVersion};
use crate::field::{
    digits_or_dashes, field_vals, lemma_parse_render_field, lemma_tokens_of_render, parse_field,
    render_field, spec_parse_field, spec_render_field,
};
use crate::text::{
    lemma_first_index, lemma_first_index_is, lemma_pieces_step, pieces, split_comma,
};

verus! {

/// The error raised when a fingerprint text is malformed: a non-digit
/// token, an empty token between dashes, or a value over the field's
/// width.  It carries no detail on purpose.
#[derive(Clone, Copy, PartialEq, Eq, Structural, Debug)]
pub struct Error;

/// The five code sequences of a client fingerprint, as plain integers.
pub type ClientCodes = (Seq<int>, Seq<int>, Seq<int>, Seq<int>, Seq<int>);

/// The three code sequences of a server fingerprint, as plain integers.
pub type ServerCodes = (Seq<int>, Seq<int>, Seq<int>);

/// The parse of a client fingerprint text: five comma-separated fields in
/// fixed order, the 16-bit fields first, the 8-bit point formats last.
/// Splitting stops after five pieces, so a fifth field with extra commas
/// in it fails its token parse; missing trailing fields are empty.
pub open spec fn spec_parse_client(s: Seq<char>) -> Option<ClientCodes> {
    let p = pieces(s, ',', 5);
    match (spec_parse_field(p[0], 0xFFFF), spec_parse_field(p[1], 0xFFFF), spec_parse_field(
        p[2],
        0xFFFF,
    ), spec_parse_field(p[3], 0xFFFF), spec_parse_field(p[4], 0xFF)) {
        (Some(v), Some(c), Some(e), Some(g), Some(f)) => Some((v, c, e, g, f)),
        _ => None,
    }
}

/// The parse of a server fingerprint text: the same rules at arity
/// three.  Splitting stops after three pieces, so a third field with
/// extra commas in it fails its token parse; missing trailing fields are
/// empty.
pub open spec fn spec_parse_server(s: Seq<char>) -> Option<ServerCodes> {
    let p = pieces(s, ',', 3);
    match (spec_parse_field(p[0], 0xFFFF), spec_parse_field(p[1], 0xFFFF), spec_parse_field(
        p[2],
        0xFFFF,
    )) {
        (Some(v), Some(c), Some(e)) => Some((v, c, e)),
        _ => None,
    }
}

/// The text of a client fingerprint: the five rendered fields joined with
/// commas, in fixed order.
pub open spec fn spec_render_client(c: ClientCodes) -> Seq<char> {
    spec_render_field(c.0) + seq![','] + spec_render_field(c.1) + seq![','] + spec_render_field(
        c.2,
    ) + seq![','] + spec_render_field(c.3) + seq![','] + spec_render_field(c.4)
}

/// The text of a server fingerprint: the three rendered fields joined
/// with commas, in fixed order.
pub open spec fn spec_render_server(c: ServerCodes) -> Seq<char> {
    spec_render_field(c.0) + seq![','] + spec_render_field(c.1) + seq![','] + spec_render_field(
        c.2,
    )
}

/// JA3 client fingerprint: the negotiable parameters a TLS ClientHello
/// offers, in the order they appeared.
#[derive(Clone, PartialEq, Debug)]
pub struct Ja3 {
    /// SSL version(s) - first part of the fingerprint.
    pub ssl_versions: Vec<ProtocolVersion>,
    /// Cipher(s) - second part of the fingerprint.
    pub ciphers: Vec<CipherSuite>,
    /// SSL extension(s) - third part of the fingerprint.
    pub ssl_extensions: Vec<ExtensionType>,
    /// Elliptic curve(s) - fourth part of the fingerprint.
    pub elliptic_curves: Vec<NamedGroup>,
    /// Elliptic curve point format(s) - fifth part of the fingerprint.
    pub elliptic_curve_point_formats: Vec<ECPointFormat>,
}

/// JA3S server fingerprint: the parameters a TLS ServerHello selected,
/// in the order they appeared.
#[derive(Clone, PartialEq, Debug)]
pub struct Ja3S {
    /// SSL version(s) - first part of the fingerprint.
    pub ssl_versions: Vec<ProtocolVersion>,
    /// Cipher(s) - second part of the fingerprint.
    pub ciphers: Vec<CipherSuite>,
    /// SSL extension(s) - third part of the fingerprint.
    pub ssl_extensions: Vec<ExtensionType>,
}

/// Split a client fingerprint text into its five pieces, as parsing
/// does: the fifth piece keeps any later commas.
fn split_client_fields<'a>(s: &'a str) -> (r: (&'a str, &'a str, &'a str, &'a str, &'a str))
    ensures
        r.0@ == pieces(s@, ',', 5)[0],
        r.1@ == pieces(s@, ',', 5)[1],
        r.2@ == pieces(s@, ',', 5)[2],
        r.3@ == pieces(s@, ',', 5)[3],
        r.4@ == pieces(s@, ',', 5)[4],
{
    let (p0, r0) = split_comma(s);
    proof {
        lemma_first_index(s@, ',');
        lemma_pieces_step(s@, ',', 5);
        assert(pieces(r0@, ',', 4) =~= pieces(s@, ',', 5).drop_first());
    }
    let (p1, r1) = split_comma(r0);
    proof {
        lemma_first_index(r0@, ',');
        lemma_pieces_step(r0@, ',', 4);
        assert(pieces(r1@, ',', 3) =~= pieces(r0@, ',', 4).drop_first());
    }
    let (p2, r2) = split_comma(r1);
    proof {
        lemma_first_index(r1@, ',');
        lemma_pieces_step(r1@, ',', 3);
        assert(pieces(r2@, ',', 2) =~= pieces(r1@, ',', 3).drop_first());
    }
    let (p3, r3) = split_comma(r2);
    proof {
        lemma_first_index(r2@, ',');
        lemma_pieces_step(r2@, ',', 2);
        assert(pieces(r3@, ',', 1) =~= pieces(r2@, ',', 2).drop_first());
        assert(pieces(r3@, ',', 1)[0] == r3@);
        assert(p1@ == pieces(s@, ',', 5)[1]);
        assert(p2@ == pieces(s@, ',', 5)[2]);
        assert(p3@ == pieces(s@, ',', 5)[3]);
        assert(r3@ == pieces(s@, ',', 5)[4]);
    }
    (p0, p1, p2, p3, r3)
}

/// Split a server fingerprint text into its three pieces, as parsing
/// does: the third piece keeps any later commas.
fn split_server_fields<'a>(s: &'a str) -> (r: (&'a str, &'a str, &'a str))
    ensures
        r.0@ == pieces(s@, ',', 3)[0],
        r.1@ == pieces(s@, ',', 3)[1],
        r.2@ == pieces(s@, ',', 3)[2],
{
    let (p0, r0) = split_comma(s);
    proof {
        lemma_first_index(s@, ',');
        lemma_pieces_step(s@, ',', 3);
        assert(pieces(r0@, ',', 2) =~= pieces(s@, ',', 3).drop_first());
    }
    let (p1, r1) = split_comma(r0);
    proof {
        lemma_first_index(r0@, ',');
        lemma_pieces_step(r0@, ',', 2);
        assert(pieces(r1@, ',', 1) =~= pieces(r0@, ',', 2).drop_first());
        assert(pieces(r1@, ',', 1)[0] == r1@);
        assert(p1@ == pieces(s@, ',', 3)[1]);
        assert(r1@ == pieces(s@, ',', 3)[2]);
    }
    (p0, p1, r1)
}

impl Ja3 {
    /// The five code sequences of this record, as plain integers.
    pub open spec fn codes(&self) -> ClientCodes {
        (
            field_vals(self.ssl_versions@),
            field_vals(self.ciphers@),
            field_vals(self.ssl_extensions@),
            field_vals(self.elliptic_curves@),
            field_vals(self.elliptic_curve_point_formats@),
        )
    }

    /// Parse a client fingerprint text.  Returns the record exactly when
    /// the specification parse succeeds, and the malformed-text error
    /// otherwise.
    pub fn from_str(s: &str) -> (r: Result<Ja3, Error>)
        ensures
            match spec_parse_client(s@) {
                Some(c) => r matches Ok(j) && j.codes() == c,
                None => r is Err,
            },
    {
        let (p0, p1, p2, p3, p4) = split_client_fields(s);
        let ssl_versions = match parse_field::<ProtocolVersion>(p0) {
            Some(v) => v,
            None => {
                return Err(Error);
            },
        };
        let ciphers = match parse_field::<CipherSuite>(p1) {
            Some(v) => v,
            None => {
                return Err(Error);
            },
        };
        let ssl_extensions = match parse_field::<ExtensionType>(p2) {
            Some(v) => v,
            None => {
                return Err(Error);
            },
        };
        let elliptic_curves = match parse_field::<NamedGroup>(p3) {
            Some(v) => v,
            None => {
                return Err(Error);
            },
        };
        let elliptic_curve_point_formats = match parse_field::<ECPointFormat>(p4) {
            Some(v) => v,
            None => {
                return Err(Error);
            },
        };
        Ok(
            Ja3 {
                ssl_versions,
                ciphers,
                ssl_extensions,
                elliptic_curves,
                elliptic_curve_point_formats,
            },
        )
    }

    /// Render this record as its fingerprint text.  Rendering never
    /// fails: every held code is in range by type.
    pub fn render(&self) -> (t: String)
        ensures
            t@ == spec_render_client(self.codes()),
    {
        proof {
            reveal_strlit(",");
        }
        let mut t = render_field(&self.ssl_versions);
        t.append(",");
        let f1 = render_field(&self.ciphers);
        t.append(f1.as_str());
        t.append(",");
        let f2 = render_field(&self.ssl_extensions);
        t.append(f2.as_str());
        t.append(",");
        let f3 = render_field(&self.elliptic_curves);
        t.append(f3.as_str());
        t.append(",");
        let f4 = render_field(&self.elliptic_curve_point_formats);
        t.append(f4.as_str());
        proof {
            assert((",")@ =~= seq![',']);
            assert(t@ =~= spec_render_client(self.codes()));
        }
        t
    }
}

impl Ja3S {
    /// The three code sequences of this record, as plain integers.
    pub open spec fn codes(&self) -> ServerCodes {
        (
            field_vals(self.ssl_versions@),
            field_vals(self.ciphers@),
            field_vals(self.ssl_extensions@),
        )
    }

    /// Parse a server fingerprint text.  Returns the record exactly when
    /// the specification parse succeeds, and the malformed-text error
    /// otherwise.
    pub fn from_str(s: &str) -> (r: Result<Ja3S, Error>)
        ensures
            match spec_parse_server(s@) {
                Some(c) => r matches Ok(j) && j.codes() == c,
                None => r is Err,
            },
    {
        let (p0, p1, p2) = split_server_fields(s);
        let ssl_versions = match parse_field::<ProtocolVersion>(p0) {
            Some(v) => v,
            None => {
                return Err(Error);
            },
        };
        let ciphers = match parse_field::<CipherSuite>(p1) {
            Some(v) => v,
            None => {
                return Err(Error);
            },
        };
        let ssl_extensions = match parse_field::<ExtensionType>(p2) {
            Some(v) => v,
            None => {
                return Err(Error);
            },
        };
        Ok(Ja3S { ssl_versions, ciphers, ssl_extensions })
    }

    /// Render this record as its fingerprint text.  Rendering never
    /// fails: every held code is in range by type.
    pub fn render(&self) -> (t: String)
        ensures
            t@ == spec_render_server(self.codes()),
    {
        proof {
            reveal_strlit(",");
        }
        let mut t = render_field(&self.ssl_versions);
        t.append(",");
        let f1 = render_field(&self.ciphers);
        t.append(f1.as_str());
        t.append(",");
        let f2 = render_field(&self.ssl_extensions);
        t.append(f2.as_str());
        proof {
            assert((",")@ =~= seq![',']);
            assert(t@ =~= spec_render_server(self.codes()));
        }
        t
    }
}

/// Splitting a rendered field followed by a comma and more text peels
/// off exactly that field.
proof fn lemma_split_off_field(f: Seq<char>, rest: Seq<char>, n: nat)
    requires
        digits_or_dashes(f),
        n > 1,
    ensures
        pieces(f + seq![','] + rest, ',', n)[0] == f,
        pieces(f + seq![','] + rest, ',', n).drop_first() =~= pieces(rest, ',', (n - 1) as nat),
{
    let t = f + seq![','] + rest;
    assert forall|j: int| 0 <= j < f.len() implies t[j] != ',' by {
        assert(t[j] == f[j]);
    }
    assert(t[f.len() as int] == ',');
    lemma_first_index_is(t, ',', f.len() as int);
    lemma_pieces_step(t, ',', n);
    assert(t.take(f.len() as int) =~= f);
    assert(t.skip(f.len() as int + 1) =~= rest);
}

/// A rendered field has only digits and dashes in it, and so holds no
/// comma.
proof fn lemma_render_field_chars(vs: Seq<int>, max: int)
    requires
        forall|i: int| 0 <= i < vs.len() ==> 0 <= #[trigger] vs[i] <= max,
    ensures
        digits_or_dashes(spec_render_field(vs)),
{
    if vs.len() >= 1 {
        lemma_tokens_of_render(vs, max);
    }
}

/// Round trip at the client arity: parsing the rendered text of any five
/// in-range code sequences gives back exactly those sequences.
pub proof fn lemma_parse_render_client(c: ClientCodes)
    requires
        forall|i: int| 0 <= i < c.0.len() ==> 0 <= #[trigger] c.0[i] <= 0xFFFF,
        forall|i: int| 0 <= i < c.1.len() ==> 0 <= #[trigger] c.1[i] <= 0xFFFF,
        forall|i: int| 0 <= i < c.2.len() ==> 0 <= #[trigger] c.2[i] <= 0xFFFF,
        forall|i: int| 0 <= i < c.3.len() ==> 0 <= #[trigger] c.3[i] <= 0xFFFF,
        forall|i: int| 0 <= i < c.4.len() ==> 0 <= #[trigger] c.4[i] <= 0xFF,
    ensures
        spec_parse_client(spec_render_client(c)) == Some(c),
{
    let f0 = spec_render_field(c.0);
    let f1 = spec_render_field(c.1);
    let f2 = spec_render_field(c.2);
    let f3 = spec_render_field(c.3);
    let f4 = spec_render_field(c.4);
    lemma_render_field_chars(c.0, 0xFFFF);
    lemma_render_field_chars(c.1, 0xFFFF);
    lemma_render_field_chars(c.2, 0xFFFF);
    lemma_render_field_chars(c.3, 0xFFFF);
    lemma_render_field_chars(c.4, 0xFF);
    let t = spec_render_client(c);
    let t1 = f1 + seq![','] + (f2 + seq![','] + (f3 + seq![','] + f4));
    let t2 = f2 + seq![','] + (f3 + seq![','] + f4);
    let t3 = f3 + seq![','] + f4;
    assert(t =~= f0 + seq![','] + t1);
    lemma_split_off_field(f0, t1, 5);
    lemma_split_off_field(f1, t2, 4);
    lemma_split_off_field(f2, t3, 3);
    lemma_split_off_field(f3, f4, 2);
    let p = pieces(t, ',', 5);
    assert(p[0] == f0);
    assert(p.drop_first() =~= pieces(t1, ',', 4));
    assert(p[1] == pieces(t1, ',', 4)[0] && p[1] == f1);
    assert(pieces(t1, ',', 4).drop_first() =~= pieces(t2, ',', 3));
    assert(p[2] == pieces(t2, ',', 3)[0] && p[2] == f2);
    assert(pieces(t2, ',', 3).drop_first() =~= pieces(t3, ',', 2));
    assert(p[3] == pieces(t3, ',', 2)[0] && p[3] == f3);
    assert(pieces(t3, ',', 2).drop_first() =~= pieces(f4, ',', 1));
    assert(p[4] == pieces(f4, ',', 1)[0] && p[4] == f4);
    lemma_parse_render_field(c.0, 0xFFFF);
    lemma_parse_render_field(c.1, 0xFFFF);
    lemma_parse_render_field(c.2, 0xFFFF);
    lemma_parse_render_field(c.3, 0xFFFF);
    lemma_parse_render_field(c.4, 0xFF);
    assert(c == (c.0, c.1, c.2, c.3, c.4));
}

/// Round trip at the server arity: parsing the rendered text of any
/// three in-range code sequences gives back exactly those sequences.
pub proof fn lemma_parse_render_server(c: ServerCodes)
    requires
        forall|i: int| 0 <= i < c.0.len() ==> 0 <= #[trigger] c.0[i] <= 0xFFFF,
        forall|i: int| 0 <= i < c.1.len() ==> 0 <= #[trigger] c.1[i] <= 0xFFFF,
        forall|i: int| 0 <= i < c.2.len() ==> 0 <= #[trigger] c.2[i] <= 0xFFFF,
    ensures
        spec_parse_server(spec_render_server(c)) == Some(c),
{
    let f0 = spec_render_field(c.0);
    let f1 = spec_render_field(c.1);
    let f2 = spec_render_field(c.2);
    lemma_render_field_chars(c.0, 0xFFFF);
    lemma_render_field_chars(c.1, 0xFFFF);
    lemma_render_field_chars(c.2, 0xFFFF);
    let t = spec_render_server(c);
    let t1 = f1 + seq![','] + f2;
    assert(t =~= f0 + seq![','] + t1);
    lemma_split_off_field(f0, t1, 3);
    lemma_split_off_field(f1, f2, 2);
    let p = pieces(t, ',', 3);
    assert(p[0] == f0);
    assert(p.drop_first() =~= pieces(t1, ',', 2));
    assert(p[1] == pieces(t1, ',', 2)[0] && p[1] == f1);
    assert(pieces(t1, ',', 2).drop_first() =~= pieces(f2, ',', 1));
    assert(pieces(f2, ',', 1)[0] == f2);
    assert(p[2] == pieces(f2, ',', 1)[0] && p[2] == f2);
    lemma_parse_render_field(c.0, 0xFFFF);
    lemma_parse_render_field(c.1, 0xFFFF);
    lemma_parse_render_field(c.2, 0xFFFF);
    assert(c == (c.0, c.1, c.2));
}

/// The codes a client record holds are in range by type.
proof fn lemma_client_codes_in_range(j: Ja3)
    ensures
        forall|i: int| 0 <= i < j.codes().0.len() ==> 0 <= #[trigger] j.codes().0[i] <= 0xFFFF,
        forall|i: int| 0 <= i < j.codes().1.len() ==> 0 <= #[trigger] j.codes().1[i] <= 0xFFFF,
        forall|i: int| 0 <= i < j.codes().2.len() ==> 0 <= #[trigger] j.codes().2[i] <= 0xFFFF,
        forall|i: int| 0 <= i < j.codes().3.len() ==> 0 <= #[trigger] j.codes().3[i] <= 0xFFFF,
        forall|i: int| 0 <= i < j.codes().4.len() ==> 0 <= #[trigger] j.codes().4[i] <= 0xFF,
{
}

/// The codes a server record holds are in range by type.
proof fn lemma_server_codes_in_range(j: Ja3S)
    ensures
        forall|i: int| 0 <= i < j.codes().0.len() ==> 0 <= #[trigger] j.codes().0[i] <= 0xFFFF,
        forall|i: int| 0 <= i < j.codes().1.len() ==> 0 <= #[trigger] j.codes().1[i] <= 0xFFFF,
        forall|i: int| 0 <= i < j.codes().2.len() ==> 0 <= #[trigger] j.codes().2[i] <= 0xFFFF,
{
}

/// Record round trip: parsing what a client record renders gives back
/// exactly that record's codes.
pub proof fn lemma_client_round_trip(j: Ja3)
    ensures
        spec_parse_client(spec_render_client(j.codes())) == Some(j.codes()),
{
    lemma_client_codes_in_range(j);
    lemma_parse_render_client(j.codes());
}

/// Record round trip: parsing what a server record renders gives back
/// exactly that record's codes.
pub proof fn lemma_server_round_trip(j: Ja3S)
    ensures
        spec_parse_server(spec_render_server(j.codes())) == Some(j.codes()),
{
    lemma_server_codes_in_range(j);
    lemma_parse_render_server(j.codes());
}

/// Text round trip: a text a client record renders parses, and rendering
/// the parsed codes gives back exactly that text.
pub proof fn lemma_client_text_round_trip(j: Ja3)
    ensures
        ({
            let t = spec_render_client(j.codes());
            spec_parse_client(t) matches Some(c) && spec_render_client(c) == t
        }),
{
    lemma_client_round_trip(j);
}

/// Text round trip: a text a server record renders parses, and rendering
/// the parsed codes gives back exactly that text.
pub proof fn lemma_server_text_round_trip(j: Ja3S)
    ensures
        ({
            let t = spec_render_server(j.codes());
            spec_parse_server(t) matches Some(c) && spec_render_server(c) == t
        }),
{
    lemma_server_round_trip(j);
}

} // verus!
