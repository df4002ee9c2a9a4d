//! Azure SEV-SNP attestation evidence from the guest vTPM.
//!
//! On Azure confidential VMs the paravisor presents a vTPM that carries an
//! HCL report and can quote caller-supplied report data. The evidence joins
//! the HCL report, the vTPM quote (signature, signed message and SHA-256 PCR
//! values, each hex-encoded) and the AMD VCEK certificate (DER, base64).
//! Reading the vTPM and fetching the VCEK are I/O and happen outside this
//! module; this module checks the report data and assembles the evidence
//! from what was read.

use vstd::prelude::*;

use base64::Engine;

use crate::error::{HalError, HalResult};
use crate::text::{
    chars_of, hex_lower, lines_of, split_lines, starts_with, string_from_chars, trim, trimmed,
    views_of,
};

verus! {

/// The most bytes of report data that a vTPM quote binds.
pub const MAX_REPORT_DATA_LEN: usize = 64;

/// The symbol of a 6-bit value in the standard base64 alphabet.
pub open spec fn base64_symbol(v: int) -> char {
    if v < 26 {
        (65 + v) as char
    } else if v < 52 {
        (71 + v) as char
    } else if v < 62 {
        (v - 4) as char
    } else if v == 62 {
        '+'
    } else {
        '/'
    }
}

/// The standard base64 encoding of `d` (RFC 4648, section 4): every three
/// bytes become four symbols, and a last group of one or two bytes is padded
/// with `=` to four symbols.
pub open spec fn base64_standard(d: Seq<u8>) -> Seq<char>
    decreases d.len(),
{
    if d.len() == 0 {
        Seq::empty()
    } else if d.len() == 1 {
        seq![base64_symbol(d[0] as int / 4), base64_symbol((d[0] % 4) * 16), '=', '=']
    } else if d.len() == 2 {
        seq![
            base64_symbol(d[0] as int / 4),
            base64_symbol((d[0] % 4) * 16 + d[1] / 16),
            base64_symbol((d[1] % 16) * 4),
            '=',
        ]
    } else {
        seq![
            base64_symbol(d[0] as int / 4),
            base64_symbol((d[0] % 4) * 16 + d[1] / 16),
            base64_symbol((d[1] % 16) * 4 + d[2] / 64),
            base64_symbol(d[2] as int % 64),
        ] + base64_standard(d.skip(3))
    }
}

/// Whether `text` is the standard base64 encoding of some byte string.
pub open spec fn is_base64_standard(text: Seq<char>) -> bool {
    exists|d: Seq<u8>| base64_standard(d) == text
}

/// The length of a standard base64 encoding: four symbols per started group
/// of three bytes.
pub proof fn lemma_base64_standard_len(d: Seq<u8>)
    ensures
        base64_standard(d).len() == 4 * ((d.len() + 2) / 3),
    decreases d.len(),
{
    if d.len() >= 3 {
        lemma_base64_standard_len(d.skip(3));
    }
}

proof fn lemma_symbol_injective(v: int, w: int)
    requires
        0 <= v < 64,
        0 <= w < 64,
    ensures
        base64_symbol(v) != '=',
        base64_symbol(v) == base64_symbol(w) ==> v == w,
{
}

proof fn lemma_unpack_bytes(x0: u8, x1: u8, x2: u8, y0: u8, y1: u8, y2: u8)
    ensures
        x0 as int / 4 == y0 as int / 4 && (x0 % 4) * 16 + x1 / 16 == (y0 % 4) * 16 + y1 / 16
            ==> x0 == y0,
        x0 == y0 && (x0 % 4) * 16 + x1 / 16 == (y0 % 4) * 16 + y1 / 16 && (x1 % 16) * 4 == (y1
            % 16) * 4 ==> x1 == y1,
        x0 == y0 && (x0 % 4) * 16 + x1 / 16 == (y0 % 4) * 16 + y1 / 16 && (x1 % 16) * 4 + x2 / 64
            == (y1 % 16) * 4 + y2 / 64 ==> x1 == y1,
        x1 == y1 && (x1 % 16) * 4 + x2 / 64 == (y1 % 16) * 4 + y2 / 64 && x2 as int % 64 == y2 as int
            % 64 ==> x2 == y2,
        (x0 % 4) * 16 == (y0 % 4) * 16 && x0 as int / 4 == y0 as int / 4 ==> x0 == y0,
{
}

/// The standard base64 encoding tells byte strings apart: two byte strings
/// with the same encoding are the same.
pub proof fn lemma_base64_standard_injective(d: Seq<u8>, e: Seq<u8>)
    requires
        base64_standard(d) == base64_standard(e),
    ensures
        d == e,
    decreases d.len(),
{
    let t = base64_standard(d);
    lemma_base64_standard_len(d);
    lemma_base64_standard_len(e);
    if d.len() == 0 || e.len() == 0 {
        assert(d.len() == 0 && e.len() == 0);
        assert(d =~= e);
        return;
    }
    lemma_symbol_injective(d[0] as int / 4, e[0] as int / 4);
    lemma_symbol_injective((d[0] % 4) * 16 + if d.len() >= 2 { d[1] / 16 } else { 0 }, (e[0] % 4) * 16
        + if e.len() >= 2 { e[1] / 16 } else { 0 });
    if d.len() >= 2 {
        lemma_symbol_injective(
            (d[1] % 16) * 4 + if d.len() >= 3 { d[2] / 64 } else { 0 },
            (d[1] % 16) * 4 + if d.len() >= 3 { d[2] / 64 } else { 0 },
        );
    }
    if e.len() >= 2 {
        lemma_symbol_injective(
            (e[1] % 16) * 4 + if e.len() >= 3 { e[2] / 64 } else { 0 },
            (e[1] % 16) * 4 + if e.len() >= 3 { e[2] / 64 } else { 0 },
        );
    }
    if d.len() >= 2 && e.len() >= 2 {
        lemma_symbol_injective(
            (d[1] % 16) * 4 + if d.len() >= 3 { d[2] / 64 } else { 0 },
            (e[1] % 16) * 4 + if e.len() >= 3 { e[2] / 64 } else { 0 },
        );
    }
    if d.len() >= 3 {
        lemma_symbol_injective(d[2] as int % 64, d[2] as int % 64);
    }
    if e.len() >= 3 {
        lemma_symbol_injective(e[2] as int % 64, e[2] as int % 64);
    }
    if d.len() >= 3 && e.len() >= 3 {
        lemma_symbol_injective(d[2] as int % 64, e[2] as int % 64);
    }
    if d.len() == 1 {
        assert(e.len() == 1);
        lemma_unpack_bytes(d[0], 0, 0, e[0], 0, 0);
        assert(t[0] == base64_symbol(d[0] as int / 4));
        assert(t[1] == base64_symbol((d[0] % 4) * 16));
        assert(t[1] == base64_symbol((e[0] % 4) * 16));
        assert(d[0] == e[0]);
        assert(d =~= e);
    } else if d.len() == 2 {
        assert(e.len() == 2);
        lemma_unpack_bytes(d[0], d[1], 0, e[0], e[1], 0);
        assert(d[0] == e[0]);
        assert(d[1] == e[1]);
        assert(d =~= e);
    } else {
        assert(e.len() >= 3);
        let te = base64_standard(e);
        assert(t[0] == base64_symbol(d[0] as int / 4));
        assert(te[0] == base64_symbol(e[0] as int / 4));
        assert(t[1] == base64_symbol((d[0] % 4) * 16 + d[1] / 16));
        assert(te[1] == base64_symbol((e[0] % 4) * 16 + e[1] / 16));
        assert(t[2] == base64_symbol((d[1] % 16) * 4 + d[2] / 64));
        assert(te[2] == base64_symbol((e[1] % 16) * 4 + e[2] / 64));
        assert(t[3] == base64_symbol(d[2] as int % 64));
        assert(te[3] == base64_symbol(e[2] as int % 64));
        lemma_unpack_bytes(d[0], d[1], d[2], e[0], e[1], e[2]);
        assert(d[0] == e[0]);
        assert(d[1] == e[1]);
        assert(d[2] == e[2]);
        assert(base64_standard(d.skip(3)) =~= t.skip(4));
        assert(base64_standard(e.skip(3)) =~= t.skip(4));
        lemma_base64_standard_injective(d.skip(3), e.skip(3));
        assert(d =~= seq![d[0], d[1], d[2]] + d.skip(3));
        assert(e =~= seq![e[0], e[1], e[2]] + e.skip(3));
    }
}

/// `hex::encode`: the lower-case hexadecimal rendering of `data`, two digits
/// per byte, most significant first (`HEX_CHARS_LOWER` in hex 0.4).
#[verifier::external_body]
fn hex_encode(data: &[u8]) -> (s: String)
    ensures
        s@ == hex_lower(data@),
{
    hex::encode(data)
}

/// `base64::engine::general_purpose::STANDARD.encode`: the standard base64
/// encoding of `data`, with padding. The call panics when the encoded length
/// overflows `usize`, which the precondition rules out.
#[verifier::external_body]
fn base64_encode(data: &[u8]) -> (s: String)
    requires
        data@.len() <= usize::MAX / 4 * 3,
    ensures
        s@ == base64_standard(data@),
{
    base64::engine::general_purpose::STANDARD.encode(data)
}

/// `base64::engine::general_purpose::STANDARD.decode`, its error rendered by
/// `to_string`. That engine requires canonical padding and rejects non-zero
/// trailing bits, so it accepts exactly the texts that are the encoding of
/// some byte string, and gives back that string. The text of the error is
/// not stated.
#[verifier::external_body]
fn base64_decode(text: &str) -> (r: Result<Vec<u8>, String>)
    ensures
        r is Ok <==> is_base64_standard(text@),
        r matches Ok(d) ==> base64_standard(d@) == text@,
{
    base64::engine::general_purpose::STANDARD.decode(text).map_err(|e| e.to_string())
}

/// The armour marker that opens the `BEGIN` and `END` lines of a PEM text.
pub open spec fn pem_armour() -> Seq<char> {
    seq!['-', '-', '-', '-', '-']
}

/// Whether a PEM line carries content rather than armour.
pub open spec fn is_pem_content(line: Seq<char>) -> bool {
    !pem_armour().is_prefix_of(line)
}

/// The concatenation of a sequence of lines.
pub open spec fn concat_lines(lines: Seq<Seq<char>>) -> Seq<char>
    decreases lines.len(),
{
    if lines.len() == 0 {
        Seq::empty()
    } else {
        concat_lines(lines.drop_last()) + lines.last()
    }
}

/// The base64 body of a PEM text: its lines that do not start with `-----`,
/// joined, without leading and trailing white space.
pub open spec fn pem_body(pem: Seq<char>) -> Seq<char> {
    trim(concat_lines(lines_of(pem).filter(|l: Seq<char>| is_pem_content(l))))
}

/// Whether `c` can occur in a standard base64 encoding: a letter, a digit,
/// `+`, `/` or the padding `=`.
pub open spec fn is_base64_char(c: char) -> bool {
    ||| 'A' <= c <= 'Z'
    ||| 'a' <= c <= 'z'
    ||| '0' <= c <= '9'
    ||| c == '+'
    ||| c == '/'
    ||| c == '='
}

proof fn lemma_symbol_is_base64_char(v: int)
    requires
        0 <= v < 64,
    ensures
        is_base64_char(base64_symbol(v)),
{
}

/// Every character of a standard base64 encoding is a base64 character.
pub proof fn lemma_base64_standard_chars(d: Seq<u8>)
    ensures
        forall|i: int|
            0 <= i < base64_standard(d).len() ==> is_base64_char(#[trigger] base64_standard(d)[i]),
    decreases d.len(),
{
    if d.len() == 0 {
    } else if d.len() == 1 {
        lemma_symbol_is_base64_char(d[0] as int / 4);
        lemma_symbol_is_base64_char((d[0] % 4) * 16);
    } else if d.len() == 2 {
        lemma_symbol_is_base64_char(d[0] as int / 4);
        lemma_symbol_is_base64_char((d[0] % 4) * 16 + d[1] / 16);
        lemma_symbol_is_base64_char((d[1] % 16) * 4);
    } else {
        lemma_base64_standard_chars(d.skip(3));
        lemma_symbol_is_base64_char(d[0] as int / 4);
        lemma_symbol_is_base64_char((d[0] % 4) * 16 + d[1] / 16);
        lemma_symbol_is_base64_char((d[1] % 16) * 4 + d[2] / 64);
        lemma_symbol_is_base64_char(d[2] as int % 64);
        let head = seq![
            base64_symbol(d[0] as int / 4),
            base64_symbol((d[0] % 4) * 16 + d[1] / 16),
            base64_symbol((d[1] % 16) * 4 + d[2] / 64),
            base64_symbol(d[2] as int % 64),
        ];
        let rest = base64_standard(d.skip(3));
        assert(base64_standard(d) == head + rest);
        assert forall|i: int| 0 <= i < base64_standard(d).len() implies is_base64_char(
            #[trigger] base64_standard(d)[i],
        ) by {
            if i >= 4 {
                assert(base64_standard(d)[i] == rest[i - 4]);
            }
        }
    }
}

/// The lines of a text with no line feed: the text itself, or none when it
/// is empty.
proof fn lemma_lines_of_single(x: Seq<char>)
    requires
        forall|j: int| 0 <= j < x.len() ==> x[j] != '\n',
    ensures
        lines_of(x) == if x.len() == 0 {
            Seq::<Seq<char>>::empty()
        } else {
            seq![x]
        },
{
    crate::text::lemma_newline_index_append(x, Seq::empty());
    assert(x + Seq::<char>::empty() =~= x);
}

/// The lines of a line without line feed nor trailing carriage return,
/// followed by a line feed and more text.
proof fn lemma_lines_of_first(x: Seq<char>, rest: Seq<char>)
    requires
        forall|j: int| 0 <= j < x.len() ==> x[j] != '\n',
        x.len() > 0 ==> x.last() != '\r',
    ensures
        lines_of(x + seq!['\n'] + rest) == seq![x] + lines_of(rest),
{
    let s = x + seq!['\n'] + rest;
    crate::text::lemma_newline_index_append(x, seq!['\n'] + rest);
    assert(s =~= x + (seq!['\n'] + rest));
    assert(s.take(x.len() as int) =~= x);
    assert(s.skip(x.len() + 1int) =~= rest);
}

/// A line that opens the PEM armour: it starts with `-----`, and has no line
/// feed and no trailing carriage return.
pub open spec fn is_armour_line(l: Seq<char>) -> bool {
    &&& pem_armour().is_prefix_of(l)
    &&& forall|j: int| 0 <= j < l.len() ==> l[j] != '\n'
    &&& l.last() != '\r'
}

proof fn lemma_trim_encoding(d: Seq<u8>)
    ensures
        trim(base64_standard(d)) == base64_standard(d),
{
    let e = base64_standard(d);
    lemma_base64_standard_chars(d);
    if e.len() > 0 {
        assert(is_base64_char(e[0]));
        assert(is_base64_char(e.last()));
        assert(crate::text::trim_start(e) == e);
    }
}

proof fn lemma_concat_single(e: Seq<char>)
    ensures
        concat_lines(seq![e]) == e,
{
    assert(seq![e].drop_last() =~= Seq::<Seq<char>>::empty());
    assert(concat_lines(Seq::<Seq<char>>::empty()) =~= Seq::<char>::empty());
    assert(Seq::<char>::empty() + e =~= e);
}

proof fn lemma_encoding_is_one_content_line(d: Seq<u8>)
    ensures
        ({
            let e = base64_standard(d);
            &&& forall|j: int| 0 <= j < e.len() ==> e[j] != '\n'
            &&& e.len() > 0 ==> e.last() != '\r'
            &&& is_pem_content(e)
        }),
{
    let e = base64_standard(d);
    lemma_base64_standard_chars(d);
    assert forall|j: int| 0 <= j < e.len() implies e[j] != '\n' by {
        assert(is_base64_char(e[j]));
    }
    if e.len() > 0 {
        assert(is_base64_char(e[e.len() - 1]));
    }
    if pem_armour().is_prefix_of(e) {
        assert(e[0] == pem_armour()[0]);
        assert(is_base64_char(e[0]));
    }
}

/// The base64 body of a bare standard base64 encoding is the encoding itself.
pub proof fn lemma_pem_body_of_bare_encoding(d: Seq<u8>)
    ensures
        pem_body(base64_standard(d)) == base64_standard(d),
{
    let e = base64_standard(d);
    let p = |l: Seq<char>| is_pem_content(l);
    lemma_encoding_is_one_content_line(d);
    lemma_lines_of_single(e);
    let l0 = Seq::<Seq<char>>::empty();
    assert(l0.filter(p) =~= l0) by {
        reveal(Seq::filter);
    }
    if e.len() > 0 {
        assert(seq![e] =~= l0.push(e));
        l0.lemma_filter_push(e, p);
        assert(seq![e].filter(p) =~= seq![e]);
        lemma_concat_single(e);
    } else {
        assert(concat_lines(l0) =~= Seq::<char>::empty());
    }
    lemma_trim_encoding(d);
}

proof fn lemma_armoured_lines(e: Seq<char>, header: Seq<char>, footer: Seq<char>, tail: Seq<char>)
    requires
        is_armour_line(header),
        is_armour_line(footer),
        forall|j: int| 0 <= j < e.len() ==> e[j] != '\n',
        e.len() > 0 ==> e.last() != '\r',
        tail == Seq::<char>::empty() || tail == seq!['\n'],
    ensures
        lines_of(header + seq!['\n'] + e + seq!['\n'] + footer + tail) == seq![header, e, footer],
{
    let pem = header + seq!['\n'] + e + seq!['\n'] + footer + tail;
    let rest1 = e + seq!['\n'] + footer + tail;
    assert(pem =~= header + seq!['\n'] + rest1);
    lemma_lines_of_first(header, rest1);
    let rest2 = footer + tail;
    assert(rest1 =~= e + seq!['\n'] + rest2);
    lemma_lines_of_first(e, rest2);
    if tail.len() == 0 {
        assert(rest2 =~= footer);
        lemma_lines_of_single(footer);
    } else {
        assert(rest2 =~= footer + seq!['\n'] + Seq::<char>::empty());
        lemma_lines_of_first(footer, Seq::<char>::empty());
        assert(lines_of(Seq::<char>::empty()) =~= Seq::<Seq<char>>::empty());
    }
    assert(lines_of(rest2) =~= seq![footer]);
    assert(seq![header] + (seq![e] + seq![footer]) =~= seq![header, e, footer]);
}

proof fn lemma_armoured_filter(e: Seq<char>, header: Seq<char>, footer: Seq<char>)
    requires
        !is_pem_content(header),
        !is_pem_content(footer),
        is_pem_content(e),
    ensures
        seq![header, e, footer].filter(|l: Seq<char>| is_pem_content(l)) == seq![e],
{
    let p = |l: Seq<char>| is_pem_content(l);
    let l0 = Seq::<Seq<char>>::empty();
    assert(seq![header, e, footer] =~= l0.push(header).push(e).push(footer));
    l0.lemma_filter_push(header, p);
    l0.push(header).lemma_filter_push(e, p);
    l0.push(header).push(e).lemma_filter_push(footer, p);
    assert(l0.filter(p) =~= l0) by {
        reveal(Seq::filter);
    }
    assert(l0.push(e) =~= seq![e]);
}

/// The base64 body of a standard base64 encoding between a PEM header line
/// and a PEM footer line (with or without a final line feed) is the
/// encoding itself.
pub proof fn lemma_pem_body_of_armoured_encoding(
    d: Seq<u8>,
    header: Seq<char>,
    footer: Seq<char>,
    tail: Seq<char>,
)
    requires
        is_armour_line(header),
        is_armour_line(footer),
        tail == Seq::<char>::empty() || tail == seq!['\n'],
    ensures
        pem_body(header + seq!['\n'] + base64_standard(d) + seq!['\n'] + footer + tail)
            == base64_standard(d),
{
    let e = base64_standard(d);
    lemma_encoding_is_one_content_line(d);
    lemma_armoured_lines(e, header, footer, tail);
    lemma_armoured_filter(e, header, footer);
    lemma_concat_single(e);
    lemma_trim_encoding(d);
}

/// The header line of a PEM certificate.
pub open spec fn certificate_header() -> Seq<char> {
    "-----BEGIN CERTIFICATE-----"@
}

/// The footer line of a PEM certificate.
pub open spec fn certificate_footer() -> Seq<char> {
    "-----END CERTIFICATE-----"@
}

/// The base64 body of the standard base64 encoding of `d`, bare or as a PEM
/// certificate (`BEGIN CERTIFICATE` line, the encoding, `END CERTIFICATE`
/// line, with or without a final line feed), is that encoding; so
/// `base64_decode_pem` gives back `d` for each of them.
pub proof fn lemma_pem_round_trip(d: Seq<u8>)
    ensures
        pem_body(base64_standard(d)) == base64_standard(d),
        pem_body(
            certificate_header() + seq!['\n'] + base64_standard(d) + seq!['\n']
                + certificate_footer(),
        ) == base64_standard(d),
        pem_body(
            certificate_header() + seq!['\n'] + base64_standard(d) + seq!['\n']
                + certificate_footer() + seq!['\n'],
        ) == base64_standard(d),
{
    reveal_strlit("-----BEGIN CERTIFICATE-----");
    reveal_strlit("-----END CERTIFICATE-----");
    let h = certificate_header();
    let f = certificate_footer();
    assert(pem_armour() =~= h.take(5));
    assert(pem_armour() =~= f.take(5));
    assert(is_armour_line(h));
    assert(is_armour_line(f));
    lemma_pem_body_of_bare_encoding(d);
    lemma_pem_body_of_armoured_encoding(d, h, f, Seq::empty());
    assert(h + seq!['\n'] + base64_standard(d) + seq!['\n'] + f + Seq::<char>::empty() =~= h
        + seq!['\n'] + base64_standard(d) + seq!['\n'] + f);
    lemma_pem_body_of_armoured_encoding(d, h, f, seq!['\n']);
}

/// Strips the PEM armour from `pem` and decodes its base64 body (see
/// `pem_body`); a body that is not standard base64 is an error.
pub fn base64_decode_pem(pem: &str) -> (r: Result<Vec<u8>, String>)
    ensures
        r is Ok <==> is_base64_standard(pem_body(pem@)),
        r matches Ok(d) ==> base64_standard(d@) == pem_body(pem@),
        r matches Ok(d) ==> d@.len() <= usize::MAX / 4 * 3,
        forall|d: Seq<u8>|
            #[trigger] base64_standard(d) == pem_body(pem@) ==> (r matches Ok(v) && v@ == d),
{
    let text = chars_of(pem);
    let lines = split_lines(&text);
    let armour = chars_of("-----");
    let ghost ls = views_of(lines@);
    let ghost pred = |l: Seq<char>| is_pem_content(l);
    assert(armour@ =~= pem_armour()) by {
        reveal_strlit("-----");
    }
    let mut body: Vec<char> = Vec::new();
    let n = lines.len();
    let mut i: usize = 0;
    assert(ls.take(0).filter(pred) =~= Seq::<Seq<char>>::empty()) by {
        reveal(Seq::filter);
    }
    while i < n
        invariant
            n == lines@.len(),
            ls == views_of(lines@),
            ls == lines_of(pem@),
            armour@ == pem_armour(),
            pred == (|l: Seq<char>| is_pem_content(l)),
            i <= n,
            body@ == concat_lines(ls.take(i as int).filter(pred)),
        decreases n - i,
    {
        let line = &lines[i];
        assert(line@ == ls[i as int]);
        assert(ls.take(i + 1) =~= ls.take(i as int).push(ls[i as int]));
        proof {
            ls.take(i as int).lemma_filter_push(ls[i as int], pred);
        }
        if !starts_with(line, &armour) {
            let ghost before = body@;
            let mut k: usize = 0;
            while k < line.len()
                invariant
                    k <= line@.len(),
                    body@ == before + line@.take(k as int),
                decreases line@.len() - k,
            {
                body.push(line[k]);
                k = k + 1;
                assert(body@ =~= before + line@.take(k as int));
            }
            assert(line@.take(line@.len() as int) =~= line@);
            let ghost f = ls.take(i as int).filter(pred);
            assert(f.push(line@).drop_last() =~= f);
        }
        i = i + 1;
    }
    assert(ls.take(n as int) =~= ls);
    let t = trimmed(&body);
    let t_len = t.len();
    let s = string_from_chars(t);
    let r = base64_decode(s.as_str());
    proof {
        if r is Ok {
            let d = r->Ok_0;
            lemma_base64_standard_len(d@);
            lemma_decoded_len_bound(d@.len(), t_len as nat);
            assert forall|e: Seq<u8>| #[trigger] base64_standard(e) == pem_body(pem@) implies d@
                == e by {
                lemma_base64_standard_injective(d@, e);
            }
        }
    }
    r
}

proof fn lemma_decoded_len_bound(n: nat, encoded: nat)
    requires
        encoded == 4 * ((n + 2) / 3),
        encoded <= usize::MAX,
    ensures
        n <= usize::MAX / 4 * 3,
{
    assert(n <= 3 * ((n + 2) / 3)) by (nonlinear_arith);
    assert((n + 2) / 3 <= usize::MAX / 4) by (nonlinear_arith)
        requires
            4 * ((n + 2) / 3) <= usize::MAX,
    ;
    assert(3 * ((n + 2) / 3) <= usize::MAX / 4 * 3) by (nonlinear_arith)
        requires
            (n + 2) / 3 <= usize::MAX / 4,
    ;
}

/// The vTPM quote part of the evidence, each field hex-encoded.
pub struct QuoteEvidence {
    pub signature: String,
    pub message: String,
    pub pcrs: Vec<String>,
}

/// Azure SEV-SNP evidence, in the shape that the `az-snp-vtpm` attester
/// emits (format version 1).
pub struct SevEvidence {
    pub version: u32,
    pub tpm_quote: QuoteEvidence,
    pub hcl_report: Vec<u8>,
    pub vcek: String,
}

/// The `vcek` field for a VCEK certificate fetched as `vcek_pem`: the base64
/// body of the PEM text when it is valid base64; empty when it is not, or
/// when no certificate could be fetched.
pub open spec fn vcek_field(vcek_pem: Option<Seq<char>>) -> Seq<char> {
    match vcek_pem {
        Some(p) => if is_base64_standard(pem_body(p)) {
            pem_body(p)
        } else {
            Seq::empty()
        },
        None => Seq::empty(),
    }
}

/// The hex renderings of a sequence of byte strings.
pub open spec fn hex_all(v: Seq<Vec<u8>>) -> Seq<Seq<char>> {
    v.map_values(|b: Vec<u8>| hex_lower(b@))
}

/// The views of a sequence of strings.
pub open spec fn string_views(v: Seq<String>) -> Seq<Seq<char>> {
    v.map_values(|s: String| s@)
}

/// Checks that `report_data` fits in a vTPM quote: at most
/// `MAX_REPORT_DATA_LEN` bytes.
pub fn check_report_data(report_data: &[u8]) -> (r: HalResult<()>)
    ensures
        r is Ok <==> report_data@.len() <= MAX_REPORT_DATA_LEN,
        r is Err ==> (r matches Err(HalError::InvalidParameter(m)) && m@
            == "report_data must be at most 64 bytes"@),
{
    if report_data.len() > MAX_REPORT_DATA_LEN {
        return Err(HalError::InvalidParameter(String::from_str("report_data must be at most 64 bytes")));
    }
    Ok(())
}

/// Whether the vTPM evidence source is usable: a vTPM device exists and the
/// probe for an SNP HCL report answered that the VM is an SEV-SNP CVM
/// (`None` when the probe failed).
pub fn evidence_source_usable(has_vtpm: bool, snp_probe: Option<bool>) -> (b: bool)
    ensures
        b == (has_vtpm && snp_probe == Some(true)),
{
    if !has_vtpm {
        return false;
    }
    match snp_probe {
        Some(is_snp) => is_snp,
        None => false,
    }
}

/// Assembles the evidence from what the vTPM and the instance metadata
/// service gave: the HCL report, the quote's signature, signed message and
/// SHA-256 PCR values, and the VCEK certificate as PEM text (`None` when it
/// could not be fetched).
pub fn assemble_evidence(
    hcl_report: Vec<u8>,
    signature: &[u8],
    message: &[u8],
    pcrs: &Vec<Vec<u8>>,
    vcek_pem: Option<&str>,
) -> (e: SevEvidence)
    ensures
        e.version == 1,
        e.tpm_quote.signature@ == hex_lower(signature@),
        e.tpm_quote.message@ == hex_lower(message@),
        string_views(e.tpm_quote.pcrs@) == hex_all(pcrs@),
        e.hcl_report@ == hcl_report@,
        e.vcek@ == vcek_field(
            match vcek_pem {
                Some(p) => Some(p@),
                None => None,
            },
        ),
{
    let mut pcr_hex: Vec<String> = Vec::new();
    let n = pcrs.len();
    let mut i: usize = 0;
    while i < n
        invariant
            n == pcrs@.len(),
            i <= n,
            string_views(pcr_hex@) == hex_all(pcrs@.take(i as int)),
        decreases n - i,
    {
        let h = hex_encode(pcrs[i].as_slice());
        let ghost before = pcr_hex@;
        pcr_hex.push(h);
        assert(string_views(pcr_hex@) =~= string_views(before).push(h@));
        assert(pcrs@.take(i + 1) =~= pcrs@.take(i as int).push(pcrs@[i as int]));
        assert(hex_all(pcrs@.take(i + 1)) =~= hex_all(pcrs@.take(i as int)).push(h@));
        i = i + 1;
    }
    assert(pcrs@.take(n as int) =~= pcrs@);
    let der: Vec<u8> = match vcek_pem {
        Some(p) => match base64_decode_pem(p) {
            Ok(d) => d,
            Err(_) => Vec::new(),
        },
        None => Vec::new(),
    };
    let vcek = base64_encode(der.as_slice());
    proof {
        match vcek_pem {
            Some(p) => {
                if !is_base64_standard(pem_body(p@)) {
                    assert(der@ =~= Seq::<u8>::empty());
                }
            },
            None => {},
        }
        assert(base64_standard(Seq::<u8>::empty()) =~= Seq::<char>::empty());
    }
    SevEvidence {
        version: 1,
        tpm_quote: QuoteEvidence {
            signature: hex_encode(signature),
            message: hex_encode(message),
            pcrs: pcr_hex,
        },
        hcl_report,
        vcek,
    }
}

} // verus!
