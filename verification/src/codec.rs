//! The wire codec: a flushed batch as the collector's JSON shape — an array
//! holding one array of span records — and a decoder that reads the identity
//! fields back out of that shape. Encoding is specified character by
//! character, and decoding an encoded batch provably returns the identities
//! that went in.

use crate::config::Config;
use crate::raw_span::{spec_raw_span, RawSpan, RawSpanModel};
use crate::span::Span;
use crate::strutil::{all_digits, dec_val, is_digit, spec_digit_val, string_push, u64_dec};
use crate::tags::TagMap;
use vstd::prelude::*;

verus! {

broadcast use vstd::utf8::char_u32_cast;

/// The character for one hexadecimal digit.
pub open spec fn spec_hex_char(d: int) -> char {
    if d < 10 {
        crate::strutil::spec_digit_char(d)
    } else if d == 10 {
        'a'
    } else if d == 11 {
        'b'
    } else if d == 12 {
        'c'
    } else if d == 13 {
        'd'
    } else if d == 14 {
        'e'
    } else {
        'f'
    }
}

/// The value of one hexadecimal digit character, or a negative number.
pub open spec fn spec_hex_val(c: char) -> int {
    if c == 'a' {
        10
    } else if c == 'b' {
        11
    } else if c == 'c' {
        12
    } else if c == 'd' {
        13
    } else if c == 'e' {
        14
    } else if c == 'f' {
        15
    } else {
        spec_digit_val(c)
    }
}

pub open spec fn is_hex(c: char) -> bool {
    spec_hex_val(c) >= 0
}

/// A JSON string escape: quotes and backslashes get a two-character escape,
/// control characters a `\u00XX` escape, and every other character stands
/// for itself.
pub open spec fn esc_char(c: char) -> Seq<char> {
    if c == '"' {
        seq!['\\', '"']
    } else if c == '\\' {
        seq!['\\', '\\']
    } else if (c as u32) < 0x20 {
        seq![
            '\\',
            'u',
            '0',
            '0',
            spec_hex_char((c as u32) as int / 16),
            spec_hex_char((c as u32) as int % 16),
        ]
    } else {
        seq![c]
    }
}

/// A character sequence, escaped for a JSON string body.
pub open spec fn esc(s: Seq<char>) -> Seq<char>
    decreases s.len(),
{
    if s.len() == 0 {
        Seq::<char>::empty()
    } else {
        esc_char(s[0]) + esc(s.drop_first())
    }
}

/// A JSON string: quote, escaped body, quote.
pub open spec fn ser_string(s: Seq<char>) -> Seq<char> {
    seq!['"'] + esc(s) + seq!['"']
}

/// A signed decimal.
pub open spec fn i64_dec(n: int) -> Seq<char> {
    if n < 0 {
        seq!['-'] + u64_dec((-n) as nat)
    } else {
        u64_dec(n as nat)
    }
}

/// One character, consumed.
pub open spec fn p_char(s: Seq<char>, c: char) -> Option<Seq<char>> {
    if s.len() > 0 && s[0] == c {
        Some(s.drop_first())
    } else {
        None
    }
}

/// An exact run of characters, consumed.
pub open spec fn p_lit(s: Seq<char>, l: Seq<char>) -> Option<Seq<char>> {
    if l.len() <= s.len() && s.take(l.len() as int) == l {
        Some(s.skip(l.len() as int))
    } else {
        None
    }
}

/// The length of the leading digit run.
pub open spec fn digit_prefix_len(s: Seq<char>) -> int
    decreases s.len(),
{
    if s.len() > 0 && is_digit(s[0]) {
        1 + digit_prefix_len(s.drop_first())
    } else {
        0
    }
}

/// An unsigned decimal that fits in a `u64`, consumed greedily.
pub open spec fn p_u64(s: Seq<char>) -> Option<(u64, Seq<char>)> {
    let n = digit_prefix_len(s);
    if n > 0 && dec_val(s.take(n)) <= u64::MAX {
        Some(((dec_val(s.take(n)) as u64), s.skip(n)))
    } else {
        None
    }
}

/// A possibly negative decimal that fits in an `i64`.
pub open spec fn p_i64(s: Seq<char>) -> Option<(i64, Seq<char>)> {
    if s.len() > 0 && s[0] == '-' {
        match p_u64(s.drop_first()) {
            Some((v, rest)) => if v <= 0x8000_0000_0000_0000u64 {
                Some(((-(v as int)) as i64, rest))
            } else {
                None
            },
            None => None,
        }
    } else {
        match p_u64(s) {
            Some((v, rest)) => if v <= i64::MAX as u64 {
                Some((v as i64, rest))
            } else {
                None
            },
            None => None,
        }
    }
}

/// A JSON string body up to its closing quote, unescaped.
pub open spec fn p_str_body(s: Seq<char>) -> Option<(Seq<char>, Seq<char>)>
    decreases s.len(),
{
    if s.len() == 0 {
        None
    } else if s[0] == '"' {
        Some((Seq::<char>::empty(), s.drop_first()))
    } else if s[0] == '\\' {
        if s.len() >= 2 && s[1] == '"' {
            match p_str_body(s.skip(2)) {
                Some((body, rest)) => Some((seq!['"'] + body, rest)),
                None => None,
            }
        } else if s.len() >= 2 && s[1] == '\\' {
            match p_str_body(s.skip(2)) {
                Some((body, rest)) => Some((seq!['\\'] + body, rest)),
                None => None,
            }
        } else if s.len() >= 6 && s[1] == 'u' && is_hex(s[2]) && is_hex(s[3]) && is_hex(s[4])
            && is_hex(s[5]) {
            let v = spec_hex_val(s[2]) * 4096 + spec_hex_val(s[3]) * 256 + spec_hex_val(s[4]) * 16
                + spec_hex_val(s[5]);
            if v < 0xD800 {
                match p_str_body(s.skip(6)) {
                    Some((body, rest)) => Some((seq![((v as u32) as char)] + body, rest)),
                    None => None,
                }
            } else {
                None
            }
        } else {
            None
        }
    } else {
        match p_str_body(s.drop_first()) {
            Some((body, rest)) => Some((seq![s[0]] + body, rest)),
            None => None,
        }
    }
}

/// A JSON string, quotes included.
pub open spec fn p_string(s: Seq<char>) -> Option<(Seq<char>, Seq<char>)> {
    match p_char(s, '"') {
        Some(s1) => p_str_body(s1),
        None => None,
    }
}

/// Consuming one character leaves the tail.
proof fn lemma_p_char(c: char, rest: Seq<char>)
    ensures
        p_char(seq![c] + rest, c) == Some(rest),
{
    assert((seq![c] + rest)[0] == c);
    assert((seq![c] + rest).drop_first() =~= rest);
}

/// Consuming a literal leaves the tail.
proof fn lemma_p_lit(l: Seq<char>, rest: Seq<char>)
    ensures
        p_lit(l + rest, l) == Some(rest),
{
    assert((l + rest).take(l.len() as int) =~= l);
    assert((l + rest).skip(l.len() as int) =~= rest);
}

/// A decimal followed by a non-digit parses back to the number.
proof fn lemma_digit_prefix_all(d: Seq<char>, rest: Seq<char>)
    requires
        all_digits(d),
        rest.len() == 0 || !is_digit(rest[0]),
    ensures
        digit_prefix_len(d + rest) == d.len(),
    decreases d.len(),
{
    if d.len() == 0 {
        assert(d + rest =~= rest);
        if rest.len() > 0 {
            assert(digit_prefix_len(rest) == 0);
        }
    } else {
        assert((d + rest)[0] == d[0]);
        assert(is_digit(d[0]));
        assert((d + rest).drop_first() =~= d.drop_first() + rest);
        assert(all_digits(d.drop_first())) by {
            assert(forall|i: int|
                0 <= i < d.drop_first().len() ==> d.drop_first()[i] == #[trigger] d[i + 1]);
        }
        lemma_digit_prefix_all(d.drop_first(), rest);
    }
}

/// Round trip for unsigned decimals.
proof fn lemma_p_u64(x: u64, rest: Seq<char>)
    requires
        rest.len() == 0 || !is_digit(rest[0]),
    ensures
        p_u64(u64_dec(x as nat) + rest) == Some((x, rest)),
{
    crate::strutil::lemma_u64_dec_val(x as nat);
    lemma_digit_prefix_all(u64_dec(x as nat), rest);
    let s = u64_dec(x as nat) + rest;
    let n = u64_dec(x as nat).len() as int;
    assert(s.take(n) =~= u64_dec(x as nat));
    assert(s.skip(n) =~= rest);
}

/// Round trip for signed decimals.
proof fn lemma_p_i64(x: i64, rest: Seq<char>)
    requires
        rest.len() == 0 || !is_digit(rest[0]),
    ensures
        p_i64(i64_dec(x as int) + rest) == Some((x, rest)),
{
    if x < 0 {
        let mag = (-(x as int)) as nat;
        let s = i64_dec(x as int) + rest;
        assert(i64_dec(x as int) == seq!['-'] + u64_dec(mag));
        assert(s =~= seq!['-'] + (u64_dec(mag) + rest));
        assert(s[0] == '-');
        assert(!is_digit('-'));
        assert(s.drop_first() =~= u64_dec(mag) + rest);
        lemma_p_u64((mag) as u64, rest);
        assert(p_u64(s.drop_first()) == Some(((mag) as u64, rest)));
    } else {
        let s = i64_dec(x as int) + rest;
        assert(s =~= u64_dec(x as nat) + rest);
        lemma_p_u64(x as u64, rest);
        assert(s.len() > 0 ==> s[0] != '-') by {
            crate::strutil::lemma_u64_dec_val(x as nat);
            assert(s[0] == u64_dec(x as nat)[0]);
            assert(is_digit(u64_dec(x as nat)[0]));
            assert(!is_digit('-'));
        }
    }
}

/// Round trip for string bodies: an escaped body followed by its closing
/// quote unescapes to the original characters.
proof fn lemma_p_str_body(s: Seq<char>, rest: Seq<char>)
    ensures
        p_str_body(esc(s) + seq!['"'] + rest) == Some((s, rest)),
    decreases s.len(),
{
    if s.len() == 0 {
        assert(esc(s) + seq!['"'] + rest =~= seq!['"'] + rest);
        assert((seq!['"'] + rest)[0] == '"');
        assert((seq!['"'] + rest).drop_first() =~= rest);
    } else {
        let c = s[0];
        let tail = esc(s.drop_first()) + seq!['"'] + rest;
        let w = esc(s) + seq!['"'] + rest;
        assert(w =~= esc_char(c) + tail);
        lemma_p_str_body(s.drop_first(), rest);
        if c == '"' {
            assert(w[0] == '\\');
            assert(w[1] == '"');
            assert(w.len() >= 2);
            assert(w.skip(2) =~= tail);
            assert(seq!['"'] + s.drop_first() =~= s);
        } else if c == '\\' {
            assert(w[0] == '\\');
            assert(w[1] == '\\');
            assert(w.skip(2) =~= tail);
            assert(seq!['\\'] + s.drop_first() =~= s);
        } else if (c as u32) < 0x20 {
            let v = (c as u32) as int;
            assert(w[0] == '\\');
            assert(w[1] == 'u');
            assert(w[2] == '0');
            assert(w[3] == '0');
            assert(w[4] == spec_hex_char(v / 16));
            assert(w[5] == spec_hex_char(v % 16));
            assert(w.len() >= 6);
            assert(spec_hex_val('0') == 0);
            assert(spec_hex_val(spec_hex_char(v / 16)) == v / 16);
            assert(spec_hex_val(spec_hex_char(v % 16)) == v % 16);
            assert((v / 16) * 16 + (v % 16) == v);
            assert(w.skip(6) =~= tail);
            assert((v as u32) == (c as u32));
            vstd::utf8::char_u32_cast(c, v as u32);
            assert(((v as u32) as char) == c);
            assert(seq![c] + s.drop_first() =~= s);
        } else {
            assert(w[0] == c);
            assert(c != '"' && c != '\\');
            assert(w.drop_first() =~= tail);
            assert(seq![c] + s.drop_first() =~= s);
        }
    }
}

/// Round trip for whole strings.
proof fn lemma_p_string(s: Seq<char>, rest: Seq<char>)
    ensures
        p_string(ser_string(s) + rest) == Some((s, rest)),
{
    let w = ser_string(s) + rest;
    assert(w =~= seq!['"'] + (esc(s) + seq!['"'] + rest));
    lemma_p_char('"', esc(s) + seq!['"'] + rest);
    lemma_p_str_body(s, rest);
}

/// A number notation after any leading minus sign.
pub open spec fn num_body(s: Seq<char>) -> Seq<char> {
    if s.len() > 0 && s[0] == '-' {
        s.drop_first()
    } else {
        s
    }
}

/// The wire text of a number: an optional minus sign, digits, and an
/// optional dot with more digits. This is the shape the encoder accepts for
/// a metrics value.
pub open spec fn is_json_number(s: Seq<char>) -> bool {
    let b = num_body(s);
    ||| (b.len() > 0 && all_digits(b))
    ||| (exists|i: int|
        1 <= i <= b.len() - 2 && #[trigger] b[i] == '.' && all_digits(b.take(i)) && all_digits(
            b.skip(i + 1),
        ))
}

/// A number in the shape above, consumed and discarded.
pub open spec fn p_json_num(s: Seq<char>) -> Option<Seq<char>> {
    let b = num_body(s);
    let n = digit_prefix_len(b);
    if n == 0 {
        None
    } else {
        let r1 = b.skip(n);
        if r1.len() > 0 && r1[0] == '.' {
            let f = r1.drop_first();
            let n2 = digit_prefix_len(f);
            if n2 == 0 {
                None
            } else {
                Some(f.skip(n2))
            }
        } else {
            Some(r1)
        }
    }
}

/// Skipping an encoded number consumes exactly its text.
proof fn lemma_p_json_num(v: Seq<char>, rest: Seq<char>)
    requires
        is_json_number(v),
        rest.len() > 0,
        !is_digit(rest[0]),
        rest[0] != '.',
        rest[0] != '-',
    ensures
        p_json_num(v + rest) == Some(rest),
{
    let b = num_body(v);
    assert(b.len() > 0);
    let w = v + rest;
    let bw = num_body(w);
    assert(v.len() > 0);
    assert(w[0] == v[0]);
    assert(bw =~= b + rest) by {
        if v[0] == '-' {
            assert(w.drop_first() =~= v.drop_first() + rest);
        }
    }
    if b.len() > 0 && all_digits(b) {
        lemma_digit_prefix_all(b, rest);
        assert(digit_prefix_len(bw) == b.len());
        assert(bw.skip(b.len() as int) =~= rest);
    } else {
        let i = choose|i: int|
            1 <= i <= b.len() - 2 && #[trigger] b[i] == '.' && all_digits(b.take(i)) && all_digits(
                b.skip(i + 1),
            );
        let dotted = seq!['.'] + (b.skip(i + 1) + rest);
        assert(bw =~= b.take(i) + dotted);
        assert(!is_digit('.'));
        lemma_digit_prefix_all(b.take(i), dotted);
        assert(digit_prefix_len(bw) == i);
        assert(i > 0);
        let r1 = bw.skip(i);
        assert(r1 =~= dotted);
        assert(r1[0] == '.');
        assert(r1.drop_first() =~= b.skip(i + 1) + rest);
        lemma_digit_prefix_all(b.skip(i + 1), rest);
        assert(digit_prefix_len(r1.drop_first()) == b.skip(i + 1).len());
        assert(b.skip(i + 1).len() > 0);
        assert(r1.drop_first().skip(b.skip(i + 1).len() as int) =~= rest);
    }
}

/// One `"key":"value"` pair.
pub open spec fn ser_str_entry(k: Seq<char>, v: Seq<char>) -> Seq<char> {
    ser_string(k) + seq![':'] + ser_string(v)
}

/// One `"key":number` pair; the value is emitted as it stands.
pub open spec fn ser_num_entry(k: Seq<char>, v: Seq<char>) -> Seq<char> {
    ser_string(k) + seq![':'] + v
}

/// The entries of an object after its opening brace, closing brace
/// included; `string_values` selects between string-valued and
/// number-valued objects.
pub open spec fn ser_obj_entries(m: crate::tags::TagSeq, first: bool, string_values: bool) -> Seq<
    char,
>
    decreases m.len(),
{
    if m.len() == 0 {
        seq!['}']
    } else {
        (if first {
            Seq::<char>::empty()
        } else {
            seq![',']
        }) + (if string_values {
            ser_str_entry(m[0].0, m[0].1)
        } else {
            ser_num_entry(m[0].0, m[0].1)
        }) + ser_obj_entries(m.drop_first(), false, string_values)
    }
}

/// A whole object.
pub open spec fn ser_obj(m: crate::tags::TagSeq, string_values: bool) -> Seq<char> {
    seq!['{'] + ser_obj_entries(m, true, string_values)
}

/// The entries of an object after its opening brace; values are strings or
/// numbers by `string_values`; the parsed entries are discarded.
pub open spec fn p_obj_entries(s: Seq<char>, string_values: bool) -> Option<Seq<char>>
    decreases s.len(),
{
    match p_string(s) {
        None => None,
        Some((_k, s1)) => match p_char(s1, ':') {
            None => None,
            Some(s2) => {
                let after = if string_values {
                    match p_string(s2) {
                        Some((_v, s3)) => Some(s3),
                        None => None,
                    }
                } else {
                    p_json_num(s2)
                };
                match after {
                    None => None,
                    Some(s3) => if s3.len() > 0 && s3[0] == ',' {
                        let s4 = s3.drop_first();
                        if s4.len() < s.len() {
                            p_obj_entries(s4, string_values)
                        } else {
                            None
                        }
                    } else {
                        match p_char(s3, '}') {
                            Some(s4) => Some(s4),
                            None => None,
                        }
                    },
                }
            },
        },
    }
}

/// A whole object, discarded.
pub open spec fn p_obj(s: Seq<char>, string_values: bool) -> Option<Seq<char>> {
    match p_char(s, '{') {
        None => None,
        Some(s1) => if s1.len() > 0 && s1[0] == '}' {
            Some(s1.drop_first())
        } else {
            p_obj_entries(s1, string_values)
        },
    }
}

/// Every value of a number-valued object has the wire shape of a number.
pub open spec fn num_values_ok(m: crate::tags::TagSeq) -> bool {
    forall|i: int| 0 <= i < m.len() ==> is_json_number((#[trigger] m[i]).1)
}

/// Round trip for object entries.
#[verifier::rlimit(100)]
proof fn lemma_p_obj_entries_any(m: crate::tags::TagSeq, string_values: bool, rest: Seq<char>)
    requires
        m.len() > 0,
        string_values || num_values_ok(m),
    ensures
        p_obj_entries(ser_obj_entries(m, true, string_values) + rest, string_values) == Some(rest),
    decreases m.len(),
{
    let k = m[0].0;
    let v = m[0].1;
    let entry = if string_values {
        ser_str_entry(k, v)
    } else {
        ser_num_entry(k, v)
    };
    let w = ser_obj_entries(m, true, string_values) + rest;
    let tail_ser = ser_obj_entries(m.drop_first(), false, string_values);
    assert(w =~= entry + (tail_ser + rest));
    let after_colon = if string_values {
        ser_string(v) + (tail_ser + rest)
    } else {
        v + (tail_ser + rest)
    };
    assert(w =~= ser_string(k) + (seq![':'] + after_colon));
    lemma_p_string(k, seq![':'] + after_colon);
    lemma_p_char(':', after_colon);
    if string_values {
        lemma_p_string(v, tail_ser + rest);
    } else {
        assert(is_json_number(v));
        assert((tail_ser + rest).len() > 0 ==> {
            &&& !is_digit((tail_ser + rest)[0])
            &&& (tail_ser + rest)[0] != '.'
            &&& (tail_ser + rest)[0] != '-'
        }) by {
            if m.drop_first().len() == 0 {
                assert(tail_ser == seq!['}']);
                assert((tail_ser + rest)[0] == '}');
            } else {
                assert((tail_ser + rest)[0] == ',');
            }
        }
        assert(tail_ser.len() > 0);
        lemma_p_json_num(v, tail_ser + rest);
    }
    let s3 = tail_ser + rest;
    if m.drop_first().len() == 0 {
        assert(tail_ser == seq!['}']);
        assert(s3[0] == '}');
        assert(s3[0] != ',');
        lemma_p_char('}', rest);
        assert(s3 =~= seq!['}'] + rest);
    } else {
        assert(s3[0] == ',');
        let s4 = s3.drop_first();
        assert(num_values_ok(m) ==> num_values_ok(m.drop_first())) by {
            assert(forall|i: int|
                0 <= i < m.drop_first().len() ==> m.drop_first()[i] == #[trigger] m[i + 1]);
        }
        assert(s4 =~= ser_obj_entries(m.drop_first(), false, string_values).drop_first() + rest);
        assert(ser_obj_entries(m.drop_first(), false, string_values) =~= seq![',']
            + ser_obj_entries(m.drop_first(), true, string_values)) by {
            lemma_ser_obj_entries_first(m.drop_first(), string_values);
        }
        assert(s4 =~= ser_obj_entries(m.drop_first(), true, string_values) + rest);
        lemma_p_obj_entries_any(m.drop_first(), string_values, rest);
        assert(s4.len() < w.len());
    }
}

/// A non-first run of entries is a comma then the first-run form.
proof fn lemma_ser_obj_entries_first(m: crate::tags::TagSeq, string_values: bool)
    requires
        m.len() > 0,
    ensures
        ser_obj_entries(m, false, string_values) == seq![','] + ser_obj_entries(
            m,
            true,
            string_values,
        ),
{
    assert(ser_obj_entries(m, false, string_values) =~= seq![','] + ser_obj_entries(
        m,
        true,
        string_values,
    ));
}

/// Round trip for objects.
proof fn lemma_p_obj(m: crate::tags::TagSeq, string_values: bool, rest: Seq<char>)
    requires
        string_values || num_values_ok(m),
    ensures
        p_obj(ser_obj(m, string_values) + rest, string_values) == Some(rest),
{
    let w = ser_obj(m, string_values) + rest;
    assert(w =~= seq!['{'] + (ser_obj_entries(m, true, string_values) + rest));
    lemma_p_char('{', ser_obj_entries(m, true, string_values) + rest);
    let s1 = ser_obj_entries(m, true, string_values) + rest;
    if m.len() == 0 {
        assert(s1 =~= seq!['}'] + rest);
        assert(s1[0] == '}');
        assert(s1.drop_first() =~= rest);
    } else {
        assert(s1[0] != '}') by {
            assert(ser_obj_entries(m, true, string_values)[0] == ser_string(m[0].0)[0]);
            assert(ser_string(m[0].0)[0] == '"');
        }
        lemma_p_obj_entries_any(m, string_values, rest);
    }
}

/// An optional span identity: a number, or `null` for the root.
pub open spec fn ser_opt_u64(p: Option<u64>) -> Seq<char> {
    match p {
        Some(x) => u64_dec(x as nat),
        None => "null"@,
    }
}

pub open spec fn p_opt_u64(s: Seq<char>) -> Option<(Option<u64>, Seq<char>)> {
    if s.len() > 0 && s[0] == 'n' {
        match p_lit(s, "null"@) {
            Some(r) => Some((None, r)),
            None => None,
        }
    } else {
        match p_u64(s) {
            Some((v, r)) => Some((Some(v), r)),
            None => None,
        }
    }
}

proof fn lemma_p_opt_u64(p: Option<u64>, rest: Seq<char>)
    requires
        rest.len() == 0 || !is_digit(rest[0]),
    ensures
        p_opt_u64(ser_opt_u64(p) + rest) == Some((p, rest)),
{
    reveal_strlit("null");
    match p {
        Some(x) => {
            let w = u64_dec(x as nat) + rest;
            crate::strutil::lemma_u64_dec_val(x as nat);
            assert(w[0] == u64_dec(x as nat)[0]);
            assert(is_digit(w[0]));
            assert(w[0] != 'n');
            lemma_p_u64(x, rest);
        },
        None => {
            let w = "null"@ + rest;
            assert(w[0] == 'n');
            lemma_p_lit("null"@, rest);
        },
    }
}

/// The identity fields the decoder keeps of one record: span id, trace id,
/// parent id, name.
pub type SpanIdentity = (u64, u64, Option<u64>, Seq<char>);

/// The identity half of a record: service, name, resource, and the three
/// ids.
pub open spec fn ser_span_head(r: crate::raw_span::RawSpanModel) -> Seq<char> {
    "{\"service\":"@ + ser_string(r.service) + ",\"name\":"@ + ser_string(r.name)
        + ",\"resource\":"@ + ser_string(r.resource) + ",\"trace_id\":"@ + u64_dec(
        r.trace_id as nat,
    ) + ",\"span_id\":"@ + u64_dec(r.span_id as nat) + ",\"parent_id\":"@ + ser_opt_u64(
        r.parent_id,
    )
}

/// The remaining half of a record: times, error flag, tables, type.
pub open spec fn ser_span_tail(r: crate::raw_span::RawSpanModel) -> Seq<char> {
    ",\"start\":"@ + i64_dec(r.start as int) + ",\"duration\":"@ + i64_dec(r.duration as int)
        + ",\"error\":"@ + i64_dec(r.error as int) + ",\"meta\":"@ + ser_obj(r.meta, true)
        + ",\"metrics\":"@ + ser_obj(r.metrics, false) + ",\"type\":"@ + ser_string(r.span_type)
        + seq!['}']
}

/// One record in the collector's shape: every field of the span, keys in a
/// fixed order, `span_type` under the wire key `type`.
#[verifier::opaque]
pub open spec fn ser_span(r: crate::raw_span::RawSpanModel) -> Seq<char> {
    ser_span_head(r) + ser_span_tail(r)
}

/// The identity prefix of a record: service, name and resource strings, then
/// the three identities.
#[verifier::opaque]
pub open spec fn p_span_head(s: Seq<char>) -> Option<(SpanIdentity, Seq<char>)> {
    match p_lit(s, "{\"service\":"@) {
        None => None,
        Some(s1) => match p_string(s1) {
            None => None,
            Some((_service, s2)) => match p_lit(s2, ",\"name\":"@) {
                None => None,
                Some(s3) => match p_string(s3) {
                    None => None,
                    Some((name, s4)) => match p_lit(s4, ",\"resource\":"@) {
                        None => None,
                        Some(s5) => match p_string(s5) {
                            None => None,
                            Some((_resource, s6)) => match p_lit(s6, ",\"trace_id\":"@) {
                                None => None,
                                Some(s7) => match p_u64(s7) {
                                    None => None,
                                    Some((trace_id, s8)) => match p_lit(s8, ",\"span_id\":"@) {
                                        None => None,
                                        Some(s9) => match p_u64(s9) {
                                            None => None,
                                            Some((span_id, s10)) => match p_lit(
                                                s10,
                                                ",\"parent_id\":"@,
                                            ) {
                                                None => None,
                                                Some(s11) => match p_opt_u64(s11) {
                                                    None => None,
                                                    Some((parent_id, s12)) => Some(
                                                        ((span_id, trace_id, parent_id, name), s12),
                                                    ),
                                                },
                                            },
                                        },
                                    },
                                },
                            },
                        },
                    },
                },
            },
        },
    }
}

/// The rest of a record: times, error flag, the two tables, the type, and
/// the closing brace.
#[verifier::opaque]
pub open spec fn p_span_tail(s: Seq<char>) -> Option<Seq<char>> {
    match p_lit(s, ",\"start\":"@) {
        None => None,
        Some(s1) => match p_i64(s1) {
            None => None,
            Some((_start, s2)) => match p_lit(s2, ",\"duration\":"@) {
                None => None,
                Some(s3) => match p_i64(s3) {
                    None => None,
                    Some((_duration, s4)) => match p_lit(s4, ",\"error\":"@) {
                        None => None,
                        Some(s5) => match p_i64(s5) {
                            None => None,
                            Some((_error, s6)) => match p_lit(s6, ",\"meta\":"@) {
                                None => None,
                                Some(s7) => match p_obj(s7, true) {
                                    None => None,
                                    Some(s8) => match p_lit(s8, ",\"metrics\":"@) {
                                        None => None,
                                        Some(s9) => match p_obj(s9, false) {
                                            None => None,
                                            Some(s10) => match p_lit(s10, ",\"type\":"@) {
                                                None => None,
                                                Some(s11) => match p_string(s11) {
                                                    None => None,
                                                    Some((_ty, s12)) => p_char(s12, '}'),
                                                },
                                            },
                                        },
                                    },
                                },
                            },
                        },
                    },
                },
            },
        },
    }
}

/// One whole record; only the identity fields are kept.
pub open spec fn p_span(s: Seq<char>) -> Option<(SpanIdentity, Seq<char>)> {
    match p_span_head(s) {
        None => None,
        Some((t, s1)) => match p_span_tail(s1) {
            None => None,
            Some(s2) => Some((t, s2)),
        },
    }
}

/// The identity of one record model.
pub open spec fn identity_of(r: crate::raw_span::RawSpanModel) -> SpanIdentity {
    (r.span_id, r.trace_id, r.parent_id, r.name)
}

/// Round trip for the identity half.
#[verifier::rlimit(100)]
proof fn lemma_p_span_head(r: crate::raw_span::RawSpanModel, rest: Seq<char>)
    requires
        rest.len() == 0 || !is_digit(rest[0]),
    ensures
        p_span_head(ser_span_head(r) + rest) == Some((identity_of(r), rest)),
{
    reveal(p_span_head);
    reveal_strlit(",\"name\":");
    reveal_strlit(",\"resource\":");
    reveal_strlit(",\"trace_id\":");
    reveal_strlit(",\"span_id\":");
    reveal_strlit(",\"parent_id\":");
    let w = ser_span_head(r) + rest;
    let t3p = ser_opt_u64(r.parent_id) + rest;
    let t3 = ",\"parent_id\":"@ + t3p;
    let t2s = u64_dec(r.span_id as nat) + t3;
    let t2 = ",\"span_id\":"@ + t2s;
    let t1t = u64_dec(r.trace_id as nat) + t2;
    let t1 = ",\"trace_id\":"@ + t1t;
    let t0r = ser_string(r.resource) + t1;
    let t0 = ",\"resource\":"@ + t0r;
    let tn = ser_string(r.name) + t0;
    let tk = ",\"name\":"@ + tn;
    let ts = ser_string(r.service) + tk;
    assert(w =~= "{\"service\":"@ + ts);
    lemma_p_lit("{\"service\":"@, ts);
    lemma_p_string(r.service, tk);
    lemma_p_lit(",\"name\":"@, tn);
    lemma_p_string(r.name, t0);
    lemma_p_lit(",\"resource\":"@, t0r);
    lemma_p_string(r.resource, t1);
    lemma_p_lit(",\"trace_id\":"@, t1t);
    lemma_p_u64(r.trace_id, t2);
    assert(t2[0] == ',');
    lemma_p_lit(",\"span_id\":"@, t2s);
    lemma_p_u64(r.span_id, t3);
    assert(t3[0] == ',');
    lemma_p_lit(",\"parent_id\":"@, t3p);
    lemma_p_opt_u64(r.parent_id, rest);
}

/// Round trip for the remaining half.
#[verifier::rlimit(100)]
proof fn lemma_p_span_tail(r: crate::raw_span::RawSpanModel, rest: Seq<char>)
    requires
        num_values_ok(r.metrics),
    ensures
        p_span_tail(ser_span_tail(r) + rest) == Some(rest),
{
    reveal(p_span_tail);
    reveal_strlit(",\"start\":");
    reveal_strlit(",\"duration\":");
    reveal_strlit(",\"error\":");
    reveal_strlit(",\"meta\":");
    reveal_strlit(",\"metrics\":");
    reveal_strlit(",\"type\":");
    let w = ser_span_tail(r) + rest;
    let t13 = seq!['}'] + rest;
    let t12 = ser_string(r.span_type) + t13;
    let t11 = ",\"type\":"@ + t12;
    let t10 = ser_obj(r.metrics, false) + t11;
    let t9 = ",\"metrics\":"@ + t10;
    let t8 = ser_obj(r.meta, true) + t9;
    let t7 = ",\"meta\":"@ + t8;
    let t6e = i64_dec(r.error as int) + t7;
    let t6 = ",\"error\":"@ + t6e;
    let t5d = i64_dec(r.duration as int) + t6;
    let t5 = ",\"duration\":"@ + t5d;
    let t4s = i64_dec(r.start as int) + t5;
    assert(w =~= ",\"start\":"@ + t4s);
    lemma_p_lit(",\"start\":"@, t4s);
    lemma_p_i64(r.start, t5);
    assert(t5[0] == ',');
    lemma_p_lit(",\"duration\":"@, t5d);
    lemma_p_i64(r.duration, t6);
    assert(t6[0] == ',');
    lemma_p_lit(",\"error\":"@, t6e);
    lemma_p_i64(r.error as i64, t7);
    assert(i64_dec((r.error as i64) as int) == i64_dec(r.error as int));
    assert(t7[0] == ',');
    lemma_p_lit(",\"meta\":"@, t8);
    lemma_p_obj(r.meta, true, t9);
    lemma_p_lit(",\"metrics\":"@, t10);
    lemma_p_obj(r.metrics, false, t11);
    lemma_p_lit(",\"type\":"@, t12);
    lemma_p_string(r.span_type, t13);
    lemma_p_char('}', rest);
}

/// Round trip for one record.
proof fn lemma_p_span(r: crate::raw_span::RawSpanModel, rest: Seq<char>)
    requires
        num_values_ok(r.metrics),
        rest.len() == 0 || !is_digit(rest[0]),
    ensures
        p_span(ser_span(r) + rest) == Some((identity_of(r), rest)),
{
    reveal(ser_span);
    let w = ser_span(r) + rest;
    let mid = ser_span_tail(r) + rest;
    assert(w =~= ser_span_head(r) + mid);
    assert(mid.len() == 0 || !is_digit(mid[0])) by {
        reveal_strlit(",\"start\":");
        assert(mid[0] == ',');
    }
    lemma_p_span_head(r, mid);
    lemma_p_span_tail(r, rest);
}

/// The records of a trace after the opening bracket, closing bracket
/// included.
pub open spec fn ser_span_list_rest(rs: Seq<crate::raw_span::RawSpanModel>) -> Seq<char>
    decreases rs.len(),
{
    if rs.len() == 0 {
        seq![']']
    } else {
        seq![','] + ser_span(rs[0]) + ser_span_list_rest(rs.drop_first())
    }
}

/// One trace as a record array.
pub open spec fn ser_span_list(rs: Seq<crate::raw_span::RawSpanModel>) -> Seq<char> {
    if rs.len() == 0 {
        seq!['[', ']']
    } else {
        seq!['['] + ser_span(rs[0]) + ser_span_list_rest(rs.drop_first())
    }
}

/// The whole wire body: an array holding one trace array.
pub open spec fn spec_encode_batch(rs: Seq<crate::raw_span::RawSpanModel>) -> Seq<char> {
    seq!['['] + ser_span_list(rs) + seq![']']
}

/// Records after the first of a trace array, closing bracket included.
pub open spec fn p_spans(s: Seq<char>) -> Option<(Seq<SpanIdentity>, Seq<char>)>
    decreases s.len(),
{
    match p_span(s) {
        None => None,
        Some((t, s1)) => if s1.len() > 0 && s1[0] == ',' {
            let s2 = s1.drop_first();
            if s2.len() < s.len() {
                match p_spans(s2) {
                    None => None,
                    Some((ts, s3)) => Some((seq![t] + ts, s3)),
                }
            } else {
                None
            }
        } else {
            match p_char(s1, ']') {
                Some(s2) => Some((seq![t], s2)),
                None => None,
            }
        },
    }
}

/// One trace array.
pub open spec fn p_span_list(s: Seq<char>) -> Option<(Seq<SpanIdentity>, Seq<char>)> {
    match p_char(s, '[') {
        None => None,
        Some(s1) => if s1.len() > 0 && s1[0] == ']' {
            Some((Seq::<SpanIdentity>::empty(), s1.drop_first()))
        } else {
            p_spans(s1)
        },
    }
}

/// The identities of a whole wire body; `None` unless the text is exactly
/// one batch.
pub open spec fn spec_decode_identities(s: Seq<char>) -> Option<Seq<SpanIdentity>> {
    match p_char(s, '[') {
        None => None,
        Some(s1) => match p_span_list(s1) {
            None => None,
            Some((ts, s2)) => match p_char(s2, ']') {
                None => None,
                Some(s3) => if s3.len() == 0 {
                    Some(ts)
                } else {
                    None
                },
            },
        },
    }
}

/// The identities of a run of record models.
pub open spec fn identities_of(rs: Seq<crate::raw_span::RawSpanModel>) -> Seq<SpanIdentity> {
    Seq::new(rs.len(), |i: int| identity_of(rs[i]))
}

/// Every record's metrics values have the wire shape of numbers.
pub open spec fn batch_metrics_ok(rs: Seq<crate::raw_span::RawSpanModel>) -> bool {
    forall|i: int| 0 <= i < rs.len() ==> num_values_ok((#[trigger] rs[i]).metrics)
}

/// An encoded record is non-empty and opens with a brace.
proof fn lemma_ser_span_shape(r: crate::raw_span::RawSpanModel)
    ensures
        ser_span(r).len() > 0,
        ser_span(r)[0] == '{',
        !is_digit(ser_span(r)[0]),
{
    reveal(ser_span);
    reveal_strlit("{\"service\":");
    assert(ser_span(r)[0] == "{\"service\":"@[0]);
    assert(ser_span(r).len() >= "{\"service\":"@.len());
}

/// Round trip for a non-empty run of records.
#[verifier::rlimit(100)]
#[verifier::spinoff_prover]
proof fn lemma_p_spans(rs: Seq<crate::raw_span::RawSpanModel>, rest: Seq<char>)
    requires
        rs.len() > 0,
        batch_metrics_ok(rs),
        rest.len() == 0 || !is_digit(rest[0]),
    ensures
        p_spans(ser_span(rs[0]) + ser_span_list_rest(rs.drop_first()) + rest) == Some(
            (identities_of(rs), rest),
        ),
    decreases rs.len(),
{
    let w = ser_span(rs[0]) + ser_span_list_rest(rs.drop_first()) + rest;
    let tail = ser_span_list_rest(rs.drop_first()) + rest;
    assert(w =~= ser_span(rs[0]) + tail);
    assert(tail.len() > 0);
    assert(!is_digit(tail[0]) && tail[0] != '.') by {
        if rs.drop_first().len() == 0 {
            assert(tail[0] == ']');
        } else {
            assert(tail[0] == ',');
        }
    }
    lemma_p_span(rs[0], tail);
    lemma_ser_span_shape(rs[0]);
    if rs.drop_first().len() == 0 {
        assert(tail =~= seq![']'] + rest);
        assert(tail[0] == ']');
        lemma_p_char(']', rest);
        assert(identities_of(rs) =~= seq![identity_of(rs[0])]);
    } else {
        assert(tail[0] == ',');
        let s2 = tail.drop_first();
        assert(s2 =~= ser_span(rs.drop_first()[0]) + ser_span_list_rest(
            rs.drop_first().drop_first(),
        ) + rest);
        assert(batch_metrics_ok(rs.drop_first())) by {
            assert(forall|i: int|
                0 <= i < rs.drop_first().len() ==> rs.drop_first()[i] == #[trigger] rs[i + 1]);
        }
        lemma_p_spans(rs.drop_first(), rest);
        assert(s2.len() < w.len());
        assert(identities_of(rs) =~= seq![identity_of(rs[0])] + identities_of(rs.drop_first()));
    }
}

/// Decoding an encoded batch returns exactly the identities of the records
/// that were encoded.
#[verifier::rlimit(100)]
pub proof fn lemma_batch_round_trip(rs: Seq<crate::raw_span::RawSpanModel>)
    requires
        batch_metrics_ok(rs),
    ensures
        spec_decode_identities(spec_encode_batch(rs)) == Some(identities_of(rs)),
{
    let w = spec_encode_batch(rs);
    assert(w =~= seq!['['] + (ser_span_list(rs) + seq![']']));
    lemma_p_char('[', ser_span_list(rs) + seq![']']);
    let s1 = ser_span_list(rs) + seq![']'];
    if rs.len() == 0 {
        assert(s1 =~= seq!['['] + (seq![']'] + seq![']']));
        lemma_p_char('[', seq![']'] + seq![']']);
        assert((seq![']'] + seq![']'])[0] == ']');
        assert((seq![']'] + seq![']']).drop_first() =~= seq![']']);
        lemma_p_char(']', Seq::<char>::empty());
        assert(seq![']'] =~= seq![']'] + Seq::<char>::empty());
        assert(identities_of(rs) =~= Seq::<SpanIdentity>::empty());
    } else {
        assert(s1 =~= seq!['['] + (ser_span(rs[0]) + ser_span_list_rest(rs.drop_first()) + seq![
            ']'
        ]));
        lemma_p_char('[', ser_span(rs[0]) + ser_span_list_rest(rs.drop_first()) + seq![']']);
        let inner = ser_span(rs[0]) + ser_span_list_rest(rs.drop_first()) + seq![']'];
        lemma_ser_span_shape(rs[0]);
        assert(inner[0] == '{');
        assert(!is_digit(']'));
        lemma_p_spans(rs, seq![']']);
        lemma_p_char(']', Seq::<char>::empty());
        assert(seq![']'] =~= seq![']'] + Seq::<char>::empty());
    }
}

/// The one failure the encoder can report: a metrics value that is not the
/// wire text of a number.
#[derive(Debug)]
pub enum EncodeError {
    InvalidMetricValue,
}

impl EncodeError {
    /// A short description for logs.
    pub fn message(&self) -> (r: &'static str)
        ensures
            r@ == "a metrics value is not the wire text of a number"@,
    {
        "a metrics value is not the wire text of a number"
    }
}

fn hex_digit_char(d: u8) -> (c: char)
    requires
        d < 16,
    ensures
        c == spec_hex_char(d as int),
{
    match d {
        0 => '0',
        1 => '1',
        2 => '2',
        3 => '3',
        4 => '4',
        5 => '5',
        6 => '6',
        7 => '7',
        8 => '8',
        9 => '9',
        10 => 'a',
        11 => 'b',
        12 => 'c',
        13 => 'd',
        14 => 'e',
        _ => 'f',
    }
}

/// Appends one escaped character.
fn push_char_escaped(out: &mut String, c: char)
    ensures
        final(out)@ == old(out)@ + esc_char(c),
{
    if c == '"' {
        string_push(out, '\\');
        string_push(out, '"');
        proof {
            assert(out@ =~= old(out)@ + esc_char(c));
        }
    } else if c == '\\' {
        string_push(out, '\\');
        string_push(out, '\\');
        proof {
            assert(out@ =~= old(out)@ + esc_char(c));
        }
    } else {
        let v = c as u32;
        if v < 0x20 {
            string_push(out, '\\');
            string_push(out, 'u');
            string_push(out, '0');
            string_push(out, '0');
            string_push(out, hex_digit_char((v / 16) as u8));
            string_push(out, hex_digit_char((v % 16) as u8));
            proof {
                assert(out@ =~= old(out)@ + esc_char(c));
            }
        } else {
            string_push(out, c);
            proof {
                assert(out@ =~= old(out)@ + esc_char(c));
            }
        }
    }
}

/// Escaping one more character at the end.
proof fn lemma_esc_snoc(a: Seq<char>, c: char)
    ensures
        esc(a.push(c)) == esc(a) + esc_char(c),
    decreases a.len(),
{
    if a.len() == 0 {
        assert(a.push(c)[0] == c);
        let d = a.push(c).drop_first();
        assert(d =~= Seq::<char>::empty());
        assert(esc(d) == Seq::<char>::empty());
        assert(esc(a) == Seq::<char>::empty());
        assert(esc(a.push(c)) == esc_char(c) + esc(d));
        assert(esc(a.push(c)) =~= esc(a) + esc_char(c));
    } else {
        assert(a.push(c)[0] == a[0]);
        assert(a.push(c).drop_first() =~= a.drop_first().push(c));
        lemma_esc_snoc(a.drop_first(), c);
        assert(esc(a.push(c)) == esc_char(a[0]) + esc(a.drop_first().push(c)));
        assert(esc(a) == esc_char(a[0]) + esc(a.drop_first()));
        assert(esc(a.push(c)) =~= esc(a) + esc_char(c));
    }
}

/// Appends a JSON string, quotes and escapes included.
fn push_json_string(out: &mut String, s: &str)
    ensures
        final(out)@ == old(out)@ + ser_string(s@),
{
    string_push(out, '"');
    let n = s.unicode_len();
    let mut i: usize = 0;
    while i < n
        invariant
            n == s@.len(),
            0 <= i <= n,
            out@ == old(out)@ + seq!['"'] + esc(s@.take(i as int)),
        decreases n - i,
    {
        let c = s.get_char(i);
        push_char_escaped(out, c);
        proof {
            assert(s@.take(i + 1) =~= s@.take(i as int).push(s@[i as int]));
            lemma_esc_snoc(s@.take(i as int), s@[i as int]);
        }
        i += 1;
    }
    string_push(out, '"');
    proof {
        assert(s@.take(n as int) =~= s@);
        assert(out@ =~= old(out)@ + ser_string(s@));
    }
}

/// Appends an unsigned decimal.
fn push_u64(out: &mut String, n: u64)
    ensures
        final(out)@ == old(out)@ + u64_dec(n as nat),
{
    let d = crate::strutil::u64_to_dec(n);
    out.append(d.as_str());
}

/// Appends a signed decimal.
fn push_i64(out: &mut String, n: i64)
    ensures
        final(out)@ == old(out)@ + i64_dec(n as int),
{
    if n >= 0 {
        push_u64(out, n as u64);
    } else {
        string_push(out, '-');
        let mag: u64 = if n == i64::MIN {
            0x8000_0000_0000_0000u64
        } else {
            (-n) as u64
        };
        push_u64(out, mag);
        proof {
            assert(mag as nat == (-(n as int)) as nat);
            assert(out@ =~= old(out)@ + i64_dec(n as int));
        }
    }
}

/// Appends an object; values are JSON strings when `string_values`, else
/// they are appended as they stand.
fn push_obj(out: &mut String, m: &TagMap, string_values: bool)
    ensures
        final(out)@ == old(out)@ + ser_obj(m@, string_values),
{
    string_push(out, '{');
    proof {
        assert(m@.skip(0) =~= m@);
        assert(out@ + ser_obj_entries(m@.skip(0), true, string_values) =~= old(out)@ + ser_obj(
            m@,
            string_values,
        ));
    }
    let n = m.entries.len();
    let mut i: usize = 0;
    while i < n
        invariant
            n == m@.len(),
            m.entries@.len() == n,
            0 <= i <= n,
            out@ + ser_obj_entries(m@.skip(i as int), i == 0, string_values) =~= old(out)@
                + ser_obj(m@, string_values),
        decreases n - i,
    {
        let ghost pre = out@;
        let ghost suffix = m@.skip(i as int);
        if i > 0 {
            string_push(out, ',');
        }
        push_json_string(out, m.entries[i].0.as_str());
        string_push(out, ':');
        if string_values {
            push_json_string(out, m.entries[i].1.as_str());
        } else {
            out.append(m.entries[i].1.as_str());
        }
        proof {
            assert(suffix[0] == m@[i as int]);
            assert(suffix.drop_first() =~= m@.skip(i + 1));
            assert(ser_obj_entries(suffix, i == 0, string_values) == (if i == 0 {
                Seq::<char>::empty()
            } else {
                seq![',']
            }) + (if string_values {
                ser_str_entry(m@[i as int].0, m@[i as int].1)
            } else {
                ser_num_entry(m@[i as int].0, m@[i as int].1)
            }) + ser_obj_entries(m@.skip(i + 1), false, string_values));
            assert(out@ + ser_obj_entries(m@.skip(i + 1), false, string_values) =~= pre
                + ser_obj_entries(suffix, i == 0, string_values));
            assert(out@ + ser_obj_entries(m@.skip(i + 1), false, string_values) =~= old(out)@
                + ser_obj(m@, string_values));
        }
        i += 1;
    }
    string_push(out, '}');
    proof {
        assert(m@.skip(n as int) =~= Seq::<(Seq<char>, Seq<char>)>::empty());
        assert(ser_obj_entries(m@.skip(n as int), n == 0, string_values) == seq!['}']);
        assert(out@ =~= old(out)@ + ser_obj(m@, string_values));
    }
}

/// Appends one whole record.
#[verifier::rlimit(100)]
#[verifier::spinoff_prover]
fn push_raw_span(out: &mut String, r: &RawSpan)
    ensures
        final(out)@ == old(out)@ + ser_span(r@),
{
    out.append("{\"service\":");
    push_json_string(out, r.service.as_str());
    out.append(",\"name\":");
    push_json_string(out, r.name.as_str());
    out.append(",\"resource\":");
    push_json_string(out, r.resource.as_str());
    out.append(",\"trace_id\":");
    push_u64(out, r.trace_id);
    out.append(",\"span_id\":");
    push_u64(out, r.span_id);
    out.append(",\"parent_id\":");
    match r.parent_id {
        Some(p) => push_u64(out, p),
        None => out.append("null"),
    }
    out.append(",\"start\":");
    push_i64(out, r.start);
    out.append(",\"duration\":");
    push_i64(out, r.duration);
    out.append(",\"error\":");
    push_i64(out, r.error as i64);
    out.append(",\"meta\":");
    push_obj(out, &r.meta, true);
    out.append(",\"metrics\":");
    push_obj(out, &r.metrics, false);
    out.append(",\"type\":");
    push_json_string(out, r.span_type.as_str());
    string_push(out, '}');
    proof {
        reveal(ser_span);
        assert(i64_dec((r.error as i64) as int) == i64_dec(r@.error as int));
        assert(out@ =~= old(out)@ + ser_span(r@));
    }
}

/// The metrics texts a configuration will stamp on every record are numbers.
pub open spec fn spec_metrics_text_ok(apm: crate::apm_config::ApmModel) -> bool {
    apm.apm_enabled ==> (is_json_number(apm.sample_priority) && is_json_number(apm.sample_rate))
}

/// The record models of a batch under a configuration.
pub open spec fn spec_batch_models(spans: Seq<Span>, c: crate::config::ConfigModel) -> Seq<
    RawSpanModel,
> {
    Seq::new(spans.len(), |i: int| spec_raw_span(spans[i]@, c))
}

/// Good metrics text makes every record of every batch acceptable.
pub proof fn lemma_metrics_text_ok_batch(spans: Seq<Span>, c: crate::config::ConfigModel)
    requires
        spec_metrics_text_ok(c.apm),
    ensures
        batch_metrics_ok(spec_batch_models(spans, c)),
{
    let rs = spec_batch_models(spans, c);
    assert forall|i: int| 0 <= i < rs.len() implies num_values_ok((#[trigger] rs[i]).metrics) by {
        let m = rs[i].metrics;
        assert(m == crate::raw_span::spec_fill_metrics(c.apm));
        if c.apm.apm_enabled {
            assert forall|j: int| 0 <= j < m.len() implies is_json_number((#[trigger] m[j]).1) by {
                if j == 0 {
                    assert(m[j].1 == c.apm.sample_priority);
                } else {
                    assert(m[j].1 == c.apm.sample_rate);
                }
            }
        }
    }
}

/// Encodes a flushed batch as the collector expects it: one array holding
/// one array of records, one record per span, in order. Fails exactly when
/// the configured metrics values are not wire numbers.
pub fn encode_batch(spans: &Vec<Span>, config: &Config) -> (r: Result<String, EncodeError>)
    ensures
        match r {
            Ok(out) => out@ == spec_encode_batch(spec_batch_models(spans@, config@))
                && spec_metrics_text_ok(config@.apm),
            Err(_) => !spec_metrics_text_ok(config@.apm),
        },
{
    if config.apm_config().apm_enabled() {
        if !is_json_number_str(config.apm_config().sample_priority()) {
            return Err(EncodeError::InvalidMetricValue);
        }
        if !is_json_number_str(config.apm_config().sample_rate()) {
            return Err(EncodeError::InvalidMetricValue);
        }
    }
    let ghost models = spec_batch_models(spans@, config@);
    let mut out = String::new();
    string_push(&mut out, '[');
    string_push(&mut out, '[');
    let n = spans.len();
    let mut i: usize = 0;
    if n == 0 {
        string_push(&mut out, ']');
        string_push(&mut out, ']');
        proof {
            assert(models.len() == 0);
            assert(out@ =~= spec_encode_batch(models));
        }
        return Ok(out);
    }
    let first = RawSpan::from(&spans[0], config);
    push_raw_span(&mut out, &first);
    proof {
        assert(first@ == models[0]);
        assert(out@ =~= seq!['['] + seq!['['] + ser_span(models[0]));
    }
    i = 1;
    while i < n
        invariant
            n == spans@.len(),
            n == models.len(),
            models == spec_batch_models(spans@, config@),
            1 <= i <= n,
            out@ + ser_span_list_rest(models.skip(i as int)) + seq![']'] =~= spec_encode_batch(
                models,
            ),
        decreases n - i,
    {
        let ghost pre = out@;
        string_push(&mut out, ',');
        let rs = RawSpan::from(&spans[i], config);
        push_raw_span(&mut out, &rs);
        proof {
            assert(rs@ == models[i as int]);
            let suffix = models.skip(i as int);
            assert(suffix[0] == models[i as int]);
            assert(suffix.drop_first() =~= models.skip(i + 1));
            assert(ser_span_list_rest(suffix) == seq![','] + ser_span(models[i as int])
                + ser_span_list_rest(models.skip(i + 1)));
            assert(out@ + ser_span_list_rest(models.skip(i + 1)) + seq![']'] =~= pre
                + ser_span_list_rest(suffix) + seq![']']);
        }
        i += 1;
    }
    string_push(&mut out, ']');
    string_push(&mut out, ']');
    proof {
        assert(models.skip(n as int) =~= Seq::<RawSpanModel>::empty());
        assert(ser_span_list_rest(models.skip(n as int)) == seq![']']);
        assert(out@ =~= spec_encode_batch(models));
    }
    Ok(out)
}

/// Decides whether a text has the wire shape of a number: an optional minus
/// sign, digits, and an optional dot with more digits.
pub fn is_json_number_str(s: &str) -> (r: bool)
    ensures
        r == is_json_number(s@),
{
    let len = s.unicode_len();
    let start: usize = if len > 0 && s.get_char(0) == '-' {
        1
    } else {
        0
    };
    let ghost b = num_body(s@);
    proof {
        assert(b.len() == len - start);
        assert(forall|q: int| 0 <= q < b.len() ==> #[trigger] b[q] == s@[start + q]);
    }
    let mut i: usize = start;
    while i < len && digit_at(s, i)
        invariant
            len == s@.len(),
            start <= i <= len,
            start <= 1,
            b == num_body(s@),
            b.len() == len - start,
            forall|q: int| 0 <= q < b.len() ==> #[trigger] b[q] == s@[start + q],
            forall|q: int| 0 <= q < i - start ==> is_digit(#[trigger] b[q]),
        decreases len - i,
    {
        i += 1;
    }
    if i == start {
        proof {
            if b.len() > 0 {
                assert(!is_digit(b[0]));
            }
            assert(!(b.len() > 0 && all_digits(b)));
            assert forall|q: int| !(1 <= q <= b.len() - 2 && #[trigger] b[q] == '.' && all_digits(
                b.take(q),
            ) && all_digits(b.skip(q + 1))) by {
                if 1 <= q <= b.len() - 2 && all_digits(b.take(q)) {
                    assert(b.take(q)[0] == b[0]);
                    assert(is_digit(b[0]));
                }
            }
        }
        return false;
    }
    if i == len {
        proof {
            assert(all_digits(b));
        }
        return true;
    }
    if s.get_char(i) != '.' {
        proof {
            lemma_not_number(b, i - start);
        }
        return false;
    }
    let dot = i;
    if dot + 1 == len {
        proof {
            lemma_not_number(b, dot - start);
        }
        return false;
    }
    let mut j = dot + 1;
    while j < len && digit_at(s, j)
        invariant
            len == s@.len(),
            start <= 1,
            start < dot < len,
            dot + 1 <= j <= len,
            b == num_body(s@),
            b.len() == len - start,
            forall|q: int| 0 <= q < b.len() ==> #[trigger] b[q] == s@[start + q],
            forall|q: int| 0 <= q < dot - start ==> is_digit(#[trigger] b[q]),
            b[dot - start] == '.',
            forall|q: int| dot - start < q < j - start ==> is_digit(#[trigger] b[q]),
        decreases len - j,
    {
        j += 1;
    }
    if j == len && j > dot + 1 {
        proof {
            let d = dot - start;
            assert(all_digits(b.take(d))) by {
                assert(forall|q: int| 0 <= q < d ==> b.take(d)[q] == #[trigger] b[q]);
            }
            assert(all_digits(b.skip(d + 1))) by {
                assert(forall|q: int|
                    0 <= q < b.skip(d + 1).len() ==> b.skip(d + 1)[q] == #[trigger] b[q + d + 1]);
            }
            assert(1 <= d <= b.len() - 2 && b[d] == '.');
            assert(exists|q: int|
                #![auto]
                1 <= q <= b.len() - 2 && b[q] == '.' && all_digits(b.take(q)) && all_digits(
                    b.skip(q + 1),
                )) by {
                assert(1 <= d as int <= b.len() - 2 && b[d as int] == '.' && all_digits(
                    b.take(d as int),
                ) && all_digits(b.skip(d as int + 1)));
            }
            assert(is_json_number(s@));
        }
        return true;
    }
    proof {
        let d = dot - start;
        assert(j < len);
        assert(!is_digit(b[d]));
        assert(!(b.len() > 0 && all_digits(b)));
        lemma_not_number_dotted(b, d, j - start);
    }
    false
}

/// `s[i]` exists and is a digit.
fn digit_at(s: &str, i: usize) -> (r: bool)
    requires
        i < s@.len(),
    ensures
        r == is_digit(s@[i as int]),
{
    let c = s.get_char(i);
    match c {
        '0' | '1' | '2' | '3' | '4' | '5' | '6' | '7' | '8' | '9' => true,
        _ => false,
    }
}

/// A text whose first non-digit is not a dot is not a number, and neither is
/// one that ends at its dot.
proof fn lemma_not_number(b: Seq<char>, d: int)
    requires
        0 <= d < b.len(),
        !is_digit(b[d]),
        forall|q: int| 0 <= q < d ==> is_digit(#[trigger] b[q]),
        b[d] == '.' ==> d == b.len() - 1 || d == 0,
    ensures
        !(b.len() > 0 && all_digits(b)),
        !(exists|q: int|
            1 <= q <= b.len() - 2 && #[trigger] b[q] == '.' && all_digits(b.take(q)) && all_digits(
                b.skip(q + 1),
            )),
{
    assert forall|q: int| !(1 <= q <= b.len() - 2 && #[trigger] b[q] == '.' && all_digits(
        b.take(q),
    ) && all_digits(b.skip(q + 1))) by {
        if 1 <= q <= b.len() - 2 && b[q] == '.' && all_digits(b.take(q)) && all_digits(
            b.skip(q + 1),
        ) {
            if q < d {
                assert(is_digit(b[q]));
                assert(!is_digit('.'));
            } else if q == d {
            } else {
                assert(b.take(q)[d] == b[d]);
                assert(is_digit(b.take(q)[d]));
            }
        }
    }
}

/// A dotted text with a non-digit after the dot is not a number.
proof fn lemma_not_number_dotted(b: Seq<char>, d: int, j: int)
    requires
        0 <= d < b.len(),
        b[d] == '.',
        forall|q: int| 0 <= q < d ==> is_digit(#[trigger] b[q]),
        forall|q: int| d < q < j ==> is_digit(#[trigger] b[q]),
        d < j <= b.len(),
        j < b.len() ==> !is_digit(b[j]),
        j == b.len() ==> j == d + 1,
    ensures
        !(exists|q: int|
            1 <= q <= b.len() - 2 && #[trigger] b[q] == '.' && all_digits(b.take(q)) && all_digits(
                b.skip(q + 1),
            )),
{
    assert forall|q: int| !(1 <= q <= b.len() - 2 && #[trigger] b[q] == '.' && all_digits(
        b.take(q),
    ) && all_digits(b.skip(q + 1))) by {
        if 1 <= q <= b.len() - 2 && b[q] == '.' && all_digits(b.take(q)) && all_digits(
            b.skip(q + 1),
        ) {
            if q < d {
                assert(is_digit(b[q]));
                assert(!is_digit('.'));
            } else if q > d {
                assert(b.take(q)[d] == b[d]);
                assert(is_digit(b.take(q)[d]));
                assert(!is_digit('.'));
            } else {
                if j < b.len() {
                    assert(b.skip(q + 1)[j - q - 1] == b[j]);
                    assert(is_digit(b.skip(q + 1)[j - q - 1]));
                } else {
                    assert(q == b.len() - 1 || b.skip(q + 1).len() == 0);
                }
            }
        }
    }
}


} // verus!
