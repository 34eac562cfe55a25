//! The executable decoder for the wire shape: it walks an encoded batch and
//! returns the identity fields of every record, exactly as the spec parser
//! in `codec` reads them.

use crate::codec::{
    digit_prefix_len, is_hex, num_body as wire_num_body, p_char, p_i64, p_json_num, p_lit, p_obj, p_obj_entries,
    p_opt_u64, p_span, p_span_head, p_span_tail, p_spans, p_span_list, p_str_body, p_string, p_u64,
    spec_decode_identities, spec_hex_val, SpanIdentity,
};
use crate::strutil::{all_digits, dec_val, is_digit, spec_digit_val, string_push};
use vstd::prelude::*;

verus! {

broadcast use vstd::utf8::char_u32_cast;

/// The identity fields of one decoded record.
pub struct SpanIdent {
    pub span_id: u64,
    pub trace_id: u64,
    pub parent_id: Option<u64>,
    pub name: String,
}

impl View for SpanIdent {
    type V = SpanIdentity;

    open spec fn view(&self) -> SpanIdentity {
        (self.span_id, self.trace_id, self.parent_id, self.name@)
    }
}

/// Produces the character for a Unicode scalar value.
///
/// Relies on `char::from_u32` from std: `Some` exactly on scalar values
/// (not a surrogate, at most `0x10FFFF`), and the character casts back to
/// the argument.
#[verifier::external_body]
fn char_from_u32(v: u32) -> (r: Option<char>)
    ensures
        (r is Some) <==> (v < 0xD800 || (0xE000 <= v && v < 0x110000)),
        r matches Some(c) ==> (c as u32) == v,
{
    char::from_u32(v)
}

/// The tail after `pos` loses its head to become the tail after `pos + 1`.
proof fn lemma_skip_step(s: Seq<char>, pos: int)
    requires
        0 <= pos < s.len(),
    ensures
        s.skip(pos)[0] == s[pos],
        s.skip(pos).drop_first() =~= s.skip(pos + 1),
{
}

/// One expected character.
fn d_char(s: &str, pos: usize, c: char) -> (r: Option<usize>)
    requires
        pos <= s@.len(),
    ensures
        match r {
            Some(p2) => pos < p2 <= s@.len() && p_char(s@.skip(pos as int), c) == Some(
                s@.skip(p2 as int),
            ),
            None => p_char(s@.skip(pos as int), c) is None,
        },
{
    if pos < s.unicode_len() && s.get_char(pos) == c {
        proof {
            lemma_skip_step(s@, pos as int);
        }
        Some(pos + 1)
    } else {
        None
    }
}

/// An expected literal run.
fn d_lit(s: &str, pos: usize, l: &str) -> (r: Option<usize>)
    requires
        pos <= s@.len(),
    ensures
        match r {
            Some(p2) => pos < p2 <= s@.len() && l@.len() > 0 && p_lit(s@.skip(pos as int), l@)
                == Some(s@.skip(p2 as int)),
            None => l@.len() > 0 ==> p_lit(s@.skip(pos as int), l@) is None,
        },
{
    let n = l.unicode_len();
    if n == 0 {
        return None;
    }
    let len = s.unicode_len();
    if n > len - pos {
        return None;
    }
    let mut j: usize = 0;
    while j < n
        invariant
            n == l@.len(),
            len == s@.len(),
            pos + n <= len,
            0 <= j <= n,
            forall|q: int| 0 <= q < j ==> s@[pos + q] == #[trigger] l@[q],
        decreases n - j,
    {
        if s.get_char(pos + j) != l.get_char(j) {
            proof {
                assert(s@.skip(pos as int).take(n as int)[j as int] == s@[pos + j]);
                assert(s@.skip(pos as int).take(n as int) != l@);
            }
            return None;
        }
        j += 1;
    }
    proof {
        assert(s@.skip(pos as int).take(n as int) =~= l@);
        assert(s@.skip(pos as int).skip(n as int) =~= s@.skip(pos + n));
    }
    Some(pos + n)
}

/// The end of the digit run starting at `pos`.
fn d_digit_run(s: &str, pos: usize) -> (end: usize)
    requires
        pos <= s@.len(),
    ensures
        pos <= end <= s@.len(),
        forall|q: int| pos <= q < end ==> is_digit(#[trigger] s@[q]),
        end < s@.len() ==> !is_digit(s@[end as int]),
{
    let len = s.unicode_len();
    let mut i = pos;
    while i < len
        invariant
            len == s@.len(),
            pos <= i <= len,
            forall|q: int| pos <= q < i ==> is_digit(#[trigger] s@[q]),
        decreases len - i,
    {
        match s.get_char(i) {
            '0' | '1' | '2' | '3' | '4' | '5' | '6' | '7' | '8' | '9' => {},
            _ => {
                return i;
            },
        }
        i += 1;
    }
    len
}

/// A digit run at an index is the spec's leading digit run of the tail.
proof fn lemma_dpl(t: Seq<char>, k: int)
    requires
        0 <= k <= t.len(),
        forall|q: int| 0 <= q < k ==> is_digit(#[trigger] t[q]),
        k < t.len() ==> !is_digit(t[k]),
    ensures
        digit_prefix_len(t) == k,
    decreases k,
{
    if k == 0 {
    } else {
        assert(is_digit(t[0]));
        assert(forall|q: int|
            0 <= q < k - 1 ==> t.drop_first()[q] == #[trigger] t[q + 1]);
        if k - 1 < t.drop_first().len() {
            assert(t.drop_first()[k - 1] == t[k]);
        }
        lemma_dpl(t.drop_first(), k - 1);
    }
}

/// An unsigned decimal, consumed greedily.
fn d_u64(s: &str, pos: usize) -> (r: Option<(u64, usize)>)
    requires
        pos <= s@.len(),
    ensures
        match r {
            Some((v, p2)) => pos < p2 <= s@.len() && p_u64(s@.skip(pos as int)) == Some(
                (v, s@.skip(p2 as int)),
            ),
            None => p_u64(s@.skip(pos as int)) is None,
        },
{
    let ghost rest = s@.skip(pos as int);
    let end = d_digit_run(s, pos);
    proof {
        assert(forall|q: int| 0 <= q < end - pos ==> #[trigger] rest[q] == s@[pos + q]);
        lemma_dpl(rest, end - pos);
    }
    if end == pos {
        return None;
    }
    let mut acc: u64 = 0;
    let mut j = pos;
    while j < end
        invariant
            pos <= j <= end <= s@.len(),
            rest == s@.skip(pos as int),
            forall|q: int| pos <= q < end ==> is_digit(#[trigger] s@[q]),
            forall|q: int| 0 <= q < end - pos ==> #[trigger] rest[q] == s@[pos + q],
            digit_prefix_len(rest) == end - pos,
            acc == dec_val(rest.take(j - pos)),
        decreases end - j,
    {
        let c = s.get_char(j);
        let d: u64 = match c {
            '0' => 0,
            '1' => 1,
            '2' => 2,
            '3' => 3,
            '4' => 4,
            '5' => 5,
            '6' => 6,
            '7' => 7,
            '8' => 8,
            '9' => 9,
            _ => {
                proof {
                    assert(is_digit(s@[j as int]));
                    assert(false);
                }
                0
            },
        };
        let next = match acc.checked_mul(10) {
            Some(m) => m.checked_add(d),
            None => None,
        };
        match next {
            Some(v) => {
                acc = v;
                proof {
                    let t = rest.take(j - pos + 1);
                    assert(t.drop_last() =~= rest.take(j - pos));
                    assert(t.last() == rest[j - pos]);
                    assert(rest[j - pos] == s@[j as int]);
                }
            },
            None => {
                proof {
                    let t = rest.take(j - pos + 1);
                    assert(t.drop_last() =~= rest.take(j - pos));
                    assert(t.last() == rest[j - pos]);
                    assert(rest[j - pos] == s@[j as int]);
                    assert(dec_val(t) == acc * 10 + spec_digit_val(s@[j as int]));
                    assert(dec_val(t) > u64::MAX);
                    let full = rest.take(end - pos);
                    assert(all_digits(full)) by {
                        assert(forall|q: int|
                            0 <= q < full.len() ==> full[q] == #[trigger] rest[q]);
                    }
                    assert(full.take(j - pos + 1) =~= t);
                    crate::strutil::lemma_dec_val_prefix(full, j - pos + 1);
                    assert(dec_val(rest.take(digit_prefix_len(rest))) > u64::MAX);
                }
                return None;
            },
        }
        j += 1;
    }
    proof {
        assert(rest.take(end - pos) == rest.take(digit_prefix_len(rest)));
        assert(rest.skip(end - pos) =~= s@.skip(end as int));
    }
    Some((acc, end))
}

/// A possibly negative decimal.
fn d_i64(s: &str, pos: usize) -> (r: Option<(i64, usize)>)
    requires
        pos <= s@.len(),
    ensures
        match r {
            Some((v, p2)) => pos < p2 <= s@.len() && p_i64(s@.skip(pos as int)) == Some(
                (v, s@.skip(p2 as int)),
            ),
            None => p_i64(s@.skip(pos as int)) is None,
        },
{
    let len = s.unicode_len();
    if pos < len && s.get_char(pos) == '-' {
        proof {
            lemma_skip_step(s@, pos as int);
        }
        match d_u64(s, pos + 1) {
            Some((v, p2)) => {
                if v <= 0x8000_0000_0000_0000u64 {
                    let out: i64 = if v == 0x8000_0000_0000_0000u64 {
                        i64::MIN
                    } else {
                        -(v as i64)
                    };
                    proof {
                        assert(out as int == -(v as int));
                    }
                    Some((out, p2))
                } else {
                    None
                }
            },
            None => None,
        }
    } else {
        match d_u64(s, pos) {
            Some((v, p2)) => {
                if v <= i64::MAX as u64 {
                    Some((v as i64, p2))
                } else {
                    None
                }
            },
            None => None,
        }
    }
}

/// A decimal or the word `null`.
fn d_opt_u64(s: &str, pos: usize) -> (r: Option<(Option<u64>, usize)>)
    requires
        pos <= s@.len(),
    ensures
        match r {
            Some((v, p2)) => pos < p2 <= s@.len() && p_opt_u64(s@.skip(pos as int)) == Some(
                (v, s@.skip(p2 as int)),
            ),
            None => p_opt_u64(s@.skip(pos as int)) is None,
        },
{
    let len = s.unicode_len();
    if pos < len && s.get_char(pos) == 'n' {
        proof {
            lemma_skip_step(s@, pos as int);
        }
        match d_lit(s, pos, "null") {
            Some(p2) => Some((None, p2)),
            None => {
                proof {
                    reveal_strlit("null");
                }
                None
            },
        }
    } else {
        proof {
            if pos < s@.len() {
                lemma_skip_step(s@, pos as int);
            }
        }
        match d_u64(s, pos) {
            Some((v, p2)) => Some((Some(v), p2)),
            None => None,
        }
    }
}

/// A JSON string, unescaped.
fn d_string(s: &str, pos: usize) -> (r: Option<(String, usize)>)
    requires
        pos <= s@.len(),
    ensures
        match r {
            Some((v, p2)) => pos < p2 <= s@.len() && p_string(s@.skip(pos as int)) == Some(
                (v@, s@.skip(p2 as int)),
            ),
            None => p_string(s@.skip(pos as int)) is None,
        },
{
    let len = s.unicode_len();
    if !(pos < len && s.get_char(pos) == '"') {
        return None;
    }
    proof {
        lemma_skip_step(s@, pos as int);
        assert(p_string(s@.skip(pos as int)) == p_str_body(s@.skip(pos + 1)));
    }
    let body_start = pos + 1;
    let mut out = String::new();
    let mut cur = body_start;
    proof {
        if p_str_body(s@.skip(body_start as int)) is Some {
            let (x, rest) = p_str_body(s@.skip(body_start as int))->Some_0;
            assert(out@ + x =~= x);
        }
    }
    loop
        invariant
            len == s@.len(),
            body_start <= cur <= len,
            body_start == pos + 1,
            pos < len,
            s@[pos as int] == '"',
            p_string(s@.skip(pos as int)) == p_str_body(s@.skip(body_start as int)),
            match p_str_body(s@.skip(cur as int)) {
                Some((x, rest)) => p_str_body(s@.skip(body_start as int)) == Some(
                    (out@ + x, rest),
                ),
                None => p_str_body(s@.skip(body_start as int)) is None,
            },
        decreases len - cur,
    {
        if cur == len {
            proof {
                assert(s@.skip(cur as int).len() == 0);
            }
            return None;
        }
        let c = s.get_char(cur);
        proof {
            lemma_skip_step(s@, cur as int);
        }
        if c == '"' {
            proof {
                assert(p_str_body(s@.skip(cur as int)) == Some(
                    (Seq::<char>::empty(), s@.skip(cur + 1)),
                ));
                assert(out@ + Seq::<char>::empty() =~= out@);
            }
            return Some((out, cur + 1));
        } else if c == '\\' {
            if cur + 1 == len {
                proof {
                    assert(s@.skip(cur as int).len() == 1);
                    assert(p_str_body(s@.skip(cur as int)) is None);
                }
                return None;
            }
            let c2 = s.get_char(cur + 1);
            proof {
                assert(s@.skip(cur as int)[1] == s@[cur + 1]);
                assert(s@.skip(cur as int).skip(2) =~= s@.skip(cur + 2));
            }
            if c2 == '"' || c2 == '\\' {
                let ghost pre = out@;
                string_push(&mut out, c2);
                proof {
                    if p_str_body(s@.skip(cur + 2)) is Some {
                        let (x, rest) = p_str_body(s@.skip(cur + 2))->Some_0;
                        assert(p_str_body(s@.skip(cur as int)) == Some((seq![c2] + x, rest)));
                        assert(out@ + x =~= pre + (seq![c2] + x));
                    } else {
                        assert(p_str_body(s@.skip(cur as int)) is None);
                    }
                }
                cur = cur + 2;
            } else if c2 == 'u' {
                if len - cur < 6 {
                    proof {
                        assert(s@.skip(cur as int).len() < 6);
                        assert(p_str_body(s@.skip(cur as int)) is None);
                    }
                    return None;
                }
                let h0 = hex_val(s.get_char(cur + 2));
                let h1 = hex_val(s.get_char(cur + 3));
                let h2 = hex_val(s.get_char(cur + 4));
                let h3 = hex_val(s.get_char(cur + 5));
                proof {
                    assert(s@.skip(cur as int)[2] == s@[cur + 2]);
                    assert(s@.skip(cur as int)[3] == s@[cur + 3]);
                    assert(s@.skip(cur as int)[4] == s@[cur + 4]);
                    assert(s@.skip(cur as int)[5] == s@[cur + 5]);
                    assert(s@.skip(cur as int).skip(6) =~= s@.skip(cur + 6));
                }
                match (h0, h1, h2, h3) {
                    (Some(a), Some(b), Some(cc), Some(d)) => {
                        let v: u32 = (a as u32) * 4096 + (b as u32) * 256 + (cc as u32) * 16 + (
                        d as u32);
                        if v >= 0xD800 {
                            return None;
                        }
                        match char_from_u32(v) {
                            Some(ch) => {
                                let ghost pre = out@;
                                string_push(&mut out, ch);
                                proof {
                                    vstd::utf8::char_u32_cast(ch, v);
                                    assert(((v as u32) as char) == ch);
                                    if p_str_body(s@.skip(cur + 6)) is Some {
                                        let (x, rest) = p_str_body(s@.skip(cur + 6))->Some_0;
                                        assert(p_str_body(s@.skip(cur as int)) == Some(
                                            (seq![ch] + x, rest),
                                        ));
                                        assert(out@ + x =~= pre + (seq![ch] + x));
                                    } else {
                                        assert(p_str_body(s@.skip(cur as int)) is None);
                                    }
                                }
                                cur = cur + 6;
                            },
                            None => {
                                proof {
                                    assert(false);
                                }
                                return None;
                            },
                        }
                    },
                    _ => {
                        return None;
                    },
                }
            } else {
                return None;
            }
        } else {
            let ghost pre = out@;
            string_push(&mut out, c);
            proof {
                if p_str_body(s@.skip(cur + 1)) is Some {
                    let (x, rest) = p_str_body(s@.skip(cur + 1))->Some_0;
                    assert(p_str_body(s@.skip(cur as int)) == Some((seq![c] + x, rest)));
                    assert(out@ + x =~= pre + (seq![c] + x));
                } else {
                    assert(p_str_body(s@.skip(cur as int)) is None);
                }
            }
            cur = cur + 1;
        }
    }
}

/// One hexadecimal digit's value.
fn hex_val(c: char) -> (r: Option<u8>)
    ensures
        match r {
            Some(d) => d == spec_hex_val(c) && d < 16,
            None => !is_hex(c),
        },
{
    match c {
        '0' => Some(0),
        '1' => Some(1),
        '2' => Some(2),
        '3' => Some(3),
        '4' => Some(4),
        '5' => Some(5),
        '6' => Some(6),
        '7' => Some(7),
        '8' => Some(8),
        '9' => Some(9),
        'a' => Some(10),
        'b' => Some(11),
        'c' => Some(12),
        'd' => Some(13),
        'e' => Some(14),
        'f' => Some(15),
        _ => None,
    }
}

/// A number in the wire shape, consumed and discarded.
fn d_json_num(s: &str, pos: usize) -> (r: Option<usize>)
    requires
        pos <= s@.len(),
    ensures
        match r {
            Some(p2) => pos < p2 <= s@.len() && p_json_num(s@.skip(pos as int)) == Some(
                s@.skip(p2 as int),
            ),
            None => p_json_num(s@.skip(pos as int)) is None,
        },
{
    let len = s.unicode_len();
    let ghost rest = s@.skip(pos as int);
    let start: usize = if pos < len && s.get_char(pos) == '-' {
        pos + 1
    } else {
        pos
    };
    let ghost b = wire_num_body(rest);
    proof {
        if pos < len {
            lemma_skip_step(s@, pos as int);
        }
        assert(b =~= s@.skip(start as int));
    }
    let end = d_digit_run(s, start);
    proof {
        assert(forall|q: int| 0 <= q < b.len() ==> #[trigger] b[q] == s@[start + q]);
        lemma_dpl(b, end - start);
    }
    if end == start {
        return None;
    }
    proof {
        assert(b.skip(end - start) =~= s@.skip(end as int));
    }
    if end < len && s.get_char(end) == '.' {
        proof {
            lemma_skip_step(s@, end as int);
        }
        let f_start = end + 1;
        let f_end = d_digit_run(s, f_start);
        proof {
            let f = s@.skip(end as int).drop_first();
            assert(f =~= s@.skip(f_start as int));
            assert(forall|q: int| 0 <= q < f.len() ==> #[trigger] f[q] == s@[f_start + q]);
            lemma_dpl(f, f_end - f_start);
        }
        if f_end == f_start {
            return None;
        }
        proof {
            assert(s@.skip(f_start as int).skip(f_end - f_start) =~= s@.skip(f_end as int));
        }
        Some(f_end)
    } else {
        proof {
            if end < len {
                assert(s@.skip(end as int)[0] == s@[end as int]);
            }
        }
        Some(end)
    }
}

/// A whole object, consumed and discarded; values are strings or numbers by
/// `string_values`.
fn d_obj(s: &str, pos: usize, string_values: bool) -> (r: Option<usize>)
    requires
        pos <= s@.len(),
    ensures
        match r {
            Some(p2) => pos < p2 <= s@.len() && p_obj(s@.skip(pos as int), string_values) == Some(
                s@.skip(p2 as int),
            ),
            None => p_obj(s@.skip(pos as int), string_values) is None,
        },
{
    let len = s.unicode_len();
    if !(pos < len && s.get_char(pos) == '{') {
        return None;
    }
    proof {
        lemma_skip_step(s@, pos as int);
    }
    let entries_start = pos + 1;
    proof {
        if entries_start < s@.len() {
            lemma_skip_step(s@, entries_start as int);
        }
        assert(s@.skip(pos as int).drop_first() == s@.skip(entries_start as int));
    }
    if entries_start < len && s.get_char(entries_start) == '}' {
        proof {
            lemma_skip_step(s@, entries_start as int);
        }
        return Some(entries_start + 1);
    }
    proof {
        if entries_start < s@.len() {
            lemma_skip_step(s@, entries_start as int);
        }
    }
    proof {
        assert(p_obj(s@.skip(pos as int), string_values) == p_obj_entries(
            s@.skip(entries_start as int),
            string_values,
        ));
    }
    let mut cur = entries_start;
    loop
        invariant
            len == s@.len(),
            pos < len,
            entries_start == pos + 1,
            entries_start <= cur <= len,
            p_obj(s@.skip(pos as int), string_values) == p_obj_entries(
                s@.skip(entries_start as int),
                string_values,
            ),
            p_obj_entries(s@.skip(entries_start as int), string_values) == p_obj_entries(
                s@.skip(cur as int),
                string_values,
            ),
        decreases len - cur,
    {
        let key = d_string(s, cur);
        let k_end = match key {
            Some((_, p)) => p,
            None => {
                return None;
            },
        };
        let colon = match d_char(s, k_end, ':') {
            Some(p) => p,
            None => {
                return None;
            },
        };
        let v_end = if string_values {
            match d_string(s, colon) {
                Some((_, p)) => p,
                None => {
                    return None;
                },
            }
        } else {
            match d_json_num(s, colon) {
                Some(p) => p,
                None => {
                    return None;
                },
            }
        };
        if v_end < len && s.get_char(v_end) == ',' {
            proof {
                lemma_skip_step(s@, v_end as int);
                assert(s@.skip(v_end + 1).len() < s@.skip(cur as int).len());
            }
            cur = v_end + 1;
        } else {
            proof {
                if v_end < s@.len() {
                    lemma_skip_step(s@, v_end as int);
                }
            }
            match d_char(s, v_end, '}') {
                Some(p) => {
                    return Some(p);
                },
                None => {
                    return None;
                },
            }
        }
    }
}

/// The identity half of one record.
#[verifier::rlimit(100)]
#[verifier::spinoff_prover]
fn d_span_head(s: &str, pos: usize) -> (r: Option<(SpanIdent, usize)>)
    requires
        pos <= s@.len(),
    ensures
        match r {
            Some((t, p2)) => pos < p2 <= s@.len() && p_span_head(s@.skip(pos as int)) == Some(
                (t@, s@.skip(p2 as int)),
            ),
            None => p_span_head(s@.skip(pos as int)) is None,
        },
{
    proof {
        reveal(p_span_head);
        reveal_strlit("{\"service\":");
        reveal_strlit(",\"name\":");
        reveal_strlit(",\"resource\":");
        reveal_strlit(",\"trace_id\":");
        reveal_strlit(",\"span_id\":");
        reveal_strlit(",\"parent_id\":");
    }
    let p1 = match d_lit(s, pos, "{\"service\":") {
        Some(p) => p,
        None => {
            return None;
        },
    };
    let (_service, p2) = match d_string(s, p1) {
        Some(x) => x,
        None => {
            return None;
        },
    };
    let p3 = match d_lit(s, p2, ",\"name\":") {
        Some(p) => p,
        None => {
            return None;
        },
    };
    let (name, p4) = match d_string(s, p3) {
        Some(x) => x,
        None => {
            return None;
        },
    };
    let p5 = match d_lit(s, p4, ",\"resource\":") {
        Some(p) => p,
        None => {
            return None;
        },
    };
    let (_resource, p6) = match d_string(s, p5) {
        Some(x) => x,
        None => {
            return None;
        },
    };
    let p7 = match d_lit(s, p6, ",\"trace_id\":") {
        Some(p) => p,
        None => {
            return None;
        },
    };
    let (trace_id, p8) = match d_u64(s, p7) {
        Some(x) => x,
        None => {
            return None;
        },
    };
    let p9 = match d_lit(s, p8, ",\"span_id\":") {
        Some(p) => p,
        None => {
            return None;
        },
    };
    let (span_id, p10) = match d_u64(s, p9) {
        Some(x) => x,
        None => {
            return None;
        },
    };
    let p11 = match d_lit(s, p10, ",\"parent_id\":") {
        Some(p) => p,
        None => {
            return None;
        },
    };
    let (parent_id, p12) = match d_opt_u64(s, p11) {
        Some(x) => x,
        None => {
            return None;
        },
    };
    Some((SpanIdent { span_id, trace_id, parent_id, name }, p12))
}

/// The remaining half of one record.
#[verifier::rlimit(100)]
#[verifier::spinoff_prover]
fn d_span_tail(s: &str, pos: usize) -> (r: Option<usize>)
    requires
        pos <= s@.len(),
    ensures
        match r {
            Some(p2) => pos < p2 <= s@.len() && p_span_tail(s@.skip(pos as int)) == Some(
                s@.skip(p2 as int),
            ),
            None => p_span_tail(s@.skip(pos as int)) is None,
        },
{
    proof {
        reveal(p_span_tail);
        reveal_strlit(",\"start\":");
        reveal_strlit(",\"duration\":");
        reveal_strlit(",\"error\":");
        reveal_strlit(",\"meta\":");
        reveal_strlit(",\"metrics\":");
        reveal_strlit(",\"type\":");
    }
    let p1 = match d_lit(s, pos, ",\"start\":") {
        Some(p) => p,
        None => {
            return None;
        },
    };
    let (_start, p2) = match d_i64(s, p1) {
        Some(x) => x,
        None => {
            return None;
        },
    };
    let p3 = match d_lit(s, p2, ",\"duration\":") {
        Some(p) => p,
        None => {
            return None;
        },
    };
    let (_duration, p4) = match d_i64(s, p3) {
        Some(x) => x,
        None => {
            return None;
        },
    };
    let p5 = match d_lit(s, p4, ",\"error\":") {
        Some(p) => p,
        None => {
            return None;
        },
    };
    let (_error, p6) = match d_i64(s, p5) {
        Some(x) => x,
        None => {
            return None;
        },
    };
    let p7 = match d_lit(s, p6, ",\"meta\":") {
        Some(p) => p,
        None => {
            return None;
        },
    };
    let p8 = match d_obj(s, p7, true) {
        Some(p) => p,
        None => {
            return None;
        },
    };
    let p9 = match d_lit(s, p8, ",\"metrics\":") {
        Some(p) => p,
        None => {
            return None;
        },
    };
    let p10 = match d_obj(s, p9, false) {
        Some(p) => p,
        None => {
            return None;
        },
    };
    let p11 = match d_lit(s, p10, ",\"type\":") {
        Some(p) => p,
        None => {
            return None;
        },
    };
    let (_ty, p12) = match d_string(s, p11) {
        Some(x) => x,
        None => {
            return None;
        },
    };
    d_char(s, p12, '}')
}

/// One whole record; only the identity fields are kept.
fn d_span(s: &str, pos: usize) -> (r: Option<(SpanIdent, usize)>)
    requires
        pos <= s@.len(),
    ensures
        match r {
            Some((t, p2)) => pos < p2 <= s@.len() && p_span(s@.skip(pos as int)) == Some(
                (t@, s@.skip(p2 as int)),
            ),
            None => p_span(s@.skip(pos as int)) is None,
        },
{
    match d_span_head(s, pos) {
        Some((t, p1)) => match d_span_tail(s, p1) {
            Some(p2) => Some((t, p2)),
            None => None,
        },
        None => None,
    }
}

/// The identities of a run of decoded records.
pub open spec fn idents_view(v: Seq<SpanIdent>) -> Seq<SpanIdentity> {
    Seq::new(v.len(), |i: int| v[i]@)
}

/// Decodes a whole wire body back to the identity fields of its records;
/// `None` unless the text is exactly one encoded batch.
#[verifier::rlimit(100)]
#[verifier::spinoff_prover]
pub fn decode_batch_identities(s: &str) -> (r: Option<Vec<SpanIdent>>)
    ensures
        match r {
            Some(v) => spec_decode_identities(s@) == Some(idents_view(v@)),
            None => spec_decode_identities(s@) is None,
        },
{
    let len = s.unicode_len();
    proof {
        assert(s@.skip(0) =~= s@);
    }
    let q1 = match d_char(s, 0, '[') {
        Some(p) => p,
        None => {
            return None;
        },
    };
    let q2 = match d_char(s, q1, '[') {
        Some(p) => p,
        None => {
            return None;
        },
    };
    proof {
        if q2 < s@.len() {
            lemma_skip_step(s@, q2 as int);
        }
    }
    let mut out: Vec<SpanIdent> = Vec::new();
    if q2 < len && s.get_char(q2) == ']' {
        let list_end = q2 + 1;
        proof {
            assert(p_span_list(s@.skip(q1 as int)) == Some(
                (Seq::<SpanIdentity>::empty(), s@.skip(list_end as int)),
            ));
            assert(idents_view(out@) =~= Seq::<SpanIdentity>::empty());
        }
        return finish_batch(s, list_end, out);
    }
    let ghost first_start = q2 as int;
    proof {
        assert(p_span_list(s@.skip(q1 as int)) == p_spans(s@.skip(first_start)));
        if p_spans(s@.skip(first_start)) is Some {
            let (ts, rest) = p_spans(s@.skip(first_start))->Some_0;
            assert(idents_view(out@) + ts =~= ts);
        }
    }
    let mut cur = q2;
    while cur <= len
        invariant
            len == s@.len(),
            first_start == q2,
            q2 <= cur <= len,
            p_char(s@, '[') == Some(s@.skip(q1 as int)),
            p_span_list(s@.skip(q1 as int)) == p_spans(s@.skip(first_start)),
            spec_decode_identities(s@) == (match p_span_list(s@.skip(q1 as int)) {
                Some((ts, s2)) => match p_char(s2, ']') {
                    Some(s3) => if s3.len() == 0 {
                        Some(ts)
                    } else {
                        None
                    },
                    None => None,
                },
                None => None,
            }),
            match p_spans(s@.skip(cur as int)) {
                Some((ts, rest)) => p_spans(s@.skip(first_start)) == Some(
                    (idents_view(out@) + ts, rest),
                ),
                None => p_spans(s@.skip(first_start)) is None,
            },
        decreases len - cur,
    {
        let (t, p) = match d_span(s, cur) {
            Some(x) => x,
            None => {
                return None;
            },
        };
        proof {
            if p < s@.len() {
                lemma_skip_step(s@, p as int);
            }
        }
        if p < len && s.get_char(p) == ',' {
            let ghost pre = out@;
            out.push(t);
            proof {
                assert(s@.skip(p + 1).len() < s@.skip(cur as int).len());
                if p_spans(s@.skip(p + 1)) is Some {
                    let (ts, rest) = p_spans(s@.skip(p + 1))->Some_0;
                    assert(p_spans(s@.skip(cur as int)) == Some((seq![t@] + ts, rest)));
                    assert(idents_view(out@) + ts =~= idents_view(pre) + (seq![t@] + ts));
                } else {
                    assert(p_spans(s@.skip(cur as int)) is None);
                }
            }
            cur = p + 1;
        } else {
            let ghost pre = out@;
            match d_char(s, p, ']') {
                Some(p2) => {
                    out.push(t);
                    proof {
                        assert(p_spans(s@.skip(cur as int)) == Some(
                            (seq![t@], s@.skip(p2 as int)),
                        ));
                        assert(idents_view(out@) =~= idents_view(pre) + seq![t@]);
                        assert(p_span_list(s@.skip(q1 as int)) == Some(
                            (idents_view(out@), s@.skip(p2 as int)),
                        ));
                    }
                    return finish_batch(s, p2, out);
                },
                None => {
                    return None;
                },
            }
        }
    }
    proof {
        assert(false);
    }
    None
}

/// Consumes the closing bracket and demands the end of the text.
fn finish_batch(s: &str, list_end: usize, out: Vec<SpanIdent>) -> (r: Option<Vec<SpanIdent>>)
    requires
        list_end <= s@.len(),
        p_char(s@, '[') matches Some(s1) && p_span_list(s1) == Some(
            (idents_view(out@), s@.skip(list_end as int)),
        ),
    ensures
        match r {
            Some(v) => spec_decode_identities(s@) == Some(idents_view(v@)),
            None => spec_decode_identities(s@) is None,
        },
{
    let q3 = match d_char(s, list_end, ']') {
        Some(p) => p,
        None => {
            return None;
        },
    };
    if q3 == s.unicode_len() {
        proof {
            assert(s@.skip(q3 as int).len() == 0);
        }
        Some(out)
    } else {
        proof {
            assert(s@.skip(q3 as int).len() > 0);
        }
        None
    }
}

} // verus!
