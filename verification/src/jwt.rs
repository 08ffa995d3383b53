//! Reading claims back from the JSON text of a token's payload: an object
//! holding each claim once, members in any order, whitespace anywhere between
//! tokens, other members passed over. It undoes `claims_json`.

use vstd::prelude::*;
use crate::security::{claims_json, token_type_name, Claims, TokenType};
use crate::text::{chars_of, string_from_chars, decimal, json_string, hex32, hex_digit, json_escaped, json_escaped_char, nibble, uuid_text};

verus! {

/// The value of a lower-case hexadecimal digit.
pub open spec fn hex_val(c: char) -> Option<int> {
    if '0' <= c && c <= '9' {
        Some(c as int - '0' as int)
    } else if 'a' <= c && c <= 'f' {
        Some(c as int - 'a' as int + 10)
    } else if 'A' <= c && c <= 'F' {
        Some(c as int - 'A' as int + 10)
    } else {
        None
    }
}

/// The number written by the four hexadecimal digits at `cs[i]`.
pub open spec fn hex4_at(cs: Seq<char>, i: int) -> Option<int> {
    if 0 <= i && i + 4 <= cs.len() {
        match (hex_val(cs[i]), hex_val(cs[i + 1]), hex_val(cs[i + 2]), hex_val(cs[i + 3])) {
            (Some(a), Some(b), Some(c), Some(d)) => Some(a * 4096 + b * 256 + c * 16 + d),
            _ => None,
        }
    } else {
        None
    }
}

/// The escape sequence starting at `cs[i]` (a backslash): the character it
/// stands for and its length. A `\u` escape of a UTF-16 surrogate stands for
/// a character only as the first half of a pair.
pub open spec fn esc_at(cs: Seq<char>, i: int) -> Option<(char, int)> {
    if i + 1 >= cs.len() {
        None
    } else {
        let e = cs[i + 1];
        if e == '"' {
            Some(('"', 2))
        } else if e == '\\' {
            Some(('\\', 2))
        } else if e == '/' {
            Some(('/', 2))
        } else if e == 'b' {
            Some(('\x08', 2))
        } else if e == 'f' {
            Some(('\x0c', 2))
        } else if e == 'n' {
            Some(('\n', 2))
        } else if e == 'r' {
            Some(('\r', 2))
        } else if e == 't' {
            Some(('\t', 2))
        } else if e == 'u' {
            match hex4_at(cs, i + 2) {
                None => None,
                Some(n) => if 0xDC00 <= n <= 0xDFFF {
                    None
                } else if n < 0xD800 || n > 0xDBFF {
                    Some((n as char, 6))
                } else if i + 7 < cs.len() && cs[i + 6] == '\\' && cs[i + 7] == 'u' {
                    match hex4_at(cs, i + 8) {
                        Some(m) => if 0xDC00 <= m <= 0xDFFF {
                            Some(((0x10000 + (n - 0xD800) * 1024 + (m - 0xDC00)) as char, 12))
                        } else {
                            None
                        },
                        None => None,
                    }
                } else {
                    None
                },
            }
        } else {
            None
        }
    }
}

/// The JSON string whose contents start at `cs[i]` (just after the opening
/// quote): its text and the position after the closing quote.
pub open spec fn str_at(cs: Seq<char>, i: int) -> Option<(Seq<char>, int)>
    decreases cs.len() - i,
{
    if i < 0 || i >= cs.len() {
        None
    } else if cs[i] == '"' {
        Some((Seq::empty(), i + 1))
    } else if cs[i] == '\\' {
        match esc_at(cs, i) {
            None => None,
            Some((c, w)) => match str_at(cs, i + w) {
                None => None,
                Some((s, j)) => Some((seq![c] + s, j)),
            },
        }
    } else if (cs[i] as u32) < 0x20 {
        None
    } else {
        match str_at(cs, i + 1) {
            None => None,
            Some((s, j)) => Some((seq![cs[i]] + s, j)),
        }
    }
}

proof fn lemma_hex_val_digit(d: int)
    requires
        0 <= d < 16,
    ensures
        hex_val(hex_digit(d)) == Some(d),
{
}

/// `json_escaped` taken from the front.
pub proof fn lemma_escaped_first(s: Seq<char>)
    requires
        s.len() > 0,
    ensures
        json_escaped(s) == json_escaped_char(s[0]) + json_escaped(s.drop_first()),
    decreases s.len(),
{
    if s.len() == 1 {
        assert(s.drop_last() =~= Seq::<char>::empty());
        assert(s.drop_first() =~= Seq::<char>::empty());
        assert(json_escaped(s) == json_escaped(s.drop_last()) + json_escaped_char(s.last()));
        assert(json_escaped(s) =~= json_escaped_char(s[0]) + json_escaped(s.drop_first()));
    } else {
        lemma_escaped_first(s.drop_last());
        assert(s.drop_last().drop_first() =~= s.drop_first().drop_last());
        assert(s.drop_last()[0] == s[0]);
        assert(s.drop_first().last() == s.last());
        assert(json_escaped(s) =~= json_escaped_char(s[0]) + json_escaped(s.drop_first()));
    }
}

/// A control character's `\u00XX` escape reads back as the character.
proof fn lemma_control_escape(cs: Seq<char>, i: int, c: char)
    requires
        (c as u32) < 0x20,
        !(c == '"' || c == '\\' || c == '\x08' || c == '\x0c' || c == '\n' || c == '\r' || c == '\t'),
        0 <= i,
        i + 6 <= cs.len(),
        cs.subrange(i, i + 6) == json_escaped_char(c),
    ensures
        esc_at(cs, i) == Some((c, 6int)),
{
    let e = json_escaped_char(c);
    let h = (c as u32 / 16) as int;
    let l = (c as u32 % 16) as int;
    assert(cs.subrange(i, i + 6)[1] == cs[i + 1]);
    assert(cs.subrange(i, i + 6)[2] == cs[i + 2]);
    assert(cs.subrange(i, i + 6)[3] == cs[i + 3]);
    assert(cs.subrange(i, i + 6)[4] == cs[i + 4]);
    assert(cs.subrange(i, i + 6)[5] == cs[i + 5]);
    assert(cs[i + 1] == 'u' && cs[i + 2] == '0' && cs[i + 3] == '0');
    assert(cs[i + 4] == hex_digit(h) && cs[i + 5] == hex_digit(l));
    lemma_hex_val_digit(h);
    lemma_hex_val_digit(l);
    lemma_hex_val_digit(0);
    assert(h * 16 + l == c as u32);
    assert(hex4_at(cs, i + 2) == Some(h * 16 + l));
    assert((h * 16 + l) as char == c) by {
        vstd::utf8::char_u32_cast(c, c as u32);
    }
}

/// Reading a JSON string gives back what `json_escaped` wrote.
#[verifier::rlimit(60)]
#[verifier::spinoff_prover]
pub proof fn lemma_str_at(cs: Seq<char>, i: int, s: Seq<char>)
    requires
        0 <= i,
        i + json_escaped(s).len() < cs.len(),
        cs.subrange(i, i + json_escaped(s).len()) == json_escaped(s),
        cs[i + json_escaped(s).len()] == '"',
    ensures
        str_at(cs, i) == Some((s, i + json_escaped(s).len() + 1)),
    decreases s.len(),
{
    if s.len() == 0 {
        assert(json_escaped(s).len() == 0);
    } else {
        lemma_escaped_first(s);
        let c = s[0];
        let e = json_escaped_char(c);
        let tail = s.drop_first();
        let n = json_escaped(s).len() as int;
        let el = e.len() as int;
        assert(e =~= cs.subrange(i, i + el)) by {
            assert(cs.subrange(i, i + n).subrange(0, el) =~= e);
        }
        assert(cs.subrange(i + el, i + el + json_escaped(tail).len()) =~= json_escaped(tail)) by {
            assert(cs.subrange(i, i + n).subrange(el, n) =~= json_escaped(tail));
        }
        lemma_str_at(cs, i + el, tail);
        assert(cs[i] == e[0]);
        if c == '"' || c == '\\' || c == '\x08' || c == '\x0c' || c == '\n' || c == '\r' || c == '\t' {
            assert(cs[i + 1] == e[1]);
            assert(seq![c] + tail =~= s);
        } else if (c as u32) < 0x20 {
            lemma_control_escape(cs, i, c);
            assert(seq![c] + tail =~= s);
        } else {
            assert(seq![c] + tail =~= s);
        }
    }
}

fn hex_val_exec(c: char) -> (r: Option<u8>)
    ensures
        match hex_val(c) {
            Some(v) => r == Some(v as u8),
            None => r is None,
        },
{
    if '0' <= c && c <= '9' {
        Some(((c as u32) - ('0' as u32)) as u8)
    } else if 'a' <= c && c <= 'f' {
        Some(((c as u32) - ('a' as u32) + 10) as u8)
    } else if 'A' <= c && c <= 'F' {
        Some(((c as u32) - ('A' as u32) + 10) as u8)
    } else {
        None
    }
}

/// The number written by the four hexadecimal digits at `cs[i]`.
fn hex4_exec(cs: &Vec<char>, i: usize) -> (r: Option<u32>)
    ensures
        match hex4_at(cs@, i as int) {
            Some(n) => r == Some(n as u32) && n <= 0xFFFF,
            None => r is None,
        },
{
    if i > cs.len() || cs.len() - i < 4 {
        return None;
    }
    let a = hex_val_exec(cs[i])?;
    let b = hex_val_exec(cs[i + 1])?;
    let c = hex_val_exec(cs[i + 2])?;
    let d = hex_val_exec(cs[i + 3])?;
    Some((a as u32) * 4096 + (b as u32) * 256 + (c as u32) * 16 + (d as u32))
}

/// `char::from_u32`: the character whose code point is `v`, if `v` is one
/// (below 0xD800, or from 0xE000 to 0x10FFFF).
#[verifier::external_body]
fn char_from_u32(v: u32) -> (r: Option<char>)
    ensures
        (v < 0xD800 || (0xE000 <= v && v <= 0x10FFFF)) ==> r == Some(v as char),
        !(v < 0xD800 || (0xE000 <= v && v <= 0x10FFFF)) ==> r is None,
{
    char::from_u32(v)
}

fn esc_at_exec(cs: &Vec<char>, i: usize) -> (r: Option<(char, usize)>)
    requires
        i < cs@.len(),
    ensures
        match esc_at(cs@, i as int) {
            Some((c, w)) => r == Some((c, w as usize)),
            None => r is None,
        },
{
    if i >= cs.len() - 1 {
        return None;
    }
    let e = cs[i + 1];
    if e == '"' {
        Some(('"', 2))
    } else if e == '\\' {
        Some(('\\', 2))
    } else if e == '/' {
        Some(('/', 2))
    } else if e == 'b' {
        Some(('\x08', 2))
    } else if e == 'f' {
        Some(('\x0c', 2))
    } else if e == 'n' {
        Some(('\n', 2))
    } else if e == 'r' {
        Some(('\r', 2))
    } else if e == 't' {
        Some(('\t', 2))
    } else if e == 'u' {
        let n = hex4_exec(cs, i + 2)?;
        if 0xDC00 <= n && n <= 0xDFFF {
            None
        } else if n < 0xD800 || n > 0xDBFF {
            match char_from_u32(n) {
                Some(c) => Some((c, 6)),
                None => None,
            }
        } else if cs.len() - i > 7 && cs[i + 6] == '\\' && cs[i + 7] == 'u' {
            let m = hex4_exec(cs, i + 8)?;
            if 0xDC00 <= m && m <= 0xDFFF {
                match char_from_u32(0x10000 + (n - 0xD800) * 1024 + (m - 0xDC00)) {
                    Some(c) => Some((c, 12)),
                    None => None,
                }
            } else {
                None
            }
        } else {
            None
        }
    } else {
        None
    }
}

/// Prepends `o` to the text of a string read.
pub open spec fn prepend(o: Seq<char>, r: Option<(Seq<char>, int)>) -> Option<(Seq<char>, int)> {
    match r {
        None => None,
        Some((s, j)) => Some((o + s, j)),
    }
}

/// Reads the JSON string whose contents start at `cs[i]`.
fn str_at_exec(cs: &Vec<char>, i: usize) -> (r: Option<(Vec<char>, usize)>)
    ensures
        match str_at(cs@, i as int) {
            Some((s, j)) => r matches Some((v, k)) && v@ == s && k == j,
            None => r is None,
        },
{
    let mut out: Vec<char> = Vec::new();
    let mut j = i;
    while j < cs.len()
        invariant
            i <= j,
            str_at(cs@, i as int) == prepend(out@, str_at(cs@, j as int)),
        decreases cs@.len() - j,
    {
        let c = cs[j];
        if c == '"' {
            assert(str_at(cs@, j as int) == Some((Seq::<char>::empty(), j + 1)));
            assert(out@ + Seq::<char>::empty() =~= out@);
            return Some((out, j + 1));
        } else if c == '\\' {
            match esc_at_exec(cs, j) {
                None => {
                    return None;
                },
                Some((e, w)) => {
                    let ghost before = out@;
                    out.push(e);
                    proof {
                        match str_at(cs@, j + w) {
                            None => {},
                            Some((s, k)) => {
                                assert(before + (seq![e] + s) =~= out@ + s);
                            },
                        }
                    }
                    j = j + w;
                },
            }
        } else if (c as u32) < 0x20 {
            return None;
        } else {
            let ghost before = out@;
            out.push(c);
            proof {
                match str_at(cs@, j + 1) {
                    None => {},
                    Some((s, k)) => {
                        assert(before + (seq![c] + s) =~= out@ + s);
                    },
                }
            }
            j = j + 1;
        }
    }
    None
}

/// A decimal digit.
pub open spec fn is_digit(c: char) -> bool {
    '0' <= c && c <= '9'
}

/// Where the run of digits starting at `cs[i]` ends.
pub open spec fn run_end(cs: Seq<char>, i: int) -> int
    decreases cs.len() - i,
{
    if 0 <= i < cs.len() && is_digit(cs[i]) {
        run_end(cs, i + 1)
    } else {
        i
    }
}

/// The number written by decimal digits.
pub open spec fn digits_value(ds: Seq<char>) -> int
    decreases ds.len(),
{
    if ds.len() == 0 {
        0
    } else {
        digits_value(ds.drop_last()) * 10 + (ds.last() as int - '0' as int)
    }
}

/// The number written at `cs[i]`, and where it ends.
pub open spec fn num_at(cs: Seq<char>, i: int) -> Option<(int, int)> {
    let j = run_end(cs, i);
    if j == i {
        None
    } else {
        Some((digits_value(cs.subrange(i, j)), j))
    }
}

proof fn lemma_digit_val(d: int)
    requires
        0 <= d < 10,
    ensures
        is_digit(hex_digit(d)),
        hex_digit(d) as int - '0' as int == d,
{
}

/// `decimal(n)` is made of digits and reads back as `n`.
pub proof fn lemma_decimal(n: nat)
    ensures
        decimal(n).len() > 0,
        forall|k: int| 0 <= k < decimal(n).len() ==> is_digit(#[trigger] decimal(n)[k]),
        digits_value(decimal(n)) == n,
    decreases n,
{
    if n >= 10 {
        lemma_decimal(n / 10);
        let d = decimal(n);
        assert(d.drop_last() =~= decimal(n / 10));
        assert(d.last() == hex_digit((n % 10) as int));
        assert(n / 10 * 10 + n % 10 == n);
        lemma_digit_val((n % 10) as int);
        assert(digits_value(d) == digits_value(d.drop_last()) * 10 + (d.last() as int - '0' as int));
        assert(digits_value(d.drop_last()) == n / 10);
        assert forall|k: int| 0 <= k < d.len() implies is_digit(#[trigger] d[k]) by {
            if k < d.len() - 1 {
                assert(d[k] == decimal(n / 10)[k]);
            }
        }
    } else {
        assert(decimal(n).drop_last() =~= Seq::<char>::empty());
        assert(is_digit(decimal(n)[0]));
        lemma_digit_val(n as int);
        assert(digits_value(Seq::<char>::empty()) == 0);
        assert(digits_value(decimal(n)) == digits_value(decimal(n).drop_last()) * 10 + (decimal(n).last() as int - '0' as int));
    }
}

proof fn lemma_run_end(cs: Seq<char>, i: int, k: int)
    requires
        0 <= i <= k <= cs.len(),
        forall|m: int| i <= m < k ==> is_digit(#[trigger] cs[m]),
        k == cs.len() || !is_digit(cs[k]),
    ensures
        run_end(cs, i) == k,
    decreases k - i,
{
    if i < k {
        lemma_run_end(cs, i + 1, k);
    }
}

proof fn lemma_digits_mono(ds: Seq<char>, k: int)
    requires
        0 <= k <= ds.len(),
        forall|m: int| 0 <= m < ds.len() ==> is_digit(#[trigger] ds[m]),
    ensures
        0 <= digits_value(ds.take(k)) <= digits_value(ds),
    decreases ds.len(),
{
    if ds.len() > 0 {
        if k == ds.len() {
            assert(ds.take(k) =~= ds);
            lemma_digits_mono(ds.drop_last(), 0);
        } else {
            assert(ds.drop_last().take(k) =~= ds.take(k));
            lemma_digits_mono(ds.drop_last(), k);
        }
    } else {
        assert(ds.take(k) =~= ds);
    }
}

/// Reads the number written at `cs[i]`; `None` also when it exceeds `u64`.
fn num_at_exec(cs: &Vec<char>, i: usize) -> (r: Option<(u64, usize)>)
    ensures
        match num_at(cs@, i as int) {
            Some((v, j)) => if v <= u64::MAX {
                r matches Some((x, k)) && x == v && k == j
            } else {
                r is None
            },
            None => r is None,
        },
{
    if i >= cs.len() {
        return None;
    }
    let mut j = i;
    while j < cs.len() && '0' <= cs[j] && cs[j] <= '9'
        invariant
            i <= j <= cs@.len(),
            run_end(cs@, i as int) == run_end(cs@, j as int),
            forall|m: int| i <= m < j ==> is_digit(#[trigger] cs@[m]),
        decreases cs@.len() - j,
    {
        j = j + 1;
    }
    assert(run_end(cs@, j as int) == j);
    if j == i {
        return None;
    }
    let ghost ds = cs@.subrange(i as int, j as int);
    assert forall|m: int| 0 <= m < ds.len() implies is_digit(#[trigger] ds[m]) by {
        assert(ds[m] == cs@[i + m]);
    }
    let mut acc: u128 = 0;
    let mut k = i;
    assert(ds.take(0) =~= Seq::<char>::empty());
    while k < j
        invariant
            i <= k <= j <= cs@.len(),
            run_end(cs@, i as int) == j,
            ds == cs@.subrange(i as int, j as int),
            forall|m: int| 0 <= m < ds.len() ==> is_digit(#[trigger] ds[m]),
            acc == digits_value(ds.take(k - i)),
            acc <= u64::MAX,
        decreases j - k,
    {
        proof {
            assert(ds[k - i] == cs@[k as int]);
            assert(is_digit(ds[k - i]));
            assert(ds.take(k - i + 1).drop_last() =~= ds.take(k - i));
            assert(ds.take(k - i + 1).last() == ds[k - i]);
        }
        let d = (cs[k] as u32) - ('0' as u32);
        let next = acc * 10 + d as u128;
        if next > u64::MAX as u128 {
            proof {
                lemma_digits_mono(ds, k - i + 1);
            }
            return None;
        }
        acc = next;
        k = k + 1;
    }
    assert(ds.take(j - i) =~= ds);
    Some((acc as u64, j))
}

/// How many hyphens precede hexadecimal digit `k` of a UUID's text.
pub open spec fn dashes_before(k: int) -> int {
    if k < 8 { 0 } else if k < 12 { 1 } else if k < 16 { 2 } else if k < 20 { 3 } else { 4 }
}

/// The 32 digit positions of a UUID's text `t`, read in order.
pub open spec fn uuid_digits(t: Seq<char>) -> Seq<char> {
    Seq::new(32, |k: int| t[k + dashes_before(k)])
}

/// The value of lower-case hexadecimal digits (wrapping past 128 bits).
pub open spec fn hex_value(h: Seq<char>) -> u128
    decreases h.len(),
{
    if h.len() == 0 {
        0
    } else {
        (hex_value(h.drop_last()) << 4u128) | (match hex_val(h.last()) {
            Some(v) => v as u128,
            None => 0u128,
        })
    }
}

/// The UUID whose hyphenated text (8-4-4-4-12 hexadecimal digits) is `t`.
pub open spec fn hyphenated_uuid(t: Seq<char>) -> Option<u128> {
    if t.len() == 36 && t[8] == '-' && t[13] == '-' && t[18] == '-' && t[23] == '-' && forall|k: int|
        0 <= k < 32 ==> #[trigger] hex_val(uuid_digits(t)[k]) is Some {
        Some(hex_value(uuid_digits(t)))
    } else {
        None
    }
}

/// The UUID whose text is 32 hexadecimal digits.
pub open spec fn simple_uuid(t: Seq<char>) -> Option<u128> {
    if t.len() == 32 && forall|k: int| 0 <= k < 32 ==> #[trigger] hex_val(t[k]) is Some {
        Some(hex_value(t))
    } else {
        None
    }
}

/// `c` is `e`, or `e` is a lower-case ASCII letter and `c` its capital.
pub open spec fn same_letter(c: char, e: char) -> bool {
    c == e || ('a' <= e && e <= 'z' && c as u32 + 32 == e as u32)
}

/// `t` starts with `urn:uuid:`, in any case.
pub open spec fn urn_prefix(t: Seq<char>) -> bool {
    t.len() >= 9 && forall|k: int| 0 <= k < 9 ==> same_letter(#[trigger] t[k], "urn:uuid:"@[k])
}

/// The UUID written by `t` in one of the forms `uuid` reads: 32 hexadecimal
/// digits, hyphenated, hyphenated in braces, or hyphenated after
/// `urn:uuid:`; digits of either case.
pub open spec fn uuid_of_text(t: Seq<char>) -> Option<u128> {
    if t.len() == 32 {
        simple_uuid(t)
    } else if t.len() == 36 {
        hyphenated_uuid(t)
    } else if t.len() == 38 && t[0] == '{' && t[37] == '}' {
        hyphenated_uuid(t.subrange(1, 37))
    } else if t.len() == 45 && urn_prefix(t) {
        hyphenated_uuid(t.subrange(9, 45))
    } else {
        None
    }
}

proof fn lemma_shift_step(u: u128, s: u128)
    by (bit_vector)
    requires
        s <= 124,
    ensures
        ((u >> (s + 4)) << 4) | ((u >> s) & 15) == u >> s,
        (0u128 << 4) | ((u >> 124u128) & 15) == u >> 124u128,
{
}

proof fn lemma_nibble_small(u: u128, s: u128)
    by (bit_vector)
    ensures
        (u >> s) & 15 < 16,
{
}

proof fn lemma_hex_prefix(u: u128, k: int)
    requires
        0 <= k <= 32,
    ensures
        hex_value(hex32(u).take(k)) == (if k == 0 { 0u128 } else { u >> ((128 - 4 * k) as u128) }),
    decreases k,
{
    let h = hex32(u);
    if k == 0 {
        assert(h.take(0) =~= Seq::<char>::empty());
    } else {
        lemma_hex_prefix(u, k - 1);
        assert(h.take(k).drop_last() =~= h.take(k - 1));
        let s = (124 - 4 * (k - 1)) as u128;
        lemma_nibble_small(u, s);
        lemma_hex_val_digit(nibble(u, k - 1));
        assert(h.take(k).last() == hex_digit(nibble(u, k - 1)));
        assert(nibble(u, k - 1) as u128 == (u >> s) & 15);
        lemma_shift_step(u, s);
        if k == 1 {
        } else {
            assert((128 - 4 * (k - 1)) as u128 == s + 4);
        }
    }
}

/// A UUID's text reads back as the UUID.
pub proof fn lemma_uuid_text(u: u128)
    ensures
        uuid_of_text(uuid_text(u)) == Some(u),
{
    let t = uuid_text(u);
    let h = hex32(u);
    assert(t.len() == 36);
    assert forall|k: int| 0 <= k < 32 implies #[trigger] uuid_digits(t)[k] == h[k] by {
        if k < 8 {
        } else if k < 12 {
        } else if k < 16 {
        } else if k < 20 {
        } else {
        }
    }
    assert(uuid_digits(t) =~= h);
    assert forall|k: int| 0 <= k < 32 implies #[trigger] hex_val(uuid_digits(t)[k]) is Some by {
        lemma_nibble_small(u, (124 - 4 * k) as u128);
        lemma_hex_val_digit(nibble(u, k));
    }
    lemma_hex_prefix(u, 32);
    assert(h.take(32) =~= h);
    assert(u >> 0u128 == u) by (bit_vector);
}

/// The UUID written by `t`, if it is a UUID's hyphenated text.
fn hyphenated_uuid_exec(t: &Vec<char>) -> (r: Option<u128>)
    ensures
        r == hyphenated_uuid(t@),
{
    if t.len() != 36 || t[8] != '-' || t[13] != '-' || t[18] != '-' || t[23] != '-' {
        return None;
    }
    let ghost ds = uuid_digits(t@);
    let mut acc: u128 = 0;
    let mut k: usize = 0;
    assert(ds.take(0) =~= Seq::<char>::empty());
    while k < 32
        invariant
            k <= 32,
            t@.len() == 36,
            ds == uuid_digits(t@),
            acc == hex_value(ds.take(k as int)),
            forall|m: int| 0 <= m < k ==> #[trigger] hex_val(ds[m]) is Some,
        decreases 32 - k,
    {
        let off: usize = if k < 8 { 0 } else if k < 12 { 1 } else if k < 16 { 2 } else if k < 20 { 3 } else { 4 };
        let c = t[k + off];
        assert(ds[k as int] == c);
        match hex_val_exec(c) {
            None => {
                return None;
            },
            Some(d) => {
                assert(ds.take(k + 1).drop_last() =~= ds.take(k as int));
                assert(ds.take(k + 1).last() == c);
                acc = (acc << 4u128) | (d as u128);
            },
        }
        k = k + 1;
    }
    assert(ds.take(32) =~= ds);
    Some(acc)
}

/// The UUID written by `t`, if it is 32 hexadecimal digits.
fn simple_uuid_exec(t: &Vec<char>) -> (r: Option<u128>)
    ensures
        r == simple_uuid(t@),
{
    if t.len() != 32 {
        return None;
    }
    let mut acc: u128 = 0;
    let mut k: usize = 0;
    assert(t@.take(0) =~= Seq::<char>::empty());
    while k < 32
        invariant
            k <= 32,
            t@.len() == 32,
            acc == hex_value(t@.take(k as int)),
            forall|m: int| 0 <= m < k ==> #[trigger] hex_val(t@[m]) is Some,
        decreases 32 - k,
    {
        match hex_val_exec(t[k]) {
            None => {
                return None;
            },
            Some(d) => {
                assert(t@.take(k + 1).drop_last() =~= t@.take(k as int));
                assert(t@.take(k + 1).last() == t@[k as int]);
                acc = (acc << 4u128) | (d as u128);
            },
        }
        k = k + 1;
    }
    assert(t@.take(32) =~= t@);
    Some(acc)
}

/// The characters of `t` from `a` up to `b`.
pub fn sub_chars(t: &Vec<char>, a: usize, b: usize) -> (r: Vec<char>)
    requires
        a <= b <= t@.len(),
    ensures
        r@ == t@.subrange(a as int, b as int),
{
    let mut r: Vec<char> = Vec::new();
    let mut k = a;
    while k < b
        invariant
            a <= k <= b <= t@.len(),
            r@ == t@.subrange(a as int, k as int),
        decreases b - k,
    {
        r.push(t[k]);
        assert(t@.subrange(a as int, k + 1) =~= t@.subrange(a as int, k as int).push(t@[k as int]));
        k = k + 1;
    }
    r
}

/// `t` starts with `urn:uuid:`, in any case.
fn urn_prefix_exec(t: &Vec<char>) -> (r: bool)
    ensures
        r == urn_prefix(t@),
{
    let e = chars_of("urn:uuid:");
    proof {
        reveal_strlit("urn:uuid:");
    }
    if t.len() < 9 {
        return false;
    }
    let mut k: usize = 0;
    while k < 9
        invariant
            k <= 9,
            t@.len() >= 9,
            e@ == "urn:uuid:"@,
            e@.len() == 9,
            forall|m: int| 0 <= m < k ==> same_letter(#[trigger] t@[m], "urn:uuid:"@[m]),
        decreases 9 - k,
    {
        let c = t[k];
        let x = e[k];
        if !(c == x || ('a' <= x && x <= 'z' && (c as u32) == (x as u32) - 32)) {
            assert(!same_letter(t@[k as int], "urn:uuid:"@[k as int]));
            return false;
        }
        k = k + 1;
    }
    true
}

/// The UUID written by `t` in one of the forms `uuid_of_text` reads.
fn uuid_of_text_exec(t: &Vec<char>) -> (r: Option<u128>)
    ensures
        r == uuid_of_text(t@),
{
    if t.len() == 32 {
        simple_uuid_exec(t)
    } else if t.len() == 36 {
        hyphenated_uuid_exec(t)
    } else if t.len() == 38 && t[0] == '{' && t[37] == '}' {
        hyphenated_uuid_exec(&sub_chars(t, 1, 37))
    } else if t.len() == 45 && urn_prefix_exec(t) {
        hyphenated_uuid_exec(&sub_chars(t, 9, 45))
    } else {
        None
    }
}

/// `lit` is written at `cs[i]`.
pub open spec fn lit_at(cs: Seq<char>, i: int, lit: Seq<char>) -> bool {
    0 <= i && i + lit.len() <= cs.len() && cs.subrange(i, i + lit.len()) == lit
}

/// The fields of claims, as their JSON text shows them.
pub open spec fn claims_fields(c: Claims) -> (u128, Seq<char>, Seq<char>, Seq<char>, usize, usize, TokenType) {
    (c.sub, c.email@, c.name@, c.nickname@, c.exp, c.iat, c.token_type)
}

/// The token type a name stands for.
pub open spec fn token_type_of(t: Seq<char>) -> Option<TokenType> {
    if t == "Access"@ {
        Some(TokenType::Access)
    } else if t == "Refresh"@ {
        Some(TokenType::Refresh)
    } else {
        None
    }
}

/// JSON whitespace.
pub open spec fn is_ws(c: char) -> bool {
    c == ' ' || c == '\t' || c == '\n' || c == '\r'
}

/// The first position at or after `i` that holds no whitespace.
pub open spec fn skip_ws(cs: Seq<char>, i: int) -> int
    decreases cs.len() - i,
{
    if 0 <= i < cs.len() && is_ws(cs[i]) {
        skip_ws(cs, i + 1)
    } else {
        i
    }
}

/// The claims read so far from an object, each `None` until its member is read:
/// subject, e-mail, name, nickname, expiry, issue time, token type.
pub type Draft = (
    Option<u128>,
    Option<Seq<char>>,
    Option<Seq<char>>,
    Option<Seq<char>>,
    Option<usize>,
    Option<usize>,
    Option<TokenType>,
);

/// No claim read yet.
pub open spec fn empty_draft() -> Draft {
    (None, None, None, None, None, None, None)
}

/// The JSON string starting at `cs[v]` (its opening quote): its text and the
/// position after it.
pub open spec fn str_value(cs: Seq<char>, v: int) -> Option<(Seq<char>, int)> {
    if 0 <= v < cs.len() && cs[v] == '"' {
        str_at(cs, v + 1)
    } else {
        None
    }
}

/// The JSON integer starting at `cs[v]` and the position after it, when it
/// is written without sign, fraction or leading zero and fits in `usize`.
pub open spec fn usize_value(cs: Seq<char>, v: int) -> Option<(usize, int)> {
    match num_at(cs, v) {
        None => None,
        Some((n, j)) => if (j > v + 1 && cs[v] == '0') || n > usize::MAX {
            None
        } else {
            Some((n as usize, j))
        },
    }
}

/// Whitespace skipping never moves backwards.
pub proof fn lemma_skip_ws_ge(cs: Seq<char>, i: int)
    ensures
        skip_ws(cs, i) >= i,
        skip_ws(cs, i) == i || (0 <= i < cs.len() && is_ws(cs[i])),
        0 <= i <= cs.len() ==> skip_ws(cs, i) <= cs.len(),
    decreases cs.len() - i,
{
    if 0 <= i < cs.len() && is_ws(cs[i]) {
        lemma_skip_ws_ge(cs, i + 1);
    }
}

/// The end of the run of digits at `cs[i]`, when there is at least one.
pub open spec fn digits_end(cs: Seq<char>, i: int) -> Option<int> {
    let j = run_end(cs, i);
    if j == i {
        None
    } else {
        Some(j)
    }
}

/// The end of the integer part of a JSON number at `cs[a]`: `0`, or digits
/// not starting with `0`.
pub open spec fn int_part_end(cs: Seq<char>, a: int) -> Option<int> {
    if 0 <= a < cs.len() && cs[a] == '0' {
        if a + 1 < cs.len() && is_digit(cs[a + 1]) {
            None
        } else {
            Some(a + 1)
        }
    } else {
        digits_end(cs, a)
    }
}

/// The end of the fraction of a JSON number at `cs[b]`, if it has one.
pub open spec fn frac_end(cs: Seq<char>, b: int) -> Option<int> {
    if 0 <= b < cs.len() && cs[b] == '.' {
        digits_end(cs, b + 1)
    } else {
        Some(b)
    }
}

/// The end of the exponent of a JSON number at `cs[c]`, if it has one.
pub open spec fn exp_end(cs: Seq<char>, c: int) -> Option<int> {
    if 0 <= c < cs.len() && (cs[c] == 'e' || cs[c] == 'E') {
        if c + 1 < cs.len() && (cs[c + 1] == '+' || cs[c + 1] == '-') {
            digits_end(cs, c + 2)
        } else {
            digits_end(cs, c + 1)
        }
    } else {
        Some(c)
    }
}

/// The end of the JSON number at `cs[i]`.
pub open spec fn number_end(cs: Seq<char>, i: int) -> Option<int> {
    let a = if 0 <= i < cs.len() && cs[i] == '-' { i + 1 } else { i };
    match int_part_end(cs, a) {
        None => None,
        Some(b) => match frac_end(cs, b) {
            None => None,
            Some(c) => exp_end(cs, c),
        },
    }
}

/// The end of a JSON string whose contents start at `cs[i]`, read only to be
/// passed over: any `\uXXXX` escape is taken, lone surrogates too.
pub open spec fn skip_str_end(cs: Seq<char>, i: int) -> Option<int>
    decreases cs.len() - i,
{
    if i < 0 || i >= cs.len() {
        None
    } else if cs[i] == '"' {
        Some(i + 1)
    } else if cs[i] == '\\' {
        if i + 1 >= cs.len() {
            None
        } else {
            let e = cs[i + 1];
            if e == '"' || e == '\\' || e == '/' || e == 'b' || e == 'f' || e == 'n' || e == 'r' || e == 't' {
                skip_str_end(cs, i + 2)
            } else if e == 'u' && hex4_at(cs, i + 2) is Some {
                skip_str_end(cs, i + 6)
            } else {
                None
            }
        }
    } else if (cs[i] as u32) < 0x20 {
        None
    } else {
        skip_str_end(cs, i + 1)
    }
}

/// The end of the JSON value at `cs[i]`, read only to be passed over: a
/// string, number, `true`, `false`, `null`, array or object.
pub open spec fn value_end(cs: Seq<char>, i: int) -> Option<int>
    decreases cs.len() - i, 0int,
{
    if !(0 <= i < cs.len()) {
        None
    } else if cs[i] == '"' {
        skip_str_end(cs, i + 1)
    } else if cs[i] == 't' {
        if lit_at(cs, i, "true"@) { Some(i + 4) } else { None }
    } else if cs[i] == 'f' {
        if lit_at(cs, i, "false"@) { Some(i + 5) } else { None }
    } else if cs[i] == 'n' {
        if lit_at(cs, i, "null"@) { Some(i + 4) } else { None }
    } else if cs[i] == '-' || is_digit(cs[i]) {
        number_end(cs, i)
    } else if cs[i] == '[' || cs[i] == '{' {
        let k = skip_ws(cs, i + 1);
        proof {
            lemma_skip_ws_ge(cs, i + 1);
        }
        if k < cs.len() && cs[k] == (if cs[i] == '[' { ']' } else { '}' }) {
            Some(k + 1)
        } else if cs[i] == '[' {
            elements_end(cs, k)
        } else {
            entries_end(cs, k)
        }
    } else {
        None
    }
}

/// The end of an array whose next element starts at `cs[k]`.
pub open spec fn elements_end(cs: Seq<char>, k: int) -> Option<int>
    decreases cs.len() - k, 1int,
{
    if !(0 <= k < cs.len()) {
        None
    } else {
        match value_end(cs, k) {
            None => None,
            Some(j) => if j <= k || j > cs.len() {
                None
            } else {
                let m = skip_ws(cs, j);
                proof {
                    lemma_skip_ws_ge(cs, j);
                }
                if m < cs.len() && cs[m] == ']' {
                    Some(m + 1)
                } else if m < cs.len() && cs[m] == ',' {
                    proof {
                        lemma_skip_ws_ge(cs, m + 1);
                    }
                    elements_end(cs, skip_ws(cs, m + 1))
                } else {
                    None
                }
            },
        }
    }
}

/// The end of an object whose next member starts at `cs[k]`.
pub open spec fn entries_end(cs: Seq<char>, k: int) -> Option<int>
    decreases cs.len() - k, 1int,
{
    match (if 0 <= k < cs.len() && cs[k] == '"' { skip_str_end(cs, k + 1) } else { None }) {
        None => None,
        Some(j) => {
            let c = skip_ws(cs, j);
            if j <= k || !(c < cs.len() && cs[c] == ':') {
                None
            } else {
                let v = skip_ws(cs, c + 1);
                proof {
                    lemma_skip_ws_ge(cs, j);
                    lemma_skip_ws_ge(cs, c + 1);
                }
                match value_end(cs, v) {
                    None => None,
                    Some(e) => if e <= v || e > cs.len() {
                        None
                    } else {
                        let m = skip_ws(cs, e);
                        proof {
                            lemma_skip_ws_ge(cs, e);
                        }
                        if m < cs.len() && cs[m] == '}' {
                            Some(m + 1)
                        } else if m < cs.len() && cs[m] == ',' {
                            proof {
                                lemma_skip_ws_ge(cs, m + 1);
                            }
                            entries_end(cs, skip_ws(cs, m + 1))
                        } else {
                            None
                        }
                    },
                }
            }
        },
    }
}

/// Which claim a member's name stands for: its place among the fields of
/// `Claims`, or -1 for a name that is no claim.
pub open spec fn claim_slot(key: Seq<char>) -> int {
    if key == "sub"@ {
        0
    } else if key == "email"@ {
        1
    } else if key == "name"@ {
        2
    } else if key == "nickname"@ {
        3
    } else if key == "exp"@ {
        4
    } else if key == "iat"@ {
        5
    } else if key == "token_type"@ {
        6
    } else {
        -1
    }
}

/// The value of the member named `key`, starting at `cs[v]`, read into `d`:
/// the claims with it and the position after the value. A member that is no
/// claim is passed over; `None` for a claim read before, or a value of the
/// wrong form.
pub open spec fn value_at(cs: Seq<char>, v: int, key: Seq<char>, d: Draft) -> Option<(Draft, int)> {
    let (sub, email, name, nickname, exp, iat, tt) = d;
    let slot = claim_slot(key);
    if slot == 0 {
        if sub is Some {
            None
        } else {
            match str_value(cs, v) {
                None => None,
                Some((t, j)) => match uuid_of_text(t) {
                    None => None,
                    Some(u) => Some(((Some(u), email, name, nickname, exp, iat, tt), j)),
                },
            }
        }
    } else if slot == 1 {
        if email is Some {
            None
        } else {
            match str_value(cs, v) {
                None => None,
                Some((t, j)) => Some(((sub, Some(t), name, nickname, exp, iat, tt), j)),
            }
        }
    } else if slot == 2 {
        if name is Some {
            None
        } else {
            match str_value(cs, v) {
                None => None,
                Some((t, j)) => Some(((sub, email, Some(t), nickname, exp, iat, tt), j)),
            }
        }
    } else if slot == 3 {
        if nickname is Some {
            None
        } else {
            match str_value(cs, v) {
                None => None,
                Some((t, j)) => Some(((sub, email, name, Some(t), exp, iat, tt), j)),
            }
        }
    } else if slot == 4 {
        if exp is Some {
            None
        } else {
            match usize_value(cs, v) {
                None => None,
                Some((n, j)) => Some(((sub, email, name, nickname, Some(n), iat, tt), j)),
            }
        }
    } else if slot == 5 {
        if iat is Some {
            None
        } else {
            match usize_value(cs, v) {
                None => None,
                Some((n, j)) => Some(((sub, email, name, nickname, exp, Some(n), tt), j)),
            }
        }
    } else if slot == 6 {
        if tt is Some {
            None
        } else {
            match str_value(cs, v) {
                None => None,
                Some((t, j)) => match token_type_of(t) {
                    None => None,
                    Some(k) => Some(((sub, email, name, nickname, exp, iat, Some(k)), j)),
                },
            }
        }
    } else {
        match value_end(cs, v) {
            None => None,
            Some(j) => Some((d, j)),
        }
    }
}

/// The member `"key": value` starting at `cs[i]`, read into `d`.
pub open spec fn member_at(cs: Seq<char>, i: int, d: Draft) -> Option<(Draft, int)> {
    match str_value(cs, i) {
        None => None,
        Some((key, j)) => {
            let k = skip_ws(cs, j);
            if 0 <= k < cs.len() && cs[k] == ':' {
                value_at(cs, skip_ws(cs, k + 1), key, d)
            } else {
                None
            }
        },
    }
}

/// The rest of an object after a member that ends at `i`: further members
/// after commas, then the closing brace and nothing but whitespace.
pub open spec fn members_from(cs: Seq<char>, i: int, d: Draft) -> Option<Draft>
    decreases cs.len() - i,
{
    let k = skip_ws(cs, i);
    if !(0 <= k < cs.len()) {
        None
    } else if cs[k] == '}' {
        if skip_ws(cs, k + 1) == cs.len() {
            Some(d)
        } else {
            None
        }
    } else if cs[k] == ',' {
        match member_at(cs, skip_ws(cs, k + 1), d) {
            None => None,
            Some((d2, j)) => if i < j <= cs.len() {
                members_from(cs, j, d2)
            } else {
                None
            },
        }
    } else {
        None
    }
}

/// The claims read from the JSON object `cs`, in any order of its members
/// and with any whitespace between tokens.
pub open spec fn object_fields(cs: Seq<char>) -> Option<Draft> {
    let k = skip_ws(cs, 0);
    if 0 <= k < cs.len() && cs[k] == '{' {
        match member_at(cs, skip_ws(cs, k + 1), empty_draft()) {
            None => None,
            Some((d, j)) => members_from(cs, j, d),
        }
    } else {
        None
    }
}

/// The fields of finished claims, when each was read.
pub open spec fn draft_fields(d: Draft) -> Option<(u128, Seq<char>, Seq<char>, Seq<char>, usize, usize, TokenType)> {
    match d {
        (Some(sub), Some(email), Some(name), Some(nickname), Some(exp), Some(iat), Some(t)) => Some(
            (sub, email, name, nickname, exp, iat, t),
        ),
        _ => None,
    }
}

/// The fields of the claims whose JSON text is `p`: an object with each
/// claim once and no other member.
pub open spec fn parse_claims(p: Seq<char>) -> Option<(u128, Seq<char>, Seq<char>, Seq<char>, usize, usize, TokenType)> {
    match object_fields(p) {
        Some(d) => draft_fields(d),
        None => None,
    }
}

proof fn lemma_sub_index(p: Seq<char>, j: int, w: Seq<char>)
    requires
        0 <= j <= p.len(),
        p.subrange(j, p.len() as int) == w,
    ensures
        p.len() == j + w.len(),
        forall|m: int| 0 <= m < w.len() ==> p[j + m] == #[trigger] w[m],
{
    assert forall|m: int| 0 <= m < w.len() implies p[j + m] == #[trigger] w[m] by {
        assert(p.subrange(j, p.len() as int)[m] == p[j + m]);
    }
}

proof fn lemma_peel_lit(p: Seq<char>, j: int, lit: Seq<char>, rest: Seq<char>)
    requires
        0 <= j <= p.len(),
        p.subrange(j, p.len() as int) == lit + rest,
    ensures
        lit_at(p, j, lit),
        p.subrange(j + lit.len(), p.len() as int) == rest,
{
    let w = lit + rest;
    lemma_sub_index(p, j, w);
    assert forall|m: int| 0 <= m < lit.len() implies p.subrange(j, j + lit.len())[m] == lit[m] by {
        assert(w[m] == lit[m]);
    }
    assert(p.subrange(j, j + lit.len()) =~= lit);
    assert forall|m: int| 0 <= m < rest.len() implies p.subrange(j + lit.len(), p.len() as int)[m] == rest[m] by {
        assert(w[lit.len() + m] == rest[m]);
    }
    assert(p.subrange(j + lit.len(), p.len() as int) =~= rest);
}

proof fn lemma_peel_str(p: Seq<char>, j: int, s: Seq<char>, rest: Seq<char>)
    requires
        0 <= j <= p.len(),
        p.subrange(j, p.len() as int) == json_escaped(s) + seq!['"'] + rest,
    ensures
        str_at(p, j) == Some((s, j + json_escaped(s).len() + 1)),
        p.subrange(j + json_escaped(s).len() + 1, p.len() as int) == rest,
{
    let e = json_escaped(s);
    let q = seq!['"'];
    lemma_peel_lit(p, j, e + q, rest);
    assert((e + q) + rest =~= e + (q + rest));
    lemma_peel_lit(p, j, e, q + rest);
    lemma_sub_index(p, j + e.len(), q + rest);
    assert((q + rest)[0] == '"');
    assert(p[j + e.len()] == '"');
    lemma_str_at(p, j, s);
}

/// A number's decimal notation starts with zero only when it is zero.
proof fn lemma_decimal_lead(n: nat)
    ensures
        n > 0 ==> decimal(n)[0] != '0',
        decimal(n).len() > 1 ==> n > 0,
    decreases n,
{
    lemma_decimal(n);
    if n >= 10 {
        lemma_decimal_lead(n / 10);
        lemma_decimal(n / 10);
        assert(decimal(n)[0] == decimal(n / 10)[0]);
    } else {
        lemma_digit_val(n as int);
    }
}

proof fn lemma_peel_num(p: Seq<char>, j: int, n: nat, rest: Seq<char>)
    requires
        0 <= j <= p.len(),
        p.subrange(j, p.len() as int) == decimal(n) + rest,
        rest.len() > 0,
        rest[0] == ',',
    ensures
        num_at(p, j) == Some((n as int, j + decimal(n).len())),
        p.subrange(j + decimal(n).len(), p.len() as int) == rest,
        is_digit(p[j]),
        decimal(n).len() > 1 ==> p[j] != '0',
{
    let d = decimal(n);
    let w = d + rest;
    lemma_decimal(n);
    lemma_decimal_lead(n);
    assert(p[j + 0] == w[0]);
    lemma_peel_lit(p, j, d, rest);
    lemma_sub_index(p, j, w);
    assert forall|m: int| j <= m < j + d.len() implies is_digit(#[trigger] p[m]) by {
        assert(p[j + (m - j)] == w[m - j]);
    }
    assert(p[j + d.len()] == w[d.len() as int]);
    lemma_run_end(p, j, j + d.len());
}

/// `claims_json(c)`, grouped the way it is read back.
pub open spec fn claims_layout(c: Claims) -> Seq<char> {
    let q = seq!['"'];
    ("{\"sub\":"@ + q) + ((json_escaped(uuid_text(c.sub)) + q) + ((",\"email\":"@ + q) + ((json_escaped(c.email@) + q) + (
    (",\"name\":"@ + q) + ((json_escaped(c.name@) + q) + ((",\"nickname\":"@ + q) + ((json_escaped(c.nickname@) + q) + (
    ",\"exp\":"@ + (decimal(c.exp as nat) + (",\"iat\":"@ + (decimal(c.iat as nat) + ((",\"token_type\":"@ + q) + ((
    json_escaped(token_type_name(c.token_type)) + q) + "}"@)))))))))))))
}

#[verifier::rlimit(100)]
#[verifier::spinoff_prover]
proof fn lemma_claims_layout(c: Claims)
    ensures
        claims_json(c) == claims_layout(c),
{
    let p0 = "{\"sub\":"@;
    let j0 = json_string(uuid_text(c.sub));
    let p1 = ",\"email\":"@;
    let j1 = json_string(c.email@);
    let p2 = ",\"name\":"@;
    let j2 = json_string(c.name@);
    let p3 = ",\"nickname\":"@;
    let j3 = json_string(c.nickname@);
    let p4 = ",\"exp\":"@;
    let d1 = decimal(c.exp as nat);
    let p5 = ",\"iat\":"@;
    let d2 = decimal(c.iat as nat);
    let p6 = ",\"token_type\":"@;
    let j4 = json_string(token_type_name(c.token_type));
    let z = "}"@;
    assert(claims_json(c) == ((((((((((((((p0 + j0) + p1) + j1) + p2) + j2) + p3) + j3) + p4) + d1) + p5) + d2) + p6) + j4) + z));
    let x14 = z;
    let x13 = j4 + x14;
    assert((((((((((((((p0 + j0) + p1) + j1) + p2) + j2) + p3) + j3) + p4) + d1) + p5) + d2) + p6) + j4) + x14 =~= ((((((((((((p0 + j0) + p1) + j1) + p2) + j2) + p3) + j3) + p4) + d1) + p5) + d2) + p6) + x13) by { assert((((((((((((((p0 + j0) + p1) + j1) + p2) + j2) + p3) + j3) + p4) + d1) + p5) + d2) + p6) + j4) + x14 =~= ((((((((((((p0 + j0) + p1) + j1) + p2) + j2) + p3) + j3) + p4) + d1) + p5) + d2) + p6) + (j4 + x14)); }
    let x12 = p6 + x13;
    assert(((((((((((((p0 + j0) + p1) + j1) + p2) + j2) + p3) + j3) + p4) + d1) + p5) + d2) + p6) + x13 =~= (((((((((((p0 + j0) + p1) + j1) + p2) + j2) + p3) + j3) + p4) + d1) + p5) + d2) + x12) by { assert(((((((((((((p0 + j0) + p1) + j1) + p2) + j2) + p3) + j3) + p4) + d1) + p5) + d2) + p6) + x13 =~= (((((((((((p0 + j0) + p1) + j1) + p2) + j2) + p3) + j3) + p4) + d1) + p5) + d2) + (p6 + x13)); }
    let x11 = d2 + x12;
    assert((((((((((((p0 + j0) + p1) + j1) + p2) + j2) + p3) + j3) + p4) + d1) + p5) + d2) + x12 =~= ((((((((((p0 + j0) + p1) + j1) + p2) + j2) + p3) + j3) + p4) + d1) + p5) + x11) by { assert((((((((((((p0 + j0) + p1) + j1) + p2) + j2) + p3) + j3) + p4) + d1) + p5) + d2) + x12 =~= ((((((((((p0 + j0) + p1) + j1) + p2) + j2) + p3) + j3) + p4) + d1) + p5) + (d2 + x12)); }
    let x10 = p5 + x11;
    assert(((((((((((p0 + j0) + p1) + j1) + p2) + j2) + p3) + j3) + p4) + d1) + p5) + x11 =~= (((((((((p0 + j0) + p1) + j1) + p2) + j2) + p3) + j3) + p4) + d1) + x10) by { assert(((((((((((p0 + j0) + p1) + j1) + p2) + j2) + p3) + j3) + p4) + d1) + p5) + x11 =~= (((((((((p0 + j0) + p1) + j1) + p2) + j2) + p3) + j3) + p4) + d1) + (p5 + x11)); }
    let x9 = d1 + x10;
    assert((((((((((p0 + j0) + p1) + j1) + p2) + j2) + p3) + j3) + p4) + d1) + x10 =~= ((((((((p0 + j0) + p1) + j1) + p2) + j2) + p3) + j3) + p4) + x9) by { assert((((((((((p0 + j0) + p1) + j1) + p2) + j2) + p3) + j3) + p4) + d1) + x10 =~= ((((((((p0 + j0) + p1) + j1) + p2) + j2) + p3) + j3) + p4) + (d1 + x10)); }
    let x8 = p4 + x9;
    assert(((((((((p0 + j0) + p1) + j1) + p2) + j2) + p3) + j3) + p4) + x9 =~= (((((((p0 + j0) + p1) + j1) + p2) + j2) + p3) + j3) + x8) by { assert(((((((((p0 + j0) + p1) + j1) + p2) + j2) + p3) + j3) + p4) + x9 =~= (((((((p0 + j0) + p1) + j1) + p2) + j2) + p3) + j3) + (p4 + x9)); }
    let x7 = j3 + x8;
    assert((((((((p0 + j0) + p1) + j1) + p2) + j2) + p3) + j3) + x8 =~= ((((((p0 + j0) + p1) + j1) + p2) + j2) + p3) + x7) by { assert((((((((p0 + j0) + p1) + j1) + p2) + j2) + p3) + j3) + x8 =~= ((((((p0 + j0) + p1) + j1) + p2) + j2) + p3) + (j3 + x8)); }
    let x6 = p3 + x7;
    assert(((((((p0 + j0) + p1) + j1) + p2) + j2) + p3) + x7 =~= (((((p0 + j0) + p1) + j1) + p2) + j2) + x6) by { assert(((((((p0 + j0) + p1) + j1) + p2) + j2) + p3) + x7 =~= (((((p0 + j0) + p1) + j1) + p2) + j2) + (p3 + x7)); }
    let x5 = j2 + x6;
    assert((((((p0 + j0) + p1) + j1) + p2) + j2) + x6 =~= ((((p0 + j0) + p1) + j1) + p2) + x5) by { assert((((((p0 + j0) + p1) + j1) + p2) + j2) + x6 =~= ((((p0 + j0) + p1) + j1) + p2) + (j2 + x6)); }
    let x4 = p2 + x5;
    assert(((((p0 + j0) + p1) + j1) + p2) + x5 =~= (((p0 + j0) + p1) + j1) + x4) by { assert(((((p0 + j0) + p1) + j1) + p2) + x5 =~= (((p0 + j0) + p1) + j1) + (p2 + x5)); }
    let x3 = j1 + x4;
    assert((((p0 + j0) + p1) + j1) + x4 =~= ((p0 + j0) + p1) + x3) by { assert((((p0 + j0) + p1) + j1) + x4 =~= ((p0 + j0) + p1) + (j1 + x4)); }
    let x2 = p1 + x3;
    assert(((p0 + j0) + p1) + x3 =~= (p0 + j0) + x2) by { assert(((p0 + j0) + p1) + x3 =~= (p0 + j0) + (p1 + x3)); }
    let x1 = j0 + x2;
    assert((p0 + j0) + x2 =~= p0 + x1) by { assert((p0 + j0) + x2 =~= p0 + (j0 + x2)); }
    let x0 = p0 + x1;
    assert(claims_json(c) == x0);
    let q = seq!['"'];
    assert(p0 + (j0 + x2) =~= (p0 + q) + ((json_escaped(uuid_text(c.sub)) + q) + x2));
    assert(p1 + (j1 + x4) =~= (p1 + q) + ((json_escaped(c.email@) + q) + x4));
    assert(p2 + (j2 + x6) =~= (p2 + q) + ((json_escaped(c.name@) + q) + x6));
    assert(p3 + (j3 + x8) =~= (p3 + q) + ((json_escaped(c.nickname@) + q) + x8));
    assert(p6 + (j4 + x14) =~= (p6 + q) + ((json_escaped(token_type_name(c.token_type)) + q) + x14));
    assert(x0 == claims_layout(c));
}

/// The positions at which `claims_json(c)` holds each of its parts.
#[verifier::rlimit(100)]
#[verifier::spinoff_prover]
proof fn lemma_claims_positions(c: Claims) -> (js: (int, int, int, int, int, int, int))
    ensures
        ({
            let p = claims_json(c);
            let q = seq!['"'];
            let (j1, j2, j3, j4, j5, j6, j7) = js;
            &&& lit_at(p, 0, "{\"sub\":"@ + q)
            &&& str_at(p, 8) == Some((uuid_text(c.sub), j1))
            &&& lit_at(p, j1, ",\"email\":"@ + q)
            &&& str_at(p, j1 + 10) == Some((c.email@, j2))
            &&& lit_at(p, j2, ",\"name\":"@ + q)
            &&& str_at(p, j2 + 9) == Some((c.name@, j3))
            &&& lit_at(p, j3, ",\"nickname\":"@ + q)
            &&& str_at(p, j3 + 13) == Some((c.nickname@, j4))
            &&& lit_at(p, j4, ",\"exp\":"@)
            &&& num_at(p, j4 + 7) == Some((c.exp as int, j5))
            &&& is_digit(p[j4 + 7])
            &&& (j5 > j4 + 8 ==> p[j4 + 7] != '0')
            &&& lit_at(p, j5, ",\"iat\":"@)
            &&& num_at(p, j5 + 7) == Some((c.iat as int, j6))
            &&& is_digit(p[j5 + 7])
            &&& (j6 > j5 + 8 ==> p[j5 + 7] != '0')
            &&& lit_at(p, j6, ",\"token_type\":"@ + q)
            &&& str_at(p, j6 + 15) == Some((token_type_name(c.token_type), j7))
            &&& p[j7] == '}'
            &&& j7 + 1 == p.len()
            &&& 8 < j1 < j2 < j3 < j4 < j5 < j6 < j7
        }),
{
    let p = claims_json(c);
    let q = seq!['"'];
    let u = uuid_text(c.sub);
    let t = token_type_name(c.token_type);
    reveal_strlit("{\"sub\":");
    reveal_strlit(",\"email\":");
    reveal_strlit(",\"name\":");
    reveal_strlit(",\"nickname\":");
    reveal_strlit(",\"exp\":");
    reveal_strlit(",\"iat\":");
    reveal_strlit(",\"token_type\":");
    reveal_strlit("}");
    let l0 = "{\"sub\":"@ + q;
    let l1 = ",\"email\":"@ + q;
    let l2 = ",\"name\":"@ + q;
    let l3 = ",\"nickname\":"@ + q;
    let l4 = ",\"exp\":"@;
    let l5 = ",\"iat\":"@;
    let l6 = ",\"token_type\":"@ + q;
    let r7 = "}"@;
    let r6 = (json_escaped(t) + q) + r7;
    let r5 = l6 + r6;
    let r4 = decimal(c.iat as nat) + r5;
    let r3 = l5 + r4;
    let r2b = decimal(c.exp as nat) + r3;
    let r2 = l4 + r2b;
    let r1b = (json_escaped(c.nickname@) + q) + r2;
    let r1 = l3 + r1b;
    let r0b = (json_escaped(c.name@) + q) + r1;
    let r0 = l2 + r0b;
    let rsb = (json_escaped(c.email@) + q) + r0;
    let rs = l1 + rsb;
    let ru = (json_escaped(u) + q) + rs;
    lemma_claims_layout(c);
    assert(p == l0 + ru);
    assert(p.subrange(0, p.len() as int) =~= p);
    lemma_peel_lit(p, 0, l0, ru);
    let j0 = l0.len() as int;
    lemma_peel_str(p, j0, u, rs);
    let j1 = j0 + json_escaped(u).len() + 1;
    lemma_peel_lit(p, j1, l1, rsb);
    let j1b = j1 + l1.len();
    lemma_peel_str(p, j1b, c.email@, r0);
    let j2 = j1b + json_escaped(c.email@).len() + 1;
    lemma_peel_lit(p, j2, l2, r0b);
    let j2b = j2 + l2.len();
    lemma_peel_str(p, j2b, c.name@, r1);
    let j3 = j2b + json_escaped(c.name@).len() + 1;
    lemma_peel_lit(p, j3, l3, r1b);
    let j3b = j3 + l3.len();
    lemma_peel_str(p, j3b, c.nickname@, r2);
    let j4 = j3b + json_escaped(c.nickname@).len() + 1;
    lemma_peel_lit(p, j4, l4, r2b);
    let j4b = j4 + l4.len();
    lemma_peel_num(p, j4b, c.exp as nat, r3);
    let j5 = j4b + decimal(c.exp as nat).len();
    lemma_peel_lit(p, j5, l5, r4);
    let j5b = j5 + l5.len();
    lemma_peel_num(p, j5b, c.iat as nat, r5);
    let j6 = j5b + decimal(c.iat as nat).len();
    lemma_peel_lit(p, j6, l6, r6);
    let j6b = j6 + l6.len();
    lemma_peel_str(p, j6b, t, r7);
    let j7 = j6b + json_escaped(t).len() + 1;
    lemma_sub_index(p, j7, r7);
    assert(p[j7] == '}');
    (j1, j2, j3, j4, j5, j6, j7)
}

/// A character that a JSON string holds as itself.
pub open spec fn plain(c: char) -> bool {
    c != '"' && c != '\\' && (c as u32) >= 0x20
}

/// Text of plain characters is written as it is.
proof fn lemma_plain_escaped(s: Seq<char>)
    requires
        forall|m: int| 0 <= m < s.len() ==> plain(#[trigger] s[m]),
    ensures
        json_escaped(s) == s,
    decreases s.len(),
{
    if s.len() > 0 {
        let t = s.drop_last();
        assert forall|m: int| 0 <= m < t.len() implies plain(#[trigger] t[m]) by {
            assert(t[m] == s[m]);
        }
        lemma_plain_escaped(t);
        assert(plain(s[s.len() - 1]));
        assert(json_escaped_char(s.last()) =~= seq![s.last()]);
        assert(t + seq![s.last()] =~= s);
    }
}

/// A member written by `lit` at `p[j]` after one leading character: its name
/// `key` in quotes and a colon; then comes its value.
proof fn lemma_member_name(p: Seq<char>, j: int, lit: Seq<char>, key: Seq<char>, d: Draft)
    requires
        lit_at(p, j, lit),
        lit.len() >= key.len() + 4,
        lit[1] == '"',
        lit.subrange(2, 2 + key.len() as int) == key,
        lit[2 + key.len() as int] == '"',
        lit[3 + key.len() as int] == ':',
        forall|m: int| 0 <= m < key.len() ==> plain(#[trigger] key[m]),
        (lit.len() > key.len() + 4 && lit[key.len() + 4 as int] == '"') || (j + key.len() + 4 < p.len()
            && is_digit(p[j + key.len() + 4])),
    ensures
        p[j] == lit[0],
        p[j + 1] == '"',
        lit.len() > key.len() + 4 ==> p[j + key.len() + 4] == lit[key.len() + 4 as int],
        member_at(p, j + 1, d) == value_at(p, j + key.len() + 4, key, d),
{
    let n = key.len() as int;
    lemma_plain_escaped(key);
    assert forall|m: int| 0 <= m < lit.len() implies p[j + m] == #[trigger] lit[m] by {
        assert(p.subrange(j, j + lit.len())[m] == p[j + m]);
    }
    assert(p[j + 0] == lit[0]);
    assert(p[j + 1] == lit[1]);
    assert(p.subrange(j + 2, j + 2 + n) =~= key) by {
        assert forall|m: int| 0 <= m < n implies p.subrange(j + 2, j + 2 + n)[m] == key[m] by {
            assert(p[j + (2 + m)] == lit[2 + m]);
            assert(lit.subrange(2, 2 + n)[m] == lit[2 + m]);
        }
    }
    assert(p[j + (2 + n)] == lit[2 + n]);
    lemma_str_at(p, j + 2, key);
    assert(p[j + (3 + n)] == lit[3 + n]);
    if lit.len() > n + 4 {
        assert(p[j + (n + 4)] == lit[n + 4]);
    }
    assert(str_value(p, j + 1) == Some((key, j + 3 + n)));
    assert(skip_ws(p, j + 3 + n) == j + 3 + n);
    assert(skip_ws(p, j + 4 + n) == j + 4 + n);
}

/// After a member, a comma and the next member's opening quote.
proof fn lemma_members_next(p: Seq<char>, b: int, d: Draft)
    requires
        0 <= b,
        b + 1 < p.len(),
        p[b] == ',',
        p[b + 1] == '"',
    ensures
        members_from(p, b, d) == match member_at(p, b + 1, d) {
            None => None,
            Some((d2, j)) => if b < j <= p.len() {
                members_from(p, j, d2)
            } else {
                None
            },
        },
{
    assert(skip_ws(p, b) == b);
    assert(skip_ws(p, b + 1) == b + 1);
}

/// After the last member, the closing brace at the end.
proof fn lemma_members_end(p: Seq<char>, b: int, d: Draft)
    requires
        0 <= b,
        b + 1 == p.len(),
        p[b] == '}',
    ensures
        members_from(p, b, d) == Some(d),
{
    assert(skip_ws(p, b) == b);
    assert(skip_ws(p, b + 1) == b + 1);
}

/// What the reader needs of the literals `claims_json` writes: each is a
/// leading character, a claim's name in quotes and a colon, and, before a
/// string value, its opening quote.
proof fn lemma_claim_literals()
    ensures
        ({
            let q = seq!['"'];
            let l0 = "{\"sub\":"@ + q;
            let l1 = ",\"email\":"@ + q;
            let l2 = ",\"name\":"@ + q;
            let l3 = ",\"nickname\":"@ + q;
            let l4 = ",\"exp\":"@;
            let l5 = ",\"iat\":"@;
            let l6 = ",\"token_type\":"@ + q;
            &&& l0.len() == 8 && l0[0] == '{' && l0[1] == '"' && l0[5] == '"' && l0[6] == ':' && l0[7] == '"'
            &&& l0.subrange(2, 5) == "sub"@
            &&& l1.len() == 10 && l1[0] == ',' && l1[1] == '"' && l1[7] == '"' && l1[8] == ':' && l1[9] == '"'
            &&& l1.subrange(2, 7) == "email"@
            &&& l2.len() == 9 && l2[0] == ',' && l2[1] == '"' && l2[6] == '"' && l2[7] == ':' && l2[8] == '"'
            &&& l2.subrange(2, 6) == "name"@
            &&& l3.len() == 13 && l3[0] == ',' && l3[1] == '"' && l3[10] == '"' && l3[11] == ':' && l3[12] == '"'
            &&& l3.subrange(2, 10) == "nickname"@
            &&& l4.len() == 7 && l4[0] == ',' && l4[1] == '"' && l4[5] == '"' && l4[6] == ':'
            &&& l4.subrange(2, 5) == "exp"@
            &&& l5.len() == 7 && l5[0] == ',' && l5[1] == '"' && l5[5] == '"' && l5[6] == ':'
            &&& l5.subrange(2, 5) == "iat"@
            &&& l6.len() == 15 && l6[0] == ',' && l6[1] == '"' && l6[12] == '"' && l6[13] == ':' && l6[14] == '"'
            &&& l6.subrange(2, 12) == "token_type"@
        }),
        "sub"@.len() == 3 && "email"@.len() == 5 && "name"@.len() == 4 && "nickname"@.len() == 8,
        "exp"@.len() == 3 && "iat"@.len() == 3 && "token_type"@.len() == 10,
        forall|m: int| 0 <= m < "sub"@.len() ==> plain(#[trigger] "sub"@[m]),
        forall|m: int| 0 <= m < "email"@.len() ==> plain(#[trigger] "email"@[m]),
        forall|m: int| 0 <= m < "name"@.len() ==> plain(#[trigger] "name"@[m]),
        forall|m: int| 0 <= m < "nickname"@.len() ==> plain(#[trigger] "nickname"@[m]),
        forall|m: int| 0 <= m < "exp"@.len() ==> plain(#[trigger] "exp"@[m]),
        forall|m: int| 0 <= m < "iat"@.len() ==> plain(#[trigger] "iat"@[m]),
        forall|m: int| 0 <= m < "token_type"@.len() ==> plain(#[trigger] "token_type"@[m]),
{
    reveal_strlit("{\"sub\":");
    reveal_strlit(",\"email\":");
    reveal_strlit(",\"name\":");
    reveal_strlit(",\"nickname\":");
    reveal_strlit(",\"exp\":");
    reveal_strlit(",\"iat\":");
    reveal_strlit(",\"token_type\":");
    reveal_strlit("sub");
    reveal_strlit("email");
    reveal_strlit("name");
    reveal_strlit("nickname");
    reveal_strlit("exp");
    reveal_strlit("iat");
    reveal_strlit("token_type");
    let q = seq!['"'];
    assert(("{\"sub\":"@ + q).subrange(2, 5) =~= "sub"@);
    assert((",\"email\":"@ + q).subrange(2, 7) =~= "email"@);
    assert((",\"name\":"@ + q).subrange(2, 6) =~= "name"@);
    assert((",\"nickname\":"@ + q).subrange(2, 10) =~= "nickname"@);
    assert(",\"exp\":"@.subrange(2, 5) =~= "exp"@);
    assert(",\"iat\":"@.subrange(2, 5) =~= "iat"@);
    assert((",\"token_type\":"@ + q).subrange(2, 12) =~= "token_type"@);
}

/// The slot of each claim's name.
proof fn lemma_claim_slots()
    ensures
        claim_slot("sub"@) == 0,
        claim_slot("email"@) == 1,
        claim_slot("name"@) == 2,
        claim_slot("nickname"@) == 3,
        claim_slot("exp"@) == 4,
        claim_slot("iat"@) == 5,
        claim_slot("token_type"@) == 6,
{
    reveal_strlit("sub");
    reveal_strlit("email");
    reveal_strlit("name");
    reveal_strlit("nickname");
    reveal_strlit("exp");
    reveal_strlit("iat");
    reveal_strlit("token_type");
    assert("sub"@[0] == 's' && "email"@[0] == 'e' && "name"@[0] == 'n' && "nickname"@[0] == 'n');
    assert("exp"@[0] == 'e' && "iat"@[0] == 'i' && "token_type"@[0] == 't');
    assert("sub"@.len() == 3 && "email"@.len() == 5 && "name"@.len() == 4 && "nickname"@.len() == 8);
    assert("exp"@.len() == 3 && "iat"@.len() == 3 && "token_type"@.len() == 10);
    assert("name"@[1] == 'a' && "nickname"@[1] == 'i' && "exp"@[1] == 'x' && "email"@[1] == 'm');
    assert("email"@ != "sub"@ && "name"@ != "sub"@ && "name"@ != "email"@);
    assert("nickname"@ != "sub"@ && "nickname"@ != "email"@ && "nickname"@ != "name"@);
    assert("exp"@ != "sub"@ && "exp"@ != "email"@ && "exp"@ != "name"@ && "exp"@ != "nickname"@);
    assert("iat"@ != "sub"@ && "iat"@ != "email"@ && "iat"@ != "name"@ && "iat"@ != "nickname"@ && "iat"@ != "exp"@);
    assert("token_type"@ != "sub"@ && "token_type"@ != "email"@ && "token_type"@ != "name"@);
    assert("token_type"@ != "nickname"@ && "token_type"@ != "exp"@ && "token_type"@ != "iat"@);
}

/// A token type's name reads back as the token type.
proof fn lemma_token_type_name(t: TokenType)
    ensures
        token_type_of(token_type_name(t)) == Some(t),
{
    reveal_strlit("Access");
    reveal_strlit("Refresh");
    assert("Access"@.len() == 6 && "Refresh"@.len() == 7);
    assert("Refresh"@ != "Access"@);
}

/// A member whose value is a string, after a comma: what the rest of the
/// object reads.
proof fn lemma_text_step(p: Seq<char>, j: int, lit: Seq<char>, key: Seq<char>, d: Draft, val: Seq<char>, jn: int)
    requires
        lit_at(p, j, lit),
        lit.len() == key.len() + 5,
        lit[0] == ',',
        lit[1] == '"',
        lit.subrange(2, 2 + key.len() as int) == key,
        lit[2 + key.len() as int] == '"',
        lit[3 + key.len() as int] == ':',
        lit[4 + key.len() as int] == '"',
        forall|m: int| 0 <= m < key.len() ==> plain(#[trigger] key[m]),
        str_at(p, j + lit.len()) == Some((val, jn)),
    ensures
        members_from(p, j, d) == match value_at(p, j + key.len() + 4, key, d) {
            None => None,
            Some((d2, k)) => if j < k <= p.len() {
                members_from(p, k, d2)
            } else {
                None
            },
        },
        str_value(p, j + key.len() + 4) == Some((val, jn)),
{
    lemma_member_name(p, j, lit, key, d);
    lemma_members_next(p, j, d);
}

/// A member whose value is a number, after a comma: what the rest of the
/// object reads.
proof fn lemma_num_step(p: Seq<char>, j: int, lit: Seq<char>, key: Seq<char>, d: Draft, n: int, jn: int)
    requires
        lit_at(p, j, lit),
        lit.len() == key.len() + 4,
        lit[0] == ',',
        lit[1] == '"',
        lit.subrange(2, 2 + key.len() as int) == key,
        lit[2 + key.len() as int] == '"',
        lit[3 + key.len() as int] == ':',
        forall|m: int| 0 <= m < key.len() ==> plain(#[trigger] key[m]),
        num_at(p, j + lit.len()) == Some((n, jn)),
        is_digit(p[j + lit.len()]),
        jn > j + lit.len() + 1 ==> p[j + lit.len()] != '0',
        0 <= n <= usize::MAX,
    ensures
        members_from(p, j, d) == match value_at(p, j + key.len() + 4, key, d) {
            None => None,
            Some((d2, k)) => if j < k <= p.len() {
                members_from(p, k, d2)
            } else {
                None
            },
        },
        usize_value(p, j + key.len() + 4) == Some((n as usize, jn)),
{
    assert(j + lit.len() < p.len()) by {
        assert(run_end(p, j + lit.len()) != j + lit.len());
    }
    lemma_member_name(p, j, lit, key, d);
    lemma_members_next(p, j, d);
}

/// The JSON text of claims parses back to their fields.
#[verifier::rlimit(100)]
#[verifier::spinoff_prover]
pub proof fn lemma_parse_claims(c: Claims)
    ensures
        parse_claims(claims_json(c)) == Some(claims_fields(c)),
{
    let p = claims_json(c);
    let q = seq!['"'];
    let (j1, j2, j3, j4, j5, j6, j7) = lemma_claims_positions(c);
    lemma_claim_literals();
    lemma_claim_slots();
    lemma_token_type_name(c.token_type);
    lemma_uuid_text(c.sub);
    let l0 = "{\"sub\":"@ + q;
    let l1 = ",\"email\":"@ + q;
    let l2 = ",\"name\":"@ + q;
    let l3 = ",\"nickname\":"@ + q;
    let l4 = ",\"exp\":"@;
    let l5 = ",\"iat\":"@;
    let l6 = ",\"token_type\":"@ + q;
    let d0 = empty_draft();
    let d1: Draft = (Some(c.sub), None, None, None, None, None, None);
    let d2: Draft = (Some(c.sub), Some(c.email@), None, None, None, None, None);
    let d3: Draft = (Some(c.sub), Some(c.email@), Some(c.name@), None, None, None, None);
    let d4: Draft = (Some(c.sub), Some(c.email@), Some(c.name@), Some(c.nickname@), None, None, None);
    let d5: Draft = (Some(c.sub), Some(c.email@), Some(c.name@), Some(c.nickname@), Some(c.exp), None, None);
    let d6: Draft = (Some(c.sub), Some(c.email@), Some(c.name@), Some(c.nickname@), Some(c.exp), Some(c.iat), None);
    let d7: Draft = (
        Some(c.sub),
        Some(c.email@),
        Some(c.name@),
        Some(c.nickname@),
        Some(c.exp),
        Some(c.iat),
        Some(c.token_type),
    );
    assert(member_at(p, 1, d0) == Some((d1, j1))) by {
        lemma_member_name(p, 0, l0, "sub"@, d0);
    }
    assert(object_fields(p) == members_from(p, j1, d1)) by {
        lemma_member_name(p, 0, l0, "sub"@, d0);
        assert(skip_ws(p, 0) == 0);
        assert(skip_ws(p, 1) == 1);
    }
    assert(members_from(p, j1, d1) == members_from(p, j2, d2)) by {
        lemma_text_step(p, j1, l1, "email"@, d1, c.email@, j2);
    }
    assert(members_from(p, j2, d2) == members_from(p, j3, d3)) by {
        lemma_text_step(p, j2, l2, "name"@, d2, c.name@, j3);
    }
    assert(members_from(p, j3, d3) == members_from(p, j4, d4)) by {
        lemma_text_step(p, j3, l3, "nickname"@, d3, c.nickname@, j4);
    }
    assert(members_from(p, j4, d4) == members_from(p, j5, d5)) by {
        lemma_num_step(p, j4, l4, "exp"@, d4, c.exp as int, j5);
    }
    assert(members_from(p, j5, d5) == members_from(p, j6, d6)) by {
        lemma_num_step(p, j5, l5, "iat"@, d5, c.iat as int, j6);
    }
    assert(members_from(p, j6, d6) == members_from(p, j7, d7)) by {
        lemma_text_step(p, j6, l6, "token_type"@, d6, token_type_name(c.token_type), j7);
    }
    lemma_members_end(p, j7, d7);
}

fn token_type_exec(t: &Vec<char>) -> (r: Option<TokenType>)
    ensures
        r == token_type_of(t@),
{
    let a = chars_of("Access");
    let b = chars_of("Refresh");
    if seq_eq(t, &a) {
        Some(TokenType::Access)
    } else if seq_eq(t, &b) {
        Some(TokenType::Refresh)
    } else {
        None
    }
}

fn seq_eq(a: &Vec<char>, b: &Vec<char>) -> (r: bool)
    ensures
        r == (a@ == b@),
{
    if a.len() != b.len() {
        return false;
    }
    let mut i: usize = 0;
    while i < a.len()
        invariant
            a@.len() == b@.len(),
            i <= a@.len(),
            forall|k: int| 0 <= k < i ==> a@[k] == b@[k],
        decreases a@.len() - i,
    {
        if a[i] != b[i] {
            return false;
        }
        i = i + 1;
    }
    assert(a@ =~= b@);
    true
}

/// The first position at or after `i` that holds no whitespace.
fn skip_ws_exec(cs: &Vec<char>, i: usize) -> (r: usize)
    ensures
        r == skip_ws(cs@, i as int),
{
    let mut j = i;
    while j < cs.len() && (cs[j] == ' ' || cs[j] == '\t' || cs[j] == '\n' || cs[j] == '\r')
        invariant
            i <= j,
            skip_ws(cs@, i as int) == skip_ws(cs@, j as int),
        decreases cs@.len() - j,
    {
        j = j + 1;
    }
    j
}

/// Reads the JSON string starting at `cs[v]`.
fn str_value_exec(cs: &Vec<char>, v: usize) -> (r: Option<(Vec<char>, usize)>)
    ensures
        match str_value(cs@, v as int) {
            Some((s, j)) => r matches Some((t, k)) && t@ == s && k == j,
            None => r is None,
        },
{
    if v < cs.len() && cs[v] == '"' {
        str_at_exec(cs, v + 1)
    } else {
        None
    }
}

/// Reads the JSON integer starting at `cs[v]` as a `usize`.
fn usize_value_exec(cs: &Vec<char>, v: usize) -> (r: Option<(usize, usize)>)
    ensures
        match usize_value(cs@, v as int) {
            Some((n, j)) => r matches Some((m, k)) && m == n && k == j,
            None => r is None,
        },
{
    let (n, j) = num_at_exec(cs, v)?;
    if v < cs.len() && j > v + 1 && cs[v] == '0' {
        return None;
    }
    if n as u128 > usize::MAX as u128 {
        return None;
    }
    Some((n as usize, j))
}

/// `w` is written at `cs[i]`.
fn word_at_exec(cs: &Vec<char>, i: usize, w: &str) -> (r: bool)
    ensures
        r == lit_at(cs@, i as int, w@),
{
    let l = chars_of(w);
    if i > cs.len() || l.len() > cs.len() - i {
        return false;
    }
    let mut k: usize = 0;
    while k < l.len()
        invariant
            l@ == w@,
            i + l@.len() <= cs@.len(),
            cs@.len() == cs.len(),
            k <= l@.len(),
            forall|m: int| 0 <= m < k ==> cs@[i + m] == l@[m],
        decreases l@.len() - k,
    {
        if cs[i + k] != l[k] {
            assert(cs@.subrange(i as int, i + l@.len())[k as int] != l@[k as int]);
            return false;
        }
        k = k + 1;
    }
    assert(cs@.subrange(i as int, i + l@.len()) =~= l@);
    true
}

/// The end of the run of digits at `cs[i]`, when there is at least one.
fn digits_end_exec(cs: &Vec<char>, i: usize) -> (r: Option<usize>)
    ensures
        match r {
            Some(k) => digits_end(cs@, i as int) == Some(k as int),
            None => digits_end(cs@, i as int) is None,
        },
{
    let mut j = i;
    while j < cs.len() && '0' <= cs[j] && cs[j] <= '9'
        invariant
            i <= j,
            run_end(cs@, i as int) == run_end(cs@, j as int),
        decreases cs@.len() - j,
    {
        j = j + 1;
    }
    if j == i {
        None
    } else {
        Some(j)
    }
}

fn int_part_end_exec(cs: &Vec<char>, a: usize) -> (r: Option<usize>)
    ensures
        match r {
            Some(k) => int_part_end(cs@, a as int) == Some(k as int),
            None => int_part_end(cs@, a as int) is None,
        },
{
    if a < cs.len() && cs[a] == '0' {
        if a + 1 < cs.len() && '0' <= cs[a + 1] && cs[a + 1] <= '9' {
            None
        } else {
            Some(a + 1)
        }
    } else {
        digits_end_exec(cs, a)
    }
}

fn frac_end_exec(cs: &Vec<char>, b: usize) -> (r: Option<usize>)
    ensures
        match r {
            Some(k) => frac_end(cs@, b as int) == Some(k as int),
            None => frac_end(cs@, b as int) is None,
        },
{
    if b < cs.len() && cs[b] == '.' {
        digits_end_exec(cs, b + 1)
    } else {
        Some(b)
    }
}

fn exp_end_exec(cs: &Vec<char>, c: usize) -> (r: Option<usize>)
    ensures
        match r {
            Some(k) => exp_end(cs@, c as int) == Some(k as int),
            None => exp_end(cs@, c as int) is None,
        },
{
    if c < cs.len() && (cs[c] == 'e' || cs[c] == 'E') {
        if c + 1 < cs.len() && (cs[c + 1] == '+' || cs[c + 1] == '-') {
            digits_end_exec(cs, c + 2)
        } else {
            digits_end_exec(cs, c + 1)
        }
    } else {
        Some(c)
    }
}

/// The end of the JSON number at `cs[i]`.
fn number_end_exec(cs: &Vec<char>, i: usize) -> (r: Option<usize>)
    ensures
        match r {
            Some(k) => number_end(cs@, i as int) == Some(k as int),
            None => number_end(cs@, i as int) is None,
        },
{
    let a = if i < cs.len() && cs[i] == '-' { i + 1 } else { i };
    let b = int_part_end_exec(cs, a)?;
    let c = frac_end_exec(cs, b)?;
    exp_end_exec(cs, c)
}

/// The end of a JSON string whose contents start at `cs[i]`, passed over.
fn skip_str_end_exec(cs: &Vec<char>, i: usize) -> (r: Option<usize>)
    ensures
        match r {
            Some(k) => skip_str_end(cs@, i as int) == Some(k as int),
            None => skip_str_end(cs@, i as int) is None,
        },
{
    let mut j = i;
    while j < cs.len()
        invariant
            i <= j,
            skip_str_end(cs@, i as int) == skip_str_end(cs@, j as int),
        decreases cs@.len() - j,
    {
        let c = cs[j];
        if c == '"' {
            return Some(j + 1);
        } else if c == '\\' {
            if cs.len() - j < 2 {
                return None;
            }
            let e = cs[j + 1];
            if e == '"' || e == '\\' || e == '/' || e == 'b' || e == 'f' || e == 'n' || e == 'r' || e == 't' {
                j = j + 2;
            } else if e == 'u' {
                match hex4_exec(cs, j + 2) {
                    Some(_) => {
                        j = j + 6;
                    },
                    None => {
                        return None;
                    },
                }
            } else {
                return None;
            }
        } else if (c as u32) < 0x20 {
            return None;
        } else {
            j = j + 1;
        }
    }
    None
}

/// The end of the JSON value at `cs[i]`, passed over.
fn value_end_exec(cs: &Vec<char>, i: usize) -> (r: Option<usize>)
    ensures
        match r {
            Some(k) => value_end(cs@, i as int) == Some(k as int),
            None => value_end(cs@, i as int) is None,
        },
    decreases cs@.len() - i, 0int,
{
    if i >= cs.len() {
        return None;
    }
    proof {
        reveal_strlit("true");
        reveal_strlit("false");
        reveal_strlit("null");
    }
    let c = cs[i];
    if c == '"' {
        skip_str_end_exec(cs, i + 1)
    } else if c == 't' {
        if word_at_exec(cs, i, "true") {
            Some(i + 4)
        } else {
            None
        }
    } else if c == 'f' {
        if word_at_exec(cs, i, "false") {
            Some(i + 5)
        } else {
            None
        }
    } else if c == 'n' {
        if word_at_exec(cs, i, "null") {
            Some(i + 4)
        } else {
            None
        }
    } else if c == '-' || ('0' <= c && c <= '9') {
        number_end_exec(cs, i)
    } else if c == '[' || c == '{' {
        let k = skip_ws_exec(cs, i + 1);
        proof {
            lemma_skip_ws_ge(cs@, i + 1);
        }
        let close = if c == '[' { ']' } else { '}' };
        if k < cs.len() && cs[k] == close {
            Some(k + 1)
        } else if c == '[' {
            elements_end_exec(cs, k)
        } else {
            entries_end_exec(cs, k)
        }
    } else {
        None
    }
}

/// The end of an array whose next element starts at `cs[k]`.
fn elements_end_exec(cs: &Vec<char>, k: usize) -> (r: Option<usize>)
    ensures
        match r {
            Some(e) => elements_end(cs@, k as int) == Some(e as int),
            None => elements_end(cs@, k as int) is None,
        },
    decreases cs@.len() - k, 1int,
{
    if k >= cs.len() {
        return None;
    }
    let j = value_end_exec(cs, k)?;
    if j <= k || j > cs.len() {
        return None;
    }
    let m = skip_ws_exec(cs, j);
    proof {
        lemma_skip_ws_ge(cs@, j as int);
    }
    if m < cs.len() && cs[m] == ']' {
        Some(m + 1)
    } else if m < cs.len() && cs[m] == ',' {
        let n = skip_ws_exec(cs, m + 1);
        proof {
            lemma_skip_ws_ge(cs@, m + 1);
        }
        elements_end_exec(cs, n)
    } else {
        None
    }
}

/// The end of an object whose next member starts at `cs[k]`.
fn entries_end_exec(cs: &Vec<char>, k: usize) -> (r: Option<usize>)
    ensures
        match r {
            Some(e) => entries_end(cs@, k as int) == Some(e as int),
            None => entries_end(cs@, k as int) is None,
        },
    decreases cs@.len() - k, 1int,
{
    if k >= cs.len() || cs[k] != '"' {
        return None;
    }
    let j = skip_str_end_exec(cs, k + 1)?;
    let c = skip_ws_exec(cs, j);
    if j <= k || !(c < cs.len() && cs[c] == ':') {
        return None;
    }
    let v = skip_ws_exec(cs, c + 1);
    proof {
        lemma_skip_ws_ge(cs@, j as int);
        lemma_skip_ws_ge(cs@, c + 1);
    }
    let e = value_end_exec(cs, v)?;
    if e <= v || e > cs.len() {
        return None;
    }
    let m = skip_ws_exec(cs, e);
    proof {
        lemma_skip_ws_ge(cs@, e as int);
    }
    if m < cs.len() && cs[m] == '}' {
        Some(m + 1)
    } else if m < cs.len() && cs[m] == ',' {
        let n = skip_ws_exec(cs, m + 1);
        proof {
            lemma_skip_ws_ge(cs@, m + 1);
        }
        entries_end_exec(cs, n)
    } else {
        None
    }
}

/// Claims read so far from an object.
struct DraftBuf {
    sub: Option<u128>,
    email: Option<Vec<char>>,
    name: Option<Vec<char>>,
    nickname: Option<Vec<char>>,
    exp: Option<usize>,
    iat: Option<usize>,
    token_type: Option<TokenType>,
}

spec fn text_opt(o: Option<Vec<char>>) -> Option<Seq<char>> {
    match o {
        Some(v) => Some(v@),
        None => None,
    }
}

spec fn draft_of(d: DraftBuf) -> Draft {
    (d.sub, text_opt(d.email), text_opt(d.name), text_opt(d.nickname), d.exp, d.iat, d.token_type)
}

/// Which claim a member's name stands for.
fn claim_slot_exec(key: &Vec<char>) -> (r: i8)
    ensures
        r == claim_slot(key@),
{
    if seq_eq(key, &chars_of("sub")) {
        0
    } else if seq_eq(key, &chars_of("email")) {
        1
    } else if seq_eq(key, &chars_of("name")) {
        2
    } else if seq_eq(key, &chars_of("nickname")) {
        3
    } else if seq_eq(key, &chars_of("exp")) {
        4
    } else if seq_eq(key, &chars_of("iat")) {
        5
    } else if seq_eq(key, &chars_of("token_type")) {
        6
    } else {
        -1
    }
}

/// Reads the value of the member named `key` at `cs[v]` into `d`.
fn value_at_exec(cs: &Vec<char>, v: usize, key: &Vec<char>, d: DraftBuf) -> (r: Option<(DraftBuf, usize)>)
    ensures
        match value_at(cs@, v as int, key@, draft_of(d)) {
            Some((e, j)) => r matches Some((b, k)) && draft_of(b) == e && k == j,
            None => r is None,
        },
{
    let DraftBuf { sub, email, name, nickname, exp, iat, token_type } = d;
    let slot = claim_slot_exec(key);
    if slot == 0 {
        if sub.is_some() {
            return None;
        }
        let (t, j) = str_value_exec(cs, v)?;
        let u = uuid_of_text_exec(&t)?;
        Some((DraftBuf { sub: Some(u), email, name, nickname, exp, iat, token_type }, j))
    } else if slot == 1 {
        if email.is_some() {
            return None;
        }
        let (t, j) = str_value_exec(cs, v)?;
        Some((DraftBuf { sub, email: Some(t), name, nickname, exp, iat, token_type }, j))
    } else if slot == 2 {
        if name.is_some() {
            return None;
        }
        let (t, j) = str_value_exec(cs, v)?;
        Some((DraftBuf { sub, email, name: Some(t), nickname, exp, iat, token_type }, j))
    } else if slot == 3 {
        if nickname.is_some() {
            return None;
        }
        let (t, j) = str_value_exec(cs, v)?;
        Some((DraftBuf { sub, email, name, nickname: Some(t), exp, iat, token_type }, j))
    } else if slot == 4 {
        if exp.is_some() {
            return None;
        }
        let (n, j) = usize_value_exec(cs, v)?;
        Some((DraftBuf { sub, email, name, nickname, exp: Some(n), iat, token_type }, j))
    } else if slot == 5 {
        if iat.is_some() {
            return None;
        }
        let (n, j) = usize_value_exec(cs, v)?;
        Some((DraftBuf { sub, email, name, nickname, exp, iat: Some(n), token_type }, j))
    } else if slot == 6 {
        if token_type.is_some() {
            return None;
        }
        let (t, j) = str_value_exec(cs, v)?;
        let k = token_type_exec(&t)?;
        Some((DraftBuf { sub, email, name, nickname, exp, iat, token_type: Some(k) }, j))
    } else {
        let j = value_end_exec(cs, v)?;
        Some((DraftBuf { sub, email, name, nickname, exp, iat, token_type }, j))
    }
}

/// Reads the member starting at `cs[i]` into `d`.
fn member_at_exec(cs: &Vec<char>, i: usize, d: DraftBuf) -> (r: Option<(DraftBuf, usize)>)
    ensures
        match member_at(cs@, i as int, draft_of(d)) {
            Some((e, j)) => r matches Some((b, k)) && draft_of(b) == e && k == j,
            None => r is None,
        },
{
    let (key, j) = str_value_exec(cs, i)?;
    let k = skip_ws_exec(cs, j);
    if k >= cs.len() || cs[k] != ':' {
        return None;
    }
    let v = skip_ws_exec(cs, k + 1);
    value_at_exec(cs, v, &key, d)
}

/// The claims of a finished read, when each was read.
fn claims_of_draft(d: DraftBuf) -> (r: Option<Claims>)
    ensures
        match draft_fields(draft_of(d)) {
            Some(f) => r matches Some(c) && claims_fields(c) == f,
            None => r is None,
        },
{
    match (d.sub, d.email, d.name, d.nickname, d.exp, d.iat, d.token_type) {
        (Some(sub), Some(email), Some(name), Some(nickname), Some(exp), Some(iat), Some(token_type)) => {
            Some(
                Claims {
                    sub,
                    email: string_from_chars(&email),
                    name: string_from_chars(&name),
                    nickname: string_from_chars(&nickname),
                    exp,
                    iat,
                    token_type,
                },
            )
        },
        _ => None,
    }
}

/// Reads claims back from their JSON text: an object holding each claim once,
/// its members in any order, with any whitespace between tokens; `None` for
/// any other text.
pub fn claims_from_json(text: &str) -> (r: Option<Claims>)
    ensures
        match parse_claims(text@) {
            Some(f) => r matches Some(c) && claims_fields(c) == f,
            None => r is None,
        },
{
    let p = chars_of(text);
    let k = skip_ws_exec(&p, 0);
    if k >= p.len() || p[k] != '{' {
        return None;
    }
    let s = skip_ws_exec(&p, k + 1);
    let empty = DraftBuf {
        sub: None,
        email: None,
        name: None,
        nickname: None,
        exp: None,
        iat: None,
        token_type: None,
    };
    assert(draft_of(empty) == empty_draft());
    let (first, j) = member_at_exec(&p, s, empty)?;
    if j > p.len() {
        assert(skip_ws(p@, j as int) == j);
        return None;
    }
    let mut d = first;
    let mut i = j;
    loop
        invariant
            i <= p@.len(),
            p@ == text@,
            object_fields(p@) == members_from(p@, i as int, draft_of(d)),
        decreases p@.len() - i,
    {
        let k = skip_ws_exec(&p, i);
        if k >= p.len() {
            return None;
        }
        if p[k] == '}' {
            if skip_ws_exec(&p, k + 1) != p.len() {
                return None;
            }
            return claims_of_draft(d);
        }
        if p[k] != ',' {
            return None;
        }
        let s = skip_ws_exec(&p, k + 1);
        let (next, j) = member_at_exec(&p, s, d)?;
        if j <= i || j > p.len() {
            return None;
        }
        d = next;
        i = j;
    }
}

} // verus!
