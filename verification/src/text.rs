//! Character-level helpers: decimal and identifier rendering, JSON string
//! escaping, Unicode white space, substring search and UTF-8 decoding.

use vstd::prelude::*;

verus! {

broadcast use vstd::string::group_string_axioms;

/// The characters of a string, in order.
pub fn chars_of(s: &str) -> (v: Vec<char>)
    ensures
        v@ == s@,
{
    let mut v: Vec<char> = Vec::new();
    for c in it: s.chars()
        invariant
            it.seq() == s@,
            v@ == it.seq().take(it.index()),
    {
        v.push(c);
    }
    v
}

/// `String::push`: appends one character.
#[verifier::external_body]
fn push_char(s: &mut String, c: char)
    ensures
        final(s)@ == old(s)@.push(c),
{
    s.push(c);
}

/// A string holding the given characters.
pub fn string_from_chars(v: &Vec<char>) -> (s: String)
    ensures
        s@ == v@,
{
    let mut s = String::new();
    for i in 0..v.len()
        invariant
            s@ == v@.take(i as int),
    {
        push_char(&mut s, v[i]);
        assert(v@.take(i + 1) == v@.take(i as int).push(v@[i as int]));
    }
    assert(v@.take(v@.len() as int) == v@);
    s
}

/// Appends the characters of `v` to `s`.
pub fn push_chars(s: &mut String, v: &Vec<char>)
    ensures
        final(s)@ == old(s)@ + v@,
{
    for i in 0..v.len()
        invariant
            s@ == old(s)@ + v@.take(i as int),
    {
        push_char(s, v[i]);
        assert(v@.take(i + 1) == v@.take(i as int).push(v@[i as int]));
    }
    assert(v@.take(v@.len() as int) == v@);
}

/// The lower-case hexadecimal digit of a value below sixteen.
pub open spec fn hex_digit(d: int) -> char {
    if d == 0 { '0' } else if d == 1 { '1' } else if d == 2 { '2' } else if d == 3 { '3' }
    else if d == 4 { '4' } else if d == 5 { '5' } else if d == 6 { '6' } else if d == 7 { '7' }
    else if d == 8 { '8' } else if d == 9 { '9' } else if d == 10 { 'a' } else if d == 11 { 'b' }
    else if d == 12 { 'c' } else if d == 13 { 'd' } else if d == 14 { 'e' } else { 'f' }
}

/// The digit for `d`, read as a hexadecimal digit.
pub fn hex_digit_char(d: u8) -> (c: char)
    requires
        d < 16,
    ensures
        c == hex_digit(d as int),
{
    if d == 0 { '0' } else if d == 1 { '1' } else if d == 2 { '2' } else if d == 3 { '3' }
    else if d == 4 { '4' } else if d == 5 { '5' } else if d == 6 { '6' } else if d == 7 { '7' }
    else if d == 8 { '8' } else if d == 9 { '9' } else if d == 10 { 'a' } else if d == 11 { 'b' }
    else if d == 12 { 'c' } else if d == 13 { 'd' } else if d == 14 { 'e' } else { 'f' }
}

/// The decimal notation of a natural number, without sign or leading zeros.
pub open spec fn decimal(n: nat) -> Seq<char>
    decreases n,
{
    if n < 10 {
        seq![hex_digit(n as int)]
    } else {
        decimal(n / 10).push(hex_digit((n % 10) as int))
    }
}

/// The decimal notation of `n`, as `u64::to_string` writes it.
pub fn format_u64(n: u64) -> (s: String)
    ensures
        s@ == decimal(n as nat),
{
    let mut acc: Vec<char> = Vec::new();
    let mut m: u64 = n;
    while m >= 10
        invariant
            decimal(n as nat) == decimal(m as nat) + acc@,
        decreases m,
    {
        let d = (m % 10) as u8;
        let c = hex_digit_char(d);
        assert(decimal(m as nat) == decimal((m / 10) as nat).push(c));
        acc.insert(0, c);
        assert(decimal(n as nat) == decimal((m / 10) as nat) + acc@);
        m = m / 10;
    }
    let first = hex_digit_char(m as u8);
    acc.insert(0, first);
    assert(decimal(n as nat) == acc@);
    string_from_chars(&acc)
}

/// The hexadecimal digit at position `i` (0 = most significant) of a 128-bit value.
pub open spec fn nibble(u: u128, i: int) -> int {
    ((u >> ((124 - 4 * i) as u128)) & 0xf) as int
}

/// The 32 lower-case hexadecimal digits of a 128-bit value, most significant first.
pub open spec fn hex32(u: u128) -> Seq<char> {
    Seq::new(32, |i: int| hex_digit(nibble(u, i)))
}

/// The hyphenated form of a UUID: 8-4-4-4-12 lower-case hexadecimal digits.
pub open spec fn uuid_text(u: u128) -> Seq<char> {
    let h = hex32(u);
    h.subrange(0, 8) + seq!['-'] + h.subrange(8, 12) + seq!['-'] + h.subrange(12, 16) + seq!['-']
        + h.subrange(16, 20) + seq!['-'] + h.subrange(20, 32)
}

/// The hyphenated lower-case text of a UUID given by its 128-bit value.
pub fn format_uuid(u: u128) -> (s: String)
    ensures
        s@ == uuid_text(u),
{
    let mut v: Vec<char> = Vec::new();
    let mut i: u32 = 0;
    while i < 32
        invariant
            0 <= i <= 32,
            v@.len() == i + (if i > 20 { 4 } else if i > 16 { 3 } else if i > 12 { 2 } else if i > 8 { 1 } else { 0int }),
            v@ == uuid_prefix(u, i as int),
        decreases 32 - i,
    {
        if i == 8 || i == 12 || i == 16 || i == 20 {
            v.push('-');
        }
        let shift: u128 = (124 - 4 * i) as u128;
        assert(((u >> shift) & 0xf) < 16) by (bit_vector);
        let d = ((u >> shift) & 0xf) as u8;
        let c = hex_digit_char(d);
        v.push(c);
        i = i + 1;
    }
    proof {
        lemma_uuid_prefix(u, 32);
    }
    string_from_chars(&v)
}

/// The first `i` digits of a UUID's hyphenated text, with the hyphens that precede them.
pub open spec fn uuid_prefix(u: u128, i: int) -> Seq<char>
    decreases i,
{
    if i <= 0 {
        Seq::empty()
    } else {
        let prev = uuid_prefix(u, i - 1);
        let with_dash = if i - 1 == 8 || i - 1 == 12 || i - 1 == 16 || i - 1 == 20 {
            prev.push('-')
        } else {
            prev
        };
        with_dash.push(hex_digit(nibble(u, i - 1)))
    }
}

proof fn lemma_uuid_prefix(u: u128, i: int)
    requires
        0 <= i <= 32,
    ensures
        uuid_prefix(u, i) == ({
            let h = hex32(u);
            if i <= 8 {
                h.subrange(0, i)
            } else if i <= 12 {
                h.subrange(0, 8) + seq!['-'] + h.subrange(8, i)
            } else if i <= 16 {
                h.subrange(0, 8) + seq!['-'] + h.subrange(8, 12) + seq!['-'] + h.subrange(12, i)
            } else if i <= 20 {
                h.subrange(0, 8) + seq!['-'] + h.subrange(8, 12) + seq!['-'] + h.subrange(12, 16)
                    + seq!['-'] + h.subrange(16, i)
            } else {
                h.subrange(0, 8) + seq!['-'] + h.subrange(8, 12) + seq!['-'] + h.subrange(12, 16)
                    + seq!['-'] + h.subrange(16, 20) + seq!['-'] + h.subrange(20, i)
            }
        }),
    decreases i,
{
    let h = hex32(u);
    if i > 0 {
        lemma_uuid_prefix(u, i - 1);
        if i <= 8 {
            assert(h.subrange(0, i) =~= h.subrange(0, i - 1).push(h[i - 1]));
        } else if i == 9 {
            assert(h.subrange(8, 9) =~= seq![h[8]]);
            assert(uuid_prefix(u, i) =~= h.subrange(0, 8) + seq!['-'] + h.subrange(8, i));
        } else if i <= 12 {
            assert(h.subrange(8, i) =~= h.subrange(8, i - 1).push(h[i - 1]));
            assert(uuid_prefix(u, i) =~= h.subrange(0, 8) + seq!['-'] + h.subrange(8, i));
        } else if i == 13 {
            assert(uuid_prefix(u, i) =~= h.subrange(0, 8) + seq!['-'] + h.subrange(8, 12) + seq!['-'] + h.subrange(12, i));
        } else if i <= 16 {
            assert(uuid_prefix(u, i) =~= h.subrange(0, 8) + seq!['-'] + h.subrange(8, 12) + seq!['-'] + h.subrange(12, i));
        } else if i == 17 || i <= 20 {
            assert(uuid_prefix(u, i) =~= h.subrange(0, 8) + seq!['-'] + h.subrange(8, 12) + seq!['-']
                + h.subrange(12, 16) + seq!['-'] + h.subrange(16, i));
        } else {
            assert(uuid_prefix(u, i) =~= h.subrange(0, 8) + seq!['-'] + h.subrange(8, 12) + seq!['-']
                + h.subrange(12, 16) + seq!['-'] + h.subrange(16, 20) + seq!['-'] + h.subrange(20, i));
        }
    }
}

/// How `serde_json` writes one character inside a JSON string.
pub open spec fn json_escaped_char(c: char) -> Seq<char> {
    if c == '"' {
        seq!['\\', '"']
    } else if c == '\\' {
        seq!['\\', '\\']
    } else if c == '\x08' {
        seq!['\\', 'b']
    } else if c == '\x0c' {
        seq!['\\', 'f']
    } else if c == '\n' {
        seq!['\\', 'n']
    } else if c == '\r' {
        seq!['\\', 'r']
    } else if c == '\t' {
        seq!['\\', 't']
    } else if (c as u32) < 0x20 {
        seq!['\\', 'u', '0', '0', hex_digit((c as u32 / 16) as int), hex_digit((c as u32 % 16) as int)]
    } else {
        seq![c]
    }
}

/// The escaped contents of a JSON string, without the surrounding quotes.
pub open spec fn json_escaped(s: Seq<char>) -> Seq<char>
    decreases s.len(),
{
    if s.len() == 0 {
        Seq::empty()
    } else {
        json_escaped(s.drop_last()) + json_escaped_char(s.last())
    }
}

/// A JSON string literal holding `s`, as `serde_json` writes it.
pub open spec fn json_string(s: Seq<char>) -> Seq<char> {
    seq!['"'] + json_escaped(s) + seq!['"']
}

fn push_json_escaped_char(out: &mut Vec<char>, c: char)
    ensures
        final(out)@ == old(out)@ + json_escaped_char(c),
{
    if c == '"' {
        out.push('\\');
        out.push('"');
    } else if c == '\\' {
        out.push('\\');
        out.push('\\');
    } else if c == '\x08' {
        out.push('\\');
        out.push('b');
    } else if c == '\x0c' {
        out.push('\\');
        out.push('f');
    } else if c == '\n' {
        out.push('\\');
        out.push('n');
    } else if c == '\r' {
        out.push('\\');
        out.push('r');
    } else if c == '\t' {
        out.push('\\');
        out.push('t');
    } else if (c as u32) < 0x20 {
        let code = c as u32;
        out.push('\\');
        out.push('u');
        out.push('0');
        out.push('0');
        let hi = hex_digit_char((code / 16) as u8);
        let lo = hex_digit_char((code % 16) as u8);
        out.push(hi);
        out.push(lo);
    } else {
        out.push(c);
    }
}

/// Appends the JSON string literal for `s` to `out`.
pub fn push_json_string(out: &mut Vec<char>, s: &str)
    ensures
        final(out)@ == old(out)@ + json_string(s@),
{
    let cs = chars_of(s);
    out.push('"');
    let ghost start = out@;
    for i in 0..cs.len()
        invariant
            cs@ == s@,
            out@ == start + json_escaped(cs@.take(i as int)),
    {
        push_json_escaped_char(out, cs[i]);
        assert(cs@.take(i + 1).drop_last() == cs@.take(i as int));
    }
    assert(cs@.take(cs@.len() as int) == cs@);
    out.push('"');
}

/// The characters that `char::is_whitespace` accepts: Unicode `White_Space`.
pub open spec fn is_white_space(c: char) -> bool {
    let u = c as u32;
    (0x9 <= u && u <= 0xd) || u == 0x20 || u == 0x85 || u == 0xa0 || u == 0x1680 || (0x2000 <= u
        && u <= 0x200a) || u == 0x2028 || u == 0x2029 || u == 0x202f || u == 0x205f || u == 0x3000
}

/// Whether `c` is Unicode white space.
pub fn white_space(c: char) -> (b: bool)
    ensures
        b == is_white_space(c),
{
    let u = c as u32;
    (0x9 <= u && u <= 0xd) || u == 0x20 || u == 0x85 || u == 0xa0 || u == 0x1680 || (0x2000 <= u
        && u <= 0x200a) || u == 0x2028 || u == 0x2029 || u == 0x202f || u == 0x205f || u == 0x3000
}

/// `s` without its leading white space.
pub open spec fn trim_start(s: Seq<char>) -> Seq<char>
    decreases s.len(),
{
    if s.len() > 0 && is_white_space(s[0]) {
        trim_start(s.drop_first())
    } else {
        s
    }
}

/// `s` without its trailing white space.
pub open spec fn trim_end(s: Seq<char>) -> Seq<char>
    decreases s.len(),
{
    if s.len() > 0 && is_white_space(s.last()) {
        trim_end(s.drop_last())
    } else {
        s
    }
}

/// `s` without leading and trailing white space, as `str::trim` returns it.
pub open spec fn trimmed(s: Seq<char>) -> Seq<char> {
    trim_end(trim_start(s))
}

proof fn lemma_trim_start_skip(s: Seq<char>, k: int)
    requires
        0 <= k <= s.len(),
        forall|j: int| 0 <= j < k ==> is_white_space(#[trigger] s[j]),
    ensures
        trim_start(s) == trim_start(s.subrange(k, s.len() as int)),
    decreases k,
{
    if k > 0 {
        lemma_trim_start_skip(s.drop_first(), k - 1);
        assert(s.drop_first().subrange(k - 1, s.len() - 1) =~= s.subrange(k, s.len() as int));
    } else {
        assert(s.subrange(0, s.len() as int) =~= s);
    }
}

proof fn lemma_trim_end_cut(s: Seq<char>, k: int)
    requires
        0 <= k <= s.len(),
        forall|j: int| k <= j < s.len() ==> is_white_space(#[trigger] s[j]),
    ensures
        trim_end(s) == trim_end(s.subrange(0, k)),
    decreases s.len() - k,
{
    if k < s.len() {
        lemma_trim_end_cut(s.drop_last(), k);
        assert(s.drop_last().subrange(0, k) =~= s.subrange(0, k));
    } else {
        assert(s.subrange(0, k) =~= s);
    }
}

/// The characters of `s` without leading and trailing white space.
pub fn trim_chars(s: &str) -> (v: Vec<char>)
    ensures
        v@ == trimmed(s@),
{
    let cs = chars_of(s);
    let n = cs.len();
    let mut lo: usize = 0;
    while lo < n && white_space(cs[lo])
        invariant
            cs@ == s@,
            n == cs@.len(),
            lo <= n,
            forall|j: int| 0 <= j < lo ==> is_white_space(#[trigger] cs@[j]),
        decreases n - lo,
    {
        lo = lo + 1;
    }
    proof {
        lemma_trim_start_skip(cs@, lo as int);
        let rest = cs@.subrange(lo as int, n as int);
        if rest.len() > 0 {
            assert(rest[0] == cs@[lo as int]);
        }
    }
    let ghost rest = cs@.subrange(lo as int, n as int);
    let mut hi: usize = n;
    while hi > lo && white_space(cs[hi - 1])
        invariant
            cs@ == s@,
            n == cs@.len(),
            lo <= hi <= n,
            rest == cs@.subrange(lo as int, n as int),
            forall|j: int| hi <= j < n ==> is_white_space(#[trigger] cs@[j]),
        decreases hi,
    {
        hi = hi - 1;
    }
    let mut v: Vec<char> = Vec::new();
    let mut i = lo;
    while i < hi
        invariant
            cs@ == s@,
            n == cs@.len(),
            lo <= i <= hi <= n,
            v@ == cs@.subrange(lo as int, i as int),
        decreases hi - i,
    {
        v.push(cs[i]);
        assert(cs@.subrange(lo as int, i + 1) == cs@.subrange(lo as int, i as int).push(cs@[i as int]));
        i = i + 1;
    }
    proof {
        let k = (hi - lo) as int;
        assert forall|j: int| k <= j < rest.len() implies is_white_space(#[trigger] rest[j]) by {
            assert(rest[j] == cs@[lo + j]);
        }
        lemma_trim_end_cut(rest, k);
        assert(rest.subrange(0, k) =~= v@);
        if k > 0 {
            assert(v@.last() == cs@[hi - 1]);
        }
    }
    v
}

/// `needle` occurs in `hay` starting at position `i`.
pub open spec fn occurs_at(hay: Seq<char>, needle: Seq<char>, i: int) -> bool {
    0 <= i && i + needle.len() <= hay.len() && hay.subrange(i, i + needle.len()) == needle
}

/// `needle` occurs somewhere in `hay`, as `str::contains` tests it.
pub open spec fn contains_text(hay: Seq<char>, needle: Seq<char>) -> bool {
    exists|i: int| occurs_at(hay, needle, i)
}

fn occurs_at_exec(hay: &Vec<char>, needle: &Vec<char>, i: usize) -> (b: bool)
    requires
        i + needle@.len() <= hay@.len(),
    ensures
        b == occurs_at(hay@, needle@, i as int),
{
    let mut j: usize = 0;
    while j < needle.len()
        invariant
            i + needle@.len() <= hay@.len(),
            hay@.len() == hay.len(),
            j <= needle@.len(),
            forall|k: int| 0 <= k < j ==> hay@[i + k] == needle@[k],
        decreases needle@.len() - j,
    {
        if hay[i + j] != needle[j] {
            assert(hay@.subrange(i as int, i + needle@.len())[j as int] != needle@[j as int]);
            return false;
        }
        j = j + 1;
    }
    assert(hay@.subrange(i as int, i + needle@.len()) =~= needle@);
    true
}

/// Whether `needle` occurs in `hay`.
pub fn contains_chars(hay: &Vec<char>, needle: &Vec<char>) -> (b: bool)
    ensures
        b == contains_text(hay@, needle@),
{
    if needle.len() > hay.len() {
        return false;
    }
    let last = hay.len() - needle.len();
    let mut i: usize = 0;
    loop
        invariant
            last + needle@.len() == hay@.len(),
            i <= last,
            forall|k: int| 0 <= k < i ==> !occurs_at(hay@, needle@, k),
        decreases last - i,
    {
        if occurs_at_exec(hay, needle, i) {
            return true;
        }
        if i == last {
            return false;
        }
        i = i + 1;
    }
}

/// The string `str::to_lowercase` makes of `s` (Unicode lower-case mapping).
pub uninterp spec fn lowercase(s: Seq<char>) -> Seq<char>;

/// `str::to_lowercase`. Claimed: the result is a function of the input's
/// characters alone, named `lowercase`; what that mapping is (the Unicode
/// lower-case tables) is left unstated.
#[verifier::external_body]
pub(crate) fn to_lowercase(s: &str) -> (res: String)
    ensures
        res@ == lowercase(s@),
{
    s.to_lowercase()
}

/// `std::str::from_utf8`, copied into a `String`. Claimed, as the function's
/// documentation states: it succeeds exactly on well-formed UTF-8, and the
/// text is the decoding of the bytes.
#[verifier::external_body]
pub(crate) fn utf8_to_string(bytes: &[u8]) -> (res: Option<String>)
    ensures
        res is Some <==> vstd::utf8::valid_utf8(bytes@),
        res matches Some(s) ==> s@ == vstd::utf8::decode_utf8(bytes@),
{
    match std::str::from_utf8(bytes) {
        Ok(s) => Some(s.to_string()),
        Err(_) => None,
    }
}

} // verus!
