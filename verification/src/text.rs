//! Character-level helpers shared by the decoders: building `String`s from
//! characters, decimal and hexadecimal rendering, ASCII case and trimming.

use vstd::prelude::*;

verus! {

/// Collects characters into a `String` (std `FromIterator<char>`); the
/// contract claims the string holds exactly those characters, in order.
#[verifier::external_body]
pub fn string_from_chars(v: &[char]) -> (s: String)
    ensures
        s@ == v@,
{
    v.iter().collect()
}

/// The characters of a string slice (std `str::chars`), in order.
#[verifier::external_body]
pub fn chars_of(s: &str) -> (v: Vec<char>)
    ensures
        v@ == s@,
{
    s.chars().collect()
}

/// The decimal digit character for `d < 10`.
pub open spec fn digit_char(d: nat) -> char {
    ((d + 48) as u8) as char
}

/// Decimal rendering of `n`, most significant digit first, no leading zeros.
pub open spec fn spec_decimal(n: nat) -> Seq<char>
    decreases n,
{
    if n < 10 {
        seq![digit_char(n)]
    } else {
        spec_decimal(n / 10).push(digit_char(n % 10))
    }
}

/// Appends the decimal rendering of `n` to `out`.
pub fn push_decimal(out: &mut Vec<char>, n: u64)
    ensures
        final(out)@ == old(out)@ + spec_decimal(n as nat),
    decreases n,
{
    if n < 10 {
        out.push(((n as u8) + 48) as char);
        proof {
            assert(old(out)@ + spec_decimal(n as nat) =~= old(out)@.push(digit_char(n as nat)));
        }
    } else {
        push_decimal(out, n / 10);
        out.push((((n % 10) as u8) + 48) as char);
        proof {
            assert(old(out)@ + spec_decimal(n as nat) =~= old(out)@ + spec_decimal((n / 10) as nat)
                + seq![digit_char((n % 10) as nat)]);
        }
    }
}

/// Lower-case hexadecimal digit for `d < 16`.
pub open spec fn hex_digit_lower(d: nat) -> char {
    if d < 10 {
        ((d + 48) as u8) as char
    } else {
        ((d + 87) as u8) as char
    }
}

/// Upper-case hexadecimal digit for `d < 16`.
pub open spec fn hex_digit_upper(d: nat) -> char {
    if d < 10 {
        ((d + 48) as u8) as char
    } else {
        ((d + 55) as u8) as char
    }
}

pub fn hex_lower(d: u8) -> (c: char)
    requires
        d < 16,
    ensures
        c == hex_digit_lower(d as nat),
{
    if d < 10 {
        (d + 48) as char
    } else {
        (d + 87) as char
    }
}

pub fn hex_upper(d: u8) -> (c: char)
    requires
        d < 16,
    ensures
        c == hex_digit_upper(d as nat),
{
    if d < 10 {
        (d + 48) as char
    } else {
        (d + 55) as char
    }
}

/// The low `n` hexadecimal digits of `v`, lower case, most significant first.
pub open spec fn hex_text(v: nat, n: nat) -> Seq<char>
    decreases n,
{
    if n == 0 {
        Seq::empty()
    } else {
        hex_text(v / 16, (n - 1) as nat).push(hex_digit_lower(v % 16))
    }
}

/// Appends the low `n` lower-case hexadecimal digits of `v` to `out`.
pub fn push_hex(out: &mut Vec<char>, v: u128, n: u8)
    ensures
        final(out)@ == old(out)@ + hex_text(v as nat, n as nat),
    decreases n,
{
    if n > 0 {
        push_hex(out, v / 16, n - 1);
        out.push(hex_lower((v % 16) as u8));
        proof {
            assert(old(out)@ + hex_text(v as nat, n as nat) =~= old(out)@ + hex_text((v / 16) as nat, (n - 1) as nat)
                + seq![hex_digit_lower((v % 16) as nat)]);
        }
    } else {
        proof {
            assert(old(out)@ + hex_text(v as nat, 0) =~= old(out)@);
        }
    }
}

/// The decimal rendering of `n` as a string.
pub fn decimal_string(n: u64) -> (s: String)
    ensures
        s@ == spec_decimal(n as nat),
{
    let mut v: Vec<char> = Vec::new();
    push_decimal(&mut v, n);
    proof {
        assert(v@ =~= spec_decimal(n as nat));
    }
    string_from_chars(v.as_slice())
}

/// `s` without its leading characters that occur in `pad`.
pub open spec fn trim_start_by(s: Seq<char>, pad: Seq<char>) -> Seq<char>
    decreases s.len(),
{
    if s.len() > 0 && pad.contains(s[0]) {
        trim_start_by(s.drop_first(), pad)
    } else {
        s
    }
}

/// `s` without its trailing characters that occur in `pad`.
pub open spec fn trim_end_by(s: Seq<char>, pad: Seq<char>) -> Seq<char>
    decreases s.len(),
{
    if s.len() > 0 && pad.contains(s.last()) {
        trim_end_by(s.drop_last(), pad)
    } else {
        s
    }
}

/// `s` without leading and trailing characters that occur in `pad`.
pub open spec fn trim_by(s: Seq<char>, pad: Seq<char>) -> Seq<char> {
    trim_start_by(trim_end_by(s, pad), pad)
}

proof fn lemma_trim_end_step(s: Seq<char>, hi: int, pad: Seq<char>)
    requires
        0 <= hi <= s.len(),
        forall|j: int| hi <= j < s.len() ==> pad.contains(#[trigger] s[j]),
    ensures
        trim_end_by(s, pad) == trim_end_by(s.subrange(0, hi), pad),
    decreases s.len() - hi,
{
    if hi < s.len() {
        assert(s.drop_last().subrange(0, hi) =~= s.subrange(0, hi));
        lemma_trim_end_step(s.drop_last(), hi, pad);
    } else {
        assert(s.subrange(0, hi) =~= s);
    }
}

proof fn lemma_trim_start_step(s: Seq<char>, lo: int, pad: Seq<char>)
    requires
        0 <= lo <= s.len(),
        forall|j: int| 0 <= j < lo ==> pad.contains(#[trigger] s[j]),
    ensures
        trim_start_by(s, pad) == trim_start_by(s.subrange(lo, s.len() as int), pad),
    decreases lo,
{
    if lo > 0 {
        assert(s.drop_first().subrange(lo - 1, s.drop_first().len() as int) =~= s.subrange(
            lo,
            s.len() as int,
        ));
        lemma_trim_start_step(s.drop_first(), lo - 1, pad);
    } else {
        assert(s.subrange(0, s.len() as int) =~= s);
    }
}

/// Whether `c` occurs in `set`.
pub fn contains_char(set: &[char], c: char) -> (r: bool)
    ensures
        r == set@.contains(c),
{
    let mut i: usize = 0;
    while i < set.len()
        invariant
            i <= set.len(),
            forall|j: int| 0 <= j < i ==> set@[j] != c,
        decreases set.len() - i,
    {
        if set[i] == c {
            return true;
        }
        i = i + 1;
    }
    false
}


/// Drops the trailing characters of `v` that occur in `pad_set`.
pub fn trim_end_chars(v: &Vec<char>, pad_set: &[char]) -> (r: Vec<char>)
    ensures
        r@ == trim_end_by(v@, pad_set@),
{
    let mut hi: usize = v.len();
    while hi > 0 && contains_char(pad_set, v[hi - 1])
        invariant
            hi <= v.len(),
            forall|j: int| hi <= j < v.len() ==> pad_set@.contains(#[trigger] v@[j]),
        decreases hi,
    {
        hi = hi - 1;
    }
    let ghost t = v@.subrange(0, hi as int);
    proof {
        lemma_trim_end_step(v@, hi as int, pad_set@);
        if hi > 0 {
            assert(t.last() == v@[hi - 1]);
        }
        assert(trim_end_by(t, pad_set@) == t);
    }
    copy_range(v, 0, hi)
}

/// Drops the leading characters of `v` that occur in `pad_set`.
pub fn trim_start_chars(v: &Vec<char>, pad_set: &[char]) -> (r: Vec<char>)
    ensures
        r@ == trim_start_by(v@, pad_set@),
{
    let mut lo: usize = 0;
    while lo < v.len() && contains_char(pad_set, v[lo])
        invariant
            lo <= v.len(),
            forall|j: int| 0 <= j < lo ==> pad_set@.contains(#[trigger] v@[j]),
        decreases v.len() - lo,
    {
        lo = lo + 1;
    }
    proof {
        lemma_trim_start_step(v@, lo as int, pad_set@);
        let u = v@.subrange(lo as int, v.len() as int);
        if lo < v.len() {
            assert(u[0] == v@[lo as int]);
        }
        assert(trim_start_by(u, pad_set@) == u);
    }
    copy_range(v, lo, v.len())
}

/// Drops characters of `pad_set` from both ends of `v`.
pub fn trim_chars(v: &Vec<char>, pad_set: &[char]) -> (r: Vec<char>)
    ensures
        r@ == trim_by(v@, pad_set@),
{
    let e = trim_end_chars(v, pad_set);
    trim_start_chars(&e, pad_set)
}

/// The elements `v[lo..hi]`.
pub fn copy_range<T: Copy>(v: &Vec<T>, lo: usize, hi: usize) -> (r: Vec<T>)
    requires
        lo <= hi <= v.len(),
    ensures
        r@ == v@.subrange(lo as int, hi as int),
{
    let mut r: Vec<T> = Vec::new();
    let mut k: usize = lo;
    while k < hi
        invariant
            lo <= k <= hi <= v.len(),
            r@ == v@.subrange(lo as int, k as int),
        decreases hi - k,
    {
        r.push(v[k]);
        proof {
            assert(r@ =~= v@.subrange(lo as int, k + 1));
        }
        k = k + 1;
    }
    r
}

/// Appends the characters of `s` to `out`.
pub fn append_str(out: &mut Vec<char>, s: &str)
    ensures
        final(out)@ == old(out)@ + s@,
{
    let v = chars_of(s);
    let mut i: usize = 0;
    while i < v.len()
        invariant
            i <= v@.len(),
            v@ == s@,
            out@ == old(out)@ + v@.subrange(0, i as int),
        decreases v.len() - i,
    {
        out.push(v[i]);
        proof {
            assert(out@ =~= old(out)@ + v@.subrange(0, i + 1));
        }
        i = i + 1;
    }
    proof {
        assert(v@.subrange(0, i as int) =~= v@);
    }
}

/// ASCII upper-casing of one character (other characters unchanged).
pub open spec fn ascii_upper(c: char) -> char {
    if 'a' <= c <= 'z' {
        ((c as u32 - 32) as u8) as char
    } else {
        c
    }
}

/// ASCII lower-casing of one character (other characters unchanged).
pub open spec fn ascii_lower(c: char) -> char {
    if 'A' <= c <= 'Z' {
        ((c as u32 + 32) as u8) as char
    } else {
        c
    }
}

pub fn ascii_upper_char(c: char) -> (r: char)
    ensures
        r == ascii_upper(c),
{
    if 'a' <= c && c <= 'z' {
        ((c as u32 - 32) as u8) as char
    } else {
        c
    }
}

pub fn ascii_lower_char(c: char) -> (r: char)
    ensures
        r == ascii_lower(c),
{
    if 'A' <= c && c <= 'Z' {
        ((c as u32 + 32) as u8) as char
    } else {
        c
    }
}

/// Every character ASCII upper-cased (`str::to_ascii_uppercase`).
pub fn map_ascii_upper(v: &Vec<char>) -> (r: Vec<char>)
    ensures
        r@ == v@.map_values(|c: char| ascii_upper(c)),
{
    let mut r: Vec<char> = Vec::new();
    let mut i: usize = 0;
    while i < v.len()
        invariant
            i <= v@.len(),
            r@ == v@.take(i as int).map_values(|c: char| ascii_upper(c)),
        decreases v.len() - i,
    {
        r.push(ascii_upper_char(v[i]));
        proof {
            assert(r@ =~= v@.take(i + 1).map_values(|c: char| ascii_upper(c)));
        }
        i = i + 1;
    }
    proof {
        assert(v@.take(i as int) =~= v@);
    }
    r
}

/// Every character ASCII lower-cased (`str::to_ascii_lowercase`).
pub fn map_ascii_lower(v: &Vec<char>) -> (r: Vec<char>)
    ensures
        r@ == v@.map_values(|c: char| ascii_lower(c)),
{
    let mut r: Vec<char> = Vec::new();
    let mut i: usize = 0;
    while i < v.len()
        invariant
            i <= v@.len(),
            r@ == v@.take(i as int).map_values(|c: char| ascii_lower(c)),
        decreases v.len() - i,
    {
        r.push(ascii_lower_char(v[i]));
        proof {
            assert(r@ =~= v@.take(i + 1).map_values(|c: char| ascii_lower(c)));
        }
        i = i + 1;
    }
    proof {
        assert(v@.take(i as int) =~= v@);
    }
    r
}

/// The characters with the Unicode White_Space property, which `str::trim`
/// removes.
pub open spec fn unicode_white_space() -> Seq<char> {
    seq![
        '\u{9}', '\u{A}', '\u{B}', '\u{C}', '\u{D}', '\u{20}', '\u{85}', '\u{A0}', '\u{1680}',
        '\u{2000}', '\u{2001}', '\u{2002}', '\u{2003}', '\u{2004}', '\u{2005}', '\u{2006}',
        '\u{2007}', '\u{2008}', '\u{2009}', '\u{200A}', '\u{2028}', '\u{2029}', '\u{202F}',
        '\u{205F}', '\u{3000}',
    ]
}

/// The characters of `s` without leading and trailing white space.
pub fn trim_white(s: &str) -> (r: Vec<char>)
    ensures
        r@ == trim_by(s@, unicode_white_space()),
{
    let ws: [char; 25] = [
        '\u{9}', '\u{A}', '\u{B}', '\u{C}', '\u{D}', '\u{20}', '\u{85}', '\u{A0}', '\u{1680}',
        '\u{2000}', '\u{2001}', '\u{2002}', '\u{2003}', '\u{2004}', '\u{2005}', '\u{2006}',
        '\u{2007}', '\u{2008}', '\u{2009}', '\u{200A}', '\u{2028}', '\u{2029}', '\u{202F}',
        '\u{205F}', '\u{3000}',
    ];
    proof {
        assert(ws@ =~= unicode_white_space());
    }
    let v = chars_of(s);
    trim_chars(&v, &ws)
}

/// Whether two character sequences are equal.
pub fn chars_eq(a: &[char], b: &[char]) -> (r: bool)
    ensures
        r == (a@ == b@),
{
    if a.len() != b.len() {
        return false;
    }
    let mut i: usize = 0;
    while i < a.len()
        invariant
            i <= a@.len(),
            a@.len() == b@.len(),
            forall|j: int| 0 <= j < i ==> a@[j] == b@[j],
        decreases a.len() - i,
    {
        if a[i] != b[i] {
            proof {
                assert(a@[i as int] != b@[i as int]);
            }
            return false;
        }
        i = i + 1;
    }
    proof {
        assert(a@ =~= b@);
    }
    true
}

/// `v` without leading and trailing white space (`str::trim`).
pub fn trim_white_vec(v: &Vec<char>) -> (r: Vec<char>)
    ensures
        r@ == trim_by(v@, unicode_white_space()),
{
    let ws = white_space_set();
    trim_chars(v, &ws)
}

/// `v` without trailing white space (`str::trim_end`).
pub fn trim_end_white_vec(v: &Vec<char>) -> (r: Vec<char>)
    ensures
        r@ == trim_end_by(v@, unicode_white_space()),
{
    let ws = white_space_set();
    trim_end_chars(v, &ws)
}

fn white_space_set() -> (ws: [char; 25])
    ensures
        ws@ == unicode_white_space(),
{
    let ws: [char; 25] = [
        '\u{9}', '\u{A}', '\u{B}', '\u{C}', '\u{D}', '\u{20}', '\u{85}', '\u{A0}', '\u{1680}',
        '\u{2000}', '\u{2001}', '\u{2002}', '\u{2003}', '\u{2004}', '\u{2005}', '\u{2006}',
        '\u{2007}', '\u{2008}', '\u{2009}', '\u{200A}', '\u{2028}', '\u{2029}', '\u{202F}',
        '\u{205F}', '\u{3000}',
    ];
    proof {
        assert(ws@ =~= unicode_white_space());
    }
    ws
}

/// Bytes below 128, read as characters, encode in UTF-8 to themselves.
pub proof fn lemma_ascii_bytes(b: Seq<u8>)
    requires
        forall|i: int| 0 <= i < b.len() ==> #[trigger] b[i] < 128,
    ensures
        vstd::utf8::encode_utf8(b.map_values(|x: u8| x as char)) == b,
{
    let c = b.map_values(|x: u8| x as char);
    assert forall|i: int| 0 <= i < c.len() implies '\0' <= #[trigger] c[i] <= '\u{7f}' by {
        assert(b[i] < 128);
    }
    assert(vstd::utf8::is_ascii_chars(c));
    vstd::utf8::is_ascii_chars_encode_utf8(c);
    let e = vstd::utf8::encode_utf8(c);
    assert forall|i: int| 0 <= i < b.len() implies #[trigger] e[i] == b[i] by {
        assert(c[i] as u8 == e[i]);
        assert(b[i] < 128);
    }
    assert(e =~= b);
}

} // verus!
