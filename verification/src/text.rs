//! Small verified string helpers: decimal and hexadecimal rendering,
//! whitespace trimming and conversions between `String` and `Vec<char>`.

use vstd::prelude::*;

verus! {

/// Appends one character to a `String` (`String::push`).
#[verifier::external_body]
pub(crate) fn push_char(s: &mut String, c: char)
    ensures
        final(s)@ == old(s)@.push(c),
{
    s.push(c);
}

/// Appends a string slice to a `String` (`String::push_str`).
#[verifier::external_body]
pub(crate) fn push_str(s: &mut String, t: &str)
    ensures
        final(s)@ == old(s)@ + t@,
{
    s.push_str(t);
}

/// What `str::to_lowercase` returns for a string with these characters:
/// its Unicode lowercase form (which depends on context for some characters,
/// such as a final capital sigma).
pub uninterp spec fn lowercase_of(s: Seq<char>) -> Seq<char>;

/// The Unicode `Alphabetic`-or-`Numeric` property of a character, as
/// `char::is_alphanumeric` reports it.
pub uninterp spec fn alphanumeric(c: char) -> bool;

/// `str::to_lowercase`: the Unicode lowercase form of the whole string. Its
/// result is a function of the characters alone and is named
/// `lowercase_of`; the case tables it consults are not written out here.
#[verifier::external_body]
pub(crate) fn to_lowercase(s: &str) -> (r: String)
    ensures
        r@ == lowercase_of(s@),
{
    s.to_lowercase()
}

/// `char::is_alphanumeric`: whether the character is Unicode alphabetic or
/// numeric, named `alphanumeric`.
#[verifier::external_body]
pub(crate) fn is_alphanumeric(c: char) -> (b: bool)
    ensures
        b == alphanumeric(c),
{
    c.is_alphanumeric()
}

/// The characters of a string slice, in order.
pub fn chars_of(s: &str) -> (r: Vec<char>)
    ensures
        r@ == s@,
{
    let mut out: Vec<char> = Vec::new();
    for c in it: s.chars()
        invariant
            it.seq() == s@,
            out@ == it.seq().take(it.index()),
    {
        out.push(c);
    }
    out
}

/// A `String` holding exactly the characters `cs@[lo..hi]`.
pub fn string_from_chars(cs: &Vec<char>, lo: usize, hi: usize) -> (r: String)
    requires
        lo <= hi <= cs.len(),
    ensures
        r@ == cs@.subrange(lo as int, hi as int),
{
    let mut out = String::new();
    let mut i = lo;
    while i < hi
        invariant
            lo <= i <= hi <= cs.len(),
            out@ == cs@.subrange(lo as int, i as int),
        decreases hi - i,
    {
        push_char(&mut out, cs[i]);
        i = i + 1;
    }
    out
}

/// The Unicode `White_Space` property, which `char::is_whitespace` and
/// `str::trim` use.
pub open spec fn is_white_space(c: char) -> bool {
    let u = c as u32;
    ||| 0x09 <= u <= 0x0D
    ||| u == 0x20
    ||| u == 0x85
    ||| u == 0xA0
    ||| u == 0x1680
    ||| 0x2000 <= u <= 0x200A
    ||| u == 0x2028
    ||| u == 0x2029
    ||| u == 0x202F
    ||| u == 0x205F
    ||| u == 0x3000
}

/// Whitespace test on one character.
pub fn char_is_white_space(c: char) -> (b: bool)
    ensures
        b == is_white_space(c),
{
    let u = c as u32;
    (0x09 <= u && u <= 0x0D) || u == 0x20 || u == 0x85 || u == 0xA0 || u == 0x1680
        || (0x2000 <= u && u <= 0x200A) || u == 0x2028 || u == 0x2029 || u == 0x202F
        || u == 0x205F || u == 0x3000
}

/// A character that trimming removes: whitespace, and also NUL when `nul`.
pub open spec fn is_pad(nul: bool, c: char) -> bool {
    (nul && c == '\0') || is_white_space(c)
}

fn char_is_pad(nul: bool, c: char) -> (b: bool)
    ensures
        b == is_pad(nul, c),
{
    (nul && c == '\0') || char_is_white_space(c)
}

/// `s` without its leading padding.
pub open spec fn trim_start_by(s: Seq<char>, nul: bool) -> Seq<char>
    decreases s.len(),
{
    if s.len() > 0 && is_pad(nul, s[0]) {
        trim_start_by(s.drop_first(), nul)
    } else {
        s
    }
}

/// `s` without its trailing padding.
pub open spec fn trim_end_by(s: Seq<char>, nul: bool) -> Seq<char>
    decreases s.len(),
{
    if s.len() > 0 && is_pad(nul, s.last()) {
        trim_end_by(s.drop_last(), nul)
    } else {
        s
    }
}

/// `s` without leading and trailing whitespace (what `str::trim` returns).
pub open spec fn trim(s: Seq<char>) -> Seq<char> {
    trim_end_by(trim_start_by(s, false), false)
}

/// `s` without leading and trailing whitespace and NUL characters.
pub open spec fn trim_nul_white(s: Seq<char>) -> Seq<char> {
    trim_end_by(trim_start_by(s, true), true)
}

proof fn lemma_trim_start_from(s: Seq<char>, nul: bool, i: int)
    requires
        0 <= i <= s.len(),
        forall|k: int| 0 <= k < i ==> is_pad(nul, #[trigger] s[k]),
        i == s.len() || !is_pad(nul, s[i]),
    ensures
        trim_start_by(s, nul) == s.subrange(i, s.len() as int),
    decreases i,
{
    if i == 0 {
        assert(s.subrange(0, s.len() as int) =~= s);
    } else {
        let t = s.drop_first();
        assert forall|k: int| 0 <= k < i - 1 implies is_pad(nul, #[trigger] t[k]) by {
            assert(t[k] == s[k + 1]);
        }
        lemma_trim_start_from(t, nul, i - 1);
        assert(t.subrange(i - 1, t.len() as int) =~= s.subrange(i, s.len() as int));
    }
}

proof fn lemma_trim_end_to(s: Seq<char>, nul: bool, j: int)
    requires
        0 <= j <= s.len(),
        forall|k: int| j <= k < s.len() ==> is_pad(nul, #[trigger] s[k]),
        j == 0 || !is_pad(nul, s[j - 1]),
    ensures
        trim_end_by(s, nul) == s.subrange(0, j),
    decreases s.len() - j,
{
    if j == s.len() {
        assert(s.subrange(0, j) =~= s);
    } else {
        let t = s.drop_last();
        assert forall|k: int| j <= k < t.len() implies is_pad(nul, #[trigger] t[k]) by {
            assert(t[k] == s[k]);
        }
        lemma_trim_end_to(t, nul, j);
        assert(t.subrange(0, j) =~= s.subrange(0, j));
    }
}

/// `s` with its padding (whitespace, and NUL when `nul`) removed from both
/// ends, computed character by character.
fn trim_padding(s: &str, nul: bool) -> (r: String)
    ensures
        r@ == trim_end_by(trim_start_by(s@, nul), nul),
{
    let cs = chars_of(s);
    let n = cs.len();
    let mut i: usize = 0;
    while i < n && char_is_pad(nul, cs[i])
        invariant
            i <= n == cs.len(),
            forall|k: int| 0 <= k < i ==> is_pad(nul, #[trigger] cs@[k]),
        decreases n - i,
    {
        i = i + 1;
    }
    let mut j: usize = n;
    while j > i && char_is_pad(nul, cs[j - 1])
        invariant
            i <= j <= n == cs.len(),
            forall|k: int| j <= k < n ==> is_pad(nul, #[trigger] cs@[k]),
        decreases j,
    {
        j = j - 1;
    }
    proof {
        lemma_trim_start_from(cs@, nul, i as int);
        let t = cs@.subrange(i as int, n as int);
        assert forall|k: int| j - i <= k < t.len() implies is_pad(nul, #[trigger] t[k]) by {
            assert(t[k] == cs@[k + i]);
        }
        if j > i {
            assert(t[j - i - 1] == cs@[j - 1]);
        }
        lemma_trim_end_to(t, nul, j - i);
        assert(t.subrange(0, j - i) =~= cs@.subrange(i as int, j as int));
    }
    string_from_chars(&cs, i, j)
}

/// `str::trim`: `s` without leading and trailing whitespace.
pub fn trim_str(s: &str) -> (r: String)
    ensures
        r@ == trim(s@),
{
    trim_padding(s, false)
}

/// `s` without leading and trailing whitespace and NUL characters.
pub fn trim_nul_white_str(s: &str) -> (r: String)
    ensures
        r@ == trim_nul_white(s@),
{
    trim_padding(s, true)
}

/// The decimal digit character for `d < 10`.
pub open spec fn digit_char(d: nat) -> char {
    (('0' as u32) + d) as char
}

/// Decimal rendering of `n` without leading zeros (`0` renders as "0").
pub open spec fn decimal(n: nat) -> Seq<char>
    decreases n,
{
    if n < 10 {
        seq![digit_char(n)]
    } else {
        decimal(n / 10).push(digit_char(n % 10))
    }
}

/// Whether `c` is one of the decimal digits `0` to `9`.
pub open spec fn is_decimal_digit(c: char) -> bool {
    '0' <= c && c <= '9'
}

/// The number a string of decimal digits stands for, read most significant
/// digit first (the empty string stands for 0).
pub open spec fn digits_value(s: Seq<char>) -> int
    decreases s.len(),
{
    if s.len() == 0 {
        0
    } else {
        digits_value(s.drop_last()) * 10 + ((s.last() as int) - ('0' as int))
    }
}

/// The decimal rendering of `n` is a non-empty string of digits that reads
/// back as `n`.
pub proof fn lemma_decimal_reads_back(n: nat)
    ensures
        decimal(n).len() > 0,
        forall|i: int| 0 <= i < decimal(n).len() ==> is_decimal_digit(#[trigger] decimal(n)[i]),
        digits_value(decimal(n)) == n,
    decreases n,
{
    lemma_digit_char_value(n % 10);
    if n < 10 {
        assert(n % 10 == n);
        assert(decimal(n).drop_last() =~= Seq::<char>::empty());
        assert(digits_value(Seq::<char>::empty()) == 0);
        assert(digits_value(decimal(n)) == digits_value(decimal(n).drop_last()) * 10 + (
        decimal(n).last() as int) - ('0' as int));
    } else {
        lemma_decimal_reads_back(n / 10);
        assert(decimal(n).drop_last() =~= decimal(n / 10));
        assert(decimal(n).last() == digit_char(n % 10));
        assert((n / 10) * 10 + n % 10 == n);
    }
}

proof fn lemma_digit_char_value(d: nat)
    requires
        d < 10,
    ensures
        digit_char(d) as int == ('0' as int) + d,
        is_decimal_digit(digit_char(d)),
{
    let x: int = ('0' as u32) + d;
    assert(0 <= x < 0xD800);
    assert((x as char) as int == x);
}

fn digit(d: u64) -> (c: char)
    requires
        d < 10,
    ensures
        c == digit_char(d as nat),
{
    if d == 0 { '0' }
    else if d == 1 { '1' }
    else if d == 2 { '2' }
    else if d == 3 { '3' }
    else if d == 4 { '4' }
    else if d == 5 { '5' }
    else if d == 6 { '6' }
    else if d == 7 { '7' }
    else if d == 8 { '8' }
    else { '9' }
}

/// Appends the decimal rendering of `n` to `out`.
pub fn push_decimal(out: &mut String, n: u128)
    ensures
        final(out)@ == old(out)@ + decimal(n as nat),
    decreases n,
{
    if n >= 10 {
        push_decimal(out, n / 10);
    }
    let c = digit((n % 10) as u64);
    push_char(out, c);
    proof {
        if n >= 10 {
            assert(old(out)@ + decimal(n as nat) =~= (old(out)@ + decimal((n / 10) as nat)).push(
                c,
            ));
        } else {
            assert(n % 10 == n);
            assert(old(out)@ + decimal(n as nat) =~= old(out)@.push(c));
        }
    }
}

/// The decimal rendering of `n` as a new `String`.
pub fn decimal_string(n: u64) -> (r: String)
    ensures
        r@ == decimal(n as nat),
{
    let mut s = String::new();
    push_decimal(&mut s, n as u128);
    assert(s@ =~= decimal(n as nat));
    s
}

/// The lowercase hexadecimal digit character for `d < 16`.
pub open spec fn hex_digit_char(d: nat) -> char {
    if d < 10 {
        (('0' as u32) + d) as char
    } else {
        (('a' as u32) + (d - 10)) as char
    }
}

/// Lowercase hexadecimal rendering of `n` without leading zeros.
pub open spec fn hex(n: nat) -> Seq<char>
    decreases n,
{
    if n < 16 {
        seq![hex_digit_char(n)]
    } else {
        hex(n / 16).push(hex_digit_char(n % 16))
    }
}

/// `s` left-padded with `'0'` to at least `width` characters.
pub open spec fn zero_pad(s: Seq<char>, width: nat) -> Seq<char> {
    if s.len() >= width {
        s
    } else {
        Seq::new((width - s.len()) as nat, |_i: int| '0') + s
    }
}

fn hex_digit(d: u64) -> (c: char)
    requires
        d < 16,
    ensures
        c == hex_digit_char(d as nat),
{
    if d < 10 {
        digit(d)
    } else if d == 10 { 'a' }
    else if d == 11 { 'b' }
    else if d == 12 { 'c' }
    else if d == 13 { 'd' }
    else if d == 14 { 'e' }
    else { 'f' }
}

/// The hexadecimal digits of `n`, most significant first.
fn hex_digits(n: u64) -> (r: Vec<char>)
    ensures
        r@ == hex(n as nat),
    decreases n,
{
    let mut v = if n >= 16 {
        hex_digits(n / 16)
    } else {
        Vec::new()
    };
    let c = hex_digit(n % 16);
    v.push(c);
    proof {
        if n < 16 {
            assert(n % 16 == n);
            assert(v@ =~= seq![c]);
        }
    }
    v
}

/// Appends the lowercase hexadecimal rendering of `n`, zero-padded to at
/// least `width` digits (the `{:0width$x}` format).
pub fn push_hex_padded(out: &mut String, n: u64, width: usize)
    ensures
        final(out)@ == old(out)@ + zero_pad(hex(n as nat), width as nat),
{
    let digits = hex_digits(n);
    let len = digits.len();
    let mut k: usize = len;
    while k < width
        invariant
            len == digits.len() <= k,
            k == len || k <= width,
            out@ == old(out)@ + Seq::new((k - len) as nat, |_i: int| '0'),
        decreases width - k,
    {
        push_char(out, '0');
        k = k + 1;
        assert(out@ =~= old(out)@ + Seq::new((k - len) as nat, |_i: int| '0'));
    }
    let ghost padded = out@;
    let mut i: usize = 0;
    while i < len
        invariant
            i <= len == digits.len(),
            out@ == padded + digits@.take(i as int),
        decreases len - i,
    {
        push_char(out, digits[i]);
        i = i + 1;
        assert(out@ =~= padded + digits@.take(i as int));
    }
    assert(digits@.take(len as int) =~= digits@);
    if len >= width {
        assert(k == len);
        assert(out@ =~= old(out)@ + zero_pad(hex(n as nat), width as nat));
    } else {
        assert(k == width);
        assert(out@ =~= old(out)@ + zero_pad(hex(n as nat), width as nat));
    }
}

} // verus!

verus! {

/// Lexicographic order on character sequences, comparing characters by code
/// point (the order of `String`'s `Ord`, which compares UTF-8 bytes).
pub open spec fn seq_lt(a: Seq<char>, b: Seq<char>) -> bool
    decreases a.len(),
{
    if a.len() == 0 {
        b.len() > 0
    } else if b.len() == 0 {
        false
    } else if a[0] != b[0] {
        (a[0] as u32) < (b[0] as u32)
    } else {
        seq_lt(a.drop_first(), b.drop_first())
    }
}

/// Different characters have different code points.
proof fn lemma_char_code_injective(c: char, d: char)
    requires
        c != d,
    ensures
        (c as u32) != (d as u32),
{
}

/// No sequence is below itself.
pub proof fn lemma_seq_lt_irreflexive(a: Seq<char>)
    ensures
        !seq_lt(a, a),
    decreases a.len(),
{
    if a.len() > 0 {
        lemma_seq_lt_irreflexive(a.drop_first());
    }
}

/// The order is transitive.
pub proof fn lemma_seq_lt_transitive(a: Seq<char>, b: Seq<char>, c: Seq<char>)
    requires
        seq_lt(a, b),
        seq_lt(b, c),
    ensures
        seq_lt(a, c),
    decreases a.len(),
{
    if a.len() > 0 && b.len() > 0 && c.len() > 0 {
        if a[0] == b[0] && b[0] == c[0] {
            lemma_seq_lt_transitive(a.drop_first(), b.drop_first(), c.drop_first());
        }
    }
}

/// Any two different sequences are ordered one way or the other, and never
/// both ways.
pub proof fn lemma_seq_lt_total(a: Seq<char>, b: Seq<char>)
    ensures
        a != b ==> seq_lt(a, b) || seq_lt(b, a),
        !(seq_lt(a, b) && seq_lt(b, a)),
    decreases a.len(),
{
    if a.len() > 0 && b.len() > 0 {
        if a[0] == b[0] {
            lemma_seq_lt_total(a.drop_first(), b.drop_first());
            if a.drop_first() == b.drop_first() {
                assert(a =~= seq![a[0]] + a.drop_first());
                assert(b =~= seq![b[0]] + b.drop_first());
            }
        } else {
            let c = a[0];
            let d = b[0];
            lemma_char_code_injective(c, d);
        }
    } else if a.len() == 0 && b.len() == 0 {
        assert(a =~= b);
    }
}

/// Whether `a` sorts strictly before `b` (the order of `String::cmp`).
pub fn str_less(a: &str, b: &str) -> (r: bool)
    ensures
        r == seq_lt(a@, b@),
{
    let x = chars_of(a);
    let y = chars_of(b);
    let mut i: usize = 0;
    assert(a@.skip(0) =~= a@);
    assert(b@.skip(0) =~= b@);
    while i < x.len() && i < y.len() && x[i] == y[i]
        invariant
            i <= x@.len(),
            i <= y@.len(),
            x@ == a@,
            y@ == b@,
            seq_lt(a@, b@) == seq_lt(a@.skip(i as int), b@.skip(i as int)),
        decreases x.len() - i,
    {
        proof {
            let s = a@.skip(i as int);
            let t = b@.skip(i as int);
            assert(s.drop_first() =~= a@.skip(i + 1));
            assert(t.drop_first() =~= b@.skip(i + 1));
        }
        i = i + 1;
    }
    if i == x.len() {
        i < y.len()
    } else if i == y.len() {
        false
    } else {
        (x[i] as u32) < (y[i] as u32)
    }
}

} // verus!
