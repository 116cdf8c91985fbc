//! Conversions between text and bytes.
use vstd::prelude::*;
use vstd::utf8::*;

verus! {

/// `String::from_utf8`: the documentation promises `Ok` exactly when the
/// bytes are well-formed UTF-8, and then a string holding those bytes,
/// whose characters are therefore the UTF-8 decoding of the bytes.
#[verifier::external_body]
pub fn string_from_utf8(bytes: Vec<u8>) -> (r: Option<String>)
    ensures
        r is Some <==> valid_utf8(bytes@),
        r matches Some(s) ==> s@ == decode_utf8(bytes@),
{
    String::from_utf8(bytes).ok()
}

/// What `String::from_utf8_lossy` makes of bytes.
pub uninterp spec fn utf8_lossy(bytes: Seq<u8>) -> Seq<char>;

/// `String::from_utf8_lossy`: the documentation promises the text the
/// bytes encode when they are well-formed UTF-8; other input has each
/// invalid sequence replaced by U+FFFD, which is left to the name.
#[verifier::external_body]
pub fn string_from_utf8_lossy(bytes: &[u8]) -> (r: String)
    ensures
        r@ == utf8_lossy(bytes@),
        valid_utf8(bytes@) ==> r@ == decode_utf8(bytes@),
{
    String::from_utf8_lossy(bytes).into_owned()
}

/// The UTF-8 bytes of a string.
pub fn str_bytes(s: &str) -> (r: Vec<u8>)
    ensures
        r@ == encode_utf8(s@),
{
    let b = s.as_bytes();
    let mut out: Vec<u8> = Vec::with_capacity(b.len());
    let mut i: usize = 0;
    while i < b.len()
        invariant
            i <= b@.len(),
            b@ == encode_utf8(s@),
            out@ == b@.subrange(0, i as int),
        decreases b@.len() - i,
    {
        proof {
            assert(out@.push(b@[i as int]) =~= b@.subrange(0, i as int + 1));
        }
        out.push(b[i]);
        i = i + 1;
    }
    assert(b@.subrange(0, i as int) =~= b@);
    out
}

/// Appends the UTF-8 encoding of one character.
pub fn push_char_utf8(out: &mut Vec<u8>, c: char)
    ensures
        final(out)@ == old(out)@ + encode_scalar(c as u32),
{
    let v = c as u32;
    proof {
        char_is_scalar(c);
    }
    if v <= 0x7F {
        out.push((v & 0x7F) as u8);
    } else if v <= 0x7FF {
        out.push(0xC0 | ((v >> 6u32) & 0x1F) as u8);
        out.push(0x80 | (v & 0x3F) as u8);
    } else if v <= 0xFFFF {
        out.push(0xE0 | ((v >> 12u32) & 0x0F) as u8);
        out.push(0x80 | ((v >> 6u32) & 0x3F) as u8);
        out.push(0x80 | (v & 0x3F) as u8);
    } else {
        out.push(0xF0 | ((v >> 18u32) & 0x7) as u8);
        out.push(0x80 | ((v >> 12u32) & 0x3F) as u8);
        out.push(0x80 | ((v >> 6u32) & 0x3F) as u8);
        out.push(0x80 | (v & 0x3F) as u8);
    }
    assert(final(out)@ =~= old(out)@ + encode_scalar(c as u32));
}

/// Encoding a sequence extended by one character.
pub proof fn lemma_encode_utf8_push(chars: Seq<char>, c: char)
    ensures
        encode_utf8(chars.push(c)) == encode_utf8(chars) + encode_scalar(c as u32),
    decreases chars.len(),
{
    if chars.len() == 0 {
        assert(chars.push(c).drop_first() =~= Seq::<char>::empty());
        assert(encode_utf8(Seq::<char>::empty()) =~= Seq::<u8>::empty());
        assert(encode_utf8(chars.push(c)) =~= encode_scalar(c as u32));
    } else {
        assert(chars.push(c).drop_first() =~= chars.drop_first().push(c));
        lemma_encode_utf8_push(chars.drop_first(), c);
        assert(encode_utf8(chars.push(c)) =~= encode_utf8(chars) + encode_scalar(c as u32));
    }
}

/// Encoding a concatenation is the concatenation of the encodings.
pub proof fn lemma_encode_utf8_concat(a: Seq<char>, b: Seq<char>)
    ensures
        encode_utf8(a + b) == encode_utf8(a) + encode_utf8(b),
    decreases a.len(),
{
    if a.len() == 0 {
        assert(a + b =~= b);
        assert(encode_utf8(a) =~= Seq::<u8>::empty());
        assert(encode_utf8(a) + encode_utf8(b) =~= encode_utf8(b));
    } else {
        assert((a + b).drop_first() =~= a.drop_first() + b);
        lemma_encode_utf8_concat(a.drop_first(), b);
        assert(encode_utf8(a + b) =~= encode_utf8(a) + encode_utf8(b));
    }
}

/// A string holding exactly the given characters.
pub fn string_from_chars(chars: &[char]) -> (r: String)
    ensures
        r@ == chars@,
{
    let mut bytes: Vec<u8> = Vec::new();
    let mut i: usize = 0;
    while i < chars.len()
        invariant
            i <= chars@.len(),
            bytes@ == encode_utf8(chars@.subrange(0, i as int)),
        decreases chars@.len() - i,
    {
        proof {
            lemma_encode_utf8_push(chars@.subrange(0, i as int), chars@[i as int]);
            assert(chars@.subrange(0, i as int).push(chars@[i as int]) =~= chars@.subrange(0, i as int + 1));
        }
        push_char_utf8(&mut bytes, chars[i]);
        i = i + 1;
    }
    assert(chars@.subrange(0, i as int) =~= chars@);
    proof {
        encode_utf8_valid_utf8(chars@);
        encode_utf8_decode_utf8(chars@);
    }
    match string_from_utf8(bytes) {
        Some(s) => s,
        None => String::new(),
    }
}

/// The characters of a string.
pub fn str_chars(s: &str) -> (r: Vec<char>)
    ensures
        r@ == s@,
{
    broadcast use vstd::string::group_string_axioms;
    let mut out: Vec<char> = Vec::new();
    for c in it: s.chars()
        invariant
            it.seq() == s@,
            out@ == it.seq().take(it.index() as int),
    {
        proof {
            assert(it.seq().take(it.index() as int).push(c) =~= it.seq().take(it.index() as int + 1));
        }
        out.push(c);
    }
    assert(out@ =~= s@);
    out
}


/// Appends text to a string.
pub fn push_str(out: &mut String, s: &str)
    ensures
        final(out)@ == old(out)@ + s@,
{
    out.append(s);
}

/// The character of a decimal digit.
pub open spec fn digit_char(d: int) -> char {
    ((d + 48) as u8) as char
}

/// The decimal digits of `n`, most significant first.
pub open spec fn decimal_chars(n: nat) -> Seq<char>
    decreases n,
{
    if n < 10 {
        seq![digit_char(n as int)]
    } else {
        decimal_chars(n / 10).push(digit_char((n % 10) as int))
    }
}

/// The decimal text of a signed number: a `-` before the digits of a
/// negative one.
pub open spec fn signed_decimal_chars(v: int) -> Seq<char> {
    if v < 0 {
        "-"@ + decimal_chars((-v) as nat)
    } else {
        decimal_chars(v as nat)
    }
}

/// Appends the decimal text of a signed 32-bit number.
pub fn push_signed_decimal(out: &mut String, v: i32)
    ensures
        final(out)@ == old(out)@ + signed_decimal_chars(v as int),
{
    let ghost start = out@;
    if v < 0 {
        push_str(out, "-");
        let magnitude = decimal_string((-(v as i64)) as u64);
        push_str(out, magnitude.as_str());
        assert(out@ =~= start + ("-"@ + decimal_chars((-v) as nat)));
    } else {
        let magnitude = decimal_string(v as u64);
        push_str(out, magnitude.as_str());
    }
}

/// Appends the decimal digits of `n`.
pub fn push_decimal(out: &mut Vec<char>, n: u64)
    ensures
        final(out)@ == old(out)@ + decimal_chars(n as nat),
    decreases n,
{
    if n >= 10 {
        push_decimal(out, n / 10);
    }
    let d = (n % 10) as u8;
    out.push((d + 48u8) as char);
    assert(final(out)@ =~= old(out)@ + decimal_chars(n as nat));
}

/// The decimal text of `n`.
pub fn decimal_string(n: u64) -> (r: String)
    ensures
        r@ == decimal_chars(n as nat),
{
    let mut chars: Vec<char> = Vec::new();
    push_decimal(&mut chars, n);
    assert(chars@ =~= decimal_chars(n as nat));
    string_from_chars(chars.as_slice())
}


/// Whether two character sequences are equal.
pub fn chars_equal(a: &[char], b: &[char]) -> (r: bool)
    ensures
        r == (a@ == b@),
{
    if a.len() != b.len() {
        return false;
    }
    let mut i: usize = 0;
    while i < a.len()
        invariant
            i <= a@.len(),
            a@.len() == b@.len(),
            a@.subrange(0, i as int) == b@.subrange(0, i as int),
        decreases a@.len() - i,
    {
        if a[i] != b[i] {
            assert(a@.subrange(0, i as int + 1)[i as int] != b@.subrange(0, i as int + 1)[i as int]);
            assert(a@[i as int] != b@[i as int]);
            return false;
        }
        assert(a@.subrange(0, i as int + 1) =~= a@.subrange(0, i as int).push(a@[i as int]));
        assert(b@.subrange(0, i as int + 1) =~= b@.subrange(0, i as int).push(b@[i as int]));
        i = i + 1;
    }
    assert(a@.subrange(0, i as int) =~= a@);
    assert(b@.subrange(0, i as int) =~= b@);
    true
}

/// Whether two strings hold the same text.
pub fn str_eq(a: &str, b: &str) -> (r: bool)
    ensures
        r == (a@ == b@),
{
    let ca = str_chars(a);
    let cb = str_chars(b);
    chars_equal(ca.as_slice(), cb.as_slice())
}

/// Whether `s` is `prefix` followed by `rest`.
pub fn str_is_concat(s: &str, prefix: &str, rest: &str) -> (r: bool)
    ensures
        r == (s@ == prefix@ + rest@),
{
    let mut joined = prefix.to_owned();
    push_str(&mut joined, rest);
    str_eq(s, joined.as_str())
}

/// Unicode `White_Space`, the property that `char::is_whitespace` tests.
pub open spec fn is_white_space(c: char) -> bool {
    let v = c as u32;
    (0x09 <= v && v <= 0x0d) || v == 0x20 || v == 0x85 || v == 0xa0 || v == 0x1680
        || (0x2000 <= v && v <= 0x200a) || v == 0x2028 || v == 0x2029 || v == 0x202f
        || v == 0x205f || v == 0x3000
}

pub fn is_white_space_char(c: char) -> (r: bool)
    ensures
        r == is_white_space(c),
{
    let v = c as u32;
    (0x09 <= v && v <= 0x0d) || v == 0x20 || v == 0x85 || v == 0xa0 || v == 0x1680
        || (0x2000 <= v && v <= 0x200a) || v == 0x2028 || v == 0x2029 || v == 0x202f
        || v == 0x205f || v == 0x3000
}

/// Unicode general category `Cc`, the property that `char::is_control`
/// tests.
pub open spec fn is_control(c: char) -> bool {
    let v = c as u32;
    v <= 0x1f || (0x7f <= v && v <= 0x9f)
}

pub fn is_control_char(c: char) -> (r: bool)
    ensures
        r == is_control(c),
{
    let v = c as u32;
    v <= 0x1f || (0x7f <= v && v <= 0x9f)
}

/// The text without leading white space.
pub open spec fn trim_start_chars(s: Seq<char>) -> Seq<char>
    decreases s.len(),
{
    if s.len() > 0 && is_white_space(s[0]) {
        trim_start_chars(s.drop_first())
    } else {
        s
    }
}

/// The text without trailing white space.
pub open spec fn trim_end_chars(s: Seq<char>) -> Seq<char>
    decreases s.len(),
{
    if s.len() > 0 && is_white_space(s.last()) {
        trim_end_chars(s.drop_last())
    } else {
        s
    }
}

/// The text without white space at either end.
pub open spec fn trim_chars(s: Seq<char>) -> Seq<char> {
    trim_end_chars(trim_start_chars(s))
}

/// A copy of the characters from `start` up to `end`.
pub fn char_range(chars: &[char], start: usize, end: usize) -> (r: Vec<char>)
    requires
        start <= end <= chars@.len(),
    ensures
        r@ == chars@.subrange(start as int, end as int),
{
    let mut out: Vec<char> = Vec::new();
    let mut i = start;
    while i < end
        invariant
            start <= i <= end,
            end <= chars@.len(),
            out@ == chars@.subrange(start as int, i as int),
        decreases end - i,
    {
        out.push(chars[i]);
        assert(out@ =~= chars@.subrange(start as int, i as int + 1));
        i = i + 1;
    }
    out
}

/// `str::trim`, as an owned string.
pub fn trim_string(s: &str) -> (r: String)
    ensures
        r@ == trim_chars(s@),
{
    let chars = str_chars(s);
    let n = chars.len();
    let mut i: usize = 0;
    assert(chars@.subrange(0, n as int) =~= chars@);
    while i < n && is_white_space_char(chars[i])
        invariant
            i <= n,
            n == chars@.len(),
            trim_start_chars(s@) == trim_start_chars(chars@.subrange(i as int, n as int)),
        decreases n - i,
    {
        assert(chars@.subrange(i as int, n as int).drop_first() =~= chars@.subrange(i as int + 1, n as int));
        i = i + 1;
    }
    let mut j: usize = n;
    while j > i && is_white_space_char(chars[j - 1])
        invariant
            i <= j <= n,
            n == chars@.len(),
            trim_start_chars(s@) == chars@.subrange(i as int, n as int),
            trim_chars(s@) == trim_end_chars(chars@.subrange(i as int, j as int)),
        decreases j,
    {
        assert(chars@.subrange(i as int, j as int).drop_last() =~= chars@.subrange(i as int, j as int - 1));
        j = j - 1;
    }
    let kept = char_range(chars.as_slice(), i, j);
    string_from_chars(kept.as_slice())
}


/// Whether `s` begins with `prefix`.
pub open spec fn has_prefix(s: Seq<char>, prefix: Seq<char>) -> bool {
    prefix.len() <= s.len() && s.subrange(0, prefix.len() as int) == prefix
}

/// Whether `needle` occurs in `hay` at position `i`.
pub open spec fn occurs_at(hay: Seq<char>, needle: Seq<char>, i: int) -> bool {
    0 <= i && i + needle.len() <= hay.len() && hay.subrange(i, i + needle.len()) == needle
}

/// Whether `needle` occurs anywhere in `hay`.
pub open spec fn contains_chars(hay: Seq<char>, needle: Seq<char>) -> bool {
    exists|i: int| occurs_at(hay, needle, i)
}

/// Whether `needle` occurs in `hay` at position `at`.
pub fn chars_occur_at(hay: &[char], needle: &[char], at: usize) -> (r: bool)
    ensures
        r == occurs_at(hay@, needle@, at as int),
{
    if at > hay.len() || needle.len() > hay.len() - at {
        return false;
    }
    let mut i: usize = 0;
    while i < needle.len()
        invariant
            i <= needle@.len(),
            at + needle@.len() <= hay@.len(),
            at + needle.len() <= hay.len(),
            hay@.subrange(at as int, at + i) == needle@.subrange(0, i as int),
        decreases needle@.len() - i,
    {
        if hay[at + i] != needle[i] {
            assert(hay@.subrange(at as int, at + needle@.len())[i as int] != needle@[i as int]);
            return false;
        }
        assert(hay@.subrange(at as int, at + i + 1) =~= hay@.subrange(at as int, at + i).push(hay@[at + i]));
        assert(needle@.subrange(0, i as int + 1) =~= needle@.subrange(0, i as int).push(needle@[i as int]));
        i = i + 1;
    }
    assert(needle@.subrange(0, i as int) =~= needle@);
    true
}

/// Whether `needle` occurs anywhere in `hay`.
pub fn chars_contain(hay: &[char], needle: &[char]) -> (r: bool)
    ensures
        r == contains_chars(hay@, needle@),
{
    if needle.len() > hay.len() {
        return false;
    }
    let last = hay.len() - needle.len();
    let mut i: usize = 0;
    loop
        invariant
            last == hay@.len() - needle@.len(),
            i <= last,
            forall|j: int| 0 <= j < i ==> !occurs_at(hay@, needle@, j),
        decreases last - i,
    {
        if chars_occur_at(hay, needle, i) {
            return true;
        }
        if i == last {
            return false;
        }
        i = i + 1;
    }
}

/// Whether the text `s` contains `needle`.
pub fn str_contains(s: &str, needle: &str) -> (r: bool)
    ensures
        r == contains_chars(s@, needle@),
{
    let hay = str_chars(s);
    let pat = str_chars(needle);
    chars_contain(hay.as_slice(), pat.as_slice())
}

/// Whether the text `s` begins with `prefix`.
pub fn str_starts_with(s: &str, prefix: &str) -> (r: bool)
    ensures
        r == has_prefix(s@, prefix@),
{
    let hay = str_chars(s);
    let pat = str_chars(prefix);
    chars_occur_at(hay.as_slice(), pat.as_slice(), 0)
}

/// The index just after the last `c` in `s`, or 0 when there is none.
pub open spec fn after_last(s: Seq<char>, c: char) -> int
    decreases s.len(),
{
    if s.len() == 0 {
        0
    } else if s.last() == c {
        s.len() as int
    } else {
        after_last(s.drop_last(), c)
    }
}

pub proof fn lemma_after_last(s: Seq<char>, c: char)
    ensures
        0 <= after_last(s, c) <= s.len(),
        after_last(s, c) > 0 ==> s[after_last(s, c) - 1] == c,
        forall|j: int| after_last(s, c) <= j < s.len() ==> s[j] != c,
    decreases s.len(),
{
    if s.len() > 0 && s.last() != c {
        lemma_after_last(s.drop_last(), c);
        assert forall|j: int| after_last(s, c) <= j < s.len() implies s[j] != c by {
            if j < s.len() - 1 {
                assert(s.drop_last()[j] == s[j]);
            }
        }
    }
}

/// The index just after the last `c` in the characters.
pub fn chars_after_last(chars: &[char], c: char) -> (r: usize)
    ensures
        r as int == after_last(chars@, c),
{
    let mut i = chars.len();
    assert(chars@.subrange(0, i as int) =~= chars@);
    while i > 0
        invariant
            i <= chars@.len(),
            after_last(chars@, c) == after_last(chars@.subrange(0, i as int), c),
        decreases i,
    {
        assert(chars@.subrange(0, i as int).drop_last() =~= chars@.subrange(0, i as int - 1));
        if chars[i - 1] == c {
            return i;
        }
        i = i - 1;
    }
    i
}


/// The text without leading copies of `c`.
pub open spec fn trim_start_by(s: Seq<char>, c: char) -> Seq<char>
    decreases s.len(),
{
    if s.len() > 0 && s[0] == c {
        trim_start_by(s.drop_first(), c)
    } else {
        s
    }
}

/// The text without trailing copies of `c`.
pub open spec fn trim_end_by(s: Seq<char>, c: char) -> Seq<char>
    decreases s.len(),
{
    if s.len() > 0 && s.last() == c {
        trim_end_by(s.drop_last(), c)
    } else {
        s
    }
}

/// `str::trim_matches` with one character, on characters.
pub fn trim_char_matches(chars: &[char], c: char) -> (r: Vec<char>)
    ensures
        r@ == trim_end_by(trim_start_by(chars@, c), c),
{
    let n = chars.len();
    let mut i: usize = 0;
    assert(chars@.subrange(0, n as int) =~= chars@);
    while i < n && chars[i] == c
        invariant
            i <= n,
            n == chars@.len(),
            trim_start_by(chars@, c) == trim_start_by(chars@.subrange(i as int, n as int), c),
        decreases n - i,
    {
        assert(chars@.subrange(i as int, n as int).drop_first() =~= chars@.subrange(i as int + 1, n as int));
        i = i + 1;
    }
    let mut j: usize = n;
    while j > i && chars[j - 1] == c
        invariant
            i <= j <= n,
            n == chars@.len(),
            trim_start_by(chars@, c) == chars@.subrange(i as int, n as int),
            trim_end_by(trim_start_by(chars@, c), c) == trim_end_by(chars@.subrange(i as int, j as int), c),
        decreases j,
    {
        assert(chars@.subrange(i as int, j as int).drop_last() =~= chars@.subrange(i as int, j as int - 1));
        j = j - 1;
    }
    char_range(chars, i, j)
}

/// Every occurrence of `pat` replaced by `rep`, scanning from the front.
pub open spec fn replace_all(s: Seq<char>, pat: Seq<char>, rep: Seq<char>) -> Seq<char>
    decreases s.len(),
{
    if s.len() == 0 {
        s
    } else if pat.len() > 0 && has_prefix(s, pat) {
        rep + replace_all(s.subrange(pat.len() as int, s.len() as int), pat, rep)
    } else {
        seq![s[0]] + replace_all(s.drop_first(), pat, rep)
    }
}

/// `str::replace` with a pattern that is not empty.
pub fn replace_text(s: &str, pat: &str, rep: &str) -> (r: String)
    requires
        pat@.len() > 0,
    ensures
        r@ == replace_all(s@, pat@, rep@),
{
    let chars = str_chars(s);
    let pchars = str_chars(pat);
    let rchars = str_chars(rep);
    let n = chars.len();
    let mut out: Vec<char> = Vec::new();
    let mut i: usize = 0;
    assert(chars@.subrange(0, n as int) =~= chars@);
    while i < n
        invariant
            i <= n,
            n == chars@.len(),
            pchars@ == pat@,
            rchars@ == rep@,
            pat@.len() > 0,
            out@ + replace_all(chars@.subrange(i as int, n as int), pat@, rep@) == replace_all(s@, pat@, rep@),
            chars@ == s@,
        decreases n - i,
    {
        let ghost rest = chars@.subrange(i as int, n as int);
        let ghost before = out@;
        if chars_occur_at(chars.as_slice(), pchars.as_slice(), i) {
            assert(rest.subrange(0, pat@.len() as int) =~= chars@.subrange(i as int, i + pat@.len()));
            assert(rest.subrange(pat@.len() as int, rest.len() as int) =~= chars@.subrange(i + pat@.len(), n as int));
            let mut k: usize = 0;
            while k < rchars.len()
                invariant
                    k <= rchars@.len(),
                    out@ == before + rchars@.subrange(0, k as int),
                decreases rchars@.len() - k,
            {
                out.push(rchars[k]);
                assert(out@ =~= before + rchars@.subrange(0, k as int + 1));
                k = k + 1;
            }
            assert(rchars@.subrange(0, k as int) =~= rchars@);
            assert(before + (rep@ + replace_all(chars@.subrange(i + pat@.len(), n as int), pat@, rep@))
                =~= out@ + replace_all(chars@.subrange(i + pat@.len(), n as int), pat@, rep@));
            i = i + pchars.len();
        } else {
            assert(!has_prefix(rest, pat@)) by {
                if has_prefix(rest, pat@) {
                    assert(rest.subrange(0, pat@.len() as int) =~= chars@.subrange(i as int, i + pat@.len()));
                }
            }
            assert(rest.drop_first() =~= chars@.subrange(i as int + 1, n as int));
            out.push(chars[i]);
            assert(before + (seq![rest[0]] + replace_all(rest.drop_first(), pat@, rep@))
                =~= out@ + replace_all(chars@.subrange(i as int + 1, n as int), pat@, rep@));
            i = i + 1;
        }
    }
    assert(out@ + replace_all(chars@.subrange(i as int, n as int), pat@, rep@) =~= out@);
    string_from_chars(out.as_slice())
}

/// The first `max` characters of the text.
pub fn truncate_chars(value: &str, max_chars: usize) -> (r: String)
    ensures
        r@ == if value@.len() <= max_chars { value@ } else { value@.subrange(0, max_chars as int) },
{
    let chars = str_chars(value);
    if chars.len() <= max_chars {
        string_from_chars(chars.as_slice())
    } else {
        let kept = char_range(chars.as_slice(), 0, max_chars);
        string_from_chars(kept.as_slice())
    }
}


/// The lowercase hexadecimal digit of `d`.
pub open spec fn hex_digit(d: int) -> char {
    if d < 10 {
        ((d + 48) as u8) as char
    } else {
        ((d + 87) as u8) as char
    }
}

fn hex_digit_char(d: u32) -> (r: char)
    requires
        d < 16,
    ensures
        r == hex_digit(d as int),
{
    if d < 10 {
        ((d as u8) + 48u8) as char
    } else {
        ((d as u8) + 87u8) as char
    }
}

/// The lowercase hexadecimal digits of `n`, without leading zeros.
pub open spec fn hex_chars(n: nat) -> Seq<char>
    decreases n,
{
    if n < 16 {
        seq![hex_digit(n as int)]
    } else {
        hex_chars(n / 16).push(hex_digit((n % 16) as int))
    }
}

/// The lowercase hexadecimal digits of `n`, zero-padded to `width`.
pub open spec fn hex_padded(n: nat, width: nat) -> Seq<char>
    decreases width,
{
    if width == 0 {
        Seq::empty()
    } else {
        hex_padded(n / 16, (width - 1) as nat).push(hex_digit((n % 16) as int))
    }
}

/// Appends the hexadecimal digits of `n`.
pub fn push_hex(out: &mut Vec<char>, n: u32)
    ensures
        final(out)@ == old(out)@ + hex_chars(n as nat),
    decreases n,
{
    if n >= 16 {
        push_hex(out, n / 16);
    }
    out.push(hex_digit_char(n % 16));
    assert(final(out)@ =~= old(out)@ + hex_chars(n as nat));
}

/// Appends the hexadecimal digits of `n`, zero-padded to `width`.
pub fn push_hex_padded(out: &mut Vec<char>, n: u32, width: u32)
    ensures
        final(out)@ == old(out)@ + hex_padded(n as nat, width as nat),
    decreases width,
{
    if width > 0 {
        push_hex_padded(out, n / 16, width - 1);
        out.push(hex_digit_char(n % 16));
    }
    assert(final(out)@ =~= old(out)@ + hex_padded(n as nat, width as nat));
}

/// Appends characters to a string.
pub fn push_chars(out: &mut String, chars: &Vec<char>)
    ensures
        final(out)@ == old(out)@ + chars@,
{
    let s = string_from_chars(chars.as_slice());
    push_str(out, s.as_str());
}


/// Whether every character is an ASCII digit.
pub open spec fn all_digits(s: Seq<char>) -> bool {
    forall|i: int| 0 <= i < s.len() ==> '0' <= #[trigger] s[i] && s[i] <= '9'
}

/// The number that decimal digits spell.
pub open spec fn digits_value(s: Seq<char>) -> nat
    decreases s.len(),
{
    if s.len() == 0 {
        0
    } else {
        digits_value(s.drop_last()) * 10 + ((s.last() as u32) - 48) as nat
    }
}

/// How `str::parse` reads an unsigned integer no larger than `max`: an
/// optional `+`, then one or more decimal digits.
pub open spec fn parse_unsigned(s: Seq<char>, max: nat) -> Option<nat> {
    let body = if s.len() > 0 && s[0] == '+' { s.drop_first() } else { s };
    if body.len() > 0 && all_digits(body) && digits_value(body) <= max {
        Some(digits_value(body))
    } else {
        None
    }
}

proof fn lemma_digits_value_grows(s: Seq<char>, k: int)
    requires
        0 <= k <= s.len(),
        all_digits(s),
    ensures
        digits_value(s.subrange(0, k)) <= digits_value(s),
    decreases s.len() - k,
{
    if k < s.len() {
        let t = s.subrange(0, k + 1);
        assert(t.drop_last() =~= s.subrange(0, k));
        assert('0' <= t.last());
        lemma_digits_value_grows(s, k + 1);
    } else {
        assert(s.subrange(0, k) =~= s);
    }
}

/// Reads an unsigned decimal number no larger than `max`.
pub fn parse_decimal(s: &str, max: u64) -> (r: Option<u64>)
    ensures
        match parse_unsigned(s@, max as nat) {
            Some(v) => r == Some(v as u64),
            None => r is None,
        },
{
    let chars = str_chars(s);
    let mut start: usize = 0;
    if chars.len() > 0 && chars[0] == '+' {
        start = 1;
    }
    let ghost body = if s@.len() > 0 && s@[0] == '+' { s@.drop_first() } else { s@ };
    assert(body =~= chars@.subrange(start as int, chars@.len() as int));
    if start >= chars.len() {
        return None;
    }
    let mut value: u64 = 0;
    let mut i: usize = start;
    while i < chars.len()
        invariant
            start <= i <= chars@.len(),
            chars@ == s@,
            body == chars@.subrange(start as int, chars@.len() as int),
            body == (if s@.len() > 0 && s@[0] == '+' { s@.drop_first() } else { s@ }),
            all_digits(chars@.subrange(start as int, i as int)),
            value as nat == digits_value(chars@.subrange(start as int, i as int)),
            value <= max,
        decreases chars@.len() - i,
    {
        let c = chars[i];
        let ghost prefix = chars@.subrange(start as int, i as int + 1);
        assert(prefix.drop_last() =~= chars@.subrange(start as int, i as int));
        if !('0' <= c && c <= '9') {
            assert(!all_digits(body)) by {
                assert(body[i - start] == c);
            }
            return None;
        }
        let d = (c as u32 - 48) as u64;
        if d > max || value > (max - d) / 10 {
            proof {
                if all_digits(body) {
                    assert(body.subrange(0, i - start + 1) =~= prefix);
                    lemma_digits_value_grows(body, i - start + 1);
                    assert(digits_value(prefix) == value * 10 + d);
                    assert(value * 10 + d > max) by (nonlinear_arith)
                        requires
                            d > max || value > (max - d) / 10,
                            d <= 9,
                    ;
                }
            }
            return None;
        }
        assert(value * 10 + d <= max) by (nonlinear_arith)
            requires
                value <= (max - d) / 10,
                d <= max,
        ;
        value = value * 10 + d;
        i = i + 1;
    }
    assert(chars@.subrange(start as int, i as int) =~= body);
    Some(value)
}

} // verus!
