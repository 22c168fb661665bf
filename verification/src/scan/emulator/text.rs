//! Text handling shared by the console save formats.
use vstd::prelude::*;
use vstd::utf8::*;

verus! {

/// Rust's `char::is_whitespace`: the Unicode `White_Space` property.
pub open spec fn is_white(c: char) -> bool {
    ||| ('\u{0009}' <= c && c <= '\u{000D}')
    ||| c == ' '
    ||| c == '\u{0085}'
    ||| c == '\u{00A0}'
    ||| c == '\u{1680}'
    ||| ('\u{2000}' <= c && c <= '\u{200A}')
    ||| c == '\u{2028}'
    ||| c == '\u{2029}'
    ||| c == '\u{202F}'
    ||| c == '\u{205F}'
    ||| c == '\u{3000}'
}

pub fn char_is_white(c: char) -> (r: bool)
    ensures
        r == is_white(c),
{
    ('\u{0009}' <= c && c <= '\u{000D}') || c == ' ' || c == '\u{0085}' || c == '\u{00A0}'
        || c == '\u{1680}' || ('\u{2000}' <= c && c <= '\u{200A}') || c == '\u{2028}'
        || c == '\u{2029}' || c == '\u{202F}' || c == '\u{205F}' || c == '\u{3000}'
}

/// The characters of a string, as a vector.
pub fn chars_of(s: &str) -> (v: Vec<char>)
    ensures
        v@ == s@,
{
    let mut v: Vec<char> = Vec::new();
    for c in it: s.chars()
        invariant
            v@ == it.seq().take(it.index() as int),
            it.seq() == s@,
    {
        v.push(c);
    }
    v
}


/// `String::push`.
#[verifier::external_body]
fn push_char(s: &mut String, c: char)
    ensures
        final(s)@ == old(s)@.push(c),
{
    s.push(c);
}

/// A string holding exactly the given characters.
pub fn string_from(chars: &Vec<char>) -> (s: String)
    ensures
        s@ == chars@,
{
    let mut s = String::new();
    let mut i: usize = 0;
    while i < chars.len()
        invariant
            i <= chars.len(),
            s@ == chars@.take(i as int),
        decreases chars.len() - i,
    {
        push_char(&mut s, chars[i]);
        i = i + 1;
        assert(s@ == chars@.take(i as int));
    }
    assert(chars@.take(chars.len() as int) == chars@);
    s
}

/// An owned copy of a text.
pub fn owned(s: &str) -> (r: String)
    ensures
        r@ == s@,
{
    string_from(&chars_of(s))
}

/// The decimal digits of a number.
pub open spec fn decimal(n: nat) -> Seq<char>
    decreases n,
{
    if n < 10 {
        seq![digit_char(n)]
    } else {
        decimal(n / 10).push(digit_char(n % 10))
    }
}

pub open spec fn digit_char(d: nat) -> char {
    if d == 0 { '0' } else if d == 1 { '1' } else if d == 2 { '2' } else if d == 3 { '3' } else if d == 4 { '4' }
    else if d == 5 { '5' } else if d == 6 { '6' } else if d == 7 { '7' } else if d == 8 { '8' } else { '9' }
}

fn digit(d: usize) -> (c: char)
    requires
        d < 10,
    ensures
        c == digit_char(d as nat),
{
    if d == 0 { '0' } else if d == 1 { '1' } else if d == 2 { '2' } else if d == 3 { '3' } else if d == 4 { '4' }
    else if d == 5 { '5' } else if d == 6 { '6' } else if d == 7 { '7' } else if d == 8 { '8' } else { '9' }
}

/// A number written in decimal, as `{}` writes it.
pub fn decimal_chars(n: usize) -> (r: Vec<char>)
    ensures
        r@ == decimal(n as nat),
    decreases n,
{
    if n < 10 {
        vec![digit(n)]
    } else {
        let mut r = decimal_chars(n / 10);
        r.push(digit(n % 10));
        r
    }
}

/// Leading whitespace removed.
pub open spec fn trim_start(s: Seq<char>) -> Seq<char>
    decreases s.len(),
{
    if s.len() > 0 && is_white(s[0]) {
        trim_start(s.drop_first())
    } else {
        s
    }
}

/// Trailing whitespace removed.
pub open spec fn trim_end(s: Seq<char>) -> Seq<char>
    decreases s.len(),
{
    if s.len() > 0 && is_white(s.last()) {
        trim_end(s.drop_last())
    } else {
        s
    }
}

/// `str::trim`: whitespace removed from both ends.
pub open spec fn trimmed(s: Seq<char>) -> Seq<char> {
    trim_end(trim_start(s))
}

proof fn lemma_trim_start_skip(s: Seq<char>, i: int)
    requires
        0 <= i <= s.len(),
        forall|k: int| 0 <= k < i ==> is_white(#[trigger] s[k]),
    ensures
        trim_start(s) == trim_start(s.subrange(i, s.len() as int)),
    decreases i,
{
    if i > 0 {
        assert(s.drop_first().subrange(i - 1, s.drop_first().len() as int) == s.subrange(i, s.len() as int));
        lemma_trim_start_skip(s.drop_first(), i - 1);
    } else {
        assert(s.subrange(0, s.len() as int) == s);
    }
}

proof fn lemma_trim_end_skip(s: Seq<char>, j: int)
    requires
        0 <= j <= s.len(),
        forall|k: int| j <= k < s.len() ==> is_white(#[trigger] s[k]),
    ensures
        trim_end(s) == trim_end(s.subrange(0, j)),
    decreases s.len() - j,
{
    if j < s.len() {
        assert(s.drop_last().subrange(0, j) == s.subrange(0, j));
        lemma_trim_end_skip(s.drop_last(), j);
    } else {
        assert(s.subrange(0, j) == s);
    }
}

/// The characters with whitespace removed from both ends.
pub fn trim_chars(v: &Vec<char>) -> (r: Vec<char>)
    ensures
        r@ == trimmed(v@),
{
    let mut i: usize = 0;
    while i < v.len() && char_is_white(v[i])
        invariant
            i <= v.len(),
            forall|k: int| 0 <= k < i ==> is_white(#[trigger] v@[k]),
        decreases v.len() - i,
    {
        i = i + 1;
    }
    proof {
        lemma_trim_start_skip(v@, i as int);
    }
    let mut j: usize = v.len();
    while j > i && char_is_white(v[j - 1])
        invariant
            i <= j <= v.len(),
            forall|k: int| j <= k < v.len() ==> is_white(#[trigger] v@[k]),
        decreases j,
    {
        j = j - 1;
    }
    let ghost rest = v@.subrange(i as int, v@.len() as int);
    proof {
        assert(trim_start(rest) == rest);
        assert forall|k: int| (j - i) <= k < rest.len() implies is_white(#[trigger] rest[k]) by {
            assert(rest[k] == v@[k + i]);
        }
        lemma_trim_end_skip(rest, j - i);
        assert(rest.subrange(0, j - i) == v@.subrange(i as int, j as int));
    }
    let mut r: Vec<char> = Vec::new();
    let mut k: usize = i;
    while k < j
        invariant
            i <= k <= j <= v.len(),
            r@ == v@.subrange(i as int, k as int),
        decreases j - k,
    {
        r.push(v[k]);
        k = k + 1;
        assert(r@ == v@.subrange(i as int, k as int));
    }
    proof {
        let t = v@.subrange(i as int, j as int);
        if t.len() > 0 {
            assert(!is_white(t.last()));
        }
    }
    r
}

/// The full-width forms mapped to plain ASCII, and the ideographic space to a plain space.
pub open spec fn width_folded(c: char) -> char {
    if c == '\u{3000}' {
        ' '
    } else if '\u{FF01}' <= c && c <= '\u{FF5E}' {
        ((c as u32) - 0xFEE0) as char
    } else {
        c
    }
}

fn fold_width(c: char) -> (r: char)
    ensures
        r == width_folded(c),
{
    if c == '\u{3000}' {
        ' '
    } else if '\u{FF01}' <= c && c <= '\u{FF5E}' {
        let code: u32 = (c as u32) - 0xFEE0;
        let byte: u8 = code as u8;
        byte as char
    } else {
        c
    }
}

/// Converts the full-width forms to ordinary ASCII and trims the result.
///
/// Games often write their title in full width (`ＦＦ９` instead of `FF9`) because the card is read
/// by a Japanese menu. This is Unicode's canonical mapping, not a guess.
pub fn normalize_width(text: &str) -> (r: String)
    ensures
        r@ == trimmed(text@.map_values(|c: char| width_folded(c))),
{
    let chars = chars_of(text);
    let folded = normalize_width_chars(&chars);
    string_from(&folded)
}

/// [`normalize_width`], on characters.
pub fn normalize_width_chars(chars: &Vec<char>) -> (r: Vec<char>)
    ensures
        r@ == trimmed(chars@.map_values(|c: char| width_folded(c))),
{
    let mut folded: Vec<char> = Vec::new();
    let mut i: usize = 0;
    while i < chars.len()
        invariant
            i <= chars.len(),
            folded@ == chars@.take(i as int).map_values(|c: char| width_folded(c)),
        decreases chars.len() - i,
    {
        folded.push(fold_width(chars[i]));
        i = i + 1;
        assert(folded@ == chars@.take(i as int).map_values(|c: char| width_folded(c)));
    }
    assert(chars@.take(chars.len() as int) == chars@);
    trim_chars(&folded)
}


/// Where the first zero byte is, or the length when there is none.
pub open spec fn zero_at(s: Seq<u8>) -> int
    decreases s.len(),
{
    if s.len() == 0 {
        0
    } else if s[0] == 0 {
        0
    } else {
        1 + zero_at(s.drop_first())
    }
}

/// The bytes before the first zero, or all of them when there is no zero.
pub open spec fn before_zero(s: Seq<u8>) -> Seq<u8> {
    s.take(zero_at(s))
}

pub proof fn lemma_zero_at(s: Seq<u8>, i: int)
    requires
        0 <= i <= s.len(),
        forall|k: int| 0 <= k < i ==> s[k] != 0,
        i == s.len() || s[i] == 0,
    ensures
        zero_at(s) == i,
    decreases i,
{
    if i > 0 {
        lemma_zero_at(s.drop_first(), i - 1);
    }
}

pub proof fn lemma_zero_at_bounds(s: Seq<u8>)
    ensures
        0 <= zero_at(s) <= s.len(),
        forall|k: int| 0 <= k < zero_at(s) ==> s[k] != 0,
        zero_at(s) == s.len() || s[zero_at(s)] == 0,
    decreases s.len(),
{
    if s.len() > 0 && s[0] != 0 {
        lemma_zero_at_bounds(s.drop_first());
        assert forall|k: int| 0 <= k < zero_at(s) implies s[k] != 0 by {
            if k > 0 {
                assert(s[k] == s.drop_first()[k - 1]);
            }
        }
    }
}

/// The position of the first zero byte, or the length when there is none.
pub fn find_zero(s: &[u8]) -> (n: usize)
    ensures
        n == zero_at(s@),
{
    let mut i: usize = 0;
    while i < s.len() && s[i] != 0
        invariant
            i <= s.len(),
            forall|k: int| 0 <= k < i ==> s@[k] != 0,
        decreases s.len() - i,
    {
        i = i + 1;
    }
    proof {
        lemma_zero_at(s@, i as int);
    }
    i
}

/// The bytes before the first zero, copied out.
pub fn copy_before_zero(s: &[u8]) -> (r: Vec<u8>)
    ensures
        r@ == before_zero(s@),
{
    let n = find_zero(s);
    proof {
        lemma_zero_at_bounds(s@);
    }
    let mut r: Vec<u8> = Vec::new();
    let mut i: usize = 0;
    while i < n
        invariant
            n == zero_at(s@),
            n <= s.len(),
            i <= n,
            r@ == s@.take(i as int),
        decreases n - i,
    {
        r.push(s[i]);
        i = i + 1;
        assert(r@ == s@.take(i as int));
    }
    r
}

/// What `encoding_rs::SHIFT_JIS.decode` makes of some bytes: the decoded text, and whether a
/// malformed sequence had to be replaced.
pub uninterp spec fn shift_jis_decoding(bytes: Seq<u8>) -> (Seq<char>, bool);

/// `encoding_rs::SHIFT_JIS.decode` (with its BOM sniffing), with the decoded text copied out.
///
/// Claimed: the text and the error flag are the named result for these bytes, and nothing more.
/// The length bound keeps the worst-case buffer size computation inside the crate well away from
/// overflowing, which is the one input on which the crate panics.
#[verifier::external_body]
fn shift_jis_decode(raw: &[u8]) -> (r: (String, bool))
    requires
        raw@.len() < usize::MAX / 8,
    ensures
        (r.0@, r.1) == shift_jis_decoding(raw@),
{
    let (decoded, _, had_errors) = encoding_rs::SHIFT_JIS.decode(raw);
    (decoded.into_owned(), had_errors)
}

/// What `str::to_lowercase` makes of a text: the Unicode lowercase mapping of the whole text, where
/// one character may become several and a capital sigma depends on the letters around it.
pub uninterp spec fn unicode_lowercase(s: Seq<char>) -> Seq<char>;

/// `str::to_lowercase`.
///
/// Claimed: the result is the named lowercase mapping of the text, and nothing more.
#[verifier::external_body]
pub(crate) fn lowercase(s: &str) -> (r: String)
    ensures
        r@ == unicode_lowercase(s@),
{
    s.to_lowercase()
}

/// The title made of decoded text: nothing when the decoder had to replace anything, otherwise
/// the trimmed, width-normalised text, and nothing when no text is left.
pub open spec fn title_from_decoded(decoded: Seq<char>, had_errors: bool) -> Option<Seq<char>> {
    if had_errors {
        None
    } else {
        let t = trimmed(trimmed(decoded).map_values(|c: char| width_folded(c)));
        if t.len() == 0 {
            None
        } else {
            Some(t)
        }
    }
}

/// What follows a Shift-JIS decode: refuse text with errors, trim, normalise the width, and
/// refuse what is left empty.
pub fn finish_decoded(decoded: &str, had_errors: bool) -> (r: Option<String>)
    ensures
        r matches Some(t) ==> title_from_decoded(decoded@, had_errors) == Some(t@),
        r is None ==> title_from_decoded(decoded@, had_errors) is None,
{
    if had_errors {
        return None;
    }
    let chars = chars_of(decoded);
    let trimmed_chars = trim_chars(&chars);
    let text = normalize_width_chars(&trimmed_chars);
    if text.len() == 0 {
        None
    } else {
        Some(string_from(&text))
    }
}

/// The title that Shift-JIS bytes spell, cut at the first zero.
pub open spec fn shift_jis_title(raw: Seq<u8>) -> Option<Seq<char>> {
    let d = shift_jis_decoding(before_zero(raw));
    title_from_decoded(d.0, d.1)
}

/// Decodes Shift-JIS up to the first zero, already normalised.
///
/// Returns `None` when the bytes are not valid Shift-JIS or when no text is left. Refusing is on
/// purpose: a title in mojibake is worse than no title, because it looks like information.
pub fn decode_shift_jis(raw: &[u8]) -> (r: Option<String>)
    requires
        raw@.len() < usize::MAX / 8,
    ensures
        r matches Some(t) ==> shift_jis_title(raw@) == Some(t@),
        r is None ==> shift_jis_title(raw@) is None,
{
    let cut = copy_before_zero(raw);
    proof {
        lemma_zero_at_bounds(raw@);
    }
    let (decoded, had_errors) = shift_jis_decode(cut.as_slice());
    finish_decoded(decoded.as_str(), had_errors)
}


/// `char::is_ascii_alphabetic`.
pub open spec fn is_ascii_alpha(c: char) -> bool {
    ('a' <= c && c <= 'z') || ('A' <= c && c <= 'Z')
}

/// `char::is_ascii_digit`.
pub open spec fn is_ascii_digit(c: char) -> bool {
    '0' <= c && c <= '9'
}

/// `char::to_ascii_uppercase`.
pub open spec fn ascii_upper(c: char) -> char {
    if 'a' <= c && c <= 'z' {
        ((c as u32) - 32) as char
    } else {
        c
    }
}

/// `char::to_ascii_lowercase`.
pub open spec fn ascii_lower(c: char) -> char {
    if 'A' <= c && c <= 'Z' {
        ((c as u32) + 32) as char
    } else {
        c
    }
}

pub fn char_is_ascii_alpha(c: char) -> (r: bool)
    ensures
        r == is_ascii_alpha(c),
{
    ('a' <= c && c <= 'z') || ('A' <= c && c <= 'Z')
}

pub fn char_is_ascii_digit(c: char) -> (r: bool)
    ensures
        r == is_ascii_digit(c),
{
    '0' <= c && c <= '9'
}

pub fn char_to_ascii_upper(c: char) -> (r: char)
    ensures
        r == ascii_upper(c),
{
    if 'a' <= c && c <= 'z' {
        let code: u32 = (c as u32) - 32;
        let byte: u8 = code as u8;
        byte as char
    } else {
        c
    }
}

pub fn char_to_ascii_lower(c: char) -> (r: char)
    ensures
        r == ascii_lower(c),
{
    if 'A' <= c && c <= 'Z' {
        let code: u32 = (c as u32) + 32;
        let byte: u8 = code as u8;
        byte as char
    } else {
        c
    }
}

/// Each byte read as the character with the same code (`byte as char`).
pub open spec fn latin1(bytes: Seq<u8>) -> Seq<char> {
    bytes.map_values(|b: u8| b as char)
}

/// The bytes before the first zero, each read as `byte as char`.
pub fn latin1_before_zero(raw: &[u8]) -> (r: Vec<char>)
    ensures
        r@ == latin1(before_zero(raw@)),
{
    let n = find_zero(raw);
    proof {
        lemma_zero_at_bounds(raw@);
    }
    let mut r: Vec<char> = Vec::new();
    let mut i: usize = 0;
    while i < n
        invariant
            n == zero_at(raw@),
            n <= raw.len(),
            i <= n,
            r@ == latin1(raw@.take(i as int)),
        decreases n - i,
    {
        r.push(raw[i] as char);
        i = i + 1;
        assert(r@ == latin1(raw@.take(i as int)));
    }
    r
}

/// `std::str::from_utf8`.
///
/// Claimed, as the standard library documents it: the bytes are accepted exactly when they are
/// well-formed UTF-8, and then the text is what they encode.
#[verifier::external_body]
fn utf8_str(bytes: &[u8]) -> (r: Option<&str>)
    ensures
        r is Some <==> valid_utf8(bytes@),
        r matches Some(s) ==> s@ == decode_utf8(bytes@),
{
    std::str::from_utf8(bytes).ok()
}

/// Decodes UTF-8 into characters, or `None` when the bytes are not UTF-8.
pub fn utf8_chars(bytes: &[u8]) -> (r: Option<Vec<char>>)
    ensures
        r is Some <==> valid_utf8(bytes@),
        r matches Some(v) ==> v@ == decode_utf8(bytes@),
{
    match utf8_str(bytes) {
        Some(s) => Some(chars_of(s)),
        None => None,
    }
}

/// A fixed-size text field: cut at the first zero (or the whole field when there is none),
/// decoded as UTF-8, trimmed, and nothing when it is not UTF-8 or nothing is left.
pub open spec fn utf8_field(raw: Seq<u8>) -> Option<Seq<char>> {
    let cut = before_zero(raw);
    if !valid_utf8(cut) {
        None
    } else {
        let t = trimmed(decode_utf8(cut));
        if t.len() == 0 {
            None
        } else {
            Some(t)
        }
    }
}

/// Reads a text field per [`utf8_field`].
pub fn read_utf8_field(raw: &[u8]) -> (r: Option<String>)
    ensures
        r matches Some(t) ==> utf8_field(raw@) == Some(t@),
        r is None ==> utf8_field(raw@) is None,
{
    let cut = copy_before_zero(raw);
    match utf8_chars(cut.as_slice()) {
        None => None,
        Some(chars) => {
            let t = trim_chars(&chars);
            if t.len() == 0 {
                None
            } else {
                Some(string_from(&t))
            }
        },
    }
}


/// An optional string, seen as its characters.
pub open spec fn opt_view(o: Option<String>) -> Option<Seq<char>> {
    match o {
        Some(s) => Some(s@),
        None => None,
    }
}

} // verus!
