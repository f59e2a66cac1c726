//! Site parser registry, the parsing strategies' shared helpers, and the
//! error taxonomy of the extraction subsystem.

use vstd::prelude::*;

use self::asura_scans::parse_model;
use self::asura_scans::AsuraScansParser;
use self::asura_scans::OutcomeModel;
use self::asura_scans::ParseOutcome;

pub mod asura_scans;

verus! {

/// The concatenated descendant text, in document order, of the first element
/// of the document `html` matching the CSS selector `selector`; absent when
/// no element matches. Named here, defined by the DOM library.
pub uninterp spec fn first_text_spec(html: Seq<char>, selector: Seq<char>) -> Option<Seq<char>>;

/// The raw `src` attribute of the first element of the document `html`
/// matching the CSS selector `selector`: absent when no element matches,
/// `Some(None)` when the first match lacks the attribute. Named here, defined
/// by the DOM library.
pub uninterp spec fn first_src_spec(html: Seq<char>, selector: Seq<char>) -> Option<
    Option<Seq<char>>,
>;

/// The host component of the URL written in `url`; absent when the text is
/// not a well-formed URL or the URL has no host. Named here, defined by the
/// URL library.
pub uninterp spec fn url_host(url: Seq<char>) -> Option<Seq<char>>;

/// Relies on scraper's `Selector::parse`, `Html::parse_document`,
/// `Html::select` and `ElementRef::text`: parses `html` afresh and returns
/// the concatenated descendant text, in document order, of the first element
/// matching `selector`, or `None` when no element matches (or the selector
/// string is not valid CSS, which no caller of this crate passes).
#[verifier::external_body]
fn select_first_text(html: &str, selector: &str) -> (r: Option<String>)
    ensures
        r.deep_view() == first_text_spec(html@, selector@),
{
    let sel = scraper::Selector::parse(selector).ok()?;
    let document = scraper::Html::parse_document(html);
    let element = document.select(&sel).next()?;
    Some(element.text().collect::<Vec<_>>().join(""))
}

/// Relies on scraper's `Selector::parse`, `Html::parse_document`,
/// `Html::select` and `Element::attr`: parses `html` afresh and returns the
/// raw `src` attribute of the first element matching `selector`; `None` when
/// no element matches (or the selector string is not valid CSS, which no
/// caller of this crate passes), `Some(None)` when the first match lacks the
/// attribute.
#[verifier::external_body]
fn select_first_src(html: &str, selector: &str) -> (r: Option<Option<String>>)
    ensures
        r.deep_view() == first_src_spec(html@, selector@),
{
    let sel = scraper::Selector::parse(selector).ok()?;
    let document = scraper::Html::parse_document(html);
    let element = document.select(&sel).next()?;
    Some(element.value().attr("src").map(|v| v.to_string()))
}

/// Relies on `reqwest::Url::parse` and `Url::host_str`: the host component
/// of `url`, or `None` when the text cannot be parsed as a URL or the URL
/// has no host.
#[verifier::external_body]
fn parse_url_host(url: &str) -> (r: Option<String>)
    ensures
        r.deep_view() == url_host(url@),
{
    match reqwest::Url::parse(url) {
        Ok(u) => u.host_str().map(|h| h.to_string()),
        Err(_) => None,
    }
}

/// The failures the extraction subsystem can report.
#[derive(Debug, Clone, Copy, PartialEq, Eq, Structural)]
pub enum ParserError {
    /// A required DOM query matched no element.
    ElementNotFound,
    /// A matched element lacked the requested attribute.
    AttributeNotFound,
    /// The URL's host has no registered strategy, or the URL has no host.
    HostNotFound,
    /// The digit run taken from the chapter heading is empty or does not
    /// fit the chapter-number type.
    NumericFormatFailure,
}

impl ParserError {
    /// The text of the diagnostic shown for this failure.
    pub open spec fn message_model(&self) -> Seq<char> {
        match self {
            ParserError::ElementNotFound => "DOM element not found"@,
            ParserError::AttributeNotFound => "attribute of element not found"@,
            ParserError::HostNotFound => "host is either not supported or not found"@,
            ParserError::NumericFormatFailure => "chapter number is missing or out of range"@,
        }
    }

    /// Human-readable description of the failure.
    pub fn message(&self) -> (r: &'static str)
        ensures
            r@ == self.message_model(),
    {
        match self {
            ParserError::ElementNotFound => "DOM element not found",
            ParserError::AttributeNotFound => "attribute of element not found",
            ParserError::HostNotFound => "host is either not supported or not found",
            ParserError::NumericFormatFailure => "chapter number is missing or out of range",
        }
    }
}

/// Whether `c` is one of the ASCII digits `'0'` through `'9'`.
pub open spec fn is_ascii_digit_char(c: char) -> bool {
    48 <= c as u32 && c as u32 <= 57
}

/// The digits at the very front of `s`, up to the first non-digit.
pub open spec fn leading_digits(s: Seq<char>) -> Seq<char>
    decreases s.len(),
{
    if s.len() > 0 && is_ascii_digit_char(s[0]) {
        seq![s[0]] + leading_digits(s.skip(1))
    } else {
        Seq::<char>::empty()
    }
}

/// The leftmost maximal run of ASCII digits in `s`: scanning left to right,
/// non-digits are skipped until the first digit, consecutive digits are then
/// accumulated, and the first non-digit after that ends the run. Empty when
/// `s` holds no digit.
pub open spec fn first_digit_run(s: Seq<char>) -> Seq<char>
    decreases s.len(),
{
    if s.len() == 0 {
        Seq::<char>::empty()
    } else if is_ascii_digit_char(s[0]) {
        leading_digits(s)
    } else {
        first_digit_run(s.skip(1))
    }
}

/// Skipping a digit-free prefix does not change the first digit run.
proof fn lemma_first_digit_run_skip(s: Seq<char>, i: int)
    requires
        0 <= i <= s.len(),
        forall|k: int| 0 <= k < i ==> !is_ascii_digit_char(s[k]),
    ensures
        first_digit_run(s) == first_digit_run(s.skip(i)),
    decreases i,
{
    if i > 0 {
        assert(first_digit_run(s) == first_digit_run(s.skip(1)));
        assert forall|k: int| 0 <= k < i - 1 implies !is_ascii_digit_char(s.skip(1)[k]) by {
            assert(s.skip(1)[k] == s[k + 1]);
        }
        lemma_first_digit_run_skip(s.skip(1), i - 1);
        assert(s.skip(1).skip(i - 1) =~= s.skip(i));
    } else {
        assert(s.skip(0) =~= s);
    }
}

/// When the first `j` characters are digits and the next one (if any) is not,
/// the leading digits are exactly the first `j` characters.
proof fn lemma_leading_digits_take(s: Seq<char>, j: int)
    requires
        0 <= j <= s.len(),
        forall|k: int| 0 <= k < j ==> is_ascii_digit_char(s[k]),
        j < s.len() ==> !is_ascii_digit_char(s[j]),
    ensures
        leading_digits(s) == s.take(j),
    decreases j,
{
    if j == 0 {
        assert(s.take(0) =~= Seq::<char>::empty());
    } else {
        assert forall|k: int| 0 <= k < j - 1 implies is_ascii_digit_char(s.skip(1)[k]) by {
            assert(s.skip(1)[k] == s[k + 1]);
        }
        if j - 1 < s.skip(1).len() {
            assert(s.skip(1)[j - 1] == s[j]);
        }
        lemma_leading_digits_take(s.skip(1), j - 1);
        assert(seq![s[0]] + s.skip(1).take(j - 1) =~= s.take(j));
    }
}

/// The first digit run, characterized by positions: when no digit stands
/// before `i`, positions `i` through `j` hold digits, there is at least one,
/// and the character after `j` (if any) is no digit, then the run is exactly
/// `s[i..j]` — the leftmost maximal run of ASCII digits.
pub proof fn lemma_first_digit_run_position(s: Seq<char>, i: int, j: int)
    requires
        0 <= i < j <= s.len(),
        forall|k: int| 0 <= k < i ==> !is_ascii_digit_char(s[k]),
        forall|k: int| i <= k < j ==> is_ascii_digit_char(s[k]),
        j < s.len() ==> !is_ascii_digit_char(s[j]),
    ensures
        first_digit_run(s) == s.subrange(i, j),
{
    lemma_first_digit_run_skip(s, i);
    let rest = s.skip(i);
    assert(rest[0] == s[i]);
    assert forall|k: int| 0 <= k < j - i implies is_ascii_digit_char(rest[k]) by {
        assert(rest[k] == s[k + i]);
    }
    if j - i < rest.len() {
        assert(rest[j - i] == s[j]);
    }
    lemma_leading_digits_take(rest, j - i);
    assert(rest.take(j - i) =~= s.subrange(i, j));
}

/// A text without any ASCII digit has an empty first digit run.
pub proof fn lemma_first_digit_run_empty(s: Seq<char>)
    requires
        forall|k: int| 0 <= k < s.len() ==> !is_ascii_digit_char(s[k]),
    ensures
        first_digit_run(s).len() == 0,
{
    lemma_first_digit_run_skip(s, s.len() as int);
    assert(s.skip(s.len() as int) =~= Seq::<char>::empty());
}

/// Every character of a first digit run is an ASCII digit.
pub proof fn lemma_first_digit_run_digits(s: Seq<char>)
    ensures
        forall|k: int|
            0 <= k < first_digit_run(s).len() ==> is_ascii_digit_char(first_digit_run(s)[k]),
    decreases s.len(),
{
    if s.len() > 0 {
        if is_ascii_digit_char(s[0]) {
            assert(first_digit_run(s) == leading_digits(s));
            lemma_leading_digits_digits(s);
        } else {
            assert(first_digit_run(s) == first_digit_run(s.skip(1)));
            lemma_first_digit_run_digits(s.skip(1));
        }
    }
}

/// Every character of a leading digit prefix is an ASCII digit.
proof fn lemma_leading_digits_digits(s: Seq<char>)
    ensures
        forall|k: int|
            0 <= k < leading_digits(s).len() ==> is_ascii_digit_char(leading_digits(s)[k]),
    decreases s.len(),
{
    if s.len() > 0 && is_ascii_digit_char(s[0]) {
        lemma_leading_digits_digits(s.skip(1));
        assert forall|k: int|
            0 <= k < leading_digits(s).len() implies is_ascii_digit_char(
            leading_digits(s)[k],
        ) by {
            if k > 0 {
                assert(leading_digits(s)[k] == leading_digits(s.skip(1))[k - 1]);
            }
        }
    }
}

/// The integer a digit sequence writes in base ten, most significant digit
/// first. Meaningful when every character of `s` is an ASCII digit.
pub open spec fn digits_value(s: Seq<char>) -> int
    decreases s.len(),
{
    if s.len() == 0 {
        0
    } else {
        digits_value(s.take(s.len() - 1)) * 10 + (s[s.len() - 1] as u32 - 48)
    }
}

/// A sequence of digits writes a non-negative integer.
pub(crate) proof fn lemma_digits_value_nonneg(s: Seq<char>)
    requires
        forall|k: int| 0 <= k < s.len() ==> is_ascii_digit_char(s[k]),
    ensures
        digits_value(s) >= 0,
    decreases s.len(),
{
    if s.len() > 0 {
        let t = s.take(s.len() - 1);
        assert forall|k: int| 0 <= k < t.len() implies is_ascii_digit_char(t[k]) by {
            assert(t[k] == s[k]);
        }
        lemma_digits_value_nonneg(t);
    }
}

/// Extending a digit sequence never shrinks the integer it writes.
proof fn lemma_digits_value_monotone(s: Seq<char>, j: int)
    requires
        forall|k: int| 0 <= k < s.len() ==> is_ascii_digit_char(s[k]),
        0 <= j <= s.len(),
    ensures
        digits_value(s) >= digits_value(s.take(j)),
    decreases s.len() - j,
{
    if j < s.len() {
        let t = s.take(j);
        assert forall|k: int| 0 <= k < t.len() implies is_ascii_digit_char(t[k]) by {
            assert(t[k] == s[k]);
        }
        lemma_digits_value_nonneg(t);
        assert(s.take(j + 1).take(j) =~= s.take(j));
        assert(s.take(j + 1)[j] == s[j]);
        assert(digits_value(s.take(j + 1)) == digits_value(s.take(j)) * 10 + (s[j] as u32 - 48));
        lemma_digits_value_monotone(s, j + 1);
    } else {
        assert(s.take(j) =~= s);
    }
}

/// The chapter number a digit run writes, when the run is non-empty and its
/// value fits the record's chapter-number type.
pub(crate) fn parse_chapter_number(digits: &str) -> (r: Option<i16>)
    requires
        forall|k: int| 0 <= k < digits@.len() ==> is_ascii_digit_char(digits@[k]),
    ensures
        (match r {
            Some(v) => digits@.len() > 0 && v as int == digits_value(digits@) && v >= 0,
            None => digits@.len() == 0 || digits_value(digits@) > i16::MAX,
        }),
{
    let n = digits.unicode_len();
    if n == 0 {
        return None;
    }
    let mut acc: u32 = 0;
    let mut i: usize = 0;
    proof {
        assert(digits@.take(0) =~= Seq::<char>::empty());
    }
    while i < n
        invariant
            n == digits@.len(),
            i <= n,
            forall|k: int| 0 <= k < n ==> is_ascii_digit_char(digits@[k]),
            acc as int == digits_value(digits@.take(i as int)),
            acc <= 32767,
        decreases n - i,
    {
        let d = digits.get_char(i) as u32 - 48;
        let next = acc * 10 + d;
        proof {
            assert(digits@.take(i + 1).take(i as int) =~= digits@.take(i as int));
            assert(digits@.take(i + 1)[i as int] == digits@[i as int]);
            assert(digits_value(digits@.take(i + 1)) == acc as int * 10 + d);
        }
        if next > 32767 {
            proof {
                lemma_digits_value_monotone(digits@, i + 1);
                assert(digits@.take(n as int) =~= digits@);
            }
            return None;
        }
        acc = next;
        i = i + 1;
    }
    proof {
        assert(digits@.take(n as int) =~= digits@);
    }
    Some(acc as i16)
}

/// Whether `c` has Unicode's `White_Space` property, the class of characters
/// that trimming removes.
pub open spec fn is_space_char(c: char) -> bool {
    let u = c as u32;
    ||| 9 <= u && u <= 13
    ||| u == 32
    ||| u == 0x85
    ||| u == 0xA0
    ||| u == 0x1680
    ||| 0x2000 <= u && u <= 0x200A
    ||| u == 0x2028
    ||| u == 0x2029
    ||| u == 0x202F
    ||| u == 0x205F
    ||| u == 0x3000
}

/// `s` without its leading whitespace.
pub open spec fn trim_front(s: Seq<char>) -> Seq<char>
    decreases s.len(),
{
    if s.len() > 0 && is_space_char(s[0]) {
        trim_front(s.skip(1))
    } else {
        s
    }
}

/// `s` without its trailing whitespace.
pub open spec fn trim_back(s: Seq<char>) -> Seq<char>
    decreases s.len(),
{
    if s.len() > 0 && is_space_char(s[s.len() - 1]) {
        trim_back(s.take(s.len() - 1))
    } else {
        s
    }
}

/// `s` without leading and trailing whitespace.
pub open spec fn trim_text(s: Seq<char>) -> Seq<char> {
    trim_back(trim_front(s))
}

/// The trimmed text after the first occurrence of `sep` in `s`: absent when
/// `s` holds no occurrence of `sep`, or when nothing but whitespace follows
/// the first one.
pub open spec fn text_after_separator(s: Seq<char>, sep: char) -> Option<Seq<char>>
    decreases s.len(),
{
    if s.len() == 0 {
        None
    } else if s[0] == sep {
        if trim_text(s.skip(1)).len() == 0 {
            None
        } else {
            Some(trim_text(s.skip(1)))
        }
    } else {
        text_after_separator(s.skip(1), sep)
    }
}

/// Dropping a whitespace prefix that ends at the first non-space character
/// is exactly what `trim_front` does.
proof fn lemma_trim_front_skip(s: Seq<char>, a: int)
    requires
        0 <= a <= s.len(),
        forall|k: int| 0 <= k < a ==> is_space_char(s[k]),
        a < s.len() ==> !is_space_char(s[a]),
    ensures
        trim_front(s) == s.skip(a),
    decreases a,
{
    if a == 0 {
        assert(s.skip(0) =~= s);
    } else {
        assert(trim_front(s) == trim_front(s.skip(1)));
        assert forall|k: int| 0 <= k < a - 1 implies is_space_char(s.skip(1)[k]) by {
            assert(s.skip(1)[k] == s[k + 1]);
        }
        if a - 1 < s.skip(1).len() {
            assert(s.skip(1)[a - 1] == s[a]);
        }
        lemma_trim_front_skip(s.skip(1), a - 1);
        assert(s.skip(1).skip(a - 1) =~= s.skip(a));
    }
}

/// Cutting just after the last non-space character is exactly what
/// `trim_back` does.
proof fn lemma_trim_back_take(s: Seq<char>, b: int)
    requires
        0 <= b <= s.len(),
        forall|k: int| b <= k < s.len() ==> is_space_char(s[k]),
        b > 0 ==> !is_space_char(s[b - 1]),
    ensures
        trim_back(s) == s.take(b),
    decreases s.len(),
{
    if b < s.len() {
        assert(is_space_char(s[s.len() - 1]));
        assert(trim_back(s) == trim_back(s.take(s.len() - 1)));
        let t = s.take(s.len() - 1);
        assert forall|k: int| b <= k < t.len() implies is_space_char(t[k]) by {
            assert(t[k] == s[k]);
        }
        if b > 0 {
            assert(t[b - 1] == s[b - 1]);
        }
        lemma_trim_back_take(t, b);
        assert(t.take(b) =~= s.take(b));
    } else {
        assert(s.take(b) =~= s);
    }
}

/// The trimmed text is the subrange between the whitespace prefix and the
/// whitespace suffix.
proof fn lemma_trim_text_subrange(s: Seq<char>, a: int, b: int)
    requires
        0 <= a <= b <= s.len(),
        forall|k: int| 0 <= k < a ==> is_space_char(s[k]),
        a < s.len() ==> !is_space_char(s[a]),
        forall|k: int| b <= k < s.len() ==> is_space_char(s[k]),
        b > a ==> !is_space_char(s[b - 1]),
    ensures
        trim_text(s) == s.subrange(a, b),
{
    lemma_trim_front_skip(s, a);
    let t = s.skip(a);
    assert forall|k: int| b - a <= k < t.len() implies is_space_char(t[k]) by {
        assert(t[k] == s[k + a]);
    }
    if b > a {
        assert(t[b - a - 1] == s[b - 1]);
    }
    lemma_trim_back_take(t, b - a);
    assert(t.take(b - a) =~= s.subrange(a, b));
}

/// Skipping a prefix free of `sep` does not change the text after the first
/// separator.
proof fn lemma_text_after_separator_skip(s: Seq<char>, sep: char, i: int)
    requires
        0 <= i <= s.len(),
        forall|k: int| 0 <= k < i ==> s[k] != sep,
    ensures
        text_after_separator(s, sep) == text_after_separator(s.skip(i), sep),
    decreases i,
{
    if i > 0 {
        assert(text_after_separator(s, sep) == text_after_separator(s.skip(1), sep));
        assert forall|k: int| 0 <= k < i - 1 implies s.skip(1)[k] != sep by {
            assert(s.skip(1)[k] == s[k + 1]);
        }
        lemma_text_after_separator_skip(s.skip(1), sep, i - 1);
        assert(s.skip(1).skip(i - 1) =~= s.skip(i));
    } else {
        assert(s.skip(0) =~= s);
    }
}

/// Whether `c` has Unicode's `White_Space` property.
fn space_char(c: char) -> (r: bool)
    ensures
        r == is_space_char(c),
{
    let u = c as u32;
    (9 <= u && u <= 13) || u == 32 || u == 0x85 || u == 0xA0 || u == 0x1680 || (0x2000 <= u && u
        <= 0x200A) || u == 0x2028 || u == 0x2029 || u == 0x202F || u == 0x205F || u == 0x3000
}

/// The character position of the first non-whitespace character of `s`, or
/// the character length of `s` when it is all whitespace.
fn first_non_space(s: &str) -> (r: usize)
    ensures
        r <= s@.len(),
        forall|k: int| 0 <= k < r ==> is_space_char(s@[k]),
        r < s@.len() ==> !is_space_char(s@[r as int]),
{
    let n = s.unicode_len();
    let mut i: usize = 0;
    while i < n
        invariant
            n == s@.len(),
            i <= n,
            forall|k: int| 0 <= k < i ==> is_space_char(s@[k]),
        decreases n - i,
    {
        if !space_char(s.get_char(i)) {
            return i;
        }
        i = i + 1;
    }
    i
}

/// One past the character position of the last non-whitespace character of
/// `s` at or after `start`, or `start` when everything from there on is
/// whitespace.
fn last_non_space_end(s: &str, start: usize) -> (r: usize)
    requires
        start <= s@.len(),
    ensures
        start <= r <= s@.len(),
        forall|k: int| r <= k < s@.len() ==> is_space_char(s@[k]),
        r > start ==> !is_space_char(s@[r - 1]),
{
    let n = s.unicode_len();
    let mut i: usize = n;
    while i > start
        invariant
            n == s@.len(),
            start <= i <= n,
            forall|k: int| i <= k < n ==> is_space_char(s@[k]),
        decreases i,
    {
        if !space_char(s.get_char(i - 1)) {
            return i;
        }
        i = i - 1;
    }
    i
}

/// `s` without leading and trailing whitespace, as a string of its own.
fn trim_str(s: &str) -> (r: String)
    ensures
        r@ == trim_text(s@),
{
    let a = first_non_space(s);
    let b = last_non_space_end(s, a);
    let sub = s.substring_char(a, b);
    proof {
        lemma_trim_text_subrange(s@, a as int, b as int);
    }
    sub.to_owned()
}

/// The character position of the first occurrence of `sep` in `s`, or the
/// character length of `s` when it does not occur.
fn first_char_index(s: &str, sep: char) -> (r: usize)
    ensures
        r <= s@.len(),
        forall|k: int| 0 <= k < r ==> s@[k] != sep,
        r < s@.len() ==> s@[r as int] == sep,
{
    let n = s.unicode_len();
    let mut i: usize = 0;
    while i < n
        invariant
            n == s@.len(),
            i <= n,
            forall|k: int| 0 <= k < i ==> s@[k] != sep,
        decreases n - i,
    {
        if s.get_char(i) == sep {
            return i;
        }
        i = i + 1;
    }
    i
}

/// Whether `c` is an ASCII digit.
fn digit_char(c: char) -> (r: bool)
    ensures
        r == is_ascii_digit_char(c),
{
    let u = c as u32;
    48 <= u && u <= 57
}

/// The character position of the first ASCII digit in `s`, or the character
/// length of `s` when it holds none.
fn first_digit_index(s: &str) -> (r: usize)
    ensures
        r <= s@.len(),
        forall|k: int| 0 <= k < r ==> !is_ascii_digit_char(s@[k]),
        r < s@.len() ==> is_ascii_digit_char(s@[r as int]),
{
    let n = s.unicode_len();
    let mut i: usize = 0;
    while i < n
        invariant
            n == s@.len(),
            i <= n,
            forall|k: int| 0 <= k < i ==> !is_ascii_digit_char(s@[k]),
        decreases n - i,
    {
        if digit_char(s.get_char(i)) {
            return i;
        }
        i = i + 1;
    }
    i
}

/// The character position of the first non-digit at or after `start`, or the
/// character length of `s` when digits run to its end.
fn digit_run_end(s: &str, start: usize) -> (r: usize)
    requires
        start <= s@.len(),
    ensures
        start <= r <= s@.len(),
        forall|k: int| start <= k < r ==> is_ascii_digit_char(s@[k]),
        r < s@.len() ==> !is_ascii_digit_char(s@[r as int]),
{
    let n = s.unicode_len();
    let mut i: usize = start;
    while i < n
        invariant
            n == s@.len(),
            start <= i <= n,
            forall|k: int| start <= k < i ==> is_ascii_digit_char(s@[k]),
        decreases n - i,
    {
        if !digit_char(s.get_char(i)) {
            return i;
        }
        i = i + 1;
    }
    i
}

/// Stateless text and DOM extraction helpers shared by the site strategies.
pub struct ParseHelper;

impl ParseHelper {
    /// The leftmost maximal run of ASCII digits in `string`, as a string of
    /// its own; empty when `string` holds no digit.
    pub fn get_first_number_from_string(string: &str) -> (r: String)
        ensures
            r@ == first_digit_run(string@),
    {
        let n = string.unicode_len();
        let i = first_digit_index(string);
        if i == n {
            proof {
                lemma_first_digit_run_empty(string@);
                assert(first_digit_run(string@) =~= Seq::<char>::empty());
            }
            String::new()
        } else {
            let j = digit_run_end(string, i);
            let sub = string.substring_char(i, j);
            proof {
                lemma_first_digit_run_position(string@, i as int, j as int);
            }
            sub.to_owned()
        }
    }

    /// The trimmed text after the first occurrence of `separator` in
    /// `string`, or `None` when the separator does not occur or nothing but
    /// whitespace follows it. The separator itself is dropped.
    pub fn get_string_post_separator(string: String, separator: char) -> (r: Option<String>)
        ensures
            (match r {
                Some(t) => text_after_separator(string@, separator) == Some(t@),
                None => text_after_separator(string@, separator) is None,
            }),
    {
        let s = string.as_str();
        let n = s.unicode_len();
        let i = first_char_index(s, separator);
        proof {
            lemma_text_after_separator_skip(s@, separator, i as int);
        }
        if i == n {
            proof {
                assert(s@.skip(i as int) =~= Seq::<char>::empty());
            }
            None
        } else {
            let rest = s.substring_char(i + 1, n);
            let t = trim_str(rest);
            proof {
                assert(s@.skip(i as int)[0] == s@[i as int]);
                assert(s@.skip(i as int).skip(1) =~= s@.subrange(i + 1, n as int));
            }
            if t.as_str().unicode_len() == 0 {
                proof {
                    assert(t@ =~= Seq::<char>::empty());
                }
                None
            } else {
                Some(t)
            }
        }
    }

    /// The trimmed text of the first element of `deserialized_html` matching
    /// `selector`: the concatenation of its descendant text nodes in document
    /// order, without leading or trailing whitespace. Fails with
    /// `ElementNotFound` exactly when no element matches.
    pub fn get_text_from_first_result(deserialized_html: &str, selector: &str) -> (r: Result<
        String,
        ParserError,
    >)
        ensures
            (match r {
                Ok(t) => first_text_spec(deserialized_html@, selector@) matches Some(raw) && t@
                    == trim_text(raw),
                Err(e) => e == ParserError::ElementNotFound && first_text_spec(
                    deserialized_html@,
                    selector@,
                ) is None,
            }),
    {
        match select_first_text(deserialized_html, selector) {
            Some(t) => Ok(trim_str(t.as_str())),
            None => Err(ParserError::ElementNotFound),
        }
    }

    /// The raw `src` attribute of the first element of `deserialized_html`
    /// matching `selector`, unmodified. Fails with `ElementNotFound` exactly
    /// when no element matches, and with `AttributeNotFound` exactly when the
    /// first match lacks the attribute.
    pub fn get_src_from_first_result(deserialized_html: &str, selector: &str) -> (r: Result<
        String,
        ParserError,
    >)
        ensures
            (match r {
                Ok(t) => first_src_spec(deserialized_html@, selector@) == Some(Some(t@)),
                Err(e) => {
                    ||| (e == ParserError::ElementNotFound && first_src_spec(
                        deserialized_html@,
                        selector@,
                    ) is None)
                    ||| (e == ParserError::AttributeNotFound && first_src_spec(
                        deserialized_html@,
                        selector@,
                    ) == Some(None::<Seq<char>>))
                },
            }),
    {
        match select_first_src(deserialized_html, selector) {
            Some(Some(t)) => Ok(t),
            Some(None) => Err(ParserError::AttributeNotFound),
            None => Err(ParserError::ElementNotFound),
        }
    }
}

/// Whether the character sequences of `a` and `b` are equal.
fn str_equals(a: &str, b: &str) -> (r: bool)
    ensures
        r == (a@ == b@),
{
    let n = a.unicode_len();
    if n != b.unicode_len() {
        return false;
    }
    let mut i: usize = 0;
    while i < n
        invariant
            n == a@.len(),
            n == b@.len(),
            i <= n,
            forall|k: int| 0 <= k < i ==> a@[k] == b@[k],
        decreases n - i,
    {
        if a.get_char(i) != b.get_char(i) {
            return false;
        }
        i = i + 1;
    }
    proof {
        assert(a@ =~= b@);
    }
    true
}

/// A registered site strategy: one variant per supported site, each holding
/// the strategy it dispatches to.
#[derive(Debug, Clone, Copy, PartialEq, Eq, Structural)]
pub enum SiteParser {
    AsuraScans(AsuraScansParser),
}

impl SiteParser {
    /// Run the strategy this registry entry dispatches to over the page's
    /// markup and URL.
    pub fn parse(&self, deserialized_html: &str, url: &str) -> (r: Result<
        ParseOutcome,
        ParserError,
    >)
        ensures
            (match r {
                Ok(out) => parse_model(deserialized_html@, url@) == Ok::<
                    OutcomeModel,
                    ParserError,
                >(out@) && out.record@.wf(),
                Err(e) => parse_model(deserialized_html@, url@) == Err::<
                    OutcomeModel,
                    ParserError,
                >(e),
            }),
    {
        match self {
            SiteParser::AsuraScans(p) => p.parse(deserialized_html, url),
        }
    }
}

/// The strategy registered for `host`: the registry's whole content as a
/// mathematical function of the host alone.
pub open spec fn resolve_model(host: Seq<char>) -> Result<SiteParser, ParserError> {
    if host == "asura.gg"@ {
        Ok(SiteParser::AsuraScans(AsuraScansParser))
    } else {
        Err(ParserError::HostNotFound)
    }
}

/// The strategy registered for `host`. Resolution is a function of the host
/// alone; an unregistered host fails with `HostNotFound`.
pub fn resolve_parser(host: &str) -> (r: Result<SiteParser, ParserError>)
    ensures
        r == resolve_model(host@),
{
    if str_equals(host, "asura.gg") {
        Ok(SiteParser::AsuraScans(AsuraScansParser))
    } else {
        Err(ParserError::HostNotFound)
    }
}

/// The strategy for the site that serves `url`: the URL's host component
/// looked up in the registry. An unparseable or host-less URL fails with
/// `HostNotFound`, as does an unregistered host.
pub fn parser_for_url(url: &str) -> (r: Result<SiteParser, ParserError>)
    ensures
        (match url_host(url@) {
            Some(h) => r == resolve_model(h),
            None => r == Err::<SiteParser, ParserError>(ParserError::HostNotFound),
        }),
{
    match parse_url_host(url) {
        Some(h) => resolve_parser(h.as_str()),
        None => Err(ParserError::HostNotFound),
    }
}

/// Resolution depends on the URL's host alone and never reports a DOM-related
/// failure: every failing lookup fails with `HostNotFound`, and a lookup
/// succeeds for exactly one host.
pub proof fn lemma_resolve_parser_host_only(host: Seq<char>)
    ensures
        resolve_model(host) matches Err(e) ==> e == ParserError::HostNotFound,
        resolve_model(host) is Ok <==> host == "asura.gg"@,
{
}

} // verus!
