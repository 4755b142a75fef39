//! The shapes of the diagnostic lines of a TeX build log, as spec functions
//! over characters, and executable recognizers proved to follow them.
use vstd::prelude::*;

verus! {

/// A character of a name or a word: an ASCII letter, digit or underscore.
/// Names in non-ASCII scripts are not recognized: the logs read here are
/// those of English-language engines and packages, and internationalized
/// log formats are outside the scope of this library.
pub open spec fn is_word(c: char) -> bool {
    ('a' <= c && c <= 'z') || ('A' <= c && c <= 'Z') || ('0' <= c && c <= '9') || c == '_'
}

/// An ASCII decimal digit. Page, line and badness numbers are written by the
/// engine in ASCII; numbers in other scripts belong to internationalized log
/// formats, which are outside the scope of this library.
pub open spec fn is_digit(c: char) -> bool {
    '0' <= c && c <= '9'
}

/// The end of the longest run of word characters that starts at `i`.
pub open spec fn word_end(s: Seq<char>, i: int) -> int
    decreases s.len() - i,
{
    if 0 <= i < s.len() && is_word(s[i]) {
        word_end(s, i + 1)
    } else {
        i
    }
}

/// White space that is skipped before the text of a continuation line.
/// This is the Unicode White_Space property, as `char::is_whitespace` uses it.
pub open spec fn is_space(c: char) -> bool {
    ('\u{9}' <= c && c <= '\u{d}') || c == ' ' || c == '\u{85}' || c == '\u{a0}' || c == '\u{1680}'
        || ('\u{2000}' <= c && c <= '\u{200a}') || c == '\u{2028}' || c == '\u{2029}' || c
        == '\u{202f}' || c == '\u{205f}' || c == '\u{3000}'
}

pub fn is_space_char(c: char) -> (r: bool)
    ensures
        r == is_space(c),
{
    ('\u{9}' <= c && c <= '\u{d}') || c == ' ' || c == '\u{85}' || c == '\u{a0}' || c == '\u{1680}'
        || ('\u{2000}' <= c && c <= '\u{200a}') || c == '\u{2028}' || c == '\u{2029}' || c
        == '\u{202f}' || c == '\u{205f}' || c == '\u{3000}'
}

/// The end of the run of white space that starts at `i`.
pub open spec fn space_end(s: Seq<char>, i: int) -> int
    decreases s.len() - i,
{
    if 0 <= i < s.len() && is_space(s[i]) {
        space_end(s, i + 1)
    } else {
        i
    }
}

/// The end of the longest run of digits that starts at `i`.
pub open spec fn digit_end(s: Seq<char>, i: int) -> int
    decreases s.len() - i,
{
    if 0 <= i < s.len() && is_digit(s[i]) {
        digit_end(s, i + 1)
    } else {
        i
    }
}

/// The position of the first `c` at or after `i`, or the end of `s`.
pub open spec fn until(s: Seq<char>, i: int, c: char) -> int
    decreases s.len() - i,
{
    if 0 <= i < s.len() && s[i] != c {
        until(s, i + 1, c)
    } else {
        i
    }
}

/// The end of the text of a line that starts at `i`: its first newline, or
/// the end of `s`.
pub open spec fn text_end(s: Seq<char>, i: int) -> int {
    until(s, i, '\n')
}

/// `lit` stands in `s` at position `i`.
pub open spec fn has_at(s: Seq<char>, i: int, lit: Seq<char>) -> bool {
    0 <= i && i + lit.len() <= s.len() && s.subrange(i, i + lit.len()) == lit
}

pub proof fn lemma_word_end(s: Seq<char>, i: int)
    requires
        0 <= i <= s.len(),
    ensures
        i <= word_end(s, i) <= s.len(),
        forall|j: int| i <= j < word_end(s, i) ==> is_word(s[j]),
        word_end(s, i) < s.len() ==> !is_word(s[word_end(s, i)]),
    decreases s.len() - i,
{
    if i < s.len() && is_word(s[i]) {
        lemma_word_end(s, i + 1);
    }
}

pub proof fn lemma_digit_end(s: Seq<char>, i: int)
    requires
        0 <= i <= s.len(),
    ensures
        i <= digit_end(s, i) <= s.len(),
        forall|j: int| i <= j < digit_end(s, i) ==> is_digit(s[j]),
        digit_end(s, i) < s.len() ==> !is_digit(s[digit_end(s, i)]),
    decreases s.len() - i,
{
    if i < s.len() && is_digit(s[i]) {
        lemma_digit_end(s, i + 1);
    }
}

pub proof fn lemma_until(s: Seq<char>, i: int, c: char)
    requires
        0 <= i <= s.len(),
    ensures
        i <= until(s, i, c) <= s.len(),
        forall|j: int| i <= j < until(s, i, c) ==> s[j] != c,
        until(s, i, c) < s.len() ==> s[until(s, i, c)] == c,
    decreases s.len() - i,
{
    if i < s.len() && s[i] != c {
        lemma_until(s, i + 1, c);
    }
}

/// The characters of `line`, one by one.
pub fn chars_of(line: &str) -> (r: Vec<char>)
    ensures
        r@ == line@,
{
    let n = line.unicode_len();
    let mut r: Vec<char> = Vec::new();
    let mut i: usize = 0;
    while i < n
        invariant
            n == line@.len(),
            i <= n,
            r@ == line@.subrange(0, i as int),
        decreases n - i,
    {
        r.push(line.get_char(i));
        i = i + 1;
    }
    assert(r@ == line@);
    r
}

pub fn lit_at(s: &Vec<char>, i: usize, lit: &str) -> (r: bool)
    ensures
        r == has_at(s@, i as int, lit@),
        r ==> i + lit@.len() <= s@.len() <= usize::MAX,
{
    let n = lit.unicode_len();
    if n > s.len() || i > s.len() - n {
        return false;
    }
    let mut j: usize = 0;
    while j < n
        invariant
            n == lit@.len(),
            n <= s@.len(),
            i <= s@.len() - n,
            s@.len() <= usize::MAX,
            j <= n,
            forall|k: int| 0 <= k < j ==> s@[i + k] == lit@[k],
        decreases n - j,
    {
        assert(i + j < s@.len());
        if s[i + j] != lit.get_char(j) {
            assert(s@.subrange(i as int, i + n)[j as int] != lit@[j as int]);
            return false;
        }
        j = j + 1;
    }
    assert(s@.subrange(i as int, i + n) =~= lit@);
    true
}

pub fn is_word_char(c: char) -> (r: bool)
    ensures
        r == is_word(c),
{
    ('a' <= c && c <= 'z') || ('A' <= c && c <= 'Z') || ('0' <= c && c <= '9') || c == '_'
}

pub fn word_end_at(s: &Vec<char>, i: usize) -> (r: usize)
    requires
        i <= s@.len(),
    ensures
        r == word_end(s@, i as int),
        i <= r <= s@.len(),
{
    let mut j = i;
    proof { lemma_word_end(s@, i as int); }
    while j < s.len() && is_word_char(s[j])
        invariant
            i <= j <= s@.len(),
            word_end(s@, j as int) == word_end(s@, i as int),
        decreases s@.len() - j,
    {
        j = j + 1;
    }
    j
}

pub fn space_end_at(s: &Vec<char>, i: usize) -> (r: usize)
    requires
        i <= s@.len(),
    ensures
        r == space_end(s@, i as int),
        i <= r <= s@.len(),
{
    let mut j = i;
    while j < s.len() && is_space_char(s[j])
        invariant
            i <= j <= s@.len(),
            space_end(s@, j as int) == space_end(s@, i as int),
        decreases s@.len() - j,
    {
        j = j + 1;
    }
    j
}

pub fn digit_end_at(s: &Vec<char>, i: usize) -> (r: usize)
    requires
        i <= s@.len(),
    ensures
        r == digit_end(s@, i as int),
        i <= r <= s@.len(),
{
    let mut j = i;
    while j < s.len() && ('0' <= s[j] && s[j] <= '9')
        invariant
            i <= j <= s@.len(),
            digit_end(s@, j as int) == digit_end(s@, i as int),
        decreases s@.len() - j,
    {
        j = j + 1;
    }
    j
}

pub fn until_at(s: &Vec<char>, i: usize, c: char) -> (r: usize)
    requires
        i <= s@.len(),
    ensures
        r == until(s@, i as int, c),
        i <= r <= s@.len(),
{
    let mut j = i;
    while j < s.len() && s[j] != c
        invariant
            i <= j <= s@.len(),
            until(s@, j as int, c) == until(s@, i as int, c),
        decreases s@.len() - j,
    {
        j = j + 1;
    }
    j
}

/// The keyword that tells the three kinds of named diagnostics apart.
#[derive(Clone, Copy, PartialEq, Eq, Structural, Debug)]
pub enum Keyword {
    Error,
    Warning,
    Info,
}

/// The keyword's first letter, which may be upper or lower case.
pub open spec fn kw_initial(k: Keyword) -> (char, char) {
    match k {
        Keyword::Error => ('E', 'e'),
        Keyword::Warning => ('W', 'w'),
        Keyword::Info => ('I', 'i'),
    }
}

/// The keyword after its first letter.
pub open spec fn kw_rest(k: Keyword) -> Seq<char> {
    match k {
        Keyword::Error => "rror"@,
        Keyword::Warning => "arning"@,
        Keyword::Info => "nfo"@,
    }
}

/// A space and the keyword at `i`: the position after the keyword.
pub open spec fn kw_end(s: Seq<char>, i: int, k: Keyword) -> Option<int> {
    if has_at(s, i, " "@) && i + 1 < s.len() && (s[i + 1] == kw_initial(k).0 || s[i + 1]
        == kw_initial(k).1) && has_at(s, i + 2, kw_rest(k)) {
        Some(i + 2 + kw_rest(k).len())
    } else {
        None
    }
}

/// ` (extra)` at `i`, the extra being an optional backslash and a word:
/// the position after the closing parenthesis.
pub open spec fn extra_end(s: Seq<char>, i: int) -> Option<int> {
    if has_at(s, i, " ("@) {
        let k = if i + 2 < s.len() && s[i + 2] == '\\' { i + 3 } else { i + 2 };
        let w = word_end(s, k);
        if w > k && w < s.len() && s[w] == ')' {
            Some(w + 1)
        } else {
            None
        }
    } else {
        None
    }
}

/// The keyword at `i`, an optional ` (extra)` and `: `: the span of the
/// extra, if any, and where the message starts.
pub open spec fn kw_tail(s: Seq<char>, i: int, k: Keyword) -> Option<(Option<(int, int)>, int)> {
    match kw_end(s, i, k) {
        None => None,
        Some(r) => {
            if extra_end(s, r).is_some() && has_at(s, extra_end(s, r).unwrap(), ": "@) {
                let e = extra_end(s, r).unwrap();
                Some((Some((r + 2, e - 1)), e + 2))
            } else if has_at(s, r, ": "@) {
                Some((None, r + 2))
            } else {
                None
            }
        },
    }
}

/// The emitter at `i`: `LaTeX`, `pdfTeX`, `Package` or `Class`; where it ends.
pub open spec fn type_end(s: Seq<char>, i: int) -> Option<int> {
    if has_at(s, i, "LaTeX"@) {
        Some(i + "LaTeX"@.len())
    } else if has_at(s, i, "pdfTeX"@) {
        Some(i + "pdfTeX"@.len())
    } else if has_at(s, i, "Package"@) {
        Some(i + "Package"@.len())
    } else if has_at(s, i, "Class"@) {
        Some(i + "Class"@.len())
    } else {
        None
    }
}

/// The spans of a named diagnostic that starts at `i`: where the emitter
/// ends, the span of the name, the span of the extra, where the message
/// starts. A name is taken where the rest of the line allows one.
pub open spec fn generic_at(s: Seq<char>, i: int, k: Keyword) -> Option<
    (int, Option<(int, int)>, Option<(int, int)>, int),
> {
    match type_end(s, i) {
        None => None,
        Some(t) => {
            let w = word_end(s, t + 1);
            if has_at(s, t, " "@) && w > t + 1 && kw_tail(s, w, k).is_some() {
                let kt = kw_tail(s, w, k).unwrap();
                Some((t, Some((t + 1, w)), kt.0, kt.1))
            } else if kw_tail(s, t, k).is_some() {
                let kt = kw_tail(s, t, k).unwrap();
                Some((t, None, kt.0, kt.1))
            } else {
                None
            }
        },
    }
}

pub open spec fn span_of(o: Option<(usize, usize)>) -> Option<(int, int)> {
    match o {
        Some(p) => Some((p.0 as int, p.1 as int)),
        None => None,
    }
}

/// `x` is a span of a text of length `n`.
pub open spec fn span_ok(x: (usize, usize), n: int) -> bool {
    x.0 <= x.1 <= n
}

pub open spec fn opt_span_ok(x: Option<(usize, usize)>, n: int) -> bool {
    x is Some ==> span_ok(x.unwrap(), n)
}

pub open spec fn place_ok(p: Place, n: int) -> bool {
    match p {
        Place::Lines(a, b) => span_ok(a, n) && span_ok(b, n),
        Place::Line(a) => span_ok(a, n),
        Place::Page(o) => opt_span_ok(o, n),
    }
}

pub open spec fn pos_of(o: Option<usize>) -> Option<int> {
    match o {
        Some(p) => Some(p as int),
        None => None,
    }
}

fn kw_end_at(s: &Vec<char>, i: usize, k: Keyword) -> (r: Option<usize>)
    ensures
        pos_of(r) == kw_end(s@, i as int, k),
        r.is_some() ==> i <= r.unwrap() <= s@.len(),
{
    proof {
        reveal_strlit(" ");
    }
    if !lit_at(s, i, " ") || i + 1 >= s.len() {
        return None;
    }
    let c = s[i + 1];
    let (up, lo, rest) = match k {
        Keyword::Error => ('E', 'e', "rror"),
        Keyword::Warning => ('W', 'w', "arning"),
        Keyword::Info => ('I', 'i', "nfo"),
    };
    if (c == up || c == lo) && lit_at(s, i + 2, rest) {
        let n = rest.unicode_len();
        Some(i + 2 + n)
    } else {
        None
    }
}

fn extra_end_at(s: &Vec<char>, i: usize) -> (r: Option<usize>)
    requires
        i <= s@.len(),
    ensures
        pos_of(r) == extra_end(s@, i as int),
        r.is_some() ==> i + 4 <= r.unwrap() <= s@.len(),
{
    proof {
        reveal_strlit(" (");
    }
    if !lit_at(s, i, " (") {
        return None;
    }
    let k = if i + 2 < s.len() && s[i + 2] == '\\' { i + 3 } else { i + 2 };
    let w = word_end_at(s, k);
    proof { lemma_word_end(s@, k as int); }
    if w > k && w < s.len() && s[w] == ')' {
        Some(w + 1)
    } else {
        None
    }
}

fn kw_tail_at(s: &Vec<char>, i: usize, k: Keyword) -> (r: Option<(Option<(usize, usize)>, usize)>)
    requires
        i <= s@.len(),
    ensures
        match (r, kw_tail(s@, i as int, k)) {
            (Some(a), Some(b)) => span_of(a.0) == b.0 && a.1 as int == b.1,
            (None, None) => true,
            _ => false,
        },
        r.is_some() ==> i <= r.unwrap().1 <= s@.len() && opt_span_ok(r.unwrap().0, s@.len() as int),
{
    proof {
        reveal_strlit(": ");
    }
    match kw_end_at(s, i, k) {
        None => None,
        Some(r) => {
            match extra_end_at(s, r) {
                Some(e) => {
                    if lit_at(s, e, ": ") {
                        return Some((Some((r + 2, e - 1)), e + 2));
                    }
                },
                None => {},
            }
            if lit_at(s, r, ": ") {
                Some((None, r + 2))
            } else {
                None
            }
        },
    }
}

fn type_end_at(s: &Vec<char>, i: usize) -> (r: Option<usize>)
    ensures
        pos_of(r) == type_end(s@, i as int),
        r.is_some() ==> i <= r.unwrap() <= s@.len(),
{
    if lit_at(s, i, "LaTeX") {
        Some(i + "LaTeX".unicode_len())
    } else if lit_at(s, i, "pdfTeX") {
        Some(i + "pdfTeX".unicode_len())
    } else if lit_at(s, i, "Package") {
        Some(i + "Package".unicode_len())
    } else if lit_at(s, i, "Class") {
        Some(i + "Class".unicode_len())
    } else {
        None
    }
}

/// Executable form of `generic_at`.
pub fn generic_at_exec(s: &Vec<char>, i: usize, k: Keyword) -> (r: Option<
    (usize, Option<(usize, usize)>, Option<(usize, usize)>, usize),
>)
    ensures
        match (r, generic_at(s@, i as int, k)) {
            (Some(a), Some(b)) => a.0 as int == b.0 && span_of(a.1) == b.1 && span_of(a.2) == b.2
                && a.3 as int == b.3,
            (None, None) => true,
            _ => false,
        },
        r.is_some() ==> i <= r.unwrap().0 <= r.unwrap().3 <= s@.len() && opt_span_ok(r.unwrap().1, s@.len() as int)
            && opt_span_ok(r.unwrap().2, s@.len() as int),
{
    proof {
        reveal_strlit(" ");
    }
    match type_end_at(s, i) {
        None => None,
        Some(t) => {
            if lit_at(s, t, " ") {
                let w = word_end_at(s, t + 1);
                if w > t + 1 {
                    match kw_tail_at(s, w, k) {
                        Some(kt) => {
                            return Some((t, Some((t + 1, w)), kt.0, kt.1));
                        },
                        None => {},
                    }
                }
            }
            match kw_tail_at(s, t, k) {
                Some(kt) => Some((t, None, kt.0, kt.1)),
                None => None,
            }
        },
    }
}

/// Where a badbox diagnostic says the box is: a range of source lines, one
/// source line, or the page being shipped out (its number may be missing).
pub enum PlaceSpan {
    Lines((int, int), (int, int)),
    Line((int, int)),
    Page(Option<(int, int)>),
}

/// Executable form of `PlaceSpan`.
pub enum Place {
    Lines((usize, usize), (usize, usize)),
    Line((usize, usize)),
    Page(Option<(usize, usize)>),
}

pub open spec fn place_view(p: Place) -> PlaceSpan {
    match p {
        Place::Lines(a, b) => PlaceSpan::Lines((a.0 as int, a.1 as int), (b.0 as int, b.1 as int)),
        Place::Line(a) => PlaceSpan::Line((a.0 as int, a.1 as int)),
        Place::Page(o) => PlaceSpan::Page(span_of(o)),
    }
}

/// `Over` or `Under`, `full \`, `h` or `v`, `box (`: where the first word
/// ends and where the amount starts.
pub open spec fn box_head(s: Seq<char>) -> Option<(int, int)> {
    let t = if has_at(s, 0, "Over"@) {
        4int
    } else if has_at(s, 0, "Under"@) {
        5int
    } else {
        0int
    };
    if t > 0 && has_at(s, t, "full \\"@) && t + 6 < s.len() && (s[t + 6] == 'h' || s[t + 6]
        == 'v') && has_at(s, t + 7, "box ("@) {
        Some((t, t + 12))
    } else {
        None
    }
}

/// `badness N) ` at `i`: the span of N and the position after the space.
pub open spec fn badness_at(s: Seq<char>, i: int) -> Option<((int, int), int)> {
    let a = i + "badness "@.len();
    let e = digit_end(s, a);
    if has_at(s, i, "badness "@) && e > a && has_at(s, e, ") "@) {
        Some(((a, e), e + 2))
    } else {
        None
    }
}

/// `Dpt too W) ` at `i`, D being digits with an optional fraction: the span
/// of `Dpt` and the position after the space.
pub open spec fn size_at(s: Seq<char>, i: int) -> Option<((int, int), int)> {
    let e1 = digit_end(s, i);
    let e2 = if e1 < s.len() && s[e1] == '.' && digit_end(s, e1 + 1) > e1 + 1 {
        digit_end(s, e1 + 1)
    } else {
        e1
    };
    let w = word_end(s, e2 + "pt too "@.len());
    if e1 > i && has_at(s, e2, "pt too "@) && w > e2 + "pt too "@.len() && has_at(s, w, ") "@) {
        Some(((i, e2 + 2), w + 2))
    } else {
        None
    }
}

/// `at lines A--B` or `at line A` at `i`.
pub open spec fn at_lines(s: Seq<char>, i: int) -> Option<(PlaceSpan, int)> {
    let a = i + "at lines "@.len();
    let e = digit_end(s, a);
    let f = digit_end(s, e + 2);
    let a1 = i + "at line "@.len();
    let e1 = digit_end(s, a1);
    if has_at(s, i, "at lines "@) && e > a && has_at(s, e, "--"@) && f > e + 2 {
        Some((PlaceSpan::Lines((a, e), (e + 2, f)), f))
    } else if has_at(s, i, "at line "@) && e1 > a1 {
        Some((PlaceSpan::Line((a1, e1)), e1))
    } else {
        None
    }
}

/// The place clause at `i` and the position after it.
pub open spec fn place_at(s: Seq<char>, i: int) -> Option<(PlaceSpan, int)> {
    let lead = if has_at(s, i, "in paragraph "@) {
        i + "in paragraph "@.len()
    } else if has_at(s, i, "in alignment "@) {
        i + "in alignment "@.len()
    } else if has_at(s, i, "detected "@) {
        i + "detected "@.len()
    } else {
        -1
    };
    let p = i + "has occurred while \\output is active ["@.len();
    let e = digit_end(s, p);
    if lead >= 0 {
        at_lines(s, lead)
    } else if has_at(s, i, "has occurred while \\output is active ["@) && has_at(s, e, "]"@) {
        Some((PlaceSpan::Page(if e > p { Some((p, e)) } else { None }), e + 1))
    } else {
        None
    }
}

/// A badbox line: where `Over` or `Under` ends, where the direction letter
/// stands, the span of the badness or the size, the place, and where the
/// matched text ends.
pub open spec fn badbox_at(s: Seq<char>) -> Option<(int, int, (int, int), PlaceSpan, int)> {
    match box_head(s) {
        None => None,
        Some(h) => {
            let amount = if badness_at(s, h.1).is_some() {
                badness_at(s, h.1)
            } else {
                size_at(s, h.1)
            };
            if amount.is_some() && place_at(s, amount.unwrap().1).is_some() {
                let pl = place_at(s, amount.unwrap().1).unwrap();
                Some((h.0, h.0 + 6, amount.unwrap().0, pl.0, pl.1))
            } else {
                None
            }
        },
    }
}

/// What a warning's message says of a missing citation or reference: whether
/// it is a citation, and the span of its label.
pub open spec fn missing_at(m: Seq<char>) -> Option<(bool, (int, int))> {
    let p = if has_at(m, 0, "Citation"@) {
        "Citation"@.len() as int
    } else if has_at(m, 0, "Reference"@) {
        "Reference"@.len() as int
    } else {
        0
    };
    let a = p + " `"@.len();
    let b = until(m, a, '\'');
    let d = b + "' on page "@.len();
    let e = digit_end(m, d);
    let f = e + " undefined on input line "@.len();
    let g = digit_end(m, f);
    if p > 0 && has_at(m, p, " `"@) && b > a && b < m.len() && has_at(m, b, "' on page "@) && e
        > d && has_at(m, e, " undefined on input line "@) && g > f && ((g < m.len() && m[g]
        != '\n') || g - f >= 2) {
        Some((has_at(m, 0, "Citation"@), (a, b)))
    } else {
        None
    }
}

fn box_head_at(s: &Vec<char>) -> (r: Option<(usize, usize)>)
    ensures
        span_of(r) == box_head(s@),
        r.is_some() ==> r.unwrap().0 + 12 == r.unwrap().1 <= s@.len(),
{
    proof {
        reveal_strlit("Over");
        reveal_strlit("Under");
        reveal_strlit("full \\");
        reveal_strlit("box (");
    }
    let t: usize = if lit_at(s, 0, "Over") {
        4
    } else if lit_at(s, 0, "Under") {
        5
    } else {
        0
    };
    if t > 0 && lit_at(s, t, "full \\") && t + 6 < s.len() && (s[t + 6] == 'h' || s[t + 6]
        == 'v') && lit_at(s, t + 7, "box (") {
        Some((t, t + 12))
    } else {
        None
    }
}

fn badness_at_exec(s: &Vec<char>, i: usize) -> (r: Option<((usize, usize), usize)>)
    requires
        i <= s@.len(),
    ensures
        match (r, badness_at(s@, i as int)) {
            (Some(x), Some(y)) => x.0.0 as int == y.0.0 && x.0.1 as int == y.0.1 && x.1 as int
                == y.1,
            (None, None) => true,
            _ => false,
        },
        r.is_some() ==> r.unwrap().1 <= s@.len() && span_ok(r.unwrap().0, s@.len() as int),
{
    proof {
        reveal_strlit("badness ");
        reveal_strlit(") ");
    }
    if !lit_at(s, i, "badness ") {
        return None;
    }
    let a = i + 8;
    let e = digit_end_at(s, a);
    if e > a && lit_at(s, e, ") ") {
        Some(((a, e), e + 2))
    } else {
        None
    }
}

fn size_at_exec(s: &Vec<char>, i: usize) -> (r: Option<((usize, usize), usize)>)
    requires
        i <= s@.len(),
    ensures
        match (r, size_at(s@, i as int)) {
            (Some(x), Some(y)) => x.0.0 as int == y.0.0 && x.0.1 as int == y.0.1 && x.1 as int
                == y.1,
            (None, None) => true,
            _ => false,
        },
        r.is_some() ==> r.unwrap().1 <= s@.len() && span_ok(r.unwrap().0, s@.len() as int),
{
    proof {
        reveal_strlit("pt too ");
        reveal_strlit(") ");
    }
    let e1 = digit_end_at(s, i);
    let mut e2 = e1;
    if e1 < s.len() && s[e1] == '.' {
        let d = digit_end_at(s, e1 + 1);
        if d > e1 + 1 {
            e2 = d;
        }
    }
    if e1 > i && lit_at(s, e2, "pt too ") {
        let w = word_end_at(s, e2 + 7);
        if w > e2 + 7 && lit_at(s, w, ") ") {
            return Some(((i, e2 + 2), w + 2));
        }
    }
    None
}

fn at_lines_exec(s: &Vec<char>, i: usize) -> (r: Option<(Place, usize)>)
    requires
        i <= s@.len(),
    ensures
        match (r, at_lines(s@, i as int)) {
            (Some(x), Some(y)) => place_view(x.0) == y.0 && x.1 as int == y.1,
            (None, None) => true,
            _ => false,
        },
        r.is_some() ==> r.unwrap().1 <= s@.len() && place_ok(r.unwrap().0, s@.len() as int),
{
    proof {
        reveal_strlit("at lines ");
        reveal_strlit("at line ");
        reveal_strlit("--");
    }
    if lit_at(s, i, "at lines ") {
        let a = i + 9;
        let e = digit_end_at(s, a);
        if e > a && lit_at(s, e, "--") {
            let f = digit_end_at(s, e + 2);
            if f > e + 2 {
                return Some((Place::Lines((a, e), (e + 2, f)), f));
            }
        }
    }
    if lit_at(s, i, "at line ") {
        let a1 = i + 8;
        let e1 = digit_end_at(s, a1);
        if e1 > a1 {
            return Some((Place::Line((a1, e1)), e1));
        }
    }
    None
}

fn place_at_exec(s: &Vec<char>, i: usize) -> (r: Option<(Place, usize)>)
    requires
        i <= s@.len(),
    ensures
        match (r, place_at(s@, i as int)) {
            (Some(x), Some(y)) => place_view(x.0) == y.0 && x.1 as int == y.1,
            (None, None) => true,
            _ => false,
        },
        r.is_some() ==> r.unwrap().1 <= s@.len() && place_ok(r.unwrap().0, s@.len() as int),
{
    proof {
        reveal_strlit("in paragraph ");
        reveal_strlit("in alignment ");
        reveal_strlit("detected ");
        reveal_strlit("has occurred while \\output is active [");
        reveal_strlit("]");
    }
    if lit_at(s, i, "in paragraph ") {
        at_lines_exec(s, i + 13)
    } else if lit_at(s, i, "in alignment ") {
        at_lines_exec(s, i + 13)
    } else if lit_at(s, i, "detected ") {
        at_lines_exec(s, i + 9)
    } else if lit_at(s, i, "has occurred while \\output is active [") {
        let p = i + 38;
        let e = digit_end_at(s, p);
        if lit_at(s, e, "]") {
            Some((Place::Page(if e > p { Some((p, e)) } else { None }), e + 1))
        } else {
            None
        }
    } else {
        None
    }
}

/// Executable form of `badbox_at`.
pub fn badbox_at_exec(s: &Vec<char>) -> (r: Option<(usize, usize, (usize, usize), Place, usize)>)
    ensures
        match (r, badbox_at(s@)) {
            (Some(x), Some(y)) => x.0 as int == y.0 && x.1 as int == y.1 && x.2.0 as int == y.2.0
                && x.2.1 as int == y.2.1 && place_view(x.3) == y.3 && x.4 as int == y.4,
            (None, None) => true,
            _ => false,
        },
        r.is_some() ==> r.unwrap().4 <= s@.len() && r.unwrap().1 + 1 <= s@.len() && span_ok(
            r.unwrap().2,
            s@.len() as int,
        ) && place_ok(r.unwrap().3, s@.len() as int),
{
    match box_head_at(s) {
        None => None,
        Some(h) => {
            let amount = match badness_at_exec(s, h.1) {
                Some(b) => Some(b),
                None => size_at_exec(s, h.1),
            };
            match amount {
                None => None,
                Some(am) => match place_at_exec(s, am.1) {
                    None => None,
                    Some(pl) => Some((h.0, h.0 + 6, am.0, pl.0, pl.1)),
                },
            }
        },
    }
}

/// Executable form of `missing_at`.
pub fn missing_at_exec(m: &Vec<char>) -> (r: Option<(bool, (usize, usize))>)
    ensures
        match (r, missing_at(m@)) {
            (Some(x), Some(y)) => x.0 == y.0 && x.1.0 as int == y.1.0 && x.1.1 as int == y.1.1,
            (None, None) => true,
            _ => false,
        },
        r.is_some() ==> r.unwrap().1.0 <= r.unwrap().1.1 <= m@.len(),
{
    proof {
        reveal_strlit("Citation");
        reveal_strlit("Reference");
        reveal_strlit(" `");
        reveal_strlit("' on page ");
        reveal_strlit(" undefined on input line ");
    }
    let cite = lit_at(m, 0, "Citation");
    let p: usize = if cite {
        8
    } else if lit_at(m, 0, "Reference") {
        9
    } else {
        return None;
    };
    if !lit_at(m, p, " `") {
        return None;
    }
    let a = p + 2;
    let b = until_at(m, a, '\'');
    if !(b > a && b < m.len() && lit_at(m, b, "' on page ")) {
        return None;
    }
    let d = b + 10;
    let e = digit_end_at(m, d);
    if !(e > d && lit_at(m, e, " undefined on input line ")) {
        return None;
    }
    let f = e + 25;
    let g = digit_end_at(m, f);
    if g > f && ((g < m.len() && m[g] != '\n') || g - f >= 2) {
        Some((cite, (a, b)))
    } else {
        None
    }
}

} // verus!
