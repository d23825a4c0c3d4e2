//! Reading, cutting and writing text, character by character.

use vstd::prelude::*;
use vstd::string::*;

verus! {

/// Whether `c` is white space: whether it has the Unicode property
/// `White_Space`.
pub open spec fn white_space(c: char) -> bool {
    let n = c as int;
    ||| 9 <= n <= 13
    ||| n == 0x20
    ||| n == 0x85
    ||| n == 0xa0
    ||| n == 0x1680
    ||| 0x2000 <= n <= 0x200a
    ||| n == 0x2028
    ||| n == 0x2029
    ||| n == 0x202f
    ||| n == 0x205f
    ||| n == 0x3000
}

/// What `char::is_alphanumeric` answers for `c`: whether it has the Unicode
/// property `Alphabetic` or one of the general categories for numbers.
pub uninterp spec fn unicode_alphanumeric(c: char) -> bool;

/// Whether `c` is a letter or a number. The ASCII ones are listed.
pub open spec fn alphanumeric(c: char) -> bool {
    let n = c as int;
    if n < 128 {
        ||| '0' as int <= n <= '9' as int
        ||| 'A' as int <= n <= 'Z' as int
        ||| 'a' as int <= n <= 'z' as int
    } else {
        unicode_alphanumeric(c)
    }
}

/// What `str::to_lowercase` returns for a text with these characters.
pub uninterp spec fn unicode_lowercase(s: Seq<char>) -> Seq<char>;

/// Whether all characters of `s` are ASCII.
pub open spec fn all_ascii(s: Seq<char>) -> bool {
    forall|i: int| 0 <= i < s.len() ==> (#[trigger] s[i] as int) < 128
}

/// The lower case of an ASCII letter; every other character itself.
pub open spec fn ascii_lower(c: char) -> int {
    if 'A' as int <= c as int <= 'Z' as int {
        c as int + 32
    } else {
        c as int
    }
}

/// `s` in lower case. In an ASCII text that is letter by letter.
pub open spec fn lowercase(s: Seq<char>) -> Seq<char> {
    if all_ascii(s) {
        s.map_values(|c: char| ascii_lower(c) as char)
    } else {
        unicode_lowercase(s)
    }
}

/// The code point of `c`.
pub(crate) fn code_point(c: char) -> (r: u32)
    ensures
        r == c as int,
{
    c as u32
}

/// Whether `c` is white space.
pub fn is_white_space(c: char) -> (r: bool)
    ensures
        r == white_space(c),
{
    let n: u32 = code_point(c);
    (9 <= n && n <= 13) || n == 0x20 || n == 0x85 || n == 0xa0 || n == 0x1680 || (0x2000 <= n
        && n <= 0x200a) || n == 0x2028 || n == 0x2029 || n == 0x202f || n == 0x205f || n == 0x3000
}

/// Calls `char::is_alphanumeric`, a function of the character alone.
#[verifier::external_body]
fn is_unicode_alphanumeric(c: char) -> (r: bool)
    ensures
        r == unicode_alphanumeric(c),
{
    c.is_alphanumeric()
}

/// Whether `c` is a letter or a number.
pub fn is_alphanumeric(c: char) -> (r: bool)
    ensures
        r == alphanumeric(c),
{
    let n: u32 = code_point(c);
    if n < 128 {
        (48 <= n && n <= 57) || (65 <= n && n <= 90) || (97 <= n && n <= 122)
    } else {
        is_unicode_alphanumeric(c)
    }
}

/// Calls `str::to_lowercase`, a function of the text alone: the Unicode
/// mapping it applies does not depend on the locale.
#[verifier::external_body]
fn unicode_to_lowercase(s: &str) -> (r: String)
    ensures
        r@ == unicode_lowercase(s@),
{
    s.to_lowercase()
}

/// The small letters, in order.
const SMALL_LETTERS: &'static str = "abcdefghijklmnopqrstuvwxyz";

/// Writes `s` in lower case.
pub fn to_lowercase(s: &str) -> (r: String)
    ensures
        r@ == lowercase(s@),
{
    let v = chars_of(s);
    let ghost lower = |c: char| ascii_lower(c) as char;
    let mut out = String::new();
    let mut i: usize = 0;
    assert(out@ =~= s@.take(0).map_values(lower));
    while i < v.len()
        invariant
            v@ == s@,
            lower == (|c: char| ascii_lower(c) as char),
            i <= v@.len(),
            forall|k: int| 0 <= k < i ==> (#[trigger] s@[k] as int) < 128,
            out@ == s@.take(i as int).map_values(lower),
        decreases v.len() - i,
    {
        let c: char = v[i];
        let n: u32 = code_point(c);
        if n >= 128 {
            assert(!all_ascii(s@));
            return unicode_to_lowercase(s);
        }
        let ghost before = out@;
        if 65 <= n && n <= 90 {
            proof {
                reveal_strlit("abcdefghijklmnopqrstuvwxyz");
            }
            let k: usize = (n - 65) as usize;
            let letter = SMALL_LETTERS.substring_char(k, k + 1);
            assert(letter@ =~= seq![lower(c)]);
            out.append(letter);
        } else {
            let same = s.substring_char(i, i + 1);
            assert(same@ =~= seq![lower(c)]);
            out.append(same);
        }
        assert(out@ =~= before.push(lower(c)));
        assert(s@.take(i + 1).map_values(lower) =~= before.push(lower(c)));
        i += 1;
    }
    assert(s@.take(s@.len() as int) =~= s@);
    out
}

/// The characters of `s`, in order.
pub(crate) fn chars_of(s: &str) -> (v: Vec<char>)
    ensures
        v@ == s@,
{
    let mut v: Vec<char> = Vec::new();
    for c in it: s.chars()
        invariant
            v@ == it.seq().take(it.index() as int),
            it.seq() == s@,
    {
        v.push(c);
    }
    v
}

/// Whether `a` and `b` hold the same characters.
pub fn same(a: &str, b: &str) -> (r: bool)
    ensures
        r == (a@ == b@),
{
    a.to_owned() == b.to_owned()
}

/// A set of characters that text is trimmed by.
#[derive(Clone, Copy, Debug, PartialEq, Eq, Structural)]
pub enum CharClass {
    /// White space.
    Blank,
    /// The line feed.
    NewLine,
    /// What the language name behind an opening code fence is made of.
    FenceTag,
    /// Letters and digits.
    Alphanumeric,
    /// The unit letter of a duration in seconds.
    SecondsUnit,
    /// Everything but white space.
    NonBlank,
    /// What identifiers are made of: letters, digits and the underscore.
    Identifier,
}

impl CharClass {
    pub open spec fn has(self, c: char) -> bool {
        match self {
            CharClass::Blank => white_space(c),
            CharClass::NewLine => c == '\n',
            CharClass::FenceTag => alphanumeric(c) || c == '_' || c == '-',
            CharClass::Alphanumeric => alphanumeric(c),
            CharClass::SecondsUnit => c == 's',
            CharClass::NonBlank => !white_space(c),
            CharClass::Identifier => alphanumeric(c) || c == '_',
        }
    }

    pub(crate) fn test(self, c: char) -> (r: bool)
        ensures
            r == self.has(c),
    {
        match self {
            CharClass::Blank => is_white_space(c),
            CharClass::NewLine => c == '\n',
            CharClass::FenceTag => is_alphanumeric(c) || c == '_' || c == '-',
            CharClass::Alphanumeric => is_alphanumeric(c),
            CharClass::SecondsUnit => c == 's',
            CharClass::NonBlank => !is_white_space(c),
            CharClass::Identifier => is_alphanumeric(c) || c == '_',
        }
    }
}

/// `s` without the characters of `class` that it starts with.
pub open spec fn skip_class(s: Seq<char>, class: CharClass) -> Seq<char>
    decreases s.len(),
{
    if s.len() > 0 && class.has(s[0]) {
        skip_class(s.drop_first(), class)
    } else {
        s
    }
}

/// `s` without the characters of `class` that it ends with.
pub open spec fn drop_class(s: Seq<char>, class: CharClass) -> Seq<char>
    decreases s.len(),
{
    if s.len() > 0 && class.has(s.last()) {
        drop_class(s.drop_last(), class)
    } else {
        s
    }
}

/// Skipping characters makes no text longer.
pub proof fn lemma_skip_shrinks(s: Seq<char>, class: CharClass)
    ensures
        skip_class(s, class).len() <= s.len(),
    decreases s.len(),
{
    if s.len() > 0 && class.has(s[0]) {
        lemma_skip_shrinks(s.drop_first(), class);
    }
}

/// Dropping characters makes no text longer.
pub proof fn lemma_drop_shrinks(s: Seq<char>, class: CharClass)
    ensures
        drop_class(s, class).len() <= s.len(),
    decreases s.len(),
{
    if s.len() > 0 && class.has(s.last()) {
        lemma_drop_shrinks(s.drop_last(), class);
    }
}

/// `s` without the characters of `class` on either side.
pub open spec fn strip_class(s: Seq<char>, class: CharClass) -> Seq<char> {
    drop_class(skip_class(s, class), class)
}

/// `s` without the white space around it.
pub open spec fn trimmed(s: Seq<char>) -> Seq<char> {
    strip_class(s, CharClass::Blank)
}

/// A text that is trimmed is no longer.
pub proof fn lemma_trimmed_shrinks(s: Seq<char>)
    ensures
        trimmed(s).len() <= s.len(),
{
    lemma_skip_shrinks(s, CharClass::Blank);
    lemma_drop_shrinks(skip_class(s, CharClass::Blank), CharClass::Blank);
}

/// Whether nothing but white space is in `s`.
pub open spec fn is_blank_text(s: Seq<char>) -> bool {
    trimmed(s).len() == 0
}

/// Drops the characters of `class` at the start of `s`.
pub fn skip_leading(s: &str, class: CharClass) -> (r: &str)
    ensures
        r@ == skip_class(s@, class),
{
    let v = chars_of(s);
    let mut i: usize = 0;
    assert(v@.skip(0) == s@);
    while i < v.len() && class.test(v[i])
        invariant
            v@ == s@,
            i <= v.len(),
            skip_class(s@, class) == skip_class(s@.skip(i as int), class),
        decreases v.len() - i,
    {
        assert(s@.skip(i as int).drop_first() == s@.skip(i + 1));
        i += 1;
    }
    s.substring_char(i, v.len())
}

/// Drops the characters of `class` at the end of `s`.
pub fn drop_trailing(s: &str, class: CharClass) -> (r: &str)
    ensures
        r@ == drop_class(s@, class),
{
    let v = chars_of(s);
    let mut n: usize = v.len();
    assert(v@.take(n as int) == s@);
    while n > 0 && class.test(v[n - 1])
        invariant
            v@ == s@,
            n <= v.len(),
            drop_class(s@, class) == drop_class(s@.take(n as int), class),
        decreases n,
    {
        assert(s@.take(n as int).drop_last() == s@.take(n - 1));
        n -= 1;
    }
    s.substring_char(0, n)
}

/// Drops the characters of `class` on either side of `s`.
pub fn strip(s: &str, class: CharClass) -> (r: &str)
    ensures
        r@ == strip_class(s@, class),
{
    drop_trailing(skip_leading(s, class), class)
}

/// Drops the white space around `s`.
pub fn trim(s: &str) -> (r: &str)
    ensures
        r@ == trimmed(s@),
{
    strip(s, CharClass::Blank)
}

/// Whether nothing but white space is in `s`.
pub fn is_blank(s: &str) -> (r: bool)
    ensures
        r == is_blank_text(s@),
{
    trim(s).is_empty()
}

/// Whether `needle` stands in `hay` at position `i`.
pub open spec fn occurs_at(hay: Seq<char>, needle: Seq<char>, i: int) -> bool {
    &&& 0 <= i
    &&& i + needle.len() <= hay.len()
    &&& hay.subrange(i, i + needle.len()) == needle
}

/// The first position from `i` on at which `needle` stands in `hay`.
pub open spec fn find_from(hay: Seq<char>, needle: Seq<char>, i: int) -> Option<int>
    decreases hay.len() - i + 1,
{
    if i < 0 || i + needle.len() > hay.len() {
        None
    } else if occurs_at(hay, needle, i) {
        Some(i)
    } else {
        find_from(hay, needle, i + 1)
    }
}

/// The first position at which `needle` stands in `hay`.
pub open spec fn find_text(hay: Seq<char>, needle: Seq<char>) -> Option<int> {
    find_from(hay, needle, 0)
}

/// The last position up to `i` at which `needle` stands in `hay`.
pub open spec fn rfind_to(hay: Seq<char>, needle: Seq<char>, i: int) -> Option<int>
    decreases i + 1,
{
    if i < 0 {
        None
    } else if occurs_at(hay, needle, i) {
        Some(i)
    } else {
        rfind_to(hay, needle, i - 1)
    }
}

/// The last position at which `needle` stands in `hay`.
pub open spec fn rfind_text(hay: Seq<char>, needle: Seq<char>) -> Option<int> {
    rfind_to(hay, needle, hay.len() - needle.len())
}

/// `find_from` answers with the least position from `i` on, and with nothing
/// only where there is none.
pub proof fn lemma_find_from(hay: Seq<char>, needle: Seq<char>, i: int)
    requires
        0 <= i,
    ensures
        match find_from(hay, needle, i) {
            Some(k) => {
                &&& i <= k
                &&& occurs_at(hay, needle, k)
                &&& forall|j: int| i <= j < k ==> !occurs_at(hay, needle, j)
            },
            None => forall|j: int| i <= j ==> !occurs_at(hay, needle, j),
        },
    decreases hay.len() - i + 1,
{
    if i + needle.len() <= hay.len() && !occurs_at(hay, needle, i) {
        lemma_find_from(hay, needle, i + 1);
    }
}

/// `rfind_to` answers with the greatest position up to `i`, and with nothing
/// only where there is none.
pub proof fn lemma_rfind_to(hay: Seq<char>, needle: Seq<char>, i: int)
    ensures
        match rfind_to(hay, needle, i) {
            Some(k) => {
                &&& k <= i
                &&& occurs_at(hay, needle, k)
                &&& forall|j: int| k < j <= i ==> !occurs_at(hay, needle, j)
            },
            None => forall|j: int| j <= i ==> !occurs_at(hay, needle, j),
        },
    decreases i + 1,
{
    if i >= 0 && !occurs_at(hay, needle, i) {
        lemma_rfind_to(hay, needle, i - 1);
    }
}

/// Compares `needle` with what stands in `hay` at `i`.
fn matches_at(hay: &Vec<char>, needle: &Vec<char>, i: usize) -> (r: bool)
    requires
        i + needle@.len() <= hay@.len(),
    ensures
        r == occurs_at(hay@, needle@, i as int),
{
    let total: usize = hay.len();
    let mut j: usize = 0;
    while j < needle.len()
        invariant
            total == hay@.len(),
            i + needle@.len() <= total,
            j <= needle@.len(),
            forall|k: int| 0 <= k < j ==> hay@[i + k] == needle@[k],
        decreases needle.len() - j,
    {
        if hay[i + j] != needle[j] {
            assert(hay@.subrange(i as int, i + needle@.len())[j as int] == hay@[i + j]);
            return false;
        }
        j += 1;
    }
    assert(hay@.subrange(i as int, i + needle@.len()) =~= needle@);
    true
}

/// The first position at which `needle` stands in `hay`, counted in characters.
pub fn find(hay: &str, needle: &str) -> (r: Option<usize>)
    ensures
        match r {
            Some(i) => find_text(hay@, needle@) == Some(i as int),
            None => find_text(hay@, needle@) is None,
        },
{
    let h = chars_of(hay);
    let n = chars_of(needle);
    if n.len() > h.len() {
        return None;
    }
    let mut i: usize = 0;
    while i <= h.len() - n.len()
        invariant
            h@ == hay@,
            n@ == needle@,
            n@.len() <= h@.len(),
            i <= h@.len() - n@.len() + 1,
            find_text(hay@, needle@) == find_from(hay@, needle@, i as int),
        decreases h.len() - i,
    {
        if matches_at(&h, &n, i) {
            return Some(i);
        }
        if i == h.len() - n.len() {
            assert(find_from(hay@, needle@, i + 1) is None);
            return None;
        }
        i += 1;
    }
    None
}

/// The last position at which `needle` stands in `hay`, counted in characters.
pub fn rfind(hay: &str, needle: &str) -> (r: Option<usize>)
    ensures
        match r {
            Some(i) => rfind_text(hay@, needle@) == Some(i as int),
            None => rfind_text(hay@, needle@) is None,
        },
{
    let h = chars_of(hay);
    let n = chars_of(needle);
    if n.len() > h.len() {
        return None;
    }
    let mut i: usize = h.len() - n.len();
    loop
        invariant
            h@ == hay@,
            n@ == needle@,
            i + n@.len() <= h@.len(),
            rfind_text(hay@, needle@) == rfind_to(hay@, needle@, i as int),
        decreases i,
    {
        if matches_at(&h, &n, i) {
            return Some(i);
        }
        if i == 0 {
            assert(rfind_to(hay@, needle@, -1) is None);
            return None;
        }
        i -= 1;
    }
}

/// Whether `needle` stands anywhere in `hay`.
pub open spec fn contains_text(hay: Seq<char>, needle: Seq<char>) -> bool {
    exists|i: int| occurs_at(hay, needle, i)
}

/// Whether `needle` stands anywhere in `hay`.
pub fn contains(hay: &str, needle: &str) -> (r: bool)
    ensures
        r == contains_text(hay@, needle@),
{
    proof {
        lemma_find_from(hay@, needle@, 0);
    }
    find(hay, needle).is_some()
}

/// What follows `prefix` in `s`, where `s` starts with it.
pub open spec fn after_prefix(s: Seq<char>, prefix: Seq<char>) -> Option<Seq<char>> {
    if occurs_at(s, prefix, 0) {
        Some(s.skip(prefix.len() as int))
    } else {
        None
    }
}

/// What follows `prefix` in `s`, where `s` starts with it.
pub fn strip_prefix<'a>(s: &'a str, prefix: &str) -> (r: Option<&'a str>)
    ensures
        match r {
            Some(t) => after_prefix(s@, prefix@) == Some(t@),
            None => after_prefix(s@, prefix@) is None,
        },
{
    let h = chars_of(s);
    let n = chars_of(prefix);
    if n.len() > h.len() || !matches_at(&h, &n, 0) {
        return None;
    }
    Some(s.substring_char(n.len(), h.len()))
}

/// The characters of each text in a list.
pub open spec fn views(v: Seq<&str>) -> Seq<Seq<char>> {
    v.map_values(|t: &str| t@)
}

/// The characters of each owned text in a list.
pub open spec fn string_views(v: Seq<String>) -> Seq<Seq<char>> {
    v.map_values(|t: String| t@)
}

/// How many characters stand before the first line feed of `s`.
pub open spec fn line_length(s: Seq<char>) -> nat
    decreases s.len(),
{
    if s.len() == 0 || s[0] == '\n' {
        0
    } else {
        1 + line_length(s.drop_first())
    }
}

/// A line without the carriage return that its line feed came with.
pub open spec fn without_return(s: Seq<char>) -> Seq<char> {
    if s.len() > 0 && s.last() == '\r' {
        s.drop_last()
    } else {
        s
    }
}

/// The lines of `s`. A line feed ends a line, alone or behind a carriage
/// return; what follows the last line feed is a line unless it is empty.
pub open spec fn lines_of(s: Seq<char>) -> Seq<Seq<char>>
    decreases s.len(),
{
    let n = line_length(s);
    if s.len() == 0 {
        Seq::empty()
    } else if n >= s.len() {
        seq![s]
    } else {
        seq![without_return(s.take(n as int))] + lines_of(s.skip(n as int + 1))
    }
}

/// A line ends where `line_length` says.
proof fn lemma_line_length(s: Seq<char>, n: int)
    requires
        0 <= n <= s.len(),
        forall|i: int| 0 <= i < n ==> s[i] != '\n',
        n < s.len() ==> s[n] == '\n',
    ensures
        line_length(s) == n,
    decreases n,
{
    if n > 0 {
        assert forall|i: int| 0 <= i < n - 1 implies s.drop_first()[i] != '\n' by {
            assert(s.drop_first()[i] == s[i + 1]);
        }
        lemma_line_length(s.drop_first(), n - 1);
    }
}

/// Splits `s` into lines.
pub fn lines<'a>(s: &'a str) -> (r: Vec<&'a str>)
    ensures
        views(r@) == lines_of(s@),
{
    let v = chars_of(s);
    let mut out: Vec<&'a str> = Vec::new();
    let mut start: usize = 0;
    assert(s@.skip(0) == s@);
    assert(views(out@) =~= Seq::<Seq<char>>::empty());
    while start < v.len()
        invariant
            v@ == s@,
            start <= v@.len(),
            lines_of(s@) =~= views(out@) + lines_of(s@.skip(start as int)),
        decreases v.len() - start,
    {
        let mut end: usize = start;
        while end < v.len() && v[end] != '\n'
            invariant
                v@ == s@,
                start <= end <= v@.len(),
                forall|i: int| start <= i < end ==> v@[i] != '\n',
            decreases v.len() - end,
        {
            end += 1;
        }
        let ghost rest = s@.skip(start as int);
        let ghost before = views(out@);
        proof {
            lemma_line_length(rest, end - start);
        }
        if end == v.len() {
            let line = s.substring_char(start, end);
            assert(line@ =~= rest);
            out.push(line);
            assert(views(out@) =~= before.push(line@));
            assert(s@.skip(end as int) =~= Seq::<char>::empty());
            start = end;
        } else {
            let mut stop: usize = end;
            if end > start && v[end - 1] == '\r' {
                stop = end - 1;
            }
            let line = s.substring_char(start, stop);
            assert(line@ =~= without_return(rest.take(end - start)));
            out.push(line);
            assert(views(out@) =~= before.push(line@));
            assert(rest.skip(end - start + 1) =~= s@.skip(end + 1));
            start = end + 1;
        }
    }
    assert(s@.skip(start as int) =~= Seq::<char>::empty());
    out
}

/// How many characters of `class` the text `s` starts with.
pub open spec fn run_length(s: Seq<char>, class: CharClass) -> nat
    decreases s.len(),
{
    if s.len() == 0 || !class.has(s[0]) {
        0
    } else {
        1 + run_length(s.drop_first(), class)
    }
}

/// A run is no longer than the text it starts.
pub proof fn lemma_run_length_bound(s: Seq<char>, class: CharClass)
    ensures
        run_length(s, class) <= s.len(),
    decreases s.len(),
{
    if s.len() > 0 && class.has(s[0]) {
        lemma_run_length_bound(s.drop_first(), class);
    }
}

/// The maximal runs of characters of `class` in `s`, in order.
pub open spec fn runs_of(s: Seq<char>, class: CharClass) -> Seq<Seq<char>>
    decreases s.len(),
{
    if s.len() == 0 {
        Seq::empty()
    } else if !class.has(s[0]) {
        runs_of(s.drop_first(), class)
    } else {
        let n = run_length(s, class);
        proof {
            lemma_run_length_bound(s, class);
        }
        seq![s.take(n as int)] + runs_of(s.skip(n as int), class)
    }
}

proof fn lemma_run_length(s: Seq<char>, class: CharClass, n: int)
    requires
        0 <= n <= s.len(),
        forall|i: int| 0 <= i < n ==> class.has(s[i]),
        n < s.len() ==> !class.has(s[n]),
    ensures
        run_length(s, class) == n,
    decreases n,
{
    if n > 0 {
        assert forall|i: int| 0 <= i < n - 1 implies class.has(s.drop_first()[i]) by {
            assert(s.drop_first()[i] == s[i + 1]);
        }
        lemma_run_length(s.drop_first(), class, n - 1);
    }
}

/// Splits `s` into its maximal runs of characters of `class`.
pub fn runs<'a>(s: &'a str, class: CharClass) -> (r: Vec<&'a str>)
    ensures
        views(r@) == runs_of(s@, class),
{
    let v = chars_of(s);
    let mut out: Vec<&'a str> = Vec::new();
    let mut start: usize = 0;
    assert(s@.skip(0) == s@);
    assert(views(out@) =~= Seq::<Seq<char>>::empty());
    while start < v.len()
        invariant
            v@ == s@,
            start <= v@.len(),
            runs_of(s@, class) =~= views(out@) + runs_of(s@.skip(start as int), class),
        decreases v.len() - start,
    {
        let ghost rest = s@.skip(start as int);
        if !class.test(v[start]) {
            assert(rest.drop_first() =~= s@.skip(start + 1));
            start += 1;
        } else {
            let mut end: usize = start + 1;
            while end < v.len() && class.test(v[end])
                invariant
                    v@ == s@,
                    start < end <= v@.len(),
                    forall|i: int| start <= i < end ==> class.has(v@[i]),
                decreases v.len() - end,
            {
                end += 1;
            }
            proof {
                lemma_run_length(rest, class, end - start);
            }
            let ghost before = views(out@);
            let word = s.substring_char(start, end);
            assert(word@ =~= rest.take(end - start));
            out.push(word);
            assert(views(out@) =~= before.push(word@));
            assert(rest.skip(end - start) =~= s@.skip(end as int));
            start = end;
        }
    }
    assert(s@.skip(start as int) =~= Seq::<char>::empty());
    out
}

/// Whether two texts are equal but for the case of ASCII letters.
pub open spec fn same_ignoring_case(a: Seq<char>, b: Seq<char>) -> bool {
    &&& a.len() == b.len()
    &&& forall|i: int| 0 <= i < a.len() ==> ascii_lower(a[i]) == #[trigger] ascii_lower(b[i])
}

fn lower_code(c: char) -> (r: u32)
    ensures
        r == ascii_lower(c),
{
    let code: u32 = code_point(c);
    if 'A' as u32 <= code && code <= 'Z' as u32 {
        code + 32
    } else {
        code
    }
}

/// Whether `a` and `b` are equal but for the case of ASCII letters.
pub fn eq_ignore_ascii_case(a: &str, b: &str) -> (r: bool)
    ensures
        r == same_ignoring_case(a@, b@),
{
    let x = chars_of(a);
    let y = chars_of(b);
    if x.len() != y.len() {
        return false;
    }
    let mut i: usize = 0;
    while i < x.len()
        invariant
            x@ == a@,
            y@ == b@,
            x@.len() == y@.len(),
            i <= x@.len(),
            forall|j: int| 0 <= j < i ==> ascii_lower(x@[j]) == #[trigger] ascii_lower(y@[j]),
        decreases x.len() - i,
    {
        if lower_code(x[i]) != lower_code(y[i]) {
            assert(ascii_lower(a@[i as int]) != ascii_lower(b@[i as int]));
            return false;
        }
        i += 1;
    }
    true
}

/// The texts in `parts`, one behind the other, with `sep` between them.
pub open spec fn joined(parts: Seq<Seq<char>>, sep: Seq<char>) -> Seq<char>
    decreases parts.len(),
{
    if parts.len() == 0 {
        Seq::empty()
    } else if parts.len() == 1 {
        parts[0]
    } else {
        joined(parts.drop_last(), sep) + sep + parts.last()
    }
}

/// Joins `parts`, with `sep` between them.
pub fn join(parts: &Vec<String>, sep: &str) -> (r: String)
    ensures
        r@ == joined(string_views(parts@), sep@),
{
    let mut out = String::new();
    let mut i: usize = 0;
    let ghost all = string_views(parts@);
    assert(all.take(0) =~= Seq::<Seq<char>>::empty());
    while i < parts.len()
        invariant
            all == string_views(parts@),
            i <= parts@.len(),
            out@ == joined(all.take(i as int), sep@),
        decreases parts.len() - i,
    {
        assert(all.take(i + 1).drop_last() =~= all.take(i as int));
        assert(all.take(i + 1).last() == parts@[i as int]@);
        if i > 0 {
            out.append(sep);
        }
        out.append(parts[i].as_str());
        if i == 0 {
            assert(out@ =~= parts@[0]@);
        }
        i += 1;
    }
    assert(all.take(all.len() as int) =~= all);
    out
}

/// `n` spaces.
pub open spec fn spaces(n: nat) -> Seq<char> {
    Seq::new(n, |i: int| ' ')
}

/// `s`, filled up with spaces to `width` characters.
pub open spec fn padded(s: Seq<char>, width: nat) -> Seq<char> {
    if s.len() < width {
        s + spaces((width - s.len()) as nat)
    } else {
        s
    }
}

/// Fills `s` up with spaces to `width` characters.
pub fn pad_right(s: &str, width: usize) -> (r: String)
    ensures
        r@ == padded(s@, width as nat),
{
    let n = s.unicode_len();
    let mut out = s.to_owned();
    let mut i: usize = n;
    assert(out@ =~= s@ + spaces(0));
    while i < width
        invariant
            n == s@.len(),
            n <= i,
            n < width ==> i <= width,
            out@ == s@ + spaces((i - n) as nat),
            i >= width && n >= width ==> i == n,
        decreases width - i,
    {
        proof {
            reveal_strlit(" ");
        }
        out.append(" ");
        assert(out@ =~= s@ + spaces((i + 1 - n) as nat));
        i += 1;
    }
    out
}

/// Whether `a` comes before `b` in the order of their code points.
pub open spec fn text_before(a: Seq<char>, b: Seq<char>) -> bool
    decreases a.len(),
{
    if b.len() == 0 {
        false
    } else if a.len() == 0 {
        true
    } else if a[0] == b[0] {
        text_before(a.drop_first(), b.drop_first())
    } else {
        (a[0] as int) < (b[0] as int)
    }
}

/// No text comes before itself.
pub proof fn text_before_irreflexive(a: Seq<char>)
    ensures
        !text_before(a, a),
    decreases a.len(),
{
    if a.len() > 0 {
        text_before_irreflexive(a.drop_first());
    }
}

/// Of two different texts, one comes before the other.
pub proof fn text_before_total(a: Seq<char>, b: Seq<char>)
    ensures
        a != b ==> text_before(a, b) || text_before(b, a),
    decreases a.len(),
{
    if a.len() > 0 && b.len() > 0 && a[0] == b[0] {
        text_before_total(a.drop_first(), b.drop_first());
        if a.drop_first() == b.drop_first() {
            assert(a =~= seq![a[0]] + a.drop_first());
            assert(b =~= seq![b[0]] + b.drop_first());
        }
    } else if a.len() == 0 && b.len() == 0 {
        assert(a =~= b);
    }
}

/// The order of texts is transitive.
pub proof fn text_before_transitive(a: Seq<char>, b: Seq<char>, c: Seq<char>)
    requires
        text_before(a, b),
        text_before(b, c),
    ensures
        text_before(a, c),
    decreases a.len(),
{
    if a.len() > 0 && a[0] == b[0] && b[0] == c[0] {
        text_before_transitive(a.drop_first(), b.drop_first(), c.drop_first());
    }
}

/// Whether `a` comes before `b` in the order of their code points.
pub fn comes_before(a: &str, b: &str) -> (r: bool)
    ensures
        r == text_before(a@, b@),
{
    let x = chars_of(a);
    let y = chars_of(b);
    let mut i: usize = 0;
    assert(a@.skip(0) =~= a@);
    assert(b@.skip(0) =~= b@);
    while i < x.len() && i < y.len()
        invariant
            x@ == a@,
            y@ == b@,
            i <= x@.len(),
            i <= y@.len(),
            text_before(a@, b@) == text_before(a@.skip(i as int), b@.skip(i as int)),
        decreases x.len() - i,
    {
        let p: char = x[i];
        let q: char = y[i];
        if p != q {
            return code_point(p) < code_point(q);
        }
        assert(a@.skip(i as int).drop_first() =~= a@.skip(i + 1));
        assert(b@.skip(i as int).drop_first() =~= b@.skip(i + 1));
        i += 1;
    }
    i < y.len()
}

/// A text stands in another where every one of its characters does, one behind
/// the other.
pub proof fn occurrence_is_character_by_character(hay: Seq<char>, needle: Seq<char>, i: int)
    ensures
        occurs_at(hay, needle, i) <==> 0 <= i && i + needle.len() <= hay.len() && forall|k: int|
            0 <= k < needle.len() ==> hay[i + k] == #[trigger] needle[k],
{
    if 0 <= i && i + needle.len() <= hay.len() {
        let w = hay.subrange(i, i + needle.len());
        if w == needle {
            assert forall|k: int| 0 <= k < needle.len() implies hay[i + k]
                == #[trigger] needle[k] by {
                assert(w[k] == hay[i + k]);
            }
        }
        if forall|k: int| 0 <= k < needle.len() ==> hay[i + k] == #[trigger] needle[k] {
            assert(w =~= needle);
        }
    }
}

/// The first and the last place of a text in another are places where it stands,
/// and none is before the first or behind the last; and where there is none, it
/// stands nowhere.
pub proof fn finding_is_exact(hay: Seq<char>, needle: Seq<char>)
    ensures
        match find_text(hay, needle) {
            Some(k) => {
                &&& 0 <= k && k + needle.len() <= hay.len()
                &&& hay.subrange(k, k + needle.len()) == needle
                &&& forall|j: int|
                    0 <= j < k ==> #[trigger] hay.subrange(j, j + needle.len()) != needle
            },
            None => forall|j: int|
                0 <= j && j + needle.len() <= hay.len() ==> #[trigger] hay.subrange(
                    j,
                    j + needle.len(),
                ) != needle,
        },
        match rfind_text(hay, needle) {
            Some(k) => {
                &&& 0 <= k && k + needle.len() <= hay.len()
                &&& hay.subrange(k, k + needle.len()) == needle
                &&& forall|j: int|
                    k < j && j + needle.len() <= hay.len() ==> #[trigger] hay.subrange(
                        j,
                        j + needle.len(),
                    ) != needle
            },
            None => forall|j: int|
                0 <= j && j + needle.len() <= hay.len() ==> #[trigger] hay.subrange(
                    j,
                    j + needle.len(),
                ) != needle,
        },
        contains_text(hay, needle) <==> exists|j: int|
            0 <= j && j + needle.len() <= hay.len() && #[trigger] hay.subrange(
                j,
                j + needle.len(),
            ) == needle,
{
    lemma_find_from(hay, needle, 0);
    lemma_rfind_to(hay, needle, hay.len() - needle.len());
    assert forall|j: int|
        0 <= j && j + needle.len() <= hay.len() && #[trigger] hay.subrange(j, j + needle.len())
            == needle implies occurs_at(hay, needle, j) by {}
    if contains_text(hay, needle) {
        let j = choose|j: int| occurs_at(hay, needle, j);
        assert(hay.subrange(j, j + needle.len()) == needle);
    }
    if let Some(k) = find_text(hay, needle) {
        assert forall|j: int| 0 <= j < k implies #[trigger] hay.subrange(j, j + needle.len())
            != needle by {
            assert(!occurs_at(hay, needle, j));
        }
    }
    if let Some(k) = rfind_text(hay, needle) {
        assert forall|j: int| k < j && j + needle.len() <= hay.len() implies #[trigger] hay.subrange(
            j,
            j + needle.len(),
        ) != needle by {
            assert(!occurs_at(hay, needle, j));
        }
    }
}

/// Which characters belong to which class: the line feed and the unit letter
/// alone; letters and digits, with the underscore in identifiers and the hyphen
/// too behind a fence; white space, and everything else.
pub proof fn classes_are_told_apart(c: char)
    ensures
        CharClass::NewLine.has(c) <==> c == '\n',
        CharClass::SecondsUnit.has(c) <==> c == 's',
        CharClass::Blank.has(c) <==> !CharClass::NonBlank.has(c),
        'a' as int <= c as int <= 'z' as int || 'A' as int <= c as int <= 'Z' as int || '0' as int
            <= c as int <= '9' as int ==> {
            &&& CharClass::Alphanumeric.has(c)
            &&& CharClass::Identifier.has(c)
            &&& CharClass::FenceTag.has(c)
            &&& CharClass::NonBlank.has(c)
        },
        c == '_' ==> CharClass::Identifier.has(c) && CharClass::FenceTag.has(c)
            && !CharClass::Alphanumeric.has(c),
        c == '-' ==> CharClass::FenceTag.has(c) && !CharClass::Identifier.has(c)
            && !CharClass::Alphanumeric.has(c),
        CharClass::Alphanumeric.has(c) ==> CharClass::Identifier.has(c),
        CharClass::Identifier.has(c) ==> CharClass::Alphanumeric.has(c) || c == '_',
        CharClass::FenceTag.has(c) ==> CharClass::Identifier.has(c) || c == '-',
        c == ' ' || c == '\n' || c == '\t' || c == '\r' ==> CharClass::Blank.has(c),
        33 <= c as int <= 126 ==> CharClass::NonBlank.has(c),
        33 <= c as int <= 47 || 58 <= c as int <= 64 || c as int <= 32 ==> !CharClass::Identifier.has(
            c,
        ),
        c as int >= 128 ==> (CharClass::Alphanumeric.has(c) <==> unicode_alphanumeric(c)),
{
}

proof fn lemma_skip_cut(s: Seq<char>, class: CharClass)
    ensures
        ({
            let a = s.len() - skip_class(s, class).len();
            &&& 0 <= a <= s.len()
            &&& skip_class(s, class) == s.skip(a)
            &&& forall|i: int| 0 <= i < a ==> class.has(#[trigger] s[i])
            &&& a < s.len() ==> !class.has(s[a])
        }),
    decreases s.len(),
{
    if s.len() > 0 && class.has(s[0]) {
        let rest = s.drop_first();
        lemma_skip_cut(rest, class);
        let a = s.len() - skip_class(s, class).len();
        assert(rest.skip(a - 1) =~= s.skip(a));
        assert forall|i: int| 0 <= i < a implies class.has(#[trigger] s[i]) by {
            if i > 0 {
                assert(rest[i - 1] == s[i]);
            }
        }
    } else {
        assert(s.skip(0) =~= s);
    }
}

proof fn lemma_drop_cut(s: Seq<char>, class: CharClass)
    ensures
        ({
            let b = drop_class(s, class).len() as int;
            &&& 0 <= b <= s.len()
            &&& drop_class(s, class) == s.take(b)
            &&& forall|i: int| b <= i < s.len() ==> class.has(#[trigger] s[i])
            &&& b > 0 ==> !class.has(s[b - 1])
        }),
    decreases s.len(),
{
    if s.len() > 0 && class.has(s.last()) {
        let rest = s.drop_last();
        lemma_drop_cut(rest, class);
        let b = drop_class(s, class).len() as int;
        assert(rest.take(b) =~= s.take(b));
        assert forall|i: int| b <= i < s.len() implies class.has(#[trigger] s[i]) by {
            if i < rest.len() {
                assert(rest[i] == s[i]);
            }
        }
    } else {
        assert(s.take(s.len() as int) =~= s);
    }
}

/// Trimming takes away all characters of a class on either side, and nothing
/// else: what is left stood there in one piece.
pub proof fn trimming_takes_the_edges(s: Seq<char>, class: CharClass)
    ensures
        exists|a: int, b: int|
            {
                &&& 0 <= a <= b <= s.len()
                &&& strip_class(s, class) == #[trigger] s.subrange(a, b)
                &&& forall|i: int| 0 <= i < a || b <= i < s.len() ==> class.has(#[trigger] s[i])
                &&& a < b ==> !class.has(s[a]) && !class.has(s[b - 1])
            },
        exists|a: int|
            {
                &&& 0 <= a <= s.len()
                &&& skip_class(s, class) == #[trigger] s.skip(a)
                &&& forall|i: int| 0 <= i < a ==> class.has(#[trigger] s[i])
                &&& a < s.len() ==> !class.has(s[a])
            },
        exists|b: int|
            {
                &&& 0 <= b <= s.len()
                &&& drop_class(s, class) == #[trigger] s.take(b)
                &&& forall|i: int| b <= i < s.len() ==> class.has(#[trigger] s[i])
                &&& b > 0 ==> !class.has(s[b - 1])
            },
{
    lemma_skip_cut(s, class);
    lemma_drop_cut(s, class);
    let t = skip_class(s, class);
    lemma_drop_cut(t, class);
    let a = s.len() - t.len();
    let n = drop_class(t, class).len() as int;
    assert(s.skip(a).take(n) =~= s.subrange(a, a + n));
    assert forall|i: int| 0 <= i < a || a + n <= i < s.len() implies class.has(
        #[trigger] s[i],
    ) by {
        if i >= a {
            assert(t[i - a] == s[i]);
        }
    }
    if n > 0 {
        assert(t[0] == s[a]);
        assert(t[n - 1] == s[a + n - 1]);
    }
}

/// White space around a text is taken away, and with it nothing; and a text is
/// blank where it is white space throughout.
pub proof fn trimmed_texts_keep_the_rest(s: Seq<char>)
    ensures
        exists|a: int, b: int|
            {
                &&& 0 <= a <= b <= s.len()
                &&& trimmed(s) == #[trigger] s.subrange(a, b)
                &&& forall|i: int| 0 <= i < a || b <= i < s.len() ==> white_space(#[trigger] s[i])
                &&& a < b ==> !white_space(s[a]) && !white_space(s[b - 1])
            },
        is_blank_text(s) <==> forall|i: int| 0 <= i < s.len() ==> white_space(#[trigger] s[i]),
{
    let class = CharClass::Blank;
    trimming_takes_the_edges(s, class);
    let (a, b) = choose|a: int, b: int|
        {
            &&& 0 <= a <= b <= s.len()
            &&& strip_class(s, class) == #[trigger] s.subrange(a, b)
            &&& forall|i: int| 0 <= i < a || b <= i < s.len() ==> class.has(#[trigger] s[i])
            &&& a < b ==> !class.has(s[a]) && !class.has(s[b - 1])
        };
    assert(trimmed(s) == s.subrange(a, b));
    assert forall|i: int| 0 <= i < a || b <= i < s.len() implies white_space(#[trigger] s[i]) by {
        assert(class.has(s[i]));
    }
    if a < b {
        assert(!white_space(s[a]));
    }
}

proof fn lemma_run_before(a: Seq<char>, sep: char, b: Seq<char>, class: CharClass)
    requires
        !class.has(sep),
    ensures
        run_length(a + seq![sep] + b, class) == run_length(a, class),
    decreases a.len(),
{
    let s = a + seq![sep] + b;
    if a.len() > 0 && class.has(a[0]) {
        assert(s.drop_first() =~= a.drop_first() + seq![sep] + b);
        lemma_run_before(a.drop_first(), sep, b, class);
        assert(s[0] == a[0]);
    } else if a.len() > 0 {
        assert(s[0] == a[0]);
    } else {
        assert(s[0] == sep);
    }
}

/// All runs of a text are found, wherever they stand: those in front of a
/// character that belongs to none, and then those behind it.
pub proof fn runs_on_both_sides(a: Seq<char>, sep: char, b: Seq<char>, class: CharClass)
    requires
        !class.has(sep),
    ensures
        runs_of(a + seq![sep] + b, class) == runs_of(a, class) + runs_of(b, class),
    decreases a.len(),
{
    let s = a + seq![sep] + b;
    if a.len() == 0 {
        assert(s.drop_first() =~= b);
        assert(s[0] == sep);
        assert(runs_of(a, class) + runs_of(b, class) =~= runs_of(b, class));
    } else if !class.has(a[0]) {
        assert(s[0] == a[0]);
        assert(s.drop_first() =~= a.drop_first() + seq![sep] + b);
        runs_on_both_sides(a.drop_first(), sep, b, class);
    } else {
        assert(s[0] == a[0]);
        lemma_run_before(a, sep, b, class);
        lemma_run_length_bound(a, class);
        let n = run_length(a, class) as int;
        assert(s.take(n) =~= a.take(n));
        assert(s.skip(n) =~= a.skip(n) + seq![sep] + b);
        runs_on_both_sides(a.skip(n), sep, b, class);
        assert(runs_of(s, class) =~= runs_of(a, class) + runs_of(b, class));
    }
}

/// A text all of whose characters belong to a class is one run; one without such
/// a character has none.
pub proof fn words_are_runs(s: Seq<char>, class: CharClass)
    ensures
        s.len() > 0 && (forall|i: int| 0 <= i < s.len() ==> class.has(#[trigger] s[i]))
            ==> runs_of(s, class) == seq![s],
        (forall|i: int| 0 <= i < s.len() ==> !class.has(#[trigger] s[i])) ==> runs_of(
            s,
            class,
        ).len() == 0,
    decreases s.len(),
{
    if s.len() > 0 && (forall|i: int| 0 <= i < s.len() ==> class.has(#[trigger] s[i])) {
        lemma_run_length(s, class, s.len() as int);
        assert(s.take(s.len() as int) =~= s);
        assert(s.skip(s.len() as int) =~= Seq::<char>::empty());
        assert(class.has(s[0]));
        assert(runs_of(Seq::<char>::empty(), class).len() == 0);
        assert(runs_of(s, class) =~= seq![s]);
    }
    if s.len() > 0 && (forall|i: int| 0 <= i < s.len() ==> !class.has(#[trigger] s[i])) {
        assert forall|i: int| 0 <= i < s.drop_first().len() implies !class.has(
            #[trigger] s.drop_first()[i],
        ) by {
            assert(s.drop_first()[i] == s[i + 1]);
        }
        words_are_runs(s.drop_first(), class);
        assert(!class.has(s[0]));
    }
}

/// A line feed ends a line, and what follows it are the other lines; a carriage
/// return in front of it is no part of the line. What has no line feed is one
/// line, unless it is empty.
pub proof fn lines_end_at_line_feeds(line: Seq<char>, rest: Seq<char>)
    requires
        forall|i: int| 0 <= i < line.len() ==> #[trigger] line[i] != '\n',
    ensures
        line.len() == 0 || line.last() != '\r' ==> lines_of(line + seq!['\n'] + rest) == seq![line]
            + lines_of(rest),
        lines_of(line + seq!['\r', '\n'] + rest) == seq![line] + lines_of(rest),
        line.len() > 0 ==> lines_of(line) == seq![line],
        lines_of(Seq::<char>::empty()).len() == 0,
{
    let s = line + seq!['\n'] + rest;
    let n = line.len() as int;
    lemma_line_length(s, n);
    assert(s.take(n) =~= line);
    assert(s.skip(n + 1) =~= rest);
    let t = line + seq!['\r', '\n'] + rest;
    assert forall|i: int| 0 <= i < n + 1 implies t[i] != '\n' by {
        if i < n {
            assert(t[i] == line[i]);
        }
    }
    lemma_line_length(t, n + 1);
    assert(t.take(n + 1) =~= line.push('\r'));
    assert(line.push('\r').drop_last() =~= line);
    assert(t.skip(n + 1 + 1) =~= rest);
    if n > 0 {
        lemma_line_length(line, n);
    }
}

/// In an ASCII text capital letters become small ones, and nothing else changes.
pub proof fn lower_case_is_letter_by_letter(s: Seq<char>)
    requires
        forall|i: int| 0 <= i < s.len() ==> (#[trigger] s[i] as int) < 128,
    ensures
        lowercase(s).len() == s.len(),
        forall|i: int|
            0 <= i < s.len() ==> if 'A' as int <= s[i] as int <= 'Z' as int {
                (#[trigger] lowercase(s)[i]) as int == s[i] as int + 32
            } else {
                lowercase(s)[i] == s[i]
            },
{
    assert forall|i: int| 0 <= i < s.len() implies if 'A' as int <= s[i] as int <= 'Z' as int {
        (#[trigger] lowercase(s)[i]) as int == s[i] as int + 32
    } else {
        lowercase(s)[i] == s[i]
    } by {
        lemma_small_character(s[i]);
    }
}

proof fn lemma_small_character(c: char)
    requires
        (c as int) < 128,
    ensures
        ascii_lower(c) as char as int == ascii_lower(c),
        !('A' as int <= c as int <= 'Z' as int) ==> ascii_lower(c) as char == c,
{
}

/// Two texts that are equal but for case have the same length and, letter by
/// letter, the same lower case.
pub proof fn case_alone_is_ignored(a: Seq<char>, b: Seq<char>)
    requires
        all_ascii(a),
        all_ascii(b),
    ensures
        same_ignoring_case(a, b) <==> lowercase(a) == lowercase(b),
{
    if same_ignoring_case(a, b) {
        assert forall|i: int| 0 <= i < a.len() implies lowercase(a)[i] == lowercase(b)[i] by {
            assert(ascii_lower(a[i]) == ascii_lower(b[i]));
        }
        assert(lowercase(a) =~= lowercase(b));
    }
    if lowercase(a) == lowercase(b) {
        assert(lowercase(a).len() == a.len());
        assert(lowercase(b).len() == b.len());
        assert forall|i: int| 0 <= i < a.len() implies ascii_lower(a[i]) == #[trigger] ascii_lower(
            b[i],
        ) by {
            lemma_small_character(a[i]);
            lemma_small_character(b[i]);
            assert(lowercase(a)[i] == ascii_lower(a[i]) as char);
            assert(lowercase(b)[i] == ascii_lower(b[i]) as char);
        }
    }
}

/// Of two texts the one with the smaller character at their first difference
/// comes first, and a beginning of a text comes before it.
pub proof fn first_difference_decides(a: Seq<char>, b: Seq<char>, k: int)
    requires
        0 <= k <= a.len(),
        k < b.len(),
        a.take(k) == b.take(k),
        k < a.len() ==> a[k] != b[k],
    ensures
        text_before(a, b) <==> k == a.len() || (a[k] as int) < (b[k] as int),
    decreases k,
{
    if k > 0 {
        assert(a.take(k)[0] == a[0] && b.take(k)[0] == b[0]);
        let x = a.drop_first();
        let y = b.drop_first();
        assert forall|i: int| 0 <= i < k - 1 implies #[trigger] x.take(k - 1)[i] == y.take(
            k - 1,
        )[i] by {
            assert(a.take(k)[i + 1] == a[i + 1] && b.take(k)[i + 1] == b[i + 1]);
        }
        assert(x.take(k - 1) =~= y.take(k - 1));
        first_difference_decides(x, y, k - 1);
    }
}

/// Texts are joined in order, with the separator between any two of them and
/// nowhere else.
pub proof fn joining_keeps_parts(first: Seq<Seq<char>>, second: Seq<Seq<char>>, sep: Seq<char>)
    requires
        first.len() > 0,
        second.len() > 0,
    ensures
        joined(first + second, sep) == joined(first, sep) + sep + joined(second, sep),
        second.len() == 1 ==> joined(second, sep) == second[0],
    decreases second.len(),
{
    let all = first + second;
    assert(all.last() == second.last());
    if second.len() == 1 {
        assert(all.drop_last() =~= first);
    } else {
        assert(all.drop_last() =~= first + second.drop_last());
        joining_keeps_parts(first, second.drop_last(), sep);
        assert(joined(all, sep) =~= joined(first, sep) + sep + joined(second, sep));
    }
}

/// A text that is filled up begins as it is, ends in spaces, and is as wide as
/// asked; a text that is wide enough stays as it is.
pub proof fn padding_appends_spaces(s: Seq<char>, width: nat)
    ensures
        s.len() >= width ==> padded(s, width) == s,
        s.len() < width ==> {
            &&& padded(s, width).len() == width
            &&& padded(s, width).take(s.len() as int) == s
            &&& forall|i: int| s.len() <= i < width ==> #[trigger] padded(s, width)[i] == ' '
        },
{
    if s.len() < width {
        assert(padded(s, width).take(s.len() as int) =~= s);
    }
}

/// Whether some texts stand in another one behind the other, in this order.
pub open spec fn in_order(text: Seq<char>, parts: Seq<Seq<char>>) -> bool
    decreases parts.len(),
{
    parts.len() == 0 || exists|i: int|
        {
            &&& 0 <= i
            &&& i + parts[0].len() <= text.len()
            &&& #[trigger] text.subrange(i, i + parts[0].len()) == parts[0]
            &&& in_order(text.skip(i + parts[0].len()), parts.drop_first())
        }
}

/// A part that stands behind a gap, in front of what holds the parts that follow
/// it, stands in order with them.
pub proof fn lemma_in_order(
    text: Seq<char>,
    parts: Seq<Seq<char>>,
    k: int,
    gap: Seq<char>,
    rest: Seq<char>,
)
    requires
        0 <= k < parts.len(),
        text == gap + parts[k] + rest,
        in_order(rest, parts.skip(k + 1)),
    ensures
        in_order(text, parts.skip(k)),
{
    let all = parts.skip(k);
    let i = gap.len() as int;
    assert(all[0] == parts[k]);
    assert(text.subrange(i, i + all[0].len()) =~= all[0]);
    assert(text.skip(i + all[0].len()) =~= rest);
    assert(all.drop_first() =~= parts.skip(k + 1));
}

/// The texts in two lists, one behind the other in turn, beginning and ending with
/// the first list.
pub open spec fn woven(gaps: Seq<Seq<char>>, parts: Seq<Seq<char>>, k: int) -> Seq<char>
    decreases parts.len() - k,
{
    if k < 0 || k >= parts.len() {
        gaps[k]
    } else {
        gaps[k] + parts[k] + woven(gaps, parts, k + 1)
    }
}

/// What is woven into a text stands in it in order.
pub proof fn woven_parts_are_in_order(gaps: Seq<Seq<char>>, parts: Seq<Seq<char>>, k: int)
    requires
        0 <= k <= parts.len(),
    ensures
        in_order(woven(gaps, parts, k), parts.skip(k)),
        k == 0 ==> in_order(woven(gaps, parts, k), parts),
    decreases parts.len() - k,
{
    if k < parts.len() {
        woven_parts_are_in_order(gaps, parts, k + 1);
        lemma_in_order(
            woven(gaps, parts, k),
            parts,
            k,
            gaps[k],
            woven(gaps, parts, k + 1),
        );
    }
    assert(parts.skip(0) =~= parts);
}

/// What stands in order in two texts, stands in order where one follows the other.
pub proof fn lemma_orders_join(
    a: Seq<char>,
    p: Seq<Seq<char>>,
    b: Seq<char>,
    q: Seq<Seq<char>>,
)
    requires
        in_order(a, p),
        in_order(b, q),
    ensures
        in_order(a + b, p + q),
    decreases p.len(),
{
    if p.len() == 0 {
        assert(p + q =~= q);
        if q.len() > 0 {
            let i = choose|i: int|
                {
                    &&& 0 <= i
                    &&& i + q[0].len() <= b.len()
                    &&& #[trigger] b.subrange(i, i + q[0].len()) == q[0]
                    &&& in_order(b.skip(i + q[0].len()), q.drop_first())
                };
            let k = a.len() + i;
            assert((a + b).subrange(k, k + q[0].len()) =~= q[0]) by {
                assert((a + b).subrange(k, k + q[0].len()) =~= b.subrange(i, i + q[0].len()));
            }
            assert((a + b).skip(k + q[0].len()) =~= b.skip(i + q[0].len()));
        }
    } else {
        let i = choose|i: int|
            {
                &&& 0 <= i
                &&& i + p[0].len() <= a.len()
                &&& #[trigger] a.subrange(i, i + p[0].len()) == p[0]
                &&& in_order(a.skip(i + p[0].len()), p.drop_first())
            };
        lemma_orders_join(a.skip(i + p[0].len()), p.drop_first(), b, q);
        assert((p + q)[0] == p[0]);
        assert((a + b).subrange(i, i + p[0].len()) =~= a.subrange(i, i + p[0].len()));
        assert((a + b).skip(i + p[0].len()) =~= a.skip(i + p[0].len()) + b);
        assert((p + q).drop_first() =~= p.drop_first() + q);
    }
}

/// Texts stand in order in what they are joined to.
pub proof fn joined_parts_are_in_order(parts: Seq<Seq<char>>, sep: Seq<char>)
    ensures
        in_order(joined(parts, sep), parts),
    decreases parts.len(),
{
    if parts.len() > 0 {
        let rest = parts.drop_last();
        let last = parts.last();
        let none = Seq::<char>::empty();
        let gaps = if parts.len() == 1 {
            seq![none, none]
        } else {
            seq![sep, none]
        };
        woven_parts_are_in_order(gaps, seq![last], 0);
        reveal_with_fuel(woven, 2);
        joined_parts_are_in_order(rest, sep);
        lemma_orders_join(joined(rest, sep), rest, woven(gaps, seq![last], 0), seq![last]);
        assert(rest + seq![last] =~= parts);
        assert(joined(parts, sep) =~= joined(rest, sep) + woven(gaps, seq![last], 0));
    }
}

/// A text stands in order in itself.
pub proof fn lemma_whole(text: Seq<char>)
    ensures
        in_order(text, seq![text]),
{
    let none = Seq::<char>::empty();
    woven_parts_are_in_order(seq![none, none], seq![text], 0);
    reveal_with_fuel(woven, 2);
    assert(woven(seq![none, none], seq![text], 0) =~= text);
}

/// What stands in order in a text does so where something follows it.
pub proof fn show_gap(text: Seq<char>, parts: Seq<Seq<char>>, gap: Seq<char>)
    requires
        in_order(text, parts),
    ensures
        in_order(text + gap, parts),
{
    lemma_orders_join(text, parts, gap, Seq::empty());
    assert(parts + Seq::<Seq<char>>::empty() =~= parts);
}

/// A part that follows a text stands in order with what stands in it.
pub proof fn show_part(text: Seq<char>, parts: Seq<Seq<char>>, part: Seq<char>)
    requires
        in_order(text, parts),
    ensures
        in_order(text + part, parts.push(part)),
{
    lemma_whole(part);
    lemma_orders_join(text, parts, part, seq![part]);
    assert(parts + seq![part] =~= parts.push(part));
}

/// What stands in a text in order, stands in it.
pub proof fn order_is_containment(text: Seq<char>, parts: Seq<Seq<char>>, k: int)
    requires
        in_order(text, parts),
        0 <= k < parts.len(),
    ensures
        contains_text(text, parts[k]),
    decreases parts.len(),
{
    let i = choose|i: int|
        {
            &&& 0 <= i
            &&& i + parts[0].len() <= text.len()
            &&& #[trigger] text.subrange(i, i + parts[0].len()) == parts[0]
            &&& in_order(text.skip(i + parts[0].len()), parts.drop_first())
        };
    if k == 0 {
        assert(occurs_at(text, parts[0], i));
    } else {
        let rest = text.skip(i + parts[0].len());
        order_is_containment(rest, parts.drop_first(), k - 1);
        let p = parts.drop_first()[k - 1];
        let j = choose|j: int| occurs_at(rest, p, j);
        let at = i + parts[0].len() + j;
        assert(text.subrange(at, at + p.len()) =~= rest.subrange(j, j + p.len()));
        assert(occurs_at(text, p, at));
    }
}

/// A text that begins and ends with something else is what is left of it between
/// white space.
pub proof fn white_space_around_is_taken_away(a: Seq<char>, core: Seq<char>, b: Seq<char>)
    requires
        forall|i: int| 0 <= i < a.len() ==> white_space(#[trigger] a[i]),
        forall|i: int| 0 <= i < b.len() ==> white_space(#[trigger] b[i]),
        core.len() > 0,
        !white_space(core[0]),
        !white_space(core.last()),
    ensures
        trimmed(a + core + b) == core,
{
    let s = a + core + b;
    let first = a.len() as int;
    let last = a.len() + core.len() - 1;
    trimmed_texts_keep_the_rest(s);
    let (x, y) = choose|x: int, y: int|
        {
            &&& 0 <= x <= y <= s.len()
            &&& trimmed(s) == #[trigger] s.subrange(x, y)
            &&& forall|i: int| 0 <= i < x || y <= i < s.len() ==> white_space(#[trigger] s[i])
            &&& x < y ==> !white_space(s[x]) && !white_space(s[y - 1])
        };
    assert(s[first] == core[0]);
    assert(s[last] == core.last());
    assert(x <= first && last < y);
    if x < first {
        assert(s[x] == a[x]);
    }
    if y - 1 > last {
        assert(s[y - 1] == b[y - 1 - last - 1]);
    }
    assert(s.subrange(x, y) =~= core);
}

/// The texts of a list are those of its members, in order.
pub proof fn lists_of_texts_are_read_in_order(v: Seq<&str>, w: Seq<String>, i: int)
    ensures
        views(v).len() == v.len(),
        string_views(w).len() == w.len(),
        0 <= i < v.len() ==> views(v)[i] == v[i]@,
        0 <= i < w.len() ==> string_views(w)[i] == w[i]@,
{
}

/// What follows a beginning of a text is all of the rest, and nothing follows what
/// it does not begin with.
pub proof fn prefixes_are_taken_off(prefix: Seq<char>, rest: Seq<char>, s: Seq<char>)
    ensures
        after_prefix(prefix + rest, prefix) == Some(rest),
        after_prefix(s, prefix) is Some <==> s.len() >= prefix.len() && s.take(prefix.len() as int)
            == prefix,
{
    assert((prefix + rest).subrange(0, prefix.len() as int) =~= prefix);
    assert((prefix + rest).skip(prefix.len() as int) =~= rest);
    if s.len() >= prefix.len() {
        assert(s.subrange(0, prefix.len() as int) =~= s.take(prefix.len() as int));
    }
}

} // verus!
