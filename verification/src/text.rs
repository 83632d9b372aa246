//! Text as sequences of characters: trimming, splitting and comparing.
use vstd::prelude::*;

verus! {

/// `String::push` puts one character behind the text.
pub assume_specification[ String::push ](s: &mut String, c: char)
    ensures
        final(s)@ == old(s)@.push(c),
;

/// What the error of `std::str::from_utf8` says of bytes that are not UTF-8: where they stop
/// to be.
pub uninterp spec fn utf8_error(bytes: Seq<u8>) -> Seq<char>;

/// `std::str::from_utf8` gives the text of valid UTF-8, and an error for anything else, which
/// is taken by what it says.
#[verifier::external_body]
pub(crate) fn decode(bytes: &[u8]) -> (r: Result<String, String>)
    ensures
        r is Ok <==> vstd::utf8::valid_utf8(bytes@),
        r is Ok ==> r->Ok_0@ == vstd::utf8::decode_utf8(bytes@),
        r is Err ==> r->Err_0@ == utf8_error(bytes@),
{
    std::str::from_utf8(bytes).map(String::from).map_err(|e| e.to_string())
}

/// What the `Debug` of `str` writes for a text: the text in quotation marks, with escapes for
/// some of its characters.
pub uninterp spec fn debug_text(s: Seq<char>) -> Seq<char>;

/// The `Debug` of `str`, by `format!`.
#[verifier::external_body]
pub(crate) fn quoted(s: &str) -> (r: String)
    ensures
        r@ == debug_text(s@),
{
    format!("{:?}", s)
}

// ---------------------------------------------------------------------------
// Model
// ---------------------------------------------------------------------------

/// White space, as Unicode defines the property.
pub open spec fn is_space(c: char) -> bool {
    let v = c as u32;
    ||| 0x09 <= v <= 0x0d
    ||| v == 0x20
    ||| v == 0x85
    ||| v == 0xa0
    ||| v == 0x1680
    ||| 0x2000 <= v <= 0x200a
    ||| v == 0x2028
    ||| v == 0x2029
    ||| v == 0x202f
    ||| v == 0x205f
    ||| v == 0x3000
}

/// Without white space in front.
pub open spec fn trim_start(s: Seq<char>) -> Seq<char>
    decreases s.len(),
{
    if s.len() > 0 && is_space(s[0]) {
        trim_start(s.skip(1))
    } else {
        s
    }
}

/// Without white space behind.
pub open spec fn trim_end(s: Seq<char>) -> Seq<char>
    decreases s.len(),
{
    if s.len() > 0 && is_space(s.last()) {
        trim_end(s.drop_last())
    } else {
        s
    }
}

/// Without white space in front or behind.
pub open spec fn trim(s: Seq<char>) -> Seq<char> {
    trim_end(trim_start(s))
}

/// The place of the first `c`, or the length.
pub open spec fn find(s: Seq<char>, c: char) -> int
    decreases s.len(),
{
    if s.len() == 0 || s[0] == c {
        0
    } else {
        1 + find(s.skip(1), c)
    }
}

/// What stands before the first `c`, and what stands behind it.
pub open spec fn split_once(s: Seq<char>, c: char) -> Option<(Seq<char>, Seq<char>)> {
    let j = find(s, c);
    if j >= s.len() {
        None
    } else {
        Some((s.take(j), s.skip(j + 1)))
    }
}

/// The parts between the occurrences of `c`.
pub open spec fn split(s: Seq<char>, c: char) -> Seq<Seq<char>>
    decreases s.len(),
{
    let j = find(s, c);
    if j < 0 || j >= s.len() {
        seq![s]
    } else {
        seq![s.take(j)] + split(s.skip(j + 1), c)
    }
}

/// The place of the first line end of two characters, or the length.
pub open spec fn find_crlf(s: Seq<char>) -> int
    decreases s.len(),
{
    if s.len() < 2 {
        s.len() as int
    } else if s[0] == '\r' && s[1] == '\n' {
        0
    } else {
        1 + find_crlf(s.skip(1))
    }
}

/// The parts between line ends of two characters.
pub open spec fn split_crlf(s: Seq<char>) -> Seq<Seq<char>>
    decreases s.len(),
{
    let j = find_crlf(s);
    if j < 0 || j + 2 > s.len() {
        seq![s]
    } else {
        seq![s.take(j)] + split_crlf(s.skip(j + 2))
    }
}

/// A line without the carriage return at its end.
pub open spec fn without_return(s: Seq<char>) -> Seq<char> {
    if s.len() > 0 && s.last() == '\r' {
        s.drop_last()
    } else {
        s
    }
}

/// The lines of a text. A line ends with a line feed, with or without a carriage
/// return before it; the last one may end without.
pub open spec fn lines(s: Seq<char>) -> Seq<Seq<char>>
    decreases s.len(),
{
    let j = find(s, '\n');
    if s.len() == 0 {
        Seq::empty()
    } else if j < 0 || j >= s.len() {
        seq![s]
    } else {
        seq![without_return(s.take(j))] + lines(s.skip(j + 1))
    }
}

/// The place of the first white space, or the length.
pub open spec fn find_space(s: Seq<char>) -> int
    decreases s.len(),
{
    if s.len() == 0 || is_space(s[0]) {
        0
    } else {
        1 + find_space(s.skip(1))
    }
}

/// The parts that stand between white space; none of them is empty.
pub open spec fn fields(s: Seq<char>) -> Seq<Seq<char>>
    decreases s.len(),
{
    if s.len() == 0 {
        Seq::empty()
    } else if is_space(s[0]) {
        fields(s.skip(1))
    } else {
        let j = find_space(s);
        if j <= 0 || j > s.len() {
            Seq::empty()
        } else {
            seq![s.take(j)] + fields(s.skip(j))
        }
    }
}

/// Whether `s` starts with `p`.
pub open spec fn starts_with(s: Seq<char>, p: Seq<char>) -> bool {
    s.len() >= p.len() && s.take(p.len() as int) == p
}

/// Whether `s` ends with `p`.
pub open spec fn ends_with(s: Seq<char>, p: Seq<char>) -> bool {
    s.len() >= p.len() && s.skip(s.len() - p.len()) == p
}

/// Whether `p` stands somewhere in `s`.
pub open spec fn contains(s: Seq<char>, p: Seq<char>) -> bool {
    exists|i: int| 0 <= i <= s.len() && #[trigger] starts_with(s.skip(i), p)
}

/// An ASCII letter in lower case; any other character as it is.
pub open spec fn lower(c: char) -> char {
    if 'A' <= c && c <= 'Z' {
        (c as u32 + 32) as char
    } else {
        c
    }
}

/// ASCII letters in lower case.
pub open spec fn lowercase(s: Seq<char>) -> Seq<char> {
    Seq::new(s.len(), |i: int| lower(s[i]))
}

/// The texts of a list.
pub open spec fn views(v: Seq<Vec<char>>) -> Seq<Seq<char>> {
    Seq::new(v.len(), |i: int| v[i]@)
}

// ---------------------------------------------------------------------------
// Conversions and comparisons
// ---------------------------------------------------------------------------

/// The characters of a text.
pub fn chars_of(s: &str) -> (v: Vec<char>)
    ensures
        v@ == s@,
{
    let mut v: Vec<char> = Vec::new();
    for c in it: s.chars()
        invariant
            v@ == it.seq().take(it.index() as int),
            it.seq() == s@,
    {
        v.push(c);
    }
    proof {
        assert(s@.take(s@.len() as int) =~= s@);
    }
    v
}

/// The text of characters.
pub fn text_of(s: &[char]) -> (t: String)
    ensures
        t@ == s@,
{
    let mut t = String::new();
    let mut i: usize = 0;
    while i < s.len()
        invariant
            i <= s@.len(),
            t@ == s@.take(i as int),
        decreases s@.len() - i,
    {
        t.push(s[i]);
        i = i + 1;
        proof {
            assert(s@.take(i as int) =~= s@.take(i - 1).push(s@[i - 1]));
        }
    }
    proof {
        assert(s@.take(i as int) =~= s@);
    }
    t
}

/// Whether two character strings are equal.
pub fn same_chars(a: &[char], b: &[char]) -> (r: bool)
    ensures
        r == (a@ == b@),
{
    if a.len() != b.len() {
        return false;
    }
    let mut i: usize = 0;
    while i < a.len()
        invariant
            a@.len() == b@.len(),
            i <= a@.len(),
            forall|k: int| 0 <= k < i ==> a@[k] == b@[k],
        decreases a@.len() - i,
    {
        if a[i] != b[i] {
            return false;
        }
        i = i + 1;
    }
    proof {
        assert(a@ =~= b@);
    }
    true
}

/// Whether two texts are equal.
pub fn same(a: &str, b: &str) -> (r: bool)
    ensures
        r == (a@ == b@),
{
    let x = chars_of(a);
    let y = chars_of(b);
    same_chars(x.as_slice(), y.as_slice())
}

/// Whether characters spell a text.
pub fn is(a: &[char], b: &str) -> (r: bool)
    ensures
        r == (a@ == b@),
{
    let y = chars_of(b);
    same_chars(a, y.as_slice())
}

/// Whether `s` starts with `p`.
pub fn has_prefix(s: &[char], p: &str) -> (r: bool)
    ensures
        r == starts_with(s@, p@),
{
    let y = chars_of(p);
    if s.len() < y.len() {
        return false;
    }
    same_chars(&s[0..y.len()], y.as_slice())
}

/// Whether `s` ends with `p`.
pub fn has_suffix(s: &[char], p: &str) -> (r: bool)
    ensures
        r == ends_with(s@, p@),
{
    let y = chars_of(p);
    if s.len() < y.len() {
        return false;
    }
    let from: usize = s.len() - y.len();
    proof {
        assert(s@.subrange(from as int, s@.len() as int) =~= s@.skip(from as int));
    }
    same_chars(&s[from..s.len()], y.as_slice())
}

/// The rest of `s` behind `p`, where `s` starts with it.
pub fn strip_prefix<'a>(s: &'a [char], p: &str) -> (r: Option<&'a [char]>)
    ensures
        match r {
            Some(rest) => starts_with(s@, p@) && rest@ == s@.skip(p@.len() as int),
            None => !starts_with(s@, p@),
        },
{
    let y = chars_of(p);
    if s.len() >= y.len() && same_chars(&s[0..y.len()], y.as_slice()) {
        proof {
            assert(s@.subrange(y@.len() as int, s@.len() as int) =~= s@.skip(y@.len() as int));
        }
        Some(&s[y.len()..s.len()])
    } else {
        None
    }
}

/// Whether `p` stands somewhere in `s`.
pub fn has(s: &[char], p: &str) -> (r: bool)
    ensures
        r == contains(s@, p@),
{
    let mut i: usize = 0;
    loop
        invariant
            i <= s@.len(),
            forall|k: int| 0 <= k < i ==> !#[trigger] starts_with(s@.skip(k), p@),
        decreases s@.len() - i,
    {
        proof {
            assert(s@.subrange(i as int, s@.len() as int) =~= s@.skip(i as int));
        }
        if has_prefix(&s[i..s.len()], p) {
            return true;
        }
        if i == s.len() {
            return false;
        }
        i = i + 1;
    }
}

/// White space.
pub fn space(c: char) -> (r: bool)
    ensures
        r == is_space(c),
{
    let v: u32 = c as u32;
    (0x09 <= v && v <= 0x0d) || v == 0x20 || v == 0x85 || v == 0xa0 || v == 0x1680 || (0x2000 <= v
        && v <= 0x200a) || v == 0x2028 || v == 0x2029 || v == 0x202f || v == 0x205f || v == 0x3000
}

/// Without white space in front or behind.
pub fn trimmed(s: &[char]) -> (r: &[char])
    ensures
        r@ == trim(s@),
{
    let mut a: usize = 0;
    proof {
        assert(s@.skip(0) =~= s@);
    }
    while a < s.len() && space(s[a])
        invariant
            a <= s@.len(),
            trim_start(s@) == trim_start(s@.skip(a as int)),
        decreases s@.len() - a,
    {
        proof {
            assert(s@.skip(a as int).skip(1) =~= s@.skip(a + 1));
        }
        a = a + 1;
    }
    let mut b: usize = s.len();
    proof {
        assert(s@.skip(a as int) =~= s@.subrange(a as int, b as int));
    }
    while a < b && space(s[b - 1])
        invariant
            a <= b <= s@.len(),
            trim(s@) == trim_end(s@.subrange(a as int, b as int)),
        decreases b,
    {
        proof {
            assert(s@.subrange(a as int, b as int).drop_last() =~= s@.subrange(a as int, b - 1));
        }
        b = b - 1;
    }
    &s[a..b]
}

/// The place of the first `c`, or the length.
pub fn position(s: &[char], c: char) -> (r: usize)
    ensures
        r == find(s@, c),
        r <= s@.len(),
{
    let mut i: usize = 0;
    proof {
        assert(s@.skip(0) =~= s@);
    }
    while i < s.len() && s[i] != c
        invariant
            i <= s@.len(),
            find(s@, c) == i + find(s@.skip(i as int), c),
        decreases s@.len() - i,
    {
        proof {
            assert(s@.skip(i as int).skip(1) =~= s@.skip(i + 1));
        }
        i = i + 1;
    }
    i
}

/// Appending one text to a list of texts.
proof fn lemma_views_push(v: Seq<Vec<char>>, t: Vec<char>)
    ensures
        views(v.push(t)) == views(v).push(t@),
{
    assert(views(v.push(t)) =~= views(v).push(t@));
}

/// A copy of characters.
pub fn copied(s: &[char]) -> (v: Vec<char>)
    ensures
        v@ == s@,
{
    let mut v: Vec<char> = Vec::new();
    v.extend_from_slice(s);
    proof {
        assert(v@ =~= s@);
    }
    v
}

/// The parts between the occurrences of `c`.
pub fn split_at_char(s: &[char], c: char) -> (v: Vec<Vec<char>>)
    ensures
        views(v@) == split(s@, c),
        v@.len() > 0,
{
    let mut v: Vec<Vec<char>> = Vec::new();
    let mut a: usize = 0;
    proof {
        assert(s@.skip(0) =~= s@);
        assert(views(v@) + split(s@, c) =~= split(s@, c));
    }
    loop
        invariant
            a <= s@.len(),
            views(v@) + split(s@.skip(a as int), c) == split(s@, c),
        decreases s@.len() - a,
    {
        let ghost before = v@;
        proof {
            assert(s@.subrange(a as int, s@.len() as int) =~= s@.skip(a as int));
        }
        let rest = &s[a..s.len()];
        let j: usize = position(rest, c);
        let part = copied(&rest[0..j]);
        proof {
            lemma_views_push(before, part);
            assert(rest@.take(j as int) =~= part@);
            assert(rest@.take(rest@.len() as int) =~= rest@);
        }
        v.push(part);
        if j == rest.len() {
            proof {
                assert(views(v@) =~= views(before) + seq![rest@]);
            }
            return v;
        }
        proof {
            assert(rest@.skip(j + 1) =~= s@.skip(a + j + 1));
            assert(views(v@) + split(s@.skip(a + j + 1), c) =~= views(before) + (seq![part@]
                + split(s@.skip(a + j + 1), c)));
        }
        a = a + j + 1;
    }
}

/// The place of the first line end of two characters, or the length.
pub fn position_crlf(s: &[char]) -> (r: usize)
    ensures
        r == find_crlf(s@),
        r <= s@.len(),
        r < s@.len() ==> r + 2 <= s@.len(),
{
    let mut i: usize = 0;
    proof {
        assert(s@.skip(0) =~= s@);
    }
    while i < s.len()
        invariant
            i <= s@.len(),
            find_crlf(s@) == i + find_crlf(s@.skip(i as int)),
        decreases s@.len() - i,
    {
        proof {
            assert(s@.skip(i as int).skip(1) =~= s@.skip(i + 1));
        }
        if s.len() - i >= 2 && s[i] == '\r' && s[i + 1] == '\n' {
            return i;
        }
        proof {
            if s@.len() - i < 2 {
                assert(s@.skip(i + 1).len() == 0);
            }
        }
        i = i + 1;
    }
    i
}

/// The parts between line ends of two characters.
pub fn split_at_crlf(s: &[char]) -> (v: Vec<Vec<char>>)
    ensures
        views(v@) == split_crlf(s@),
        v@.len() > 0,
{
    let mut v: Vec<Vec<char>> = Vec::new();
    let mut a: usize = 0;
    proof {
        assert(s@.skip(0) =~= s@);
        assert(views(v@) + split_crlf(s@) =~= split_crlf(s@));
    }
    loop
        invariant
            a <= s@.len(),
            views(v@) + split_crlf(s@.skip(a as int)) == split_crlf(s@),
        decreases s@.len() - a,
    {
        let ghost before = v@;
        proof {
            assert(s@.subrange(a as int, s@.len() as int) =~= s@.skip(a as int));
        }
        let rest = &s[a..s.len()];
        let j: usize = position_crlf(rest);
        let part = copied(&rest[0..j]);
        proof {
            lemma_views_push(before, part);
            assert(rest@.take(j as int) =~= part@);
            assert(rest@.take(rest@.len() as int) =~= rest@);
        }
        v.push(part);
        if j == rest.len() {
            proof {
                assert(views(v@) =~= views(before) + seq![rest@]);
            }
            return v;
        }
        proof {
            assert(rest@.skip(j + 2) =~= s@.skip(a + j + 2));
            assert(views(v@) + split_crlf(s@.skip(a + j + 2)) =~= views(before) + (seq![part@]
                + split_crlf(s@.skip(a + j + 2))));
        }
        a = a + j + 2;
    }
}

/// The lines of a text.
pub fn lines_of(s: &[char]) -> (v: Vec<Vec<char>>)
    ensures
        views(v@) == lines(s@),
{
    let mut v: Vec<Vec<char>> = Vec::new();
    let mut a: usize = 0;
    proof {
        assert(s@.skip(0) =~= s@);
        assert(views(v@) + lines(s@) =~= lines(s@));
    }
    while a < s.len()
        invariant
            a <= s@.len(),
            views(v@) + lines(s@.skip(a as int)) == lines(s@),
        decreases s@.len() - a,
    {
        let ghost before = v@;
        proof {
            assert(s@.subrange(a as int, s@.len() as int) =~= s@.skip(a as int));
        }
        let rest = &s[a..s.len()];
        let j: usize = position(rest, '\n');
        if j == rest.len() {
            let part = copied(rest);
            proof {
                lemma_views_push(before, part);
            }
            v.push(part);
            proof {
                assert(views(v@) =~= views(before) + seq![rest@]);
            }
            return v;
        }
        let mut end: usize = j;
        if j > 0 && rest[j - 1] == '\r' {
            end = j - 1;
        }
        let part = copied(&rest[0..end]);
        proof {
            lemma_views_push(before, part);
            assert(part@ =~= without_return(rest@.take(j as int)));
            assert(rest@.skip(j + 1) =~= s@.skip(a + j + 1));
        }
        v.push(part);
        proof {
            assert(views(v@) + lines(s@.skip(a + j + 1)) =~= views(before) + (seq![part@] + lines(
                s@.skip(a + j + 1),
            )));
        }
        a = a + j + 1;
    }
    proof {
        assert(s@.skip(a as int) =~= Seq::<char>::empty());
        assert(views(v@) + Seq::<Seq<char>>::empty() =~= views(v@));
    }
    v
}

/// The place of the first white space, or the length.
fn position_space(s: &[char]) -> (r: usize)
    ensures
        r == find_space(s@),
        r <= s@.len(),
{
    let mut i: usize = 0;
    proof {
        assert(s@.skip(0) =~= s@);
    }
    while i < s.len() && !space(s[i])
        invariant
            i <= s@.len(),
            find_space(s@) == i + find_space(s@.skip(i as int)),
        decreases s@.len() - i,
    {
        proof {
            assert(s@.skip(i as int).skip(1) =~= s@.skip(i + 1));
        }
        i = i + 1;
    }
    i
}

/// The parts between white space.
pub fn fields_of(s: &[char]) -> (v: Vec<Vec<char>>)
    ensures
        views(v@) == fields(s@),
{
    let mut v: Vec<Vec<char>> = Vec::new();
    let mut a: usize = 0;
    proof {
        assert(s@.skip(0) =~= s@);
        assert(views(v@) + fields(s@) =~= fields(s@));
    }
    while a < s.len()
        invariant
            a <= s@.len(),
            views(v@) + fields(s@.skip(a as int)) == fields(s@),
        decreases s@.len() - a,
    {
        let ghost before = v@;
        proof {
            assert(s@.subrange(a as int, s@.len() as int) =~= s@.skip(a as int));
            assert(s@.skip(a as int).skip(1) =~= s@.skip(a + 1));
        }
        if space(s[a]) {
            a = a + 1;
            continue;
        }
        let rest = &s[a..s.len()];
        let j: usize = position_space(rest);
        let part = copied(&rest[0..j]);
        proof {
            lemma_views_push(before, part);
            assert(rest@.take(j as int) =~= part@);
            assert(find_space(rest@) >= 1) by {
                lemma_find_space(rest@.skip(1));
            }
            assert(rest@.skip(j as int) =~= s@.skip(a + j));
        }
        v.push(part);
        proof {
            assert(views(v@) + fields(s@.skip(a + j)) =~= views(before) + (seq![part@] + fields(
                s@.skip(a + j),
            )));
        }
        a = a + j;
    }
    proof {
        assert(s@.skip(a as int) =~= Seq::<char>::empty());
        assert(views(v@) + Seq::<Seq<char>>::empty() =~= views(v@));
    }
    v
}

/// The first white space lies within the text or at its end.
pub proof fn lemma_find_space(s: Seq<char>)
    ensures
        0 <= find_space(s) <= s.len(),
    decreases s.len(),
{
    if s.len() > 0 && !is_space(s[0]) {
        lemma_find_space(s.skip(1));
    }
}

/// ASCII letters in lower case.
pub fn to_lowercase(s: &[char]) -> (v: Vec<char>)
    ensures
        v@ == lowercase(s@),
{
    let mut v: Vec<char> = Vec::new();
    let mut i: usize = 0;
    while i < s.len()
        invariant
            i <= s@.len(),
            v@ == lowercase(s@).take(i as int),
        decreases s@.len() - i,
    {
        v.push(lower_char(s[i]));
        i = i + 1;
        proof {
            assert(lowercase(s@).take(i as int) =~= lowercase(s@).take(i - 1).push(
                lowercase(s@)[i - 1],
            ));
        }
    }
    proof {
        assert(lowercase(s@).take(i as int) =~= lowercase(s@));
    }
    v
}

/// One character in lower case.
fn lower_char(c: char) -> (r: char)
    ensures
        r == lower(c),
{
    if 'A' <= c && c <= 'Z' {
        let code: u8 = c as u8;
        (code + 32) as char
    } else {
        c
    }
}

/// Whether two texts are equal but for the case of ASCII letters.
pub fn same_ignoring_case(a: &[char], b: &[char]) -> (r: bool)
    ensures
        r == (lowercase(a@) == lowercase(b@)),
{
    let x = to_lowercase(a);
    let y = to_lowercase(b);
    same_chars(x.as_slice(), y.as_slice())
}

// ---------------------------------------------------------------------------
// Laws
// ---------------------------------------------------------------------------

/// Whether a text holds no `c`.
pub open spec fn is_without(s: Seq<char>, c: char) -> bool {
    forall|i: int| 0 <= i < s.len() ==> #[trigger] s[i] != c
}

/// Whether a text holds no white space.
pub open spec fn is_without_space(s: Seq<char>) -> bool {
    forall|i: int| 0 <= i < s.len() ==> !is_space(#[trigger] s[i])
}

/// Texts with `c` between them.
pub open spec fn joined(parts: Seq<Seq<char>>, c: char) -> Seq<char>
    decreases parts.len(),
{
    if parts.len() == 0 {
        Seq::empty()
    } else if parts.len() == 1 {
        parts[0]
    } else {
        parts[0] + seq![c] + joined(parts.drop_first(), c)
    }
}

/// What is found first is the first.
pub proof fn lemma_find(s: Seq<char>, c: char)
    ensures
        0 <= find(s, c) <= s.len(),
        is_without(s.take(find(s, c)), c),
        find(s, c) < s.len() ==> s[find(s, c)] == c,
    decreases s.len(),
{
    if s.len() > 0 && s[0] != c {
        let rest = s.skip(1);
        lemma_find(rest, c);
        let j = find(s, c);
        assert forall|i: int| 0 <= i < j implies #[trigger] s.take(j)[i] != c by {
            if i > 0 {
                assert(rest.take(j - 1)[i - 1] == s[i]);
            }
        }
    }
}

/// A character behind a text without it is found there.
pub proof fn lemma_find_behind(a: Seq<char>, c: char, b: Seq<char>)
    requires
        is_without(a, c),
    ensures
        find(a + seq![c] + b, c) == a.len(),
    decreases a.len(),
{
    let s = a + seq![c] + b;
    if a.len() > 0 {
        let rest = a.skip(1);
        assert forall|i: int| 0 <= i < rest.len() implies #[trigger] rest[i] != c by {
            assert(a[i + 1] != c);
        }
        lemma_find_behind(rest, c, b);
        assert(s.skip(1) =~= rest + seq![c] + b);
        assert(s[0] == a[0]);
    } else {
        assert(s[0] == c);
    }
}

/// A character that is not there is not found.
pub proof fn lemma_not_found(a: Seq<char>, c: char)
    requires
        is_without(a, c),
    ensures
        find(a, c) == a.len(),
    decreases a.len(),
{
    if a.len() > 0 {
        let rest = a.skip(1);
        assert forall|i: int| 0 <= i < rest.len() implies #[trigger] rest[i] != c by {
            assert(a[i + 1] != c);
        }
        lemma_not_found(rest, c);
        assert(a[0] != c);
    }
}

/// The parts of a text, with the separator between them, are the text again, and no part
/// holds the separator.
pub proof fn law_parts_join_to_the_text(s: Seq<char>, c: char)
    ensures
        split(s, c).len() >= 1,
        joined(split(s, c), c) == s,
        forall|k: int| 0 <= k < split(s, c).len() ==> is_without(#[trigger] split(s, c)[k], c),
    decreases s.len(),
{
    lemma_find(s, c);
    let j = find(s, c);
    let parts = split(s, c);
    if j < s.len() {
        let rest = s.skip(j + 1);
        law_parts_join_to_the_text(rest, c);
        assert(parts.drop_first() =~= split(rest, c));
        assert(joined(parts, c) =~= s);
        assert forall|k: int| 0 <= k < parts.len() implies is_without(#[trigger] parts[k], c) by {
            if k > 0 {
                assert(parts[k] == split(rest, c)[k - 1]);
            }
        }
    } else {
        assert(s.take(j) =~= s);
        assert(parts[0] == s);
    }
}

/// Texts without the separator, joined with it, are parted into themselves.
pub proof fn law_joined_texts_are_parted(parts: Seq<Seq<char>>, c: char)
    requires
        parts.len() >= 1,
        forall|k: int| 0 <= k < parts.len() ==> is_without(#[trigger] parts[k], c),
    ensures
        split(joined(parts, c), c) == parts,
    decreases parts.len(),
{
    let s = joined(parts, c);
    assert(is_without(parts[0], c));
    if parts.len() == 1 {
        lemma_not_found(s, c);
        assert(split(s, c) =~= parts);
    } else {
        let rest = parts.drop_first();
        assert forall|k: int| 0 <= k < rest.len() implies is_without(#[trigger] rest[k], c) by {
            assert(is_without(parts[k + 1], c));
        }
        law_joined_texts_are_parted(rest, c);
        lemma_find_behind(parts[0], c, joined(rest, c));
        let j = parts[0].len() as int;
        assert(s.take(j) =~= parts[0]);
        assert(s.skip(j + 1) =~= joined(rest, c));
        assert(split(s, c) =~= parts);
    }
}

/// A text is cut at its first separator.
pub proof fn law_the_first_separator_cuts(a: Seq<char>, c: char, b: Seq<char>)
    requires
        is_without(a, c),
    ensures
        split_once(a + seq![c] + b, c) == Some((a, b)),
        split_once(a, c) is None,
{
    lemma_find_behind(a, c, b);
    lemma_not_found(a, c);
    let s = a + seq![c] + b;
    assert(s.take(a.len() as int) =~= a);
    assert(s.skip(a.len() as int + 1) =~= b);
}

/// White space behind a word.
pub proof fn lemma_find_space_behind(word: Seq<char>, rest: Seq<char>)
    requires
        is_without_space(word),
        rest.len() == 0 || is_space(rest[0]),
    ensures
        find_space(word + rest) == word.len(),
    decreases word.len(),
{
    let s = word + rest;
    if word.len() > 0 {
        let later = word.skip(1);
        assert forall|i: int| 0 <= i < later.len() implies !is_space(#[trigger] later[i]) by {
            assert(!is_space(word[i + 1]));
        }
        lemma_find_space_behind(later, rest);
        assert(s.skip(1) =~= later + rest);
        assert(s[0] == word[0]);
    } else if rest.len() > 0 {
        assert(s[0] == rest[0]);
    }
}

/// A word is one field, and white space is none.
pub proof fn law_a_word_is_one_field(word: Seq<char>)
    requires
        is_without_space(word),
    ensures
        word.len() > 0 ==> fields(word) == seq![word],
        word.len() == 0 ==> fields(word).len() == 0,
{
    if word.len() > 0 {
        let none = Seq::<char>::empty();
        lemma_find_space_behind(word, none);
        assert(word + none =~= word);
        assert(!is_space(word[0]));
        assert(word.take(word.len() as int) =~= word);
        assert(word.skip(word.len() as int) =~= none);
        assert(fields(none) =~= Seq::<Seq<char>>::empty());
        assert(fields(word) =~= seq![word]);
    }
}

/// White space parts fields, and does nothing else.
pub proof fn law_white_space_parts_fields(a: Seq<char>, space: char, b: Seq<char>)
    requires
        is_space(space),
    ensures
        fields(a + seq![space] + b) == fields(a) + fields(b),
    decreases a.len(),
{
    let s = a + seq![space] + b;
    if a.len() == 0 {
        assert(s[0] == space);
        assert(s.skip(1) =~= b);
        assert(fields(a) + fields(b) =~= fields(b));
    } else if is_space(a[0]) {
        assert(s[0] == a[0]);
        assert(s.skip(1) =~= a.skip(1) + seq![space] + b);
        law_white_space_parts_fields(a.skip(1), space, b);
    } else {
        lemma_find_space(a);
        let j = find_space(a);
        let word = a.take(j);
        let rest = a.skip(j) + seq![space] + b;
        assert(s[0] == a[0]);
        assert(s =~= word + rest);
        lemma_first_space(a);
        assert(rest[0] == if j < a.len() {
            a[j]
        } else {
            space
        });
        lemma_find_space_behind(word, rest);
        assert(s.take(j) =~= word);
        assert(s.skip(j) =~= rest);
        law_white_space_parts_fields(a.skip(j), space, b);
        assert(j > 0);
        assert(fields(s) == seq![word] + fields(rest));
        assert(fields(a) == seq![word] + fields(a.skip(j)));
        assert(fields(s) =~= fields(a) + fields(b));
    }
}

/// The first white space of a text.
proof fn lemma_first_space(s: Seq<char>)
    ensures
        0 <= find_space(s) <= s.len(),
        is_without_space(s.take(find_space(s))),
        find_space(s) < s.len() ==> is_space(s[find_space(s)]),
        s.len() > 0 && !is_space(s[0]) ==> find_space(s) > 0,
    decreases s.len(),
{
    if s.len() > 0 && !is_space(s[0]) {
        let rest = s.skip(1);
        lemma_first_space(rest);
        let j = find_space(s);
        assert forall|i: int| 0 <= i < j implies !is_space(#[trigger] s.take(j)[i]) by {
            if i > 0 {
                assert(rest.take(j - 1)[i - 1] == s[i]);
            }
        }
    }
}

/// A line that ends with a line feed, with or without a carriage return in front of it, comes
/// before the lines behind it.
pub proof fn law_line_ends_part_lines(line: Seq<char>, rest: Seq<char>)
    requires
        is_without(line, '\n'),
    ensures
        lines(line + seq!['\r', '\n'] + rest) == seq![line] + lines(rest),
        !(line.len() > 0 && line.last() == '\r') ==> lines(line + seq!['\n'] + rest) == seq![line]
            + lines(rest),
        line.len() > 0 ==> lines(line) == seq![line],
{
    let returned = line + seq!['\r'];
    assert forall|i: int| 0 <= i < returned.len() implies #[trigger] returned[i] != '\n' by {
        if i < line.len() {
            assert(line[i] != '\n');
        }
    }
    let s = line + seq!['\r', '\n'] + rest;
    assert(s =~= returned + seq!['\n'] + rest);
    lemma_find_behind(returned, '\n', rest);
    assert(s.take(returned.len() as int) =~= returned);
    assert(s.skip(returned.len() as int + 1) =~= rest);
    assert(returned.drop_last() =~= line);
    assert(without_return(returned) == line);
    let t = line + seq!['\n'] + rest;
    lemma_find_behind(line, '\n', rest);
    assert(t.take(line.len() as int) =~= line);
    assert(t.skip(line.len() as int + 1) =~= rest);
    lemma_not_found(line, '\n');
}

/// White space around a text goes, and nothing else.
pub proof fn law_trimming_takes_white_space(front: Seq<char>, s: Seq<char>, back: Seq<char>)
    requires
        forall|i: int| 0 <= i < front.len() ==> is_space(#[trigger] front[i]),
        forall|i: int| 0 <= i < back.len() ==> is_space(#[trigger] back[i]),
        s.len() > 0 ==> !is_space(s[0]) && !is_space(s.last()),
    ensures
        trim(front + s + back) == s,
{
    lemma_trim_start(front, s + back);
    assert(front + (s + back) =~= front + s + back);
    if s.len() > 0 {
        assert((s + back)[0] == s[0]);
        assert(trim_start(s + back) == s + back);
        lemma_trim_end(s, back);
    } else {
        let none = Seq::<char>::empty();
        lemma_trim_start(back, none);
        assert(back + none =~= s + back);
        assert(trim_start(none) =~= none);
        assert(trim_end(none) =~= s);
    }
}

/// White space in front goes.
proof fn lemma_trim_start(front: Seq<char>, s: Seq<char>)
    requires
        forall|i: int| 0 <= i < front.len() ==> is_space(#[trigger] front[i]),
    ensures
        trim_start(front + s) == trim_start(s),
    decreases front.len(),
{
    if front.len() > 0 {
        let rest = front.skip(1);
        assert forall|i: int| 0 <= i < rest.len() implies is_space(#[trigger] rest[i]) by {
            assert(is_space(front[i + 1]));
        }
        lemma_trim_start(rest, s);
        assert((front + s)[0] == front[0]);
        assert((front + s).skip(1) =~= rest + s);
    } else {
        assert(front + s =~= s);
    }
}

/// White space behind goes.
proof fn lemma_trim_end(s: Seq<char>, back: Seq<char>)
    requires
        forall|i: int| 0 <= i < back.len() ==> is_space(#[trigger] back[i]),
        s.len() > 0,
        !is_space(s.last()),
    ensures
        trim_end(s + back) == s,
    decreases back.len(),
{
    if back.len() > 0 {
        let rest = back.drop_last();
        assert forall|i: int| 0 <= i < rest.len() implies is_space(#[trigger] rest[i]) by {
            assert(is_space(back[i]));
        }
        lemma_trim_end(s, rest);
        assert((s + back).last() == back.last());
        assert(is_space(back[back.len() - 1]));
        assert((s + back).drop_last() =~= s + rest);
    } else {
        assert(s + back =~= s);
    }
}

/// Whether `p` stands in a text that is longer.
pub proof fn lemma_kept(a: Seq<char>, b: Seq<char>, p: Seq<char>)
    ensures
        contains(a, p) ==> contains(a + b, p),
        contains(b, p) ==> contains(a + b, p),
{
    let s = a + b;
    if contains(a, p) {
        let i = choose|i: int| 0 <= i <= a.len() && #[trigger] starts_with(a.skip(i), p);
        assert(s.skip(i).take(p.len() as int) =~= a.skip(i).take(p.len() as int));
        assert(starts_with(s.skip(i), p));
    }
    if contains(b, p) {
        let i = choose|i: int| 0 <= i <= b.len() && #[trigger] starts_with(b.skip(i), p);
        assert(s.skip(a.len() + i) =~= b.skip(i));
        assert(starts_with(s.skip(a.len() + i), p));
    }
}

/// A part of a text stands in it.
pub proof fn lemma_part(s: Seq<char>, i: int, p: Seq<char>)
    requires
        0 <= i,
        i + p.len() <= s.len(),
        s.subrange(i, i + p.len()) == p,
    ensures
        contains(s, p),
{
    assert(s.skip(i).take(p.len() as int) =~= s.subrange(i, i + p.len()));
    assert(starts_with(s.skip(i), p));
}

/// A text stands in itself.
pub proof fn lemma_itself(p: Seq<char>)
    ensures
        contains(p, p),
{
    assert(p.subrange(0, p.len() as int) =~= p);
    lemma_part(p, 0, p);
}

} // verus!
