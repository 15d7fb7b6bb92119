//! Character classes and string helpers shared by the validators and the
//! request logic.

use vstd::prelude::*;

verus! {

/// Whether `c` has the Unicode `Alphabetic` or `Numeric` property, which is
/// what `char::is_alphanumeric` decides.
pub uninterp spec fn unicode_alphanumeric(c: char) -> bool;

/// Whether `c` has the Unicode `White_Space` property, which is what
/// `char::is_whitespace` decides.
pub uninterp spec fn unicode_whitespace(c: char) -> bool;

/// An ASCII letter or digit.
pub open spec fn ascii_alphanumeric(c: char) -> bool {
    ('a' <= c <= 'z') || ('A' <= c <= 'Z') || ('0' <= c <= '9')
}

/// An ASCII character with the Unicode `White_Space` property: space, tab,
/// line feed, vertical tab, form feed or carriage return.
pub open spec fn ascii_white_space(c: char) -> bool {
    c == ' ' || ('\t' <= c <= '\r')
}

/// Calls `char::is_alphanumeric` of std. Claimed: the answer is the Unicode
/// alphanumeric class of `c` and depends on `c` alone, and among ASCII
/// characters exactly the letters and digits are in it; which other characters
/// are in the class is left to std's Unicode tables.
#[verifier::external_body]
pub(crate) fn char_is_alphanumeric(c: char) -> (r: bool)
    ensures
        r == unicode_alphanumeric(c),
        c <= '\x7f' ==> (r <==> ascii_alphanumeric(c)),
{
    c.is_alphanumeric()
}

/// Calls `char::is_whitespace` of std. Claimed: the answer is the Unicode
/// `White_Space` class of `c` and depends on `c` alone; among ASCII
/// characters exactly space, tab, line feed, vertical tab, form feed and
/// carriage return are in it; and no character in it is alphanumeric, since
/// the `White_Space` characters are controls and separators, none of them a
/// letter or a number.
#[verifier::external_body]
pub(crate) fn char_is_whitespace(c: char) -> (r: bool)
    ensures
        r == unicode_whitespace(c),
        c <= '\x7f' ==> (r <==> ascii_white_space(c)),
        r ==> !unicode_alphanumeric(c),
{
    c.is_whitespace()
}

/// What the credential rules read of one character.
#[derive(Clone, Copy, Debug, PartialEq, Eq)]
pub struct CharClass {
    pub alphanumeric: bool,
    pub whitespace: bool,
    pub underscore: bool,
}

/// The class of a character.
pub open spec fn class_of(c: char) -> CharClass {
    CharClass {
        alphanumeric: unicode_alphanumeric(c),
        whitespace: unicode_whitespace(c),
        underscore: c == '_',
    }
}

/// The classes of the characters of `s`, in order.
pub open spec fn classes_of(s: Seq<char>) -> Seq<CharClass> {
    s.map_values(|c: char| class_of(c))
}

/// A class that a character can have: whitespace is neither a letter, a
/// digit nor an underscore.
pub open spec fn possible_class(k: CharClass) -> bool {
    k.whitespace ==> !k.alphanumeric && !k.underscore
}

/// Every class of `cs` is one that a character can have.
pub open spec fn possible_classes(cs: Seq<CharClass>) -> bool {
    forall|i: int| 0 <= i < cs.len() ==> possible_class(#[trigger] cs[i])
}

/// Classifies one character; an ASCII character is alphanumeric exactly when
/// it is a letter or digit, and whitespace exactly when it is a space, tab,
/// line feed, vertical tab, form feed or carriage return.
pub fn classify(c: char) -> (r: CharClass)
    ensures
        r == class_of(c),
        c <= '\x7f' ==> r.alphanumeric == ascii_alphanumeric(c) && r.whitespace == ascii_white_space(c),
        possible_class(r),
{
    CharClass {
        alphanumeric: char_is_alphanumeric(c),
        whitespace: char_is_whitespace(c),
        underscore: c == '_',
    }
}

/// Classifies every character of `s`, in order.
pub fn classify_all(s: &str) -> (r: Vec<CharClass>)
    ensures
        r@ == classes_of(s@),
        possible_classes(r@),
{
    let n = s.unicode_len();
    let mut out: Vec<CharClass> = Vec::new();
    let mut i: usize = 0;
    while i < n
        invariant
            n == s@.len(),
            i <= n,
            out@ == classes_of(s@).take(i as int),
            possible_classes(out@),
        decreases n - i,
    {
        let c = s.get_char(i);
        out.push(classify(c));
        i = i + 1;
        assert(out@ == classes_of(s@).take(i as int));
    }
    assert(classes_of(s@).take(n as int) == classes_of(s@));
    out
}

} // verus!

verus! {

/// The text that `Debug` writes for the string `s`: the string quoted, with
/// the characters that need it escaped.
pub uninterp spec fn debug_quoted(s: Seq<char>) -> Seq<char>;

/// Calls the `Debug` formatting of `str` in std. Claimed: the text depends on
/// `s` alone; the escaping rules are left to std.
#[verifier::external_body]
pub(crate) fn debug_string(s: &str) -> (r: String)
    ensures
        r@ == debug_quoted(s@),
{
    format!("{s:?}")
}

/// Calls `String::from_utf8` of std, which takes the bytes when they are valid
/// UTF-8 and refuses them otherwise. Claimed: success exactly on valid UTF-8,
/// and then the string holds the decoded characters.
#[verifier::external_body]
pub(crate) fn string_from_utf8(bytes: Vec<u8>) -> (r: Option<String>)
    ensures
        r is Some <==> vstd::utf8::valid_utf8(bytes@),
        r matches Some(s) ==> s@ == vstd::utf8::decode_utf8(bytes@),
{
    String::from_utf8(bytes).ok()
}

} // verus!

verus! {

/// Calls `String::push` of std, which appends one character.
#[verifier::external_body]
pub(crate) fn push_char(s: &mut String, c: char)
    ensures
        final(s)@ == old(s)@.push(c),
{
    s.push(c);
}

/// The characters of `s`, in order.
pub fn chars_of(s: &str) -> (v: Vec<char>)
    ensures
        v@ == s@,
{
    let n = s.unicode_len();
    let mut v: Vec<char> = Vec::new();
    let mut i: usize = 0;
    while i < n
        invariant
            n == s@.len(),
            i <= n,
            v@ == s@.take(i as int),
        decreases n - i,
    {
        v.push(s.get_char(i));
        i = i + 1;
        assert(v@ == s@.take(i as int));
    }
    assert(s@.take(n as int) == s@);
    v
}

/// The string made of `v[lo..hi]`.
pub fn string_of_range(v: &Vec<char>, lo: usize, hi: usize) -> (r: String)
    requires
        lo <= hi <= v@.len(),
    ensures
        r@ == v@.subrange(lo as int, hi as int),
{
    let mut r = String::new();
    let mut i: usize = lo;
    while i < hi
        invariant
            lo <= i <= hi <= v@.len(),
            r@ == v@.subrange(lo as int, i as int),
        decreases hi - i,
    {
        push_char(&mut r, v[i]);
        i = i + 1;
        assert(r@ == v@.subrange(lo as int, i as int));
    }
    r
}

/// `p` is a prefix of `s`.
pub open spec fn has_prefix(s: Seq<char>, p: Seq<char>) -> bool {
    p.len() <= s.len() && s.take(p.len() as int) == p
}

/// `p` is a suffix of `s`.
pub open spec fn has_suffix(s: Seq<char>, p: Seq<char>) -> bool {
    p.len() <= s.len() && s.skip(s.len() - p.len()) == p
}

/// `p` occurs in `s` at position `i`.
pub open spec fn occurs_at(s: Seq<char>, i: int, p: Seq<char>) -> bool {
    0 <= i && i + p.len() <= s.len() && s.subrange(i, i + p.len()) == p
}

/// Whether `p` occurs in `s` at position `i`.
pub fn matches_at(s: &Vec<char>, i: usize, p: &Vec<char>) -> (r: bool)
    ensures
        r == occurs_at(s@, i as int, p@),
{
    if i > s.len() || p.len() > s.len() - i {
        return false;
    }
    let mut k: usize = 0;
    while k < p.len()
        invariant
            i + p@.len() <= s@.len(),
            s@.len() == s.len(),
            k <= p@.len(),
            forall|j: int| 0 <= j < k ==> s@[i + j] == p@[j],
        decreases p@.len() - k,
    {
        if s[i + k] != p[k] {
            assert(s@.subrange(i as int, i + p@.len())[k as int] != p@[k as int]);
            return false;
        }
        k = k + 1;
    }
    assert(s@.subrange(i as int, i + p@.len()) == p@);
    true
}

/// Whether `s` starts with `p`.
pub fn starts_with(s: &Vec<char>, p: &Vec<char>) -> (r: bool)
    ensures
        r == has_prefix(s@, p@),
{
    let r = matches_at(s, 0, p);
    proof {
        if p@.len() <= s@.len() {
            assert(s@.subrange(0, p@.len() as int) == s@.take(p@.len() as int));
        }
    }
    r
}

/// Whether `s` ends with `p`.
pub fn ends_with(s: &Vec<char>, p: &Vec<char>) -> (r: bool)
    ensures
        r == has_suffix(s@, p@),
{
    if p.len() > s.len() {
        return false;
    }
    let r = matches_at(s, s.len() - p.len(), p);
    assert(s@.subrange(s@.len() - p@.len(), s@.len() as int) == s@.skip(s@.len() - p@.len()));
    r
}

/// `s` with every leading `c` removed.
pub open spec fn trim_start_char(s: Seq<char>, c: char) -> Seq<char>
    decreases s.len(),
{
    if s.len() > 0 && s[0] == c {
        trim_start_char(s.drop_first(), c)
    } else {
        s
    }
}

/// `s` with every trailing `c` removed.
pub open spec fn trim_end_char(s: Seq<char>, c: char) -> Seq<char>
    decreases s.len(),
{
    if s.len() > 0 && s.last() == c {
        trim_end_char(s.drop_last(), c)
    } else {
        s
    }
}

/// `s` with every leading whitespace character removed.
pub open spec fn trim_start_whitespace(s: Seq<char>) -> Seq<char>
    decreases s.len(),
{
    if s.len() > 0 && unicode_whitespace(s[0]) {
        trim_start_whitespace(s.drop_first())
    } else {
        s
    }
}

/// `s` with every trailing whitespace character removed.
pub open spec fn trim_end_whitespace(s: Seq<char>) -> Seq<char>
    decreases s.len(),
{
    if s.len() > 0 && unicode_whitespace(s.last()) {
        trim_end_whitespace(s.drop_last())
    } else {
        s
    }
}

/// `s` with leading and trailing whitespace removed.
pub open spec fn trim_whitespace(s: Seq<char>) -> Seq<char> {
    trim_end_whitespace(trim_start_whitespace(s))
}

/// `s` with every leading occurrence of `p` removed, one after the other; an
/// empty `p` removes nothing.
pub open spec fn trim_start_seq(s: Seq<char>, p: Seq<char>) -> Seq<char>
    decreases s.len(),
{
    if p.len() > 0 && has_prefix(s, p) {
        trim_start_seq(s.skip(p.len() as int), p)
    } else {
        s
    }
}

/// `s` with every occurrence of `from`, scanned from the left without
/// overlap, replaced by `to`; an empty `from` replaces nothing.
pub open spec fn replace_all(s: Seq<char>, from: Seq<char>, to: Seq<char>) -> Seq<char>
    decreases s.len(),
{
    if s.len() == 0 {
        s
    } else if from.len() > 0 && has_prefix(s, from) {
        to + replace_all(s.skip(from.len() as int), from, to)
    } else {
        seq![s[0]] + replace_all(s.drop_first(), from, to)
    }
}

/// How many characters a run of `c` at the start of `v` has.
fn leading_run(v: &Vec<char>, c: char) -> (k: usize)
    ensures
        k <= v@.len(),
        trim_start_char(v@, c) == v@.skip(k as int),
{
    let mut k: usize = 0;
    assert(v@.skip(0) == v@);
    while k < v.len() && v[k] == c
        invariant
            k <= v@.len(),
            trim_start_char(v@, c) == trim_start_char(v@.skip(k as int), c),
        decreases v@.len() - k,
    {
        assert(v@.skip(k as int).drop_first() == v@.skip(k + 1));
        k = k + 1;
    }
    k
}

/// How many characters of `v[..end]` remain once the trailing run of `c` is cut.
fn trailing_run_end(v: &Vec<char>, end: usize, c: char) -> (k: usize)
    requires
        end <= v@.len(),
    ensures
        k <= end,
        trim_end_char(v@.take(end as int), c) == v@.take(k as int),
{
    let mut k: usize = end;
    while k > 0 && v[k - 1] == c
        invariant
            k <= end <= v@.len(),
            trim_end_char(v@.take(end as int), c) == trim_end_char(v@.take(k as int), c),
        decreases k,
    {
        assert(v@.take(k as int).drop_last() == v@.take(k - 1));
        k = k - 1;
    }
    k
}

/// `s` with every leading `c` removed.
pub fn trim_start_matches_char(s: &str, c: char) -> (r: String)
    ensures
        r@ == trim_start_char(s@, c),
{
    let v = chars_of(s);
    let k = leading_run(&v, c);
    string_of_range(&v, k, v.len())
}

/// `s` with every trailing `c` removed.
pub fn trim_end_matches_char(s: &str, c: char) -> (r: String)
    ensures
        r@ == trim_end_char(s@, c),
{
    let v = chars_of(s);
    let k = trailing_run_end(&v, v.len(), c);
    assert(v@.take(v@.len() as int) == v@);
    string_of_range(&v, 0, k)
}

/// `s` with every leading and trailing `c` removed.
pub fn trim_matches_char(s: &str, c: char) -> (r: String)
    ensures
        r@ == trim_end_char(trim_start_char(s@, c), c),
{
    let v = chars_of(s);
    let lo = leading_run(&v, c);
    let mut hi: usize = v.len();
    let ghost t = v@.skip(lo as int);
    while hi > lo && v[hi - 1] == c
        invariant
            lo <= hi <= v@.len(),
            t == v@.skip(lo as int),
            trim_end_char(t, c) == trim_end_char(v@.subrange(lo as int, hi as int), c),
        decreases hi,
    {
        assert(v@.subrange(lo as int, hi as int).drop_last() == v@.subrange(lo as int, hi - 1));
        hi = hi - 1;
    }
    assert(t == v@.subrange(lo as int, v@.len() as int));
    string_of_range(&v, lo, hi)
}

/// `s` with leading and trailing whitespace removed.
pub fn trim_whitespace_str(s: &str) -> (r: String)
    ensures
        r@ == trim_whitespace(s@),
{
    let v = chars_of(s);
    let mut lo: usize = 0;
    assert(v@.skip(0) == v@);
    while lo < v.len() && char_is_whitespace(v[lo])
        invariant
            lo <= v@.len(),
            trim_start_whitespace(v@) == trim_start_whitespace(v@.skip(lo as int)),
        decreases v@.len() - lo,
    {
        assert(v@.skip(lo as int).drop_first() == v@.skip(lo + 1));
        lo = lo + 1;
    }
    assert(lo < v@.len() ==> v@.skip(lo as int)[0] == v@[lo as int]);
    let mut hi: usize = v.len();
    let ghost t = v@.skip(lo as int);
    while hi > lo && char_is_whitespace(v[hi - 1])
        invariant
            lo <= hi <= v@.len(),
            t == v@.skip(lo as int),
            trim_end_whitespace(t) == trim_end_whitespace(v@.subrange(lo as int, hi as int)),
        decreases hi,
    {
        assert(v@.subrange(lo as int, hi as int).drop_last() == v@.subrange(lo as int, hi - 1));
        hi = hi - 1;
    }
    assert(t == v@.subrange(lo as int, v@.len() as int));
    string_of_range(&v, lo, hi)
}

/// `s` with every leading occurrence of `p` removed.
pub fn trim_start_matches_str(s: &str, p: &str) -> (r: String)
    ensures
        r@ == trim_start_seq(s@, p@),
{
    let v = chars_of(s);
    let pv = chars_of(p);
    let mut k: usize = 0;
    assert(v@.skip(0) == v@);
    if pv.len() > 0 {
        while matches_at(&v, k, &pv)
            invariant
                k <= v@.len(),
                v@.len() == v.len(),
                pv@.len() > 0,
                trim_start_seq(v@, pv@) == trim_start_seq(v@.skip(k as int), pv@),
            decreases v@.len() - k,
        {
            assert(occurs_at(v@, k as int, pv@));
            assert(v@.subrange(k as int, k + pv@.len()) == v@.skip(k as int).take(pv@.len() as int));
            assert(v@.skip(k as int).skip(pv@.len() as int) == v@.skip(k + pv@.len()));
            k = k + pv.len();
        }
        assert(!has_prefix(v@.skip(k as int), pv@)) by {
            if pv@.len() <= v@.skip(k as int).len() {
                assert(v@.subrange(k as int, k + pv@.len()) == v@.skip(k as int).take(pv@.len() as int));
            }
        }
    }
    assert(v@.skip(0) == v@);
    string_of_range(&v, k, v.len())
}

/// `s` with every occurrence of `from` replaced by `to`.
pub fn replace_all_str(s: &str, from: &str, to: &str) -> (r: String)
    ensures
        r@ == replace_all(s@, from@, to@),
{
    let v = chars_of(s);
    let fv = chars_of(from);
    let mut out = String::new();
    let mut i: usize = 0;
    assert(v@.skip(0) == v@);
    while i < v.len()
        invariant
            i <= v@.len(),
            fv@ == from@,
            replace_all(v@, from@, to@) == out@ + replace_all(v@.skip(i as int), from@, to@),
        decreases v@.len() - i,
    {
        let ghost rest = v@.skip(i as int);
        if fv.len() > 0 && matches_at(&v, i, &fv) {
            assert(v@.subrange(i as int, i + fv@.len()) == rest.take(fv@.len() as int));
            assert(rest.skip(fv@.len() as int) == v@.skip(i + fv@.len()));
            out.append(to);
            i = i + fv.len();
        } else {
            proof {
                if fv@.len() > 0 && has_prefix(rest, fv@) {
                    assert(v@.subrange(i as int, i + fv@.len()) == rest.take(fv@.len() as int));
                }
            }
            assert(rest.drop_first() == v@.skip(i + 1));
            assert(rest[0] == v@[i as int]);
            push_char(&mut out, v[i]);
            i = i + 1;
        }
    }
    assert(v@.skip(i as int).len() == 0);
    out
}

} // verus!

verus! {

/// Whether `a` and `b` hold the same characters.
pub fn str_eq(a: &str, b: &str) -> (r: bool)
    ensures
        r == (a@ == b@),
{
    let av = chars_of(a);
    let bv = chars_of(b);
    if av.len() != bv.len() {
        return false;
    }
    let r = matches_at(&av, 0, &bv);
    proof {
        if r {
            assert(av@.subrange(0, bv@.len() as int) == av@);
        } else {
            assert(av@.subrange(0, bv@.len() as int) == av@);
        }
    }
    r
}

/// Whether `a` and `b` hold the same bytes.
pub fn bytes_eq(a: &[u8], b: &[u8]) -> (r: bool)
    ensures
        r == (a@ == b@),
{
    if a.len() != b.len() {
        return false;
    }
    let mut i: usize = 0;
    while i < a.len()
        invariant
            a@.len() == b@.len(),
            i <= a@.len(),
            forall|j: int| 0 <= j < i ==> a@[j] == b@[j],
        decreases a@.len() - i,
    {
        if a[i] != b[i] {
            return false;
        }
        i = i + 1;
    }
    assert(a@ == b@);
    true
}

/// The decimal digits of `n`, most significant first, without leading zeros.
pub open spec fn decimal(n: nat) -> Seq<char>
    decreases n,
{
    if n < 10 {
        seq![(48 + n) as char]
    } else {
        decimal(n / 10).push((48 + n % 10) as char)
    }
}

/// The decimal digits of `n`.
pub fn decimal_string(n: u64) -> (r: String)
    ensures
        r@ == decimal(n as nat),
    decreases n,
{
    if n < 10 {
        let mut r = String::new();
        push_char(&mut r, ((48 + n) as u8) as char);
        assert(r@ == seq![(48 + n) as char]);
        r
    } else {
        let mut r = decimal_string(n / 10);
        push_char(&mut r, ((48 + n % 10) as u8) as char);
        r
    }
}

} // verus!

verus! {

/// What is left after cutting a trailing run of `c` does not end in `c`.
pub proof fn lemma_trim_end_char_shape(s: Seq<char>, c: char)
    ensures
        trim_end_char(s, c).len() == 0 || trim_end_char(s, c).last() != c,
    decreases s.len(),
{
    if s.len() > 0 && s.last() == c {
        lemma_trim_end_char_shape(s.drop_last(), c);
    }
}

/// What is left after cutting a leading run of `c` does not start with `c`,
/// and cutting again changes nothing.
pub proof fn lemma_trim_start_char_shape(s: Seq<char>, c: char)
    ensures
        trim_start_char(s, c).len() == 0 || trim_start_char(s, c)[0] != c,
        trim_start_char(trim_start_char(s, c), c) == trim_start_char(s, c),
    decreases s.len(),
{
    if s.len() > 0 && s[0] == c {
        lemma_trim_start_char_shape(s.drop_first(), c);
    }
}

/// Leading whitespace cut once is cut for good.
pub proof fn lemma_trim_start_whitespace_shape(s: Seq<char>)
    ensures
        trim_start_whitespace(s).len() == 0 || !unicode_whitespace(trim_start_whitespace(s)[0]),
        trim_start_whitespace(trim_start_whitespace(s)) == trim_start_whitespace(s),
    decreases s.len(),
{
    if s.len() > 0 && unicode_whitespace(s[0]) {
        lemma_trim_start_whitespace_shape(s.drop_first());
    }
}

/// Cutting trailing whitespace keeps a prefix, and cutting it again changes
/// nothing.
pub proof fn lemma_trim_end_whitespace_shape(s: Seq<char>)
    ensures
        trim_end_whitespace(s).len() <= s.len(),
        trim_end_whitespace(s) == s.take(trim_end_whitespace(s).len() as int),
        trim_end_whitespace(s).len() == 0 || !unicode_whitespace(trim_end_whitespace(s).last()),
        trim_end_whitespace(trim_end_whitespace(s)) == trim_end_whitespace(s),
    decreases s.len(),
{
    if s.len() > 0 && unicode_whitespace(s.last()) {
        lemma_trim_end_whitespace_shape(s.drop_last());
        let t = trim_end_whitespace(s.drop_last());
        assert(s.drop_last().take(t.len() as int) == s.take(t.len() as int));
    } else {
        assert(s.take(s.len() as int) == s);
    }
}

/// Cutting leading whitespace keeps `s` from its first character that is not
/// whitespace on: everything cut is whitespace.
pub proof fn lemma_trim_start_whitespace_skip(s: Seq<char>) -> (a: int)
    ensures
        0 <= a <= s.len(),
        trim_start_whitespace(s) == s.skip(a),
        forall|i: int| 0 <= i < a ==> unicode_whitespace(#[trigger] s[i]),
        a < s.len() ==> !unicode_whitespace(s[a]),
    decreases s.len(),
{
    if s.len() > 0 && unicode_whitespace(s[0]) {
        let t = s.drop_first();
        let a1 = lemma_trim_start_whitespace_skip(t);
        assert(t.skip(a1) == s.skip(a1 + 1));
        assert forall|i: int| 0 <= i < a1 + 1 implies unicode_whitespace(#[trigger] s[i]) by {
            if i > 0 {
                assert(s[i] == t[i - 1]);
            }
        }
        if a1 + 1 < s.len() {
            assert(s[a1 + 1] == t[a1]);
        }
        a1 + 1
    } else {
        assert(s.skip(0) == s);
        0
    }
}

/// Cutting trailing whitespace keeps `s` up to its last character that is not
/// whitespace: everything cut is whitespace.
pub proof fn lemma_trim_end_whitespace_take(s: Seq<char>) -> (b: int)
    ensures
        0 <= b <= s.len(),
        trim_end_whitespace(s) == s.take(b),
        forall|i: int| b <= i < s.len() ==> unicode_whitespace(#[trigger] s[i]),
        b > 0 ==> !unicode_whitespace(s[b - 1]),
    decreases s.len(),
{
    if s.len() > 0 && unicode_whitespace(s.last()) {
        let t = s.drop_last();
        let b1 = lemma_trim_end_whitespace_take(t);
        assert(t.take(b1) == s.take(b1));
        assert forall|i: int| b1 <= i < s.len() implies unicode_whitespace(#[trigger] s[i]) by {
            if i < s.len() - 1 {
                assert(s[i] == t[i]);
            }
        }
        if b1 > 0 {
            assert(s[b1 - 1] == t[b1 - 1]);
        }
        b1
    } else {
        assert(s.take(s.len() as int) == s);
        s.len() as int
    }
}

/// Trimming whitespace keeps the stretch of `s` from its first to its last
/// character that is not whitespace: everything cut is whitespace, and what
/// is kept neither starts nor ends with whitespace. So nothing is kept exactly
/// when `s` is all whitespace.
pub proof fn lemma_trim_whitespace_span(s: Seq<char>) -> (r: (int, int))
    ensures
        0 <= r.0 <= r.1 <= s.len(),
        trim_whitespace(s) == s.subrange(r.0, r.1),
        forall|i: int| 0 <= i < r.0 ==> unicode_whitespace(#[trigger] s[i]),
        forall|i: int| r.1 <= i < s.len() ==> unicode_whitespace(#[trigger] s[i]),
        r.0 < r.1 ==> !unicode_whitespace(s[r.0]) && !unicode_whitespace(s[r.1 - 1]),
        trim_whitespace(s).len() == 0 <==> forall|i: int| 0 <= i < s.len() ==> unicode_whitespace(#[trigger] s[i]),
{
    let a = lemma_trim_start_whitespace_skip(s);
    let t = s.skip(a);
    let b = lemma_trim_end_whitespace_take(t);
    assert(t.take(b) == s.subrange(a, a + b));
    assert forall|i: int| a + b <= i < s.len() implies unicode_whitespace(#[trigger] s[i]) by {
        assert(s[i] == t[i - a]);
    }
    if b > 0 {
        assert(s[a] == t[0]);
        assert(s[a + b - 1] == t[b - 1]);
    }
    if trim_whitespace(s).len() == 0 {
        assert forall|i: int| 0 <= i < s.len() implies unicode_whitespace(#[trigger] s[i]) by {
            if a <= i && i < a + b {
                assert(false);
            }
        }
    }
    if forall|i: int| 0 <= i < s.len() ==> unicode_whitespace(#[trigger] s[i]) {
        if b > 0 {
            assert(unicode_whitespace(s[a]));
        }
    }
    (a, a + b)
}

/// Cutting a leading run of `c` keeps `s` from its first character other
/// than `c` on: everything cut is `c`.
pub proof fn lemma_trim_start_char_skip(s: Seq<char>, c: char) -> (a: int)
    ensures
        0 <= a <= s.len(),
        trim_start_char(s, c) == s.skip(a),
        forall|i: int| 0 <= i < a ==> #[trigger] s[i] == c,
        a < s.len() ==> s[a] != c,
    decreases s.len(),
{
    if s.len() > 0 && s[0] == c {
        let t = s.drop_first();
        let a1 = lemma_trim_start_char_skip(t, c);
        assert(t.skip(a1) == s.skip(a1 + 1));
        assert forall|i: int| 0 <= i < a1 + 1 implies #[trigger] s[i] == c by {
            if i > 0 {
                assert(s[i] == t[i - 1]);
            }
        }
        if a1 + 1 < s.len() {
            assert(s[a1 + 1] == t[a1]);
        }
        a1 + 1
    } else {
        assert(s.skip(0) == s);
        0
    }
}

/// Cutting the leading copies of a non-empty `p` from `p` followed by text
/// that does not start with `p` leaves that text.
pub proof fn lemma_trim_start_seq_once(p: Seq<char>, r: Seq<char>)
    requires
        p.len() > 0,
        !has_prefix(r, p),
    ensures
        trim_start_seq(p + r, p) == r,
{
    let s = p + r;
    assert(s.take(p.len() as int) == p);
    assert(s.skip(p.len() as int) == r);
    assert(trim_start_seq(r, p) == r);
}

/// Cutting a trailing run of `c` keeps `s` up to its last character other
/// than `c`: everything cut is `c`.
pub proof fn lemma_trim_end_char_take(s: Seq<char>, c: char) -> (b: int)
    ensures
        0 <= b <= s.len(),
        trim_end_char(s, c) == s.take(b),
        forall|i: int| b <= i < s.len() ==> #[trigger] s[i] == c,
        b > 0 ==> s[b - 1] != c,
    decreases s.len(),
{
    if s.len() > 0 && s.last() == c {
        let t = s.drop_last();
        let b1 = lemma_trim_end_char_take(t, c);
        assert(t.take(b1) == s.take(b1));
        assert forall|i: int| b1 <= i < s.len() implies #[trigger] s[i] == c by {
            if i < s.len() - 1 {
                assert(s[i] == t[i]);
            }
        }
        if b1 > 0 {
            assert(s[b1 - 1] == t[b1 - 1]);
        }
        b1
    } else {
        assert(s.take(s.len() as int) == s);
        s.len() as int
    }
}

/// Trimming whitespace twice gives what trimming once gives.
pub proof fn lemma_trim_whitespace_idempotent(s: Seq<char>)
    ensures
        trim_whitespace(trim_whitespace(s)) == trim_whitespace(s),
{
    let a = trim_start_whitespace(s);
    let t = trim_end_whitespace(a);
    lemma_trim_start_whitespace_shape(s);
    lemma_trim_end_whitespace_shape(a);
    // `t` is a prefix of `a`, so it starts like `a` when it is not empty.
    if t.len() > 0 {
        assert(t[0] == a[0]);
        assert(!unicode_whitespace(t[0]));
    }
    assert(trim_start_whitespace(t) == t);
}

} // verus!

verus! {

/// Text that holds no character starting `from` is kept as it is in front of
/// what replacing `from` makes of the rest.
pub proof fn lemma_replace_all_plain_front(x: Seq<char>, y: Seq<char>, from: Seq<char>, to: Seq<char>)
    requires
        from.len() > 0,
        forall|i: int| 0 <= i < x.len() ==> x[i] != from[0],
    ensures
        replace_all(x + y, from, to) == x + replace_all(y, from, to),
    decreases x.len(),
{
    if x.len() == 0 {
        assert(x + y == y);
    } else {
        let s = x + y;
        assert(s[0] == x[0]);
        if from.len() <= s.len() {
            assert(s.take(from.len() as int)[0] == s[0]);
        }
        assert(s.drop_first() == x.drop_first() + y);
        lemma_replace_all_plain_front(x.drop_first(), y, from, to);
        assert(seq![x[0]] + (x.drop_first() + replace_all(y, from, to)) == x + replace_all(y, from, to));
    }
}

/// `from` at the front is replaced by `to`.
pub proof fn lemma_replace_all_at_front(y: Seq<char>, from: Seq<char>, to: Seq<char>)
    requires
        from.len() > 0,
    ensures
        replace_all(from + y, from, to) == to + replace_all(y, from, to),
{
    let s = from + y;
    assert(s.take(from.len() as int) == from);
    assert(s.skip(from.len() as int) == y);
}

/// Text in which `from` does not occur is left as it is by replacing `from`.
pub proof fn lemma_replace_all_absent(s: Seq<char>, from: Seq<char>, to: Seq<char>)
    requires
        forall|i: int| 0 <= i < s.len() ==> !#[trigger] occurs_at(s, i, from),
    ensures
        replace_all(s, from, to) == s,
    decreases s.len(),
{
    if s.len() > 0 {
        if from.len() > 0 && has_prefix(s, from) {
            assert(s.subrange(0, from.len() as int) == s.take(from.len() as int));
            assert(occurs_at(s, 0, from));
        }
        let t = s.drop_first();
        assert forall|i: int| 0 <= i < t.len() implies !#[trigger] occurs_at(t, i, from) by {
            if occurs_at(t, i, from) {
                assert(t.subrange(i, i + from.len()) == s.subrange(i + 1, i + 1 + from.len()));
                assert(occurs_at(s, i + 1, from));
            }
        }
        lemma_replace_all_absent(t, from, to);
        assert(seq![s[0]] + t == s);
    }
}

} // verus!
