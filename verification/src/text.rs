//! Text handled as sequences of characters: trimming, splitting, comparing,
//! and reading and writing decimal numbers.
use vstd::prelude::*;

verus! {

// ---------------------------------------------------------------------------
// What the pieces of a text are
// ---------------------------------------------------------------------------

/// The characters with the Unicode `White_Space` property.
pub open spec fn is_space(c: char) -> bool {
    ||| '\u{9}' <= c <= '\u{d}'
    ||| c == '\u{20}'
    ||| c == '\u{85}'
    ||| c == '\u{a0}'
    ||| c == '\u{1680}'
    ||| '\u{2000}' <= c <= '\u{200a}'
    ||| c == '\u{2028}'
    ||| c == '\u{2029}'
    ||| c == '\u{202f}'
    ||| c == '\u{205f}'
    ||| c == '\u{3000}'
}

/// `s` without the white space it starts with.
pub open spec fn trim_start(s: Seq<char>) -> Seq<char>
    decreases s.len(),
{
    if s.len() > 0 && is_space(s[0]) {
        trim_start(s.skip(1))
    } else {
        s
    }
}

/// `s` without the white space it ends with.
pub open spec fn trim_end(s: Seq<char>) -> Seq<char>
    decreases s.len(),
{
    if s.len() > 0 && is_space(s.last()) {
        trim_end(s.drop_last())
    } else {
        s
    }
}

/// `s` without the white space around it.
pub open spec fn trim(s: Seq<char>) -> Seq<char> {
    trim_end(trim_start(s))
}

/// How many characters of `s` come before the first `c`; all of them when
/// there is no `c`.
pub open spec fn find(s: Seq<char>, c: char) -> int
    decreases s.len(),
{
    if s.len() == 0 || s[0] == c {
        0
    } else {
        1 + find(s.skip(1), c)
    }
}

/// The text before the first `c`, and the text after it.
pub open spec fn split_once(s: Seq<char>, c: char) -> Option<(Seq<char>, Seq<char>)> {
    let i = find(s, c);
    if i < s.len() {
        Some((s.take(i), s.skip(i + 1)))
    } else {
        None
    }
}

/// The pieces of `cur + s` between separators, where `cur` is the piece that
/// is being gathered (it holds no separator).
pub open spec fn split_from(s: Seq<char>, cur: Seq<char>, sep: char) -> Seq<Seq<char>>
    decreases s.len(),
{
    if s.len() == 0 {
        seq![cur]
    } else if s[0] == sep {
        seq![cur] + split_from(s.skip(1), Seq::empty(), sep)
    } else {
        split_from(s.skip(1), cur.push(s[0]), sep)
    }
}

/// The pieces of `s` between separators: always one more than there are
/// separators.
pub open spec fn split(s: Seq<char>, sep: char) -> Seq<Seq<char>> {
    split_from(s, Seq::empty(), sep)
}

/// The words of `cur + s`, where `cur` is the word that is being gathered.
pub open spec fn words_from(s: Seq<char>, cur: Seq<char>) -> Seq<Seq<char>>
    decreases s.len(),
{
    if s.len() == 0 {
        if cur.len() == 0 {
            Seq::empty()
        } else {
            seq![cur]
        }
    } else if is_space(s[0]) {
        if cur.len() == 0 {
            words_from(s.skip(1), cur)
        } else {
            seq![cur] + words_from(s.skip(1), Seq::empty())
        }
    } else {
        words_from(s.skip(1), cur.push(s[0]))
    }
}

/// The maximal runs of characters that are not white space.
pub open spec fn words(s: Seq<char>) -> Seq<Seq<char>> {
    words_from(s, Seq::empty())
}

/// A line without the carriage return that may stand before its line feed.
pub open spec fn without_return(line: Seq<char>) -> Seq<char> {
    if line.len() > 0 && line.last() == '\r' {
        line.drop_last()
    } else {
        line
    }
}

/// The lines of `cur + s`, where `cur` is the line that is being gathered.
pub open spec fn lines_from(s: Seq<char>, cur: Seq<char>) -> Seq<Seq<char>>
    decreases s.len(),
{
    if s.len() == 0 {
        if cur.len() == 0 {
            Seq::empty()
        } else {
            seq![cur]
        }
    } else if s[0] == '\n' {
        seq![without_return(cur)] + lines_from(s.skip(1), Seq::empty())
    } else {
        lines_from(s.skip(1), cur.push(s[0]))
    }
}

/// The lines of `s`: each ends in a line feed, or in a carriage return and a
/// line feed, which are not part of it; the last may end with the text.
pub open spec fn lines(s: Seq<char>) -> Seq<Seq<char>> {
    lines_from(s, Seq::empty())
}

pub open spec fn starts_with(s: Seq<char>, p: Seq<char>) -> bool {
    p.len() <= s.len() && s.take(p.len() as int) == p
}

pub open spec fn ends_with(s: Seq<char>, p: Seq<char>) -> bool {
    p.len() <= s.len() && s.skip(s.len() - p.len()) == p
}

/// Whether `p` stands in `s` at position `i`.
pub open spec fn occurs_at(s: Seq<char>, p: Seq<char>, i: int) -> bool {
    0 <= i && i + p.len() <= s.len() && s.subrange(i, i + p.len()) == p
}

/// Whether `p` stands anywhere in `s`.
pub open spec fn occurs(s: Seq<char>, p: Seq<char>) -> bool {
    exists|i: int| occurs_at(s, p, i)
}

/// What follows `p` on the first of the lines `ls` that starts with it.
pub open spec fn after_prefix(ls: Seq<Seq<char>>, p: Seq<char>) -> Option<Seq<char>>
    decreases ls.len(),
{
    if ls.len() == 0 {
        None
    } else if starts_with(ls[0], p) {
        Some(ls[0].skip(p.len() as int))
    } else {
        after_prefix(ls.skip(1), p)
    }
}

/// Whether `s` spells the lower-case word `w`, in whatever case its ASCII
/// letters are.
pub open spec fn spells(s: Seq<char>, w: Seq<char>) -> bool {
    &&& s.len() == w.len()
    &&& forall|i: int| 0 <= i < s.len() ==> is_letter(#[trigger] s[i], w[i])
}

/// Whether `c` is `l`, or the capital of the ASCII letter `l`.
pub open spec fn is_letter(c: char, l: char) -> bool {
    c == l || ('a' <= l <= 'z' && c as int + 32 == l as int)
}

/// The order of two texts: by their first different character, and a text
/// before its extensions.
pub open spec fn before(a: Seq<char>, b: Seq<char>) -> bool
    decreases a.len(),
{
    if b.len() == 0 {
        false
    } else if a.len() == 0 {
        true
    } else if a[0] == b[0] {
        before(a.skip(1), b.skip(1))
    } else {
        a[0] < b[0]
    }
}

/// The contents of a list of character lists.
pub open spec fn rows(v: Seq<Vec<char>>) -> Seq<Seq<char>> {
    v.map_values(|x: Vec<char>| x@)
}

/// The contents of a list of strings.
pub open spec fn texts(v: Seq<String>) -> Seq<Seq<char>> {
    v.map_values(|x: String| x@)
}

/// The content of an optional string.
pub open spec fn text_of(v: Option<String>) -> Option<Seq<char>> {
    match v {
        Some(s) => Some(s@),
        None => None,
    }
}

/// `parts` with `sep` between them.
pub open spec fn join(parts: Seq<Seq<char>>, sep: Seq<char>) -> Seq<char>
    decreases parts.len(),
{
    if parts.len() == 0 {
        Seq::empty()
    } else if parts.len() == 1 {
        parts[0]
    } else {
        join(parts.drop_last(), sep) + sep + parts.last()
    }
}

/// Whether `f` may answer `r` for the text `t`.
pub open spec fn answers<R, F: Fn(&str) -> R>(f: F, t: Seq<char>, r: R) -> bool {
    exists|s: &str| s@ == t && #[trigger] call_ensures(f, (s,), r)
}

/// Whether `f` can be asked about every text.
pub open spec fn total<R, F: Fn(&str) -> R>(f: F) -> bool {
    forall|s: &str| call_requires(f, (s,))
}

// ---------------------------------------------------------------------------
// Decimal numbers
// ---------------------------------------------------------------------------

pub open spec fn is_digit(c: char) -> bool {
    '0' <= c <= '9'
}

pub open spec fn all_digits(s: Seq<char>) -> bool {
    forall|i: int| 0 <= i < s.len() ==> is_digit(#[trigger] s[i])
}

/// The number that a row of digits writes.
pub open spec fn digits_value(s: Seq<char>) -> nat
    decreases s.len(),
{
    if s.len() == 0 {
        0
    } else {
        digits_value(s.drop_last()) * 10 + (s.last() as nat - '0' as nat) as nat
    }
}

/// The number that `s` writes: one digit or more, and a sign before them: `+`,
/// or `-` where `signed` admits it.
pub open spec fn written(s: Seq<char>, signed: bool) -> Option<int> {
    let negative = signed && s.len() > 0 && s[0] == '-';
    let digits = if s.len() > 0 && (s[0] == '+' || negative) {
        s.skip(1)
    } else {
        s
    };
    if digits.len() > 0 && all_digits(digits) {
        Some(
            if negative {
                -(digits_value(digits) as int)
            } else {
                digits_value(digits) as int
            },
        )
    } else {
        None
    }
}

/// The number that `s` writes, if it lies between `lo` and `hi`.
pub open spec fn written_within(s: Seq<char>, lo: int, hi: int) -> Option<int> {
    match written(s, lo < 0) {
        Some(n) => if lo <= n <= hi {
            Some(n)
        } else {
            None
        },
        None => None,
    }
}

/// The decimal digits of `n`.
pub open spec fn decimal(n: nat) -> Seq<char>
    decreases n,
{
    if n < 10 {
        seq![digit_char(n)]
    } else {
        decimal(n / 10).push(digit_char(n % 10))
    }
}

/// The digit that writes `d`.
pub open spec fn digit_char(d: nat) -> char {
    ('0' as nat + d) as char
}

// ---------------------------------------------------------------------------
// Building blocks
// ---------------------------------------------------------------------------

/// `String::push`: the string afterwards is the string before, with `ch` at
/// its end.
pub assume_specification[ String::push ](s: &mut String, ch: char)
    ensures
        final(s)@ == old(s)@.push(ch),
;

pub fn is_space_char(c: char) -> (r: bool)
    ensures
        r == is_space(c),
{
    ('\u{9}' <= c && c <= '\u{d}') || c == '\u{20}' || c == '\u{85}' || c == '\u{a0}' || c
        == '\u{1680}' || ('\u{2000}' <= c && c <= '\u{200a}') || c == '\u{2028}' || c == '\u{2029}'
        || c == '\u{202f}' || c == '\u{205f}' || c == '\u{3000}'
}

/// The characters of a string.
pub fn chars_of(s: &str) -> (out: Vec<char>)
    ensures
        out@ == s@,
{
    let mut out: Vec<char> = Vec::new();
    for c in it: s.chars()
        invariant
            out@ == it.seq().take(it.index() as int),
            it.seq() == s@,
    {
        out.push(c);
    }
    proof {
        assert(s@.take(s@.len() as int) =~= s@);
    }
    out
}

/// Part of a character list, as a string.
pub fn string_of(cs: &Vec<char>, from: usize, to: usize) -> (out: String)
    requires
        from <= to <= cs.len(),
    ensures
        out@ == cs@.subrange(from as int, to as int),
{
    let mut out: String = String::new();
    let mut i: usize = from;
    while i < to
        invariant
            from <= i <= to <= cs.len(),
            out@ == cs@.subrange(from as int, i as int),
        decreases to - i,
    {
        out.push(cs[i]);
        i = i + 1;
    }
    out
}

/// A character list, as a string.
pub fn whole(cs: &Vec<char>) -> (out: String)
    ensures
        out@ == cs@,
{
    proof {
        assert(cs@.subrange(0, cs@.len() as int) =~= cs@);
    }
    string_of(cs, 0, cs.len())
}

/// Part of a character list.
pub fn part(cs: &Vec<char>, from: usize, to: usize) -> (out: Vec<char>)
    requires
        from <= to <= cs.len(),
    ensures
        out@ == cs@.subrange(from as int, to as int),
{
    let mut out: Vec<char> = Vec::new();
    let mut i: usize = from;
    while i < to
        invariant
            from <= i <= to <= cs.len(),
            out@ == cs@.subrange(from as int, i as int),
        decreases to - i,
    {
        out.push(cs[i]);
        i = i + 1;
    }
    out
}

/// A copy of a string slice.
pub fn copy(s: &str) -> (out: String)
    ensures
        out@ == s@,
{
    s.to_owned()
}

/// `a` followed by `b`.
pub fn concat(a: &str, b: &str) -> (out: String)
    ensures
        out@ == a@ + b@,
{
    let mut out: String = a.to_owned();
    out.append(b);
    out
}

/// `a`, `b` and `c` in a row.
pub fn concat3(a: &str, b: &str, c: &str) -> (out: String)
    ensures
        out@ == a@ + b@ + c@,
{
    let mut out: String = concat(a, b);
    out.append(c);
    out
}

/// Whether two character lists are the same.
pub fn same_chars(a: &Vec<char>, b: &Vec<char>) -> (r: bool)
    ensures
        r == (a@ == b@),
{
    if a.len() != b.len() {
        return false;
    }
    let mut i: usize = 0;
    while i < a.len()
        invariant
            a.len() == b.len(),
            i <= a.len(),
            forall|j: int| 0 <= j < i ==> a@[j] == b@[j],
        decreases a.len() - i,
    {
        if a[i] != b[i] {
            assert(a@[i as int] != b@[i as int]);
            return false;
        }
        i = i + 1;
    }
    proof {
        assert(a@ =~= b@);
    }
    true
}

/// Whether two texts are the same.
pub fn same(a: &str, b: &str) -> (r: bool)
    ensures
        r == (a@ == b@),
{
    same_chars(&chars_of(a), &chars_of(b))
}

/// Whether a character list holds the text `t`.
pub fn is_text(cs: &Vec<char>, t: &str) -> (r: bool)
    ensures
        r == (cs@ == t@),
{
    same_chars(cs, &chars_of(t))
}

/// Whether `p` stands in `cs` at position `at`.
pub fn matches_at(cs: &Vec<char>, p: &Vec<char>, at: usize) -> (r: bool)
    ensures
        r == occurs_at(cs@, p@, at as int),
{
    if at > cs.len() || p.len() > cs.len() - at {
        return false;
    }
    let mut j: usize = 0;
    while j < p.len()
        invariant
            at + p.len() <= cs.len(),
            j <= p.len(),
            forall|k: int| 0 <= k < j ==> #[trigger] cs@[at + k] == p@[k],
        decreases p.len() - j,
    {
        if cs[at + j] != p[j] {
            proof {
                assert(cs@.subrange(at as int, at + p.len())[j as int] == cs@[at + j]);
            }
            return false;
        }
        j = j + 1;
    }
    proof {
        let here = cs@.subrange(at as int, at + p.len());
        assert forall|k: int| 0 <= k < p@.len() implies here[k] == p@[k] by {
            assert(cs@[at + k] == p@[k]);
        }
        assert(here =~= p@);
    }
    true
}

/// Whether `cs` starts with `p`.
pub fn has_prefix(cs: &Vec<char>, p: &str) -> (r: bool)
    ensures
        r == starts_with(cs@, p@),
{
    let p: Vec<char> = chars_of(p);
    proof {
        if p.len() <= cs.len() {
            assert(cs@.take(p@.len() as int) =~= cs@.subrange(0, p@.len() as int));
        }
    }
    matches_at(cs, &p, 0)
}

/// Whether `cs` ends with `p`.
pub fn has_suffix(cs: &Vec<char>, p: &str) -> (r: bool)
    ensures
        r == ends_with(cs@, p@),
{
    let p: Vec<char> = chars_of(p);
    if p.len() > cs.len() {
        return false;
    }
    proof {
        assert(cs@.skip(cs@.len() - p@.len()) =~= cs@.subrange(
            cs@.len() - p@.len(),
            cs@.len() as int,
        ));
    }
    matches_at(cs, &p, cs.len() - p.len())
}

/// Whether `p` stands anywhere in `cs`.
pub fn has_text(cs: &Vec<char>, p: &Vec<char>) -> (r: bool)
    ensures
        r == occurs(cs@, p@),
{
    let mut i: usize = 0;
    while i < cs.len()
        invariant
            i <= cs.len(),
            forall|k: int| 0 <= k < i ==> !occurs_at(cs@, p@, k),
        decreases cs.len() - i,
    {
        if matches_at(cs, p, i) {
            return true;
        }
        i = i + 1;
    }
    matches_at(cs, p, i)
}

/// Where the first `c` at or after `from` stands, or the end of the list.
pub fn find_from(cs: &Vec<char>, from: usize, c: char) -> (r: usize)
    requires
        from <= cs.len(),
    ensures
        from <= r <= cs.len(),
        r - from == find(cs@.skip(from as int), c),
{
    let mut i: usize = from;
    while i < cs.len() && cs[i] != c
        invariant
            from <= i <= cs.len(),
            find(cs@.skip(from as int), c) == (i - from) + find(cs@.skip(i as int), c),
        decreases cs.len() - i,
    {
        proof {
            let rest = cs@.skip(i as int);
            assert(rest[0] == cs@[i as int]);
            assert(rest.skip(1) =~= cs@.skip(i + 1));
        }
        i = i + 1;
    }
    proof {
        if i < cs.len() {
            assert(cs@.skip(i as int)[0] == cs@[i as int]);
        }
    }
    i
}

pub proof fn lemma_find_within(s: Seq<char>, c: char)
    ensures
        0 <= find(s, c) <= s.len(),
        find(s, c) < s.len() ==> s[find(s, c)] == c,
        forall|i: int| 0 <= i < find(s, c) ==> s[i] != c,
    decreases s.len(),
{
    if s.len() > 0 && s[0] != c {
        lemma_find_within(s.skip(1), c);
        assert forall|i: int| 0 <= i < find(s, c) implies s[i] != c by {
            if i > 0 {
                assert(s.skip(1)[i - 1] == s[i]);
            }
        }
    }
}

/// The text before the first `c`, and the text after it.
pub fn cut(cs: &Vec<char>, c: char) -> (r: Option<(Vec<char>, Vec<char>)>)
    ensures
        match r {
            Some((a, b)) => split_once(cs@, c) == Some((a@, b@)),
            None => split_once(cs@, c) is None,
        },
{
    let i: usize = find_from(cs, 0, c);
    proof {
        assert(cs@.skip(0) =~= cs@);
    }
    if i == cs.len() {
        return None;
    }
    proof {
        assert(cs@.take(i as int) =~= cs@.subrange(0, i as int));
        assert(cs@.skip(i + 1) =~= cs@.subrange(i + 1, cs@.len() as int));
    }
    Some((part(cs, 0, i), part(cs, i + 1, cs.len())))
}

/// A character list without the white space around it.
pub fn trimmed(cs: &Vec<char>) -> (out: Vec<char>)
    ensures
        out@ == trim(cs@),
{
    let n: usize = cs.len();
    let mut i: usize = 0;
    proof {
        assert(cs@.skip(0) =~= cs@);
    }
    while i < n && is_space_char(cs[i])
        invariant
            n == cs.len(),
            i <= n,
            trim_start(cs@) == trim_start(cs@.skip(i as int)),
        decreases n - i,
    {
        proof {
            assert(cs@.skip(i as int)[0] == cs@[i as int]);
            assert(cs@.skip(i as int).skip(1) =~= cs@.skip(i + 1));
        }
        i = i + 1;
    }
    proof {
        if i < n {
            assert(cs@.skip(i as int)[0] == cs@[i as int]);
        }
        assert(trim_start(cs@) == cs@.skip(i as int));
    }
    let mut j: usize = n;
    proof {
        assert(cs@.subrange(i as int, n as int) =~= cs@.skip(i as int));
    }
    while j > i && is_space_char(cs[j - 1])
        invariant
            n == cs.len(),
            i <= j <= n,
            trim(cs@) == trim_end(cs@.subrange(i as int, j as int)),
        decreases j - i,
    {
        proof {
            let rest = cs@.subrange(i as int, j as int);
            assert(rest.last() == cs@[j - 1]);
            assert(rest.drop_last() =~= cs@.subrange(i as int, j - 1));
        }
        j = j - 1;
    }
    proof {
        let rest = cs@.subrange(i as int, j as int);
        if j > i {
            assert(rest.last() == cs@[j - 1]);
        }
    }
    part(cs, i, j)
}

/// The pieces of a character list between separators.
pub fn pieces(cs: &Vec<char>, sep: char) -> (out: Vec<Vec<char>>)
    ensures
        rows(out@) == split(cs@, sep),
{
    let mut out: Vec<Vec<char>> = Vec::new();
    let mut cur: Vec<char> = Vec::new();
    let mut i: usize = 0;
    proof {
        assert(cs@.skip(0) =~= cs@);
        assert(rows(out@) + split_from(cs@, cur@, sep) =~= split_from(cs@, cur@, sep));
    }
    while i < cs.len()
        invariant
            i <= cs.len(),
            split(cs@, sep) == rows(out@) + split_from(cs@.skip(i as int), cur@, sep),
        decreases cs.len() - i,
    {
        proof {
            assert(cs@.skip(i as int)[0] == cs@[i as int]);
            assert(cs@.skip(i as int).skip(1) =~= cs@.skip(i + 1));
        }
        if cs[i] == sep {
            let ghost before = out@;
            let ghost done = cur@;
            out.push(cur);
            cur = Vec::new();
            proof {
                assert(rows(out@) =~= rows(before).push(done));
                assert(rows(before) + (seq![done] + split_from(cs@.skip(i + 1), cur@, sep))
                    =~= rows(out@) + split_from(cs@.skip(i + 1), cur@, sep));
            }
        } else {
            cur.push(cs[i]);
        }
        i = i + 1;
    }
    let ghost before = out@;
    let ghost done = cur@;
    out.push(cur);
    proof {
        assert(rows(out@) =~= rows(before) + seq![done]);
    }
    out
}

/// The words of a character list.
pub fn words_of(cs: &Vec<char>) -> (out: Vec<Vec<char>>)
    ensures
        rows(out@) == words(cs@),
{
    let mut out: Vec<Vec<char>> = Vec::new();
    let mut cur: Vec<char> = Vec::new();
    let mut i: usize = 0;
    proof {
        assert(cs@.skip(0) =~= cs@);
        assert(rows(out@) + words_from(cs@, cur@) =~= words_from(cs@, cur@));
    }
    while i < cs.len()
        invariant
            i <= cs.len(),
            words(cs@) == rows(out@) + words_from(cs@.skip(i as int), cur@),
        decreases cs.len() - i,
    {
        proof {
            assert(cs@.skip(i as int)[0] == cs@[i as int]);
            assert(cs@.skip(i as int).skip(1) =~= cs@.skip(i + 1));
        }
        if is_space_char(cs[i]) {
            if cur.len() > 0 {
                let ghost before = out@;
                let ghost done = cur@;
                out.push(cur);
                cur = Vec::new();
                proof {
                    assert(rows(out@) =~= rows(before).push(done));
                    assert(rows(before) + (seq![done] + words_from(cs@.skip(i + 1), cur@)) =~= rows(
                        out@,
                    ) + words_from(cs@.skip(i + 1), cur@));
                }
            }
        } else {
            cur.push(cs[i]);
        }
        i = i + 1;
    }
    let ghost before = out@;
    let ghost done = cur@;
    if cur.len() > 0 {
        out.push(cur);
        proof {
            assert(rows(out@) =~= rows(before) + seq![done]);
        }
    } else {
        proof {
            assert(rows(out@) =~= rows(out@) + Seq::<Seq<char>>::empty());
        }
    }
    out
}

/// The lines of a character list.
pub fn lines_of(cs: &Vec<char>) -> (out: Vec<Vec<char>>)
    ensures
        rows(out@) == lines(cs@),
{
    let mut out: Vec<Vec<char>> = Vec::new();
    let mut cur: Vec<char> = Vec::new();
    let mut i: usize = 0;
    proof {
        assert(cs@.skip(0) =~= cs@);
        assert(rows(out@) + lines_from(cs@, cur@) =~= lines_from(cs@, cur@));
    }
    while i < cs.len()
        invariant
            i <= cs.len(),
            lines(cs@) == rows(out@) + lines_from(cs@.skip(i as int), cur@),
        decreases cs.len() - i,
    {
        proof {
            assert(cs@.skip(i as int)[0] == cs@[i as int]);
            assert(cs@.skip(i as int).skip(1) =~= cs@.skip(i + 1));
        }
        if cs[i] == '\n' {
            let ghost before = out@;
            let ghost done = without_return(cur@);
            if cur.len() > 0 && cur[cur.len() - 1] == '\r' {
                let _ = cur.pop();
            }
            out.push(cur);
            cur = Vec::new();
            proof {
                assert(rows(out@) =~= rows(before).push(done));
                assert(rows(before) + (seq![done] + lines_from(cs@.skip(i + 1), cur@)) =~= rows(
                    out@,
                ) + lines_from(cs@.skip(i + 1), cur@));
            }
        } else {
            cur.push(cs[i]);
        }
        i = i + 1;
    }
    let ghost before = out@;
    let ghost done = cur@;
    if cur.len() > 0 {
        out.push(cur);
        proof {
            assert(rows(out@) =~= rows(before) + seq![done]);
        }
    } else {
        proof {
            assert(rows(out@) =~= rows(out@) + Seq::<Seq<char>>::empty());
        }
    }
    out
}

/// What follows `p` on the first line of `cs` that starts with it.
pub fn line_after(cs: &Vec<char>, p: &str) -> (r: Option<Vec<char>>)
    ensures
        match r {
            Some(v) => after_prefix(lines(cs@), p@) == Some(v@),
            None => after_prefix(lines(cs@), p@) is None,
        },
{
    let ls: Vec<Vec<char>> = lines_of(cs);
    let n: usize = chars_of(p).len();
    let ghost all = rows(ls@);
    let mut i: usize = 0;
    proof {
        assert(all.skip(0) =~= all);
    }
    while i < ls.len()
        invariant
            i <= ls.len(),
            n == p@.len(),
            all == rows(ls@),
            all == lines(cs@),
            after_prefix(all.skip(i as int), p@) == after_prefix(all, p@),
        decreases ls.len() - i,
    {
        proof {
            assert(all.skip(i as int)[0] == ls@[i as int]@);
            assert(all.skip(i as int).skip(1) =~= all.skip(i + 1));
        }
        if has_prefix(&ls[i], p) {
            proof {
                assert(ls@[i as int]@.skip(n as int) =~= ls@[i as int]@.subrange(
                    n as int,
                    ls@[i as int]@.len() as int,
                ));
            }
            return Some(part(&ls[i], n, ls[i].len()));
        }
        i = i + 1;
    }
    None
}

/// Whether `s` spells the lower-case word `w`, in whatever case its ASCII
/// letters are.
pub fn spells_word(s: &str, w: &str) -> (r: bool)
    ensures
        r == spells(s@, w@),
{
    let a: Vec<char> = chars_of(s);
    let b: Vec<char> = chars_of(w);
    if a.len() != b.len() {
        return false;
    }
    let mut i: usize = 0;
    while i < a.len()
        invariant
            i <= a.len(),
            a.len() == b.len(),
            a@ == s@,
            b@ == w@,
            forall|k: int| 0 <= k < i ==> is_letter(#[trigger] a@[k], b@[k]),
        decreases a.len() - i,
    {
        let c: char = a[i];
        let l: char = b[i];
        if !(c == l || ('a' <= l && l <= 'z' && 'A' <= c && c <= 'Z' && c as u32 + 32 == l as u32)) {
            proof {
                assert(!is_letter(a@[i as int], b@[i as int]));
            }
            return false;
        }
        i = i + 1;
    }
    true
}

/// Whether `a` comes before `b` in the order of texts.
pub fn comes_before(a: &str, b: &str) -> (r: bool)
    ensures
        r == before(a@, b@),
{
    let x: Vec<char> = chars_of(a);
    let y: Vec<char> = chars_of(b);
    let mut i: usize = 0;
    proof {
        assert(x@.skip(0) =~= x@);
        assert(y@.skip(0) =~= y@);
    }
    while i < x.len() && i < y.len()
        invariant
            x@ == a@,
            y@ == b@,
            i <= x.len(),
            i <= y.len(),
            before(a@, b@) == before(x@.skip(i as int), y@.skip(i as int)),
        decreases x.len() - i,
    {
        proof {
            assert(x@.skip(i as int)[0] == x@[i as int]);
            assert(y@.skip(i as int)[0] == y@[i as int]);
            assert(x@.skip(i as int).skip(1) =~= x@.skip(i + 1));
            assert(y@.skip(i as int).skip(1) =~= y@.skip(i + 1));
        }
        if x[i] != y[i] {
            return x[i] < y[i];
        }
        i = i + 1;
    }
    i < y.len()
}

/// Whether `t` is one of `list`.
pub fn is_listed(list: &Vec<String>, t: &str) -> (r: bool)
    ensures
        r == texts(list@).contains(t@),
{
    let mut i: usize = 0;
    while i < list.len()
        invariant
            i <= list.len(),
            forall|j: int| 0 <= j < i ==> list@[j]@ != t@,
        decreases list.len() - i,
    {
        if same(list[i].as_str(), t) {
            proof {
                assert(texts(list@)[i as int] == t@);
            }
            return true;
        }
        i = i + 1;
    }
    proof {
        assert forall|j: int| 0 <= j < texts(list@).len() implies texts(list@)[j] != t@ by {
            assert(texts(list@)[j] == list@[j]@);
        }
    }
    false
}

/// `parts` with `sep` between them.
pub fn joined(parts: &Vec<String>, sep: &str) -> (out: String)
    ensures
        out@ == join(texts(parts@), sep@),
{
    let mut out: String = String::new();
    let mut i: usize = 0;
    proof {
        assert(texts(parts@).take(0) =~= Seq::<Seq<char>>::empty());
    }
    while i < parts.len()
        invariant
            i <= parts.len(),
            out@ == join(texts(parts@).take(i as int), sep@),
        decreases parts.len() - i,
    {
        proof {
            let next = texts(parts@).take(i + 1);
            assert(next.drop_last() =~= texts(parts@).take(i as int));
            assert(next.last() == parts@[i as int]@);
        }
        if i > 0 {
            out.append(sep);
        }
        out.append(parts[i].as_str());
        proof {
            let next = texts(parts@).take(i + 1);
            if i == 0 {
                assert(out@ =~= next[0]);
            }
        }
        i = i + 1;
    }
    proof {
        assert(texts(parts@).take(parts@.len() as int) =~= texts(parts@));
    }
    out
}

/// The strings that a list of character lists holds.
pub fn strings_of(v: &Vec<Vec<char>>) -> (out: Vec<String>)
    ensures
        texts(out@) == rows(v@),
{
    let mut out: Vec<String> = Vec::new();
    let mut i: usize = 0;
    while i < v.len()
        invariant
            i <= v.len(),
            out.len() == i,
            forall|j: int| 0 <= j < i ==> out@[j]@ == v@[j]@,
        decreases v.len() - i,
    {
        out.push(whole(&v[i]));
        i = i + 1;
    }
    proof {
        assert(texts(out@) =~= rows(v@));
    }
    out
}

/// A copy of a list of strings.
pub fn copies(v: &Vec<String>) -> (out: Vec<String>)
    ensures
        texts(out@) == texts(v@),
{
    let mut out: Vec<String> = Vec::new();
    let mut i: usize = 0;
    while i < v.len()
        invariant
            i <= v.len(),
            out.len() == i,
            forall|j: int| 0 <= j < i ==> out@[j]@ == v@[j]@,
        decreases v.len() - i,
    {
        out.push(copy(v[i].as_str()));
        i = i + 1;
    }
    proof {
        assert(texts(out@) =~= texts(v@));
    }
    out
}

/// A copy of an optional string.
pub fn copy_opt(v: &Option<String>) -> (out: Option<String>)
    ensures
        text_of(out) == text_of(*v),
{
    match v {
        Some(s) => Some(copy(s.as_str())),
        None => None,
    }
}

/// Whether every character of a list from `from` on is a digit.
fn digits_from(cs: &Vec<char>, from: usize) -> (r: bool)
    requires
        from <= cs.len(),
    ensures
        r == all_digits(cs@.skip(from as int)),
{
    let mut i: usize = from;
    while i < cs.len()
        invariant
            from <= i <= cs.len(),
            forall|j: int| from <= j < i ==> is_digit(#[trigger] cs@[j]),
        decreases cs.len() - i,
    {
        if !('0' <= cs[i] && cs[i] <= '9') {
            proof {
                assert(cs@.skip(from as int)[i - from] == cs@[i as int]);
            }
            return false;
        }
        i = i + 1;
    }
    true
}

proof fn lemma_digits_grow(s: Seq<char>, n: int)
    requires
        all_digits(s),
        0 <= n <= s.len(),
    ensures
        digits_value(s.take(n)) <= digits_value(s),
    decreases s.len() - n,
{
    if n < s.len() {
        lemma_digits_grow(s, n + 1);
        assert(s.take(n + 1).drop_last() =~= s.take(n));
        assert(s.take(n + 1).last() == s[n]);
        assert(is_digit(s[n]));
    } else {
        assert(s.take(n) =~= s);
    }
}

/// The number that the digits from `from` on write, if it is at most `max`.
fn digits_upto(cs: &Vec<char>, from: usize, max: u64) -> (r: Option<u64>)
    requires
        from <= cs.len(),
        all_digits(cs@.skip(from as int)),
        max < 0x1_0000_0000_0000,
    ensures
        match r {
            Some(n) => n <= max && n == digits_value(cs@.skip(from as int)),
            None => digits_value(cs@.skip(from as int)) > max,
        },
{
    let ghost ds = cs@.skip(from as int);
    let mut n: u64 = 0;
    let mut i: usize = from;
    proof {
        assert(ds.take(0) =~= Seq::<char>::empty());
    }
    while i < cs.len()
        invariant
            from <= i <= cs.len(),
            ds == cs@.skip(from as int),
            all_digits(ds),
            n <= max < 0x1_0000_0000_0000,
            n == digits_value(ds.take(i - from)),
        decreases cs.len() - i,
    {
        proof {
            let next = ds.take(i + 1 - from);
            assert(next.drop_last() =~= ds.take(i - from));
            assert(ds[i - from] == cs@[i as int]);
            assert(next.last() == cs@[i as int]);
            assert(is_digit(ds[i - from]));
            lemma_digits_grow(ds, i + 1 - from);
        }
        n = n * 10 + (cs[i] as u64 - '0' as u64);
        if n > max {
            return None;
        }
        i = i + 1;
    }
    proof {
        assert(ds.take(ds.len() as int) =~= ds);
    }
    Some(n)
}

/// Read a whole number that fits a `u32`.
pub fn read_u32(s: &str) -> (r: Option<u32>)
    ensures
        match r {
            Some(n) => written_within(s@, 0, u32::MAX as int) == Some(n as int),
            None => written_within(s@, 0, u32::MAX as int) is None,
        },
{
    let cs: Vec<char> = chars_of(s);
    let from: usize = if cs.len() > 0 && cs[0] == '+' {
        1
    } else {
        0
    };
    proof {
        assert(cs@.skip(0) =~= cs@);
    }
    if from == cs.len() || !digits_from(&cs, from) {
        return None;
    }
    match digits_upto(&cs, from, 0xffff_ffff) {
        Some(n) => Some(n as u32),
        None => None,
    }
}

/// Read a whole number that fits an `i32`.
pub fn read_i32(s: &Vec<char>) -> (r: Option<i32>)
    ensures
        match r {
            Some(n) => written_within(s@, i32::MIN as int, i32::MAX as int) == Some(n as int),
            None => written_within(s@, i32::MIN as int, i32::MAX as int) is None,
        },
{
    let negative: bool = s.len() > 0 && s[0] == '-';
    let from: usize = if s.len() > 0 && (s[0] == '+' || negative) {
        1
    } else {
        0
    };
    proof {
        assert(s@.skip(0) =~= s@);
    }
    if from == s.len() || !digits_from(s, from) {
        return None;
    }
    let max: u64 = if negative {
        0x8000_0000
    } else {
        0x7fff_ffff
    };
    match digits_upto(s, from, max) {
        Some(n) => {
            if negative {
                Some((-(n as i64)) as i32)
            } else {
                Some(n as i32)
            }
        },
        None => None,
    }
}

/// The digit characters of a number below ten.
fn digit(d: u64) -> (c: char)
    requires
        d < 10,
    ensures
        c == digit_char(d as nat),
{
    let c: char = (48u8 + d as u8) as char;
    c
}

/// Write `n` in decimal.
pub fn decimal_of(n: u64) -> (out: String)
    ensures
        out@ == decimal(n as nat),
    decreases n,
{
    if n < 10 {
        let mut out: String = String::new();
        out.push(digit(n));
        proof {
            assert(out@ =~= seq![digit_char(n as nat)]);
        }
        out
    } else {
        let mut out: String = decimal_of(n / 10);
        out.push(digit(n % 10));
        out
    }
}

/// Reading back what was written in decimal gives the number.
pub proof fn law_decimal_reads_back(n: nat)
    ensures
        decimal(n).len() > 0,
        all_digits(decimal(n)),
        digits_value(decimal(n)) == n,
        written(decimal(n), true) == Some(n as int),
        written(decimal(n), false) == Some(n as int),
    decreases n,
{
    if n < 10 {
        let one = decimal(n);
        assert(one.drop_last() =~= Seq::<char>::empty());
        assert(digits_value(one.drop_last()) == 0);
        assert(one.last() == digit_char(n));
    } else {
        law_decimal_reads_back(n / 10);
        let all = decimal(n);
        assert(all.drop_last() =~= decimal(n / 10));
        assert(all.last() == digit_char(n % 10));
        assert(all[0] == decimal(n / 10)[0]);
    }
    assert(is_digit(decimal(n)[0]));
}

/// Two numbers are written alike only if they are equal.
pub proof fn law_decimal_is_injective(a: nat, b: nat)
    requires
        decimal(a) == decimal(b),
    ensures
        a == b,
{
    law_decimal_reads_back(a);
    law_decimal_reads_back(b);
}

/// Splitting gives back the text when the pieces are joined again.
pub proof fn law_split_joins_back(s: Seq<char>, sep: char)
    ensures
        join(split(s, sep), seq![sep]) == s,
        forall|i: int, k: int|
            0 <= i < split(s, sep).len() && 0 <= k < split(s, sep)[i].len() ==> split(s, sep)[i][k]
                != sep,
{
    lemma_split_joins(s, Seq::empty(), sep);
    assert(Seq::<char>::empty() + s =~= s);
}

/// Joining gives back the pieces when the text is split again, as long as none of
/// them holds the separator.
pub proof fn law_joined_pieces_split_back(parts: Seq<Seq<char>>, sep: char)
    requires
        parts.len() > 0,
        forall|i: int| 0 <= i < parts.len() ==> !(#[trigger] parts[i]).contains(sep),
    ensures
        split(join(parts, seq![sep]), sep) == parts,
    decreases parts.len(),
{
    let first = parts[0];
    if parts.len() == 1 {
        lemma_split_passes(first, Seq::empty(), Seq::empty(), sep);
        assert(first + Seq::<char>::empty() =~= first);
        assert(Seq::<char>::empty() + first =~= first);
        assert(parts =~= seq![first]);
    } else {
        let rest = parts.skip(1);
        assert forall|i: int| 0 <= i < rest.len() implies !(#[trigger] rest[i]).contains(sep) by {
            assert(rest[i] == parts[i + 1]);
        }
        law_joined_pieces_split_back(rest, sep);
        lemma_join_front(first, rest, seq![sep]);
        assert(parts =~= seq![first] + rest);
        let tail = seq![sep] + join(rest, seq![sep]);
        assert(first + seq![sep] + join(rest, seq![sep]) =~= first + tail);
        lemma_split_passes(first, tail, Seq::empty(), sep);
        assert(Seq::<char>::empty() + first =~= first);
        assert(tail.skip(1) =~= join(rest, seq![sep]));
    }
}

/// What holds no separator is gathered whole.
proof fn lemma_split_passes(p: Seq<char>, t: Seq<char>, cur: Seq<char>, sep: char)
    requires
        !p.contains(sep),
    ensures
        split_from(p + t, cur, sep) == split_from(t, cur + p, sep),
    decreases p.len(),
{
    if p.len() == 0 {
        assert(p + t =~= t);
        assert(cur + p =~= cur);
    } else {
        assert(p.contains(p[0]));
        let q = p.skip(1);
        assert(!q.contains(sep)) by {
            if q.contains(sep) {
                let k = choose|k: int| 0 <= k < q.len() && q[k] == sep;
                assert(p[k + 1] == sep);
            }
        }
        lemma_split_passes(q, t, cur.push(p[0]), sep);
        assert((p + t).skip(1) =~= q + t);
        assert(cur.push(p[0]) + q =~= cur + p);
    }
}

proof fn lemma_join_front(first: Seq<char>, rest: Seq<Seq<char>>, sep: Seq<char>)
    requires
        rest.len() > 0,
    ensures
        join(seq![first] + rest, sep) == first + sep + join(rest, sep),
    decreases rest.len(),
{
    let all = seq![first] + rest;
    assert(all.last() == rest.last());
    if rest.len() == 1 {
        assert(all.drop_last() =~= seq![first]);
        assert(join(all.drop_last(), sep) == first);
        assert(join(rest, sep) == rest[0]);
    } else {
        assert(all.drop_last() =~= seq![first] + rest.drop_last());
        lemma_join_front(first, rest.drop_last(), sep);
        assert(join(all, sep) =~= first + sep + join(rest, sep));
    }
}

proof fn lemma_split_joins(s: Seq<char>, cur: Seq<char>, sep: char)
    requires
        forall|k: int| 0 <= k < cur.len() ==> cur[k] != sep,
    ensures
        split_from(s, cur, sep).len() > 0,
        join(split_from(s, cur, sep), seq![sep]) == cur + s,
        forall|i: int, k: int|
            0 <= i < split_from(s, cur, sep).len() && 0 <= k < split_from(s, cur, sep)[i].len()
                ==> split_from(s, cur, sep)[i][k] != sep,
    decreases s.len(),
{
    if s.len() == 0 {
        assert(cur + s =~= cur);
    } else if s[0] == sep {
        let rest = split_from(s.skip(1), Seq::empty(), sep);
        lemma_split_joins(s.skip(1), Seq::empty(), sep);
        lemma_join_front(cur, rest, seq![sep]);
        assert(Seq::<char>::empty() + s.skip(1) =~= s.skip(1));
        assert(cur + seq![sep] + s.skip(1) =~= cur + s);
        let all = seq![cur] + rest;
        assert forall|i: int, k: int| 0 <= i < all.len() && 0 <= k < all[i].len() implies all[i][k]
            != sep by {
            if i > 0 {
                assert(all[i] == rest[i - 1]);
            }
        }
    } else {
        lemma_split_joins(s.skip(1), cur.push(s[0]), sep);
        assert(cur.push(s[0]) + s.skip(1) =~= cur + s);
    }
}

/// No text comes before itself.
pub proof fn lemma_before_irreflexive(a: Seq<char>)
    ensures
        !before(a, a),
    decreases a.len(),
{
    if a.len() > 0 {
        lemma_before_irreflexive(a.skip(1));
    }
}

/// Of two texts that differ, one comes before the other.
pub proof fn lemma_before_total(a: Seq<char>, b: Seq<char>)
    ensures
        a == b || before(a, b) || before(b, a),
    decreases a.len(),
{
    if a.len() == 0 {
        if b.len() == 0 {
            assert(a =~= b);
        }
    } else if b.len() > 0 && a[0] == b[0] {
        lemma_before_total(a.skip(1), b.skip(1));
        if a.skip(1) == b.skip(1) {
            assert(a =~= seq![a[0]] + a.skip(1));
            assert(b =~= seq![b[0]] + b.skip(1));
        }
    }
}

/// The order of texts is transitive.
pub proof fn lemma_before_transitive(a: Seq<char>, b: Seq<char>, c: Seq<char>)
    requires
        before(a, b),
        before(b, c),
    ensures
        before(a, c),
    decreases a.len(),
{
    if a.len() > 0 && b.len() > 0 && c.len() > 0 && a[0] == b[0] && b[0] == c[0] {
        lemma_before_transitive(a.skip(1), b.skip(1), c.skip(1));
    }
}

/// Whether `s` is a word: not empty, and without white space.
pub open spec fn is_word(s: Seq<char>) -> bool {
    s.len() > 0 && forall|i: int| 0 <= i < s.len() ==> !is_space(#[trigger] s[i])
}

/// White space ends a word: what comes before it and what comes after it are read
/// apart.
proof fn lemma_words_apart(a: Seq<char>, cur: Seq<char>, space: char, b: Seq<char>)
    requires
        is_space(space),
    ensures
        words_from(a + seq![space] + b, cur) == words_from(a, cur) + words(b),
    decreases a.len(),
{
    let whole = a + seq![space] + b;
    if a.len() == 0 {
        assert(whole[0] == space);
        assert(whole.skip(1) =~= b);
        if cur.len() == 0 {
            assert(cur =~= Seq::<char>::empty());
        }
        assert(words_from(a, cur) + words(b) =~= words_from(whole, cur));
    } else {
        assert(whole[0] == a[0]);
        assert(whole.skip(1) =~= a.skip(1) + seq![space] + b);
        if is_space(a[0]) && cur.len() > 0 {
            lemma_words_apart(a.skip(1), Seq::empty(), space, b);
            assert(seq![cur] + (words_from(a.skip(1), Seq::empty()) + words(b)) =~= seq![cur]
                + words_from(a.skip(1), Seq::empty()) + words(b));
        } else if is_space(a[0]) {
            lemma_words_apart(a.skip(1), cur, space, b);
        } else {
            lemma_words_apart(a.skip(1), cur.push(a[0]), space, b);
        }
    }
}

proof fn lemma_word_gathered(w: Seq<char>, cur: Seq<char>)
    requires
        forall|i: int| 0 <= i < w.len() ==> !is_space(#[trigger] w[i]),
        cur.len() + w.len() > 0,
    ensures
        words_from(w, cur) =~= seq![cur + w],
    decreases w.len(),
{
    if w.len() == 0 {
        assert(cur + w =~= cur);
    } else {
        assert forall|i: int| 0 <= i < w.skip(1).len() implies !is_space(#[trigger] w.skip(1)[i]) by {
            assert(!is_space(w[i + 1]));
        }
        lemma_word_gathered(w.skip(1), cur.push(w[0]));
        assert(cur.push(w[0]) + w.skip(1) =~= cur + w);
    }
}

/// Words that were joined with a space are read back as they were, whether or not
/// the line that they make has an end.
pub proof fn law_joined_words_read_back(parts: Seq<Seq<char>>)
    requires
        forall|i: int| 0 <= i < parts.len() ==> is_word(#[trigger] parts[i]),
    ensures
        words(join(parts, " "@)) == parts,
        words(join(parts, " "@) + "\n"@) == parts,
    decreases parts.len(),
{
    reveal_strlit(" ");
    reveal_strlit("\n");
    let line = join(parts, " "@);
    if parts.len() == 0 {
        assert(words(line) =~= parts);
    } else {
        let last = parts.last();
        assert(is_word(parts[parts.len() - 1]));
        lemma_word_gathered(last, Seq::empty());
        assert(Seq::<char>::empty() + last =~= last);
        if parts.len() == 1 {
            assert(words(line) =~= parts);
        } else {
            let init = parts.drop_last();
            assert forall|i: int| 0 <= i < init.len() implies is_word(#[trigger] init[i]) by {
                assert(is_word(parts[i]));
            }
            law_joined_words_read_back(init);
            assert(" "@ =~= seq![' ']);
            lemma_words_apart(join(init, " "@), Seq::empty(), ' ', last);
            assert(words(line) =~= parts);
        }
    }
    assert("\n"@ =~= seq!['\n']);
    assert(line + "\n"@ =~= line + seq!['\n'] + Seq::<char>::empty());
    lemma_words_apart(line, Seq::empty(), '\n', Seq::empty());
    assert(words(line + "\n"@) =~= parts);
}

/// A text that comes before another one differs from it first by a smaller
/// character, or is its beginning.
pub proof fn law_order_is_that_of_the_first_difference(
    p: Seq<char>,
    a: char,
    s: Seq<char>,
    b: char,
    t: Seq<char>,
)
    requires
        a != b,
    ensures
        before(p + seq![a] + s, p + seq![b] + t) <==> a < b,
        before(p, p + seq![a] + s),
        !before(p + seq![a] + s, p),
    decreases p.len(),
{
    let x = p + seq![a] + s;
    let y = p + seq![b] + t;
    if p.len() > 0 {
        let q = p.skip(1);
        law_order_is_that_of_the_first_difference(q, a, s, b, t);
        assert(x.skip(1) =~= q + seq![a] + s);
        assert(y.skip(1) =~= q + seq![b] + t);
        assert(x[0] == p[0] && y[0] == p[0]);
    } else {
        assert(x[0] == a && y[0] == b);
    }
}

/// A text holds another one exactly when that stands somewhere in it.
pub proof fn law_text_is_found_where_it_stands(a: Seq<char>, p: Seq<char>, b: Seq<char>)
    ensures
        occurs(a + p + b, p),
        starts_with(p + b, p),
        ends_with(a + p, p),
{
    let s = a + p + b;
    assert(s.subrange(a.len() as int, a.len() as int + p.len()) =~= p);
    assert(occurs_at(s, p, a.len() as int));
    assert((p + b).take(p.len() as int) =~= p);
    assert((a + p).skip((a + p).len() - p.len()) =~= p);
}

/// What is found in a text stands in it, at its beginning or its end where that was
/// asked.
pub proof fn law_found_text_stands_there(s: Seq<char>, p: Seq<char>)
    ensures
        occurs(s, p) ==> exists|a: Seq<char>, b: Seq<char>| s == #[trigger] ((a + p) + b),
        starts_with(s, p) ==> exists|b: Seq<char>| s == #[trigger] (p + b),
        ends_with(s, p) ==> exists|a: Seq<char>| s == #[trigger] (a + p),
{
    if occurs(s, p) {
        let i = choose|i: int| occurs_at(s, p, i);
        let a = s.take(i);
        let b = s.skip(i + p.len());
        assert(s =~= (a + p) + b);
    }
    if starts_with(s, p) {
        let b = s.skip(p.len() as int);
        assert(s =~= p + b);
    }
    if ends_with(s, p) {
        let a = s.take(s.len() - p.len());
        assert(s =~= a + p);
    }
}

/// Trimming takes white space off both ends and nothing else.
pub proof fn law_trim_takes_white_space_only(a: Seq<char>, s: Seq<char>, b: Seq<char>)
    requires
        forall|i: int| 0 <= i < a.len() ==> is_space(#[trigger] a[i]),
        forall|i: int| 0 <= i < b.len() ==> is_space(#[trigger] b[i]),
        s.len() > 0 ==> !is_space(s[0]) && !is_space(s.last()),
    ensures
        trim(a + s + b) == s,
{
    lemma_trim_front(a, s + b);
    assert(a + (s + b) =~= a + s + b);
    if s.len() == 0 {
        assert(s + b =~= b);
        lemma_trim_front(b, Seq::empty());
        assert(b + Seq::<char>::empty() =~= b);
        assert(trim_end(Seq::<char>::empty()) =~= s);
    } else {
        assert((s + b)[0] == s[0]);
        lemma_trim_back(s, b);
    }
}

proof fn lemma_trim_front(a: Seq<char>, t: Seq<char>)
    requires
        forall|i: int| 0 <= i < a.len() ==> is_space(#[trigger] a[i]),
    ensures
        trim_start(a + t) == trim_start(t),
    decreases a.len(),
{
    if a.len() == 0 {
        assert(a + t =~= t);
    } else {
        assert(is_space(a[0]));
        assert((a + t).skip(1) =~= a.skip(1) + t);
        assert forall|i: int| 0 <= i < a.skip(1).len() implies is_space(#[trigger] a.skip(1)[i]) by {
            assert(is_space(a[i + 1]));
        }
        lemma_trim_front(a.skip(1), t);
    }
}

proof fn lemma_trim_back(s: Seq<char>, b: Seq<char>)
    requires
        s.len() > 0 && !is_space(s.last()),
        forall|i: int| 0 <= i < b.len() ==> is_space(#[trigger] b[i]),
    ensures
        trim_end(s + b) == s,
    decreases b.len(),
{
    if b.len() == 0 {
        assert(s + b =~= s);
    } else {
        assert(is_space(b[b.len() - 1]));
        assert((s + b).drop_last() =~= s + b.drop_last());
        lemma_trim_back(s, b.drop_last());
    }
}

/// Lines come back as they were written, each behind its line feed.
pub proof fn law_written_lines_read_back(line: Seq<char>, rest: Seq<char>)
    requires
        !line.contains('\n'),
    ensures
        lines(line + seq!['\n'] + rest) == seq![without_return(line)] + lines(rest),
        lines(Seq::<char>::empty()).len() == 0,
        line.len() > 0 ==> lines(line) == seq![line],
        !line.contains('\r') ==> without_return(line) == line,
        without_return(line.push('\r')) == line,
{
    lemma_line_is_gathered(line, seq!['\n'] + rest, Seq::empty());
    assert(line + seq!['\n'] + rest =~= line + (seq!['\n'] + rest));
    assert((seq!['\n'] + rest).skip(1) =~= rest);
    assert(Seq::<char>::empty() + line =~= line);
    lemma_line_is_gathered(line, Seq::empty(), Seq::empty());
    assert(line + Seq::<char>::empty() =~= line);
    if line.len() > 0 {
        assert(line.contains(line.last())) by {
            assert(line[line.len() - 1] == line.last());
        }
    }
    assert(line.push('\r').drop_last() =~= line);
}

proof fn lemma_line_is_gathered(p: Seq<char>, t: Seq<char>, cur: Seq<char>)
    requires
        !p.contains('\n'),
    ensures
        lines_from(p + t, cur) == lines_from(t, cur + p),
    decreases p.len(),
{
    if p.len() == 0 {
        assert(p + t =~= t);
        assert(cur + p =~= cur);
    } else {
        assert(p.contains(p[0]));
        let q = p.skip(1);
        assert(!q.contains('\n')) by {
            if q.contains('\n') {
                let k = choose|k: int| 0 <= k < q.len() && q[k] == '\n';
                assert(p[k + 1] == '\n');
            }
        }
        lemma_line_is_gathered(q, t, cur.push(p[0]));
        assert((p + t).skip(1) =~= q + t);
        assert(cur.push(p[0]) + q =~= cur + p);
    }
}

/// What follows a prefix is taken from the first line that has it.
pub proof fn law_first_line_with_the_prefix_counts(ls: Seq<Seq<char>>, p: Seq<char>, k: int)
    requires
        0 <= k < ls.len(),
        starts_with(ls[k], p),
        forall|i: int| 0 <= i < k ==> !starts_with(#[trigger] ls[i], p),
    ensures
        after_prefix(ls, p) == Some(ls[k].skip(p.len() as int)),
    decreases k,
{
    if k > 0 {
        let rest = ls.skip(1);
        assert forall|i: int| 0 <= i < k - 1 implies !starts_with(#[trigger] rest[i], p) by {
            assert(rest[i] == ls[i + 1]);
        }
        assert(!starts_with(ls[0], p));
        law_first_line_with_the_prefix_counts(rest, p, k - 1);
    }
}

/// A sign before the digits counts where signs are admitted, a plus always does, and
/// what holds anything else is no number. Numbers out of range are none either.
pub proof fn law_numbers_are_read_with_their_sign(n: nat, lo: int, hi: int)
    ensures
        written(seq!['-'] + decimal(n), true) == Some(-(n as int)),
        written(seq!['-'] + decimal(n), false) is None,
        written(seq!['+'] + decimal(n), true) == Some(n as int),
        written(seq!['+'] + decimal(n), false) == Some(n as int),
        written(decimal(n) + seq!['x'], true) is None,
        written(Seq::<char>::empty(), true) is None,
        written_within(decimal(n), lo, hi) == (if lo <= n <= hi {
            Some(n as int)
        } else {
            None
        }),
{
    law_decimal_reads_back(n);
    let d = decimal(n);
    assert(is_digit(d[0]));
    assert((seq!['-'] + d).skip(1) =~= d);
    assert((seq!['+'] + d).skip(1) =~= d);
    assert((seq!['-'] + d)[0] == '-');
    assert(!is_digit((seq!['-'] + d)[0]));
    let x = d + seq!['x'];
    assert(x[0] == d[0]);
    assert(!is_digit(x[d.len() as int]));
}

/// The characters that leave a blank are white space, the no-break space and the
/// wide one among them; those that can be seen are not, nor are those without width.
pub proof fn law_white_space_is_what_is_blank(c: char, r: bool)
    requires
        call_ensures(is_space_char, (c,), r),
    ensures
        c == ' ' || c == '\t' || c == '\n' || c == '\r' ==> r,
        c == '\u{b}' || c == '\u{c}' || c == '\u{85}' || c == '\u{a0}' || c == '\u{3000}' ==> r,
        '!' <= c <= '~' ==> !r,
        c < '\t' || '\r' < c < ' ' || c == '\u{200b}' || c == '\u{feff}' ==> !r,
{
}

/// Trimming takes the white space off both ends of a text, and leaves what stands
/// between.
pub proof fn law_text_is_trimmed(cs: &Vec<char>, out: Vec<char>, a: Seq<char>, s: Seq<char>, b: Seq<char>)
    requires
        call_ensures(trimmed, (cs,), out),
        cs@ == a + s + b,
        forall|i: int| 0 <= i < a.len() ==> is_space(#[trigger] a[i]),
        forall|i: int| 0 <= i < b.len() ==> is_space(#[trigger] b[i]),
        s.len() > 0 ==> !is_space(s[0]) && !is_space(s.last()),
    ensures
        out@ == s,
{
    law_trim_takes_white_space_only(a, s, b);
}

/// A text has a prefix, has a suffix or holds a text just when it is made up so.
pub proof fn law_parts_of_a_text_are_found(
    cs: &Vec<char>,
    p: &str,
    q: &Vec<char>,
    front: bool,
    back: bool,
    within: bool,
)
    requires
        call_ensures(has_prefix, (cs, p), front),
        call_ensures(has_suffix, (cs, p), back),
        call_ensures(has_text, (cs, q), within),
    ensures
        front <==> exists|b: Seq<char>| cs@ == #[trigger] (p@ + b),
        back <==> exists|a: Seq<char>| cs@ == #[trigger] (a + p@),
        within <==> exists|a: Seq<char>, b: Seq<char>| cs@ == #[trigger] ((a + q@) + b),
{
    law_found_text_stands_there(cs@, p@);
    law_found_text_stands_there(cs@, q@);
    if exists|b: Seq<char>| cs@ == #[trigger] (p@ + b) {
        let b = choose|b: Seq<char>| cs@ == #[trigger] (p@ + b);
        law_text_is_found_where_it_stands(Seq::empty(), p@, b);
    }
    if exists|a: Seq<char>| cs@ == #[trigger] (a + p@) {
        let a = choose|a: Seq<char>| cs@ == #[trigger] (a + p@);
        law_text_is_found_where_it_stands(a, p@, Seq::empty());
    }
    if exists|a: Seq<char>, b: Seq<char>| cs@ == #[trigger] ((a + q@) + b) {
        let (a, b) = choose|a: Seq<char>, b: Seq<char>| cs@ == #[trigger] ((a + q@) + b);
        law_text_is_found_where_it_stands(a, q@, b);
    }
}

pub proof fn lemma_found_behind(a: Seq<char>, c: char, b: Seq<char>)
    requires
        !a.contains(c),
    ensures
        find(a + seq![c] + b, c) == a.len(),
        find(a, c) == a.len(),
    decreases a.len(),
{
    let s = a + seq![c] + b;
    if a.len() > 0 {
        let rest = a.skip(1);
        assert(a.contains(a[0]));
        assert(!rest.contains(c)) by {
            if rest.contains(c) {
                let k = choose|k: int| 0 <= k < rest.len() && rest[k] == c;
                assert(a[k + 1] == c);
            }
        }
        lemma_found_behind(rest, c, b);
        assert(s.skip(1) =~= rest + seq![c] + b);
    } else {
        assert(s[0] == c);
    }
}

/// A text is cut at the first of the characters that it is cut at, and not at all
/// where it holds none.
pub proof fn law_text_is_cut_once(
    cs: &Vec<char>,
    c: char,
    r: Option<(Vec<char>, Vec<char>)>,
    a: Seq<char>,
    b: Seq<char>,
)
    requires
        call_ensures(cut, (cs, c), r),
        !a.contains(c),
    ensures
        cs@ == a + seq![c] + b ==> (r matches Some((x, y)) && x@ == a && y@ == b),
        cs@ == a ==> r is None,
{
    lemma_found_behind(a, c, b);
    if cs@ == a + seq![c] + b {
        assert(cs@.take(a.len() as int) =~= a);
        assert(cs@.skip(a.len() as int + 1) =~= b);
    }
}

/// A text that was joined from pieces is taken apart into them.
pub proof fn law_pieces_are_those_that_were_joined(
    cs: &Vec<char>,
    sep: char,
    out: Vec<Vec<char>>,
    parts: Seq<Seq<char>>,
)
    requires
        call_ensures(pieces, (cs, sep), out),
        parts.len() > 0,
        forall|i: int| 0 <= i < parts.len() ==> !(#[trigger] parts[i]).contains(sep),
        cs@ == join(parts, seq![sep]),
    ensures
        rows(out@) == parts,
{
    law_joined_pieces_split_back(parts, sep);
}

/// A line that was joined from words is taken apart into them.
pub proof fn law_words_are_those_that_were_joined(
    cs: &Vec<char>,
    out: Vec<Vec<char>>,
    parts: Seq<Seq<char>>,
)
    requires
        call_ensures(words_of, (cs,), out),
        forall|i: int| 0 <= i < parts.len() ==> is_word(#[trigger] parts[i]),
        cs@ == join(parts, " "@) || cs@ == join(parts, " "@) + "\n"@,
    ensures
        rows(out@) == parts,
{
    law_joined_words_read_back(parts);
}

/// The first line of a text is what stands before the first line feed, and the other
/// lines are those of what follows.
pub proof fn law_lines_end_at_line_feeds(
    cs: &Vec<char>,
    out: Vec<Vec<char>>,
    tail: &Vec<char>,
    rest: Vec<Vec<char>>,
    line: Seq<char>,
)
    requires
        call_ensures(lines_of, (cs,), out),
        call_ensures(lines_of, (tail,), rest),
        !line.contains('\n') && !line.contains('\r'),
    ensures
        cs@ == line + seq!['\n'] + tail@ ==> rows(out@) == seq![line] + rows(rest@),
        cs@ == line.push('\r') + seq!['\n'] + tail@ ==> rows(out@) == seq![line] + rows(rest@),
        cs@ == line && line.len() > 0 ==> rows(out@) == seq![line],
        cs@.len() == 0 ==> out@.len() == 0,
{
    law_written_lines_read_back(line, tail@);
    let returned = line.push('\r');
    assert(!returned.contains('\n')) by {
        if returned.contains('\n') {
            let k = choose|k: int| 0 <= k < returned.len() && returned[k] == '\n';
            assert(line[k] == '\n');
        }
    }
    law_written_lines_read_back(returned, tail@);
    if cs@.len() == 0 {
        assert(cs@ =~= Seq::<char>::empty());
        assert(rows(out@).len() == out@.len());
    }
}

/// A number that was written is read back, unless it is too large for its type.
pub proof fn law_written_number_is_read(
    n: u64,
    text: String,
    s: &str,
    plain: Option<u32>,
    cs: &Vec<char>,
    signed: Option<i32>,
)
    requires
        call_ensures(decimal_of, (n,), text),
        call_ensures(read_u32, (s,), plain),
        call_ensures(read_i32, (cs,), signed),
    ensures
        s@ == text@ ==> (plain is Some <==> n <= u32::MAX),
        s@ == text@ && n <= u32::MAX ==> plain == Some(n as u32),
        s@ == seq!['-'] + text@ ==> plain is None,
        cs@ == text@ ==> (signed is Some <==> n <= i32::MAX),
        cs@ == text@ && n <= i32::MAX ==> signed == Some(n as i32),
        cs@ == seq!['-'] + text@ && n <= i32::MAX ==> (signed matches Some(m) && m == -(n as int)),
        cs@.len() == 0 ==> signed is None,
{
    law_numbers_are_read_with_their_sign(n as nat, 0, u32::MAX as int);
    law_numbers_are_read_with_their_sign(n as nat, i32::MIN as int, i32::MAX as int);
    if cs@.len() == 0 {
        assert(cs@ =~= Seq::<char>::empty());
    }
}

/// One text comes before another by the first character in which they differ, or by
/// being its beginning.
pub proof fn law_texts_are_ordered_by_their_first_difference(
    x: &str,
    y: &str,
    r: bool,
    p: Seq<char>,
    a: char,
    s: Seq<char>,
    b: char,
    t: Seq<char>,
)
    requires
        call_ensures(comes_before, (x, y), r),
        a != b,
        x@ == p || x@ == p + seq![a] + s,
        y@ == p || y@ == p + seq![b] + t,
    ensures
        x@ == p + seq![a] + s && y@ == p + seq![b] + t ==> (r <==> a < b),
        x@ == p && y@ == p + seq![b] + t ==> r,
        x@ == p + seq![a] + s && y@ == p ==> !r,
        x@ == y@ ==> !r,
{
    law_order_is_that_of_the_first_difference(p, a, s, b, t);
    law_order_is_that_of_the_first_difference(p, b, t, a, s);
    lemma_not_before_itself(x@);
    if x@ == p + seq![a] + s && y@ == p + seq![b] + t {
        assert(x@[p.len() as int] == a);
        assert(y@[p.len() as int] == b);
    }
}

proof fn lemma_not_before_itself(a: Seq<char>)
    ensures
        !before(a, a),
    decreases a.len(),
{
    if a.len() > 0 {
        lemma_not_before_itself(a.skip(1));
    }
}

/// A word is spelled by itself and by itself in capitals, and by nothing that has
/// another letter.
pub proof fn law_case_of_a_word_is_free(s: &str, w: &str, r: bool, i: int)
    requires
        call_ensures(spells_word, (s, w), r),
    ensures
        s@ == w@ ==> r,
        r ==> s@.len() == w@.len(),
        0 <= i < w@.len() && 'a' <= w@[i] <= 'z' && s@ == w@.update(i, ((w@[i] as int) - 32) as char)
            ==> r,
        r && 0 <= i < w@.len() && s@[i] != w@[i] ==> 'a' <= w@[i] <= 'z' && s@[i] as int + 32 == w@[i] as int,
{
    if s@ == w@ {
        assert(spells(s@, w@));
    }
    if 0 <= i < w@.len() && 'a' <= w@[i] <= 'z' && s@ == w@.update(i, ((w@[i] as int) - 32) as char) {
        assert forall|k: int| 0 <= k < s@.len() implies is_letter(#[trigger] s@[k], w@[k]) by {}
    }
    if r && 0 <= i < w@.len() {
        assert(is_letter(s@[i], w@[i]));
    }
}

/// What follows a prefix is read from the first of the lines that have it.
pub proof fn law_first_line_with_the_prefix_is_read(
    cs: &Vec<char>,
    p: &str,
    r: Option<Vec<char>>,
    k: int,
)
    requires
        call_ensures(line_after, (cs, p), r),
        0 <= k < lines(cs@).len(),
        starts_with(lines(cs@)[k], p@),
        forall|i: int| 0 <= i < k ==> !starts_with(#[trigger] lines(cs@)[i], p@),
    ensures
        r matches Some(v) && p@ + v@ == lines(cs@)[k],
{
    law_first_line_with_the_prefix_counts(lines(cs@), p@, k);
    let line = lines(cs@)[k];
    assert(p@ + line.skip(p@.len() as int) =~= line);
}

} // verus!
