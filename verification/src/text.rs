//! Character-level text handling: lines, words, trimming, prefixes, substrings,
//! and the bridges between `String` and sequences of characters.
use vstd::prelude::*;

verus! {

// ---------------------------------------------------------------------------
// Specifications
// ---------------------------------------------------------------------------

/// Unicode `White_Space`, the property that `char::is_whitespace` tests.
pub open spec fn is_white_space(c: char) -> bool {
    let u = c as u32;
    ||| 0x9 <= u <= 0xd
    ||| u == 0x20
    ||| u == 0x85
    ||| u == 0xa0
    ||| u == 0x1680
    ||| 0x2000 <= u <= 0x200a
    ||| u == 0x2028
    ||| u == 0x2029
    ||| u == 0x202f
    ||| u == 0x205f
    ||| u == 0x3000
}

/// `s` without its leading white space.
pub open spec fn trim_start(s: Seq<char>) -> Seq<char>
    decreases s.len(),
{
    if s.len() > 0 && is_white_space(s[0]) {
        trim_start(s.drop_first())
    } else {
        s
    }
}

/// `s` without its trailing white space.
pub open spec fn trim_end(s: Seq<char>) -> Seq<char>
    decreases s.len(),
{
    if s.len() > 0 && is_white_space(s.last()) {
        trim_end(s.drop_last())
    } else {
        s
    }
}

/// `s` without white space at either end.
pub open spec fn trim(s: Seq<char>) -> Seq<char> {
    trim_end(trim_start(s))
}

/// `s` without the copies of `c` at its start.
pub open spec fn trim_start_char(s: Seq<char>, c: char) -> Seq<char>
    decreases s.len(),
{
    if s.len() > 0 && s[0] == c {
        trim_start_char(s.drop_first(), c)
    } else {
        s
    }
}

/// `s` without the copies of `c` at its end.
pub open spec fn trim_end_char(s: Seq<char>, c: char) -> Seq<char>
    decreases s.len(),
{
    if s.len() > 0 && s.last() == c {
        trim_end_char(s.drop_last(), c)
    } else {
        s
    }
}

/// `s` without the copies of `c` at either end.
pub open spec fn trim_char(s: Seq<char>, c: char) -> Seq<char> {
    trim_end_char(trim_start_char(s, c), c)
}

/// `s` with every `c` taken out.
pub open spec fn remove_char(s: Seq<char>, c: char) -> Seq<char>
    decreases s.len(),
{
    if s.len() == 0 {
        seq![]
    } else if s.last() == c {
        remove_char(s.drop_last(), c)
    } else {
        remove_char(s.drop_last(), c).push(s.last())
    }
}

/// Taking `c` out of a concatenation takes it out of each part.
pub proof fn lemma_remove_char_add(a: Seq<char>, b: Seq<char>, c: char)
    ensures
        remove_char(a + b, c) == remove_char(a, c) + remove_char(b, c),
    decreases b.len(),
{
    if b.len() == 0 {
        assert(a + b =~= a);
        assert(remove_char(a, c) + remove_char(b, c) =~= remove_char(a, c));
    } else {
        lemma_remove_char_add(a, b.drop_last(), c);
        assert((a + b).drop_last() =~= a + b.drop_last());
        assert((a + b).last() == b.last());
        if b.last() != c {
            assert(remove_char(a, c) + remove_char(b, c) =~= (remove_char(a, c) + remove_char(
                b.drop_last(),
                c,
            )).push(b.last()));
        }
    }
}

/// Taking out a character that does not occur changes nothing.
pub proof fn lemma_remove_char_absent(s: Seq<char>, c: char)
    requires
        forall|j: int| 0 <= j < s.len() ==> s[j] != c,
    ensures
        remove_char(s, c) == s,
    decreases s.len(),
{
    if s.len() > 0 {
        lemma_remove_char_absent(s.drop_last(), c);
        assert(s.drop_last().push(s.last()) =~= s);
    }
}

/// `p` is a prefix of `s`.
pub open spec fn starts_with(s: Seq<char>, p: Seq<char>) -> bool {
    p.len() <= s.len() && s.subrange(0, p.len() as int) == p
}

/// `p` is a suffix of `s`.
pub open spec fn ends_with(s: Seq<char>, p: Seq<char>) -> bool {
    p.len() <= s.len() && s.subrange(s.len() - p.len(), s.len() as int) == p
}

/// `q` occurs in `s` as a contiguous piece.
pub open spec fn contains(s: Seq<char>, q: Seq<char>) -> bool {
    exists|i: int| 0 <= i && i + q.len() <= s.len() && #[trigger] s.subrange(i, i + q.len()) == q
}

/// The number of copies of `c` at the start of `s`.
pub open spec fn count_leading(s: Seq<char>, c: char) -> nat
    decreases s.len(),
{
    if s.len() > 0 && s[0] == c {
        1 + count_leading(s.drop_first(), c)
    } else {
        0
    }
}

/// A line without the carriage return that ended it.
pub open spec fn strip_cr(l: Seq<char>) -> Seq<char> {
    if l.len() > 0 && l.last() == '\r' {
        l.drop_last()
    } else {
        l
    }
}

/// The lines of `s` from position `i` on, `cur` being the part of the current line
/// already read: a line ends at `'\n'` (a `'\r'` before it is dropped), and the
/// final line ending is optional.
pub open spec fn lines_from(s: Seq<char>, i: int, cur: Seq<char>) -> Seq<Seq<char>>
    decreases s.len() - i,
{
    if i < 0 || i >= s.len() {
        if cur.len() == 0 {
            seq![]
        } else {
            seq![cur]
        }
    } else if s[i] == '\n' {
        seq![strip_cr(cur)] + lines_from(s, i + 1, seq![])
    } else {
        lines_from(s, i + 1, cur.push(s[i]))
    }
}

/// The lines of `s`, as `str::lines` gives them.
pub open spec fn lines(s: Seq<char>) -> Seq<Seq<char>> {
    lines_from(s, 0, seq![])
}

/// The white-space separated words of `s` from position `i` on, `cur` being the
/// part of the current word already read.
pub open spec fn words_from(s: Seq<char>, i: int, cur: Seq<char>) -> Seq<Seq<char>>
    decreases s.len() - i,
{
    if i < 0 || i >= s.len() {
        if cur.len() == 0 {
            seq![]
        } else {
            seq![cur]
        }
    } else if is_white_space(s[i]) {
        (if cur.len() == 0 {
            seq![]
        } else {
            seq![cur]
        }) + words_from(s, i + 1, seq![])
    } else {
        words_from(s, i + 1, cur.push(s[i]))
    }
}

/// The words of `s`, as `str::split_whitespace` gives them.
pub open spec fn words(s: Seq<char>) -> Seq<Seq<char>> {
    words_from(s, 0, seq![])
}

/// The pieces of `s` between the copies of `c`, as `str::split` gives them.
pub open spec fn split_on_from(s: Seq<char>, c: char, i: int, cur: Seq<char>) -> Seq<Seq<char>>
    decreases s.len() - i,
{
    if i < 0 || i >= s.len() {
        seq![cur]
    } else if s[i] == c {
        seq![cur] + split_on_from(s, c, i + 1, seq![])
    } else {
        split_on_from(s, c, i + 1, cur.push(s[i]))
    }
}

/// The pieces of `s` between the copies of `c`.
pub open spec fn split_on(s: Seq<char>, c: char) -> Seq<Seq<char>> {
    split_on_from(s, c, 0, seq![])
}

/// The first position at or after `i` where `s` holds `c`, or `s.len()`.
pub open spec fn find_from(s: Seq<char>, c: char, i: int) -> int
    decreases s.len() - i,
{
    if i < 0 || i >= s.len() {
        s.len() as int
    } else if s[i] == c {
        i
    } else {
        find_from(s, c, i + 1)
    }
}

/// The piece of `s` between its first and its second `c` (to the end if there
/// is no second one), as `s.split(c).nth(1)` gives it; empty if `c` does not
/// occur.
pub open spec fn second_piece(s: Seq<char>, c: char) -> Seq<char> {
    let p = find_from(s, c, 0);
    if p >= s.len() {
        seq![]
    } else {
        s.subrange(p + 1, find_from(s, c, p + 1))
    }
}

/// `rel` appended to the path `base` as `PathBuf::join` does on Unix: an absolute
/// `rel` replaces `base`, else a `/` separates them unless `base` is empty or
/// already ends with one.
pub open spec fn path_join(base: Seq<char>, rel: Seq<char>) -> Seq<char> {
    if rel.len() > 0 && rel[0] == '/' {
        rel
    } else if base.len() == 0 || base.last() == '/' {
        base + rel
    } else {
        base.push('/') + rel
    }
}

/// The pieces of a path between its `/`s that name something: the empty pieces
/// and the `.` pieces are dropped.
pub open spec fn named_parts(pieces: Seq<Seq<char>>) -> Seq<Seq<char>>
    decreases pieces.len(),
{
    if pieces.len() == 0 {
        seq![]
    } else {
        let rest = named_parts(pieces.drop_last());
        let p = pieces.last();
        if p.len() == 0 || p == seq!['.'] {
            rest
        } else {
            rest.push(p)
        }
    }
}

/// A path that starts at the root.
pub open spec fn is_rooted(s: Seq<char>) -> bool {
    s.len() > 0 && s[0] == '/'
}

/// A relative path whose first piece is `.`.
pub open spec fn starts_at_current_dir(s: Seq<char>) -> bool {
    !is_rooted(s) && split_on(s, '/')[0] == seq!['.']
}

/// Two paths with the same components, as `Path`'s `==` compares them on Unix:
/// both rooted or neither, both or neither starting with `.`, and the same named
/// pieces (repeated and trailing `/`s and inner `.`s do not count).
pub open spec fn same_path(a: Seq<char>, b: Seq<char>) -> bool {
    &&& is_rooted(a) == is_rooted(b)
    &&& starts_at_current_dir(a) == starts_at_current_dir(b)
    &&& named_parts(split_on(a, '/')) == named_parts(split_on(b, '/'))
}

/// The full Unicode lower-case mapping of a string, as `str::to_lowercase` computes it.
pub uninterp spec fn lowercase(s: Seq<char>) -> Seq<char>;

// ---------------------------------------------------------------------------
// Bridges to std
// ---------------------------------------------------------------------------

/// Appends one character to a string (`String::push`).
#[verifier::external_body]
pub(crate) fn push_char(s: &mut String, c: char)
    ensures
        final(s)@ == old(s)@.push(c),
{
    s.push(c);
}

/// A character that is ASCII.
pub open spec fn is_ascii_char(c: char) -> bool {
    (c as u32) < 128
}

/// The ASCII lower case of `c`: `A` to `Z` become `a` to `z`, other characters
/// stay.
pub open spec fn ascii_lower(c: char) -> char {
    if 65 <= (c as u32) <= 90 {
        ((c as u32) + 32) as char
    } else {
        c
    }
}

/// Lower-cases a string with `str::to_lowercase`; the result is named
/// `lowercase`. As std documents it, each character becomes one or more
/// characters (so empty text stays empty and no text gets shorter), and on
/// ASCII text the mapping is ASCII lower-casing, character for character.
#[verifier::external_body]
fn to_lowercase_str(s: &str) -> (r: String)
    ensures
        r@ == lowercase(s@),
        s@.len() <= r@.len(),
        s@.len() == 0 ==> r@.len() == 0,
        (forall|i: int| 0 <= i < s@.len() ==> is_ascii_char(#[trigger] s@[i])) ==> r@ =~= s@.map_values(
            |c: char| ascii_lower(c),
        ),
{
    s.to_lowercase()
}

/// The characters of `s`, in order.
pub fn chars_of(s: &str) -> (v: Vec<char>)
    ensures
        v@ == s@,
{
    let mut v: Vec<char> = Vec::new();
    for c in it: s.chars()
        invariant
            v@ == it.seq().take(it.index() as int),
    {
        v.push(c);
    }
    v
}

/// The string made of the characters of `v`.
pub fn string_of(v: &[char]) -> (s: String)
    ensures
        s@ == v@,
{
    let mut s = String::new();
    let mut i: usize = 0;
    while i < v.len()
        invariant
            i <= v.len(),
            s@ == v@.take(i as int),
        decreases v.len() - i,
    {
        push_char(&mut s, v[i]);
        assert(v@.take(i as int).push(v@[i as int]) =~= v@.take(i + 1));
        i += 1;
    }
    assert(v@.take(v.len() as int) =~= v@);
    s
}

/// The lower-cased characters of `v`.
pub fn lower_chars(v: &[char]) -> (r: Vec<char>)
    ensures
        r@ == lowercase(v@),
        v@.len() <= r@.len(),
        v@.len() == 0 ==> r@.len() == 0,
        (forall|i: int| 0 <= i < v@.len() ==> is_ascii_char(#[trigger] v@[i])) ==> r@ =~= v@.map_values(
            |c: char| ascii_lower(c),
        ),
{
    let s = string_of(v);
    let l = to_lowercase_str(s.as_str());
    chars_of(l.as_str())
}

/// The lower-cased copy of `s`.
pub fn lower_string(s: &str) -> (r: String)
    ensures
        r@ == lowercase(s@),
        s@.len() <= r@.len(),
        s@.len() == 0 ==> r@.len() == 0,
        (forall|i: int| 0 <= i < s@.len() ==> is_ascii_char(#[trigger] s@[i])) ==> r@ =~= s@.map_values(
            |c: char| ascii_lower(c),
        ),
{
    to_lowercase_str(s)
}

// ---------------------------------------------------------------------------
// Executable text operations
// ---------------------------------------------------------------------------

/// Whether `c` is Unicode white space.
pub fn is_white_space_char(c: char) -> (b: bool)
    ensures
        b == is_white_space(c),
{
    let u = c as u32;
    (0x9 <= u && u <= 0xd) || u == 0x20 || u == 0x85 || u == 0xa0 || u == 0x1680 || (0x2000
        <= u && u <= 0x200a) || u == 0x2028 || u == 0x2029 || u == 0x202f || u == 0x205f || u
        == 0x3000
}

/// A copy of `v[from..to]`.
pub fn copy_range(v: &[char], from: usize, to: usize) -> (r: Vec<char>)
    requires
        from <= to <= v.len(),
    ensures
        r@ == v@.subrange(from as int, to as int),
{
    let mut r: Vec<char> = Vec::new();
    let mut i = from;
    while i < to
        invariant
            from <= i <= to <= v.len(),
            r@ == v@.subrange(from as int, i as int),
        decreases to - i,
    {
        r.push(v[i]);
        assert(v@.subrange(from as int, i as int).push(v@[i as int]) =~= v@.subrange(
            from as int,
            i + 1,
        ));
        i += 1;
    }
    r
}

/// Dropping one leading white-space character does not change the trimmed start.
proof fn lemma_trim_start_step(s: Seq<char>, a: int)
    requires
        0 <= a < s.len(),
        is_white_space(s[a]),
    ensures
        trim_start(s.subrange(a, s.len() as int)) == trim_start(s.subrange(a + 1, s.len() as int)),
{
    assert(s.subrange(a, s.len() as int).drop_first() =~= s.subrange(a + 1, s.len() as int));
}

/// `v` without white space at either end (`str::trim`).
pub fn trim_chars(v: &[char]) -> (r: Vec<char>)
    ensures
        r@ == trim(v@),
{
    let n = v.len();
    let mut a: usize = 0;
    assert(v@.subrange(0, n as int) =~= v@);
    while a < n && is_white_space_char(v[a])
        invariant
            a <= n == v.len(),
            trim_start(v@) == trim_start(v@.subrange(a as int, n as int)),
        decreases n - a,
    {
        proof {
            lemma_trim_start_step(v@, a as int);
        }
        a += 1;
    }
    let ghost rest = v@.subrange(a as int, n as int);
    assert(trim_start(rest) == rest);
    let mut b: usize = n;
    while b > a && is_white_space_char(v[b - 1])
        invariant
            a <= b <= n == v.len(),
            rest == v@.subrange(a as int, n as int),
            trim_end(rest) == trim_end(v@.subrange(a as int, b as int)),
        decreases b,
    {
        proof {
            let t = v@.subrange(a as int, b as int);
            assert(t.drop_last() =~= v@.subrange(a as int, b - 1));
        }
        b -= 1;
    }
    let r = copy_range(v, a, b);
    proof {
        let t = v@.subrange(a as int, b as int);
        if t.len() > 0 {
            assert(t.last() == v@[b - 1]);
        }
        assert(trim_end(t) == t);
    }
    r
}

/// `v` without the copies of `c` at its start (`str::trim_start_matches` with a char).
pub fn trim_start_char_chars(v: &[char], c: char) -> (r: Vec<char>)
    ensures
        r@ == trim_start_char(v@, c),
{
    let n = v.len();
    let mut a: usize = 0;
    assert(v@.subrange(0, n as int) =~= v@);
    while a < n && v[a] == c
        invariant
            a <= n == v.len(),
            trim_start_char(v@, c) == trim_start_char(v@.subrange(a as int, n as int), c),
        decreases n - a,
    {
        assert(v@.subrange(a as int, n as int).drop_first() =~= v@.subrange(a + 1, n as int));
        a += 1;
    }
    copy_range(v, a, n)
}

/// `v` without the copies of `c` at either end (`str::trim_matches` with a char).
pub fn trim_char_chars(v: &[char], c: char) -> (r: Vec<char>)
    ensures
        r@ == trim_char(v@, c),
{
    let s = trim_start_char_chars(v, c);
    let n = s.len();
    let mut b: usize = n;
    assert(s@.subrange(0, n as int) =~= s@);
    while b > 0 && s[b - 1] == c
        invariant
            b <= n == s.len(),
            trim_end_char(s@, c) == trim_end_char(s@.subrange(0, b as int), c),
        decreases b,
    {
        assert(s@.subrange(0, b as int).drop_last() =~= s@.subrange(0, b - 1));
        b -= 1;
    }
    assert(s@.subrange(0, n as int) =~= s@);
    copy_range(&s, 0, b)
}

/// `v` with every `c` taken out (`str::replace(c, "")`).
pub fn remove_char_chars(v: &[char], c: char) -> (r: Vec<char>)
    ensures
        r@ == remove_char(v@, c),
{
    let mut r: Vec<char> = Vec::new();
    let mut i: usize = 0;
    while i < v.len()
        invariant
            i <= v.len(),
            r@ == remove_char(v@.take(i as int), c),
        decreases v.len() - i,
    {
        proof {
            assert(v@.take(i + 1).drop_last() =~= v@.take(i as int));
        }
        if v[i] != c {
            r.push(v[i]);
        }
        i += 1;
    }
    assert(v@.take(v.len() as int) =~= v@);
    r
}

/// Whether `p` is a prefix of `v`.
pub fn has_prefix(v: &[char], p: &[char]) -> (b: bool)
    ensures
        b == starts_with(v@, p@),
{
    if p.len() > v.len() {
        return false;
    }
    let mut i: usize = 0;
    while i < p.len()
        invariant
            i <= p.len() <= v.len(),
            forall|j: int| 0 <= j < i ==> v@[j] == p@[j],
        decreases p.len() - i,
    {
        if v[i] != p[i] {
            assert(v@.subrange(0, p.len() as int)[i as int] != p@[i as int]);
            return false;
        }
        i += 1;
    }
    assert(v@.subrange(0, p.len() as int) =~= p@);
    true
}

/// Whether `p` is a suffix of `v`.
pub fn has_suffix(v: &[char], p: &[char]) -> (b: bool)
    ensures
        b == ends_with(v@, p@),
{
    if p.len() > v.len() {
        return false;
    }
    let off = v.len() - p.len();
    let mut i: usize = 0;
    while i < p.len()
        invariant
            i <= p.len() <= v.len(),
            off == v.len() - p.len(),
            forall|j: int| 0 <= j < i ==> v@[off + j] == p@[j],
        decreases p.len() - i,
    {
        if v[off + i] != p[i] {
            assert(v@.subrange(off as int, v.len() as int)[i as int] != p@[i as int]);
            return false;
        }
        i += 1;
    }
    assert(v@.subrange(off as int, v.len() as int) =~= p@);
    true
}

/// Whether `q` occurs at position `i` of `v`.
fn occurs_at(v: &[char], q: &[char], i: usize) -> (b: bool)
    requires
        i + q.len() <= v.len(),
    ensures
        b == (v@.subrange(i as int, i + q.len()) == q@),
{
    let mut k: usize = 0;
    while k < q.len()
        invariant
            k <= q.len(),
            i + q.len() <= v.len(),
            forall|j: int| 0 <= j < k ==> v@[i + j] == q@[j],
        decreases q.len() - k,
    {
        if v[i + k] != q[k] {
            assert(v@.subrange(i as int, i + q.len())[k as int] != q@[k as int]);
            return false;
        }
        k += 1;
    }
    assert(v@.subrange(i as int, i + q.len()) =~= q@);
    true
}

/// Whether `q` occurs in `v` (`str::contains` with a string).
pub fn has_substring(v: &[char], q: &[char]) -> (b: bool)
    ensures
        b == contains(v@, q@),
{
    if q.len() > v.len() {
        return false;
    }
    let last = v.len() - q.len();
    let mut i: usize = 0;
    loop
        invariant
            last == v.len() - q.len(),
            i <= last,
            forall|j: int| 0 <= j < i ==> #[trigger] v@.subrange(j, j + q.len()) != q@,
        decreases last - i,
    {
        if occurs_at(v, q, i) {
            return true;
        }
        if i == last {
            return false;
        }
        i += 1;
    }
}

/// The number of copies of `c` at the start of `v`.
pub fn leading_count(v: &[char], c: char) -> (n: usize)
    ensures
        n == count_leading(v@, c),
        n <= v.len(),
{
    let mut a: usize = 0;
    assert(v@.subrange(0, v.len() as int) =~= v@);
    while a < v.len() && v[a] == c
        invariant
            a <= v.len(),
            count_leading(v@, c) == a + count_leading(v@.subrange(a as int, v.len() as int), c),
        decreases v.len() - a,
    {
        assert(v@.subrange(a as int, v.len() as int).drop_first() =~= v@.subrange(
            a + 1,
            v.len() as int,
        ));
        a += 1;
    }
    a
}

/// Where `c` first occurs at or after `i`, given that it occurs at `p` and
/// nowhere in `[i, p)`.
pub proof fn lemma_find_from_at(s: Seq<char>, c: char, i: int, p: int)
    requires
        0 <= i <= p <= s.len(),
        p < s.len() ==> s[p] == c,
        forall|j: int| i <= j < p ==> s[j] != c,
    ensures
        find_from(s, c, i) == p,
    decreases p - i,
{
    if i < p {
        lemma_find_from_at(s, c, i + 1, p);
    }
}

/// Reading the characters of a line that holds no line feed adds them to the
/// current line.
proof fn lemma_lines_from_skip(s: Seq<char>, i: int, cur: Seq<char>, k: int)
    requires
        0 <= i <= k <= s.len(),
        forall|j: int| i <= j < k ==> s[j] != '\n',
    ensures
        lines_from(s, i, cur) == lines_from(s, k, cur + s.subrange(i, k)),
    decreases k - i,
{
    if i < k {
        lemma_lines_from_skip(s, i + 1, cur.push(s[i]), k);
        assert(cur.push(s[i]) + s.subrange(i + 1, k) =~= cur + s.subrange(i, k));
    } else {
        assert(cur + s.subrange(i, k) =~= cur);
    }
}

/// Lines read from position `p.len() + m` of `p + b` are those read from
/// position `m` of `b`.
proof fn lemma_lines_from_shift(p: Seq<char>, b: Seq<char>, m: int, cur: Seq<char>)
    requires
        0 <= m <= b.len(),
    ensures
        lines_from(p + b, p.len() + m, cur) == lines_from(b, m, cur),
    decreases b.len() - m,
{
    if m < b.len() {
        assert((p + b)[p.len() + m] == b[m]);
        lemma_lines_from_shift(p, b, m + 1, seq![]);
        lemma_lines_from_shift(p, b, m + 1, cur.push(b[m]));
    }
}

/// A line that holds no line feed, then a line feed, then the rest: the line,
/// without a final carriage return, comes first.
pub proof fn lemma_lines_cons(a: Seq<char>, b: Seq<char>)
    requires
        forall|j: int| 0 <= j < a.len() ==> a[j] != '\n',
    ensures
        lines(a + seq!['\n'] + b) == seq![strip_cr(a)] + lines(b),
{
    let t = a + seq!['\n'] + b;
    assert forall|j: int| 0 <= j < a.len() implies t[j] != '\n' by {
        assert(t[j] == a[j]);
    }
    lemma_lines_from_skip(t, 0, seq![], a.len() as int);
    assert(seq![] + t.subrange(0, a.len() as int) =~= a);
    assert(t[a.len() as int] == '\n');
    assert(t =~= (a + seq!['\n']) + b);
    lemma_lines_from_shift(a + seq!['\n'], b, 0, seq![]);
}

/// The first position at or after `i` where `v` holds `c`, or `v.len()`.
pub fn find_char_from(v: &[char], c: char, i: usize) -> (p: usize)
    requires
        i <= v.len(),
    ensures
        p == find_from(v@, c, i as int),
        i <= p <= v.len(),
{
    let mut p = i;
    while p < v.len() && v[p] != c
        invariant
            i <= p <= v.len(),
            find_from(v@, c, i as int) == find_from(v@, c, p as int),
        decreases v.len() - p,
    {
        p += 1;
    }
    p
}

/// The piece of `v` between its first and its second `c`.
pub fn second_piece_chars(v: &[char], c: char) -> (r: Vec<char>)
    ensures
        r@ == second_piece(v@, c),
{
    let p = find_char_from(v, c, 0);
    if p >= v.len() {
        return Vec::new();
    }
    let q = find_char_from(v, c, p + 1);
    copy_range(v, p + 1, q)
}

/// `rel` appended to the path `base` (`Path::join`).
pub fn join_path(base: &str, rel: &str) -> (r: String)
    ensures
        r@ == path_join(base@, rel@),
{
    let b = chars_of(base);
    let rl = chars_of(rel);
    if rl.len() > 0 && rl[0] == '/' {
        return rel.to_owned();
    }
    let mut out = b;
    if out.len() > 0 && out[out.len() - 1] != '/' {
        out.push('/');
    }
    let mut i: usize = 0;
    let ghost start = out@;
    while i < rl.len()
        invariant
            i <= rl.len(),
            out@ == start + rl@.take(i as int),
        decreases rl.len() - i,
    {
        out.push(rl[i]);
        assert(start + rl@.take(i + 1) =~= (start + rl@.take(i as int)).push(rl@[i as int]));
        i += 1;
    }
    assert(rl@.take(rl.len() as int) =~= rl@);
    string_of(out.as_slice())
}

/// The pieces of `v` between the copies of `c` (`str::split` with a char).
pub fn split_chars(v: &[char], c: char) -> (r: Vec<Vec<char>>)
    ensures
        seqs_of(r@) == split_on(v@, c),
        r.len() > 0,
{
    let mut r: Vec<Vec<char>> = Vec::new();
    let mut cur: Vec<char> = Vec::new();
    let mut i: usize = 0;
    while i < v.len()
        invariant
            i <= v.len(),
            seqs_of(r@) + split_on_from(v@, c, i as int, cur@) == split_on(v@, c),
        decreases v.len() - i,
    {
        if v[i] == c {
            let ghost before = seqs_of(r@);
            let ghost old_cur = cur@;
            r.push(cur);
            assert(seqs_of(r@) =~= before + seq![old_cur]);
            cur = Vec::new();
            assert(seqs_of(r@) + split_on_from(v@, c, i + 1, cur@) =~= before + (seq![old_cur]
                + split_on_from(v@, c, i + 1, cur@)));
        } else {
            cur.push(v[i]);
        }
        i += 1;
    }
    let ghost before = seqs_of(r@);
    r.push(cur);
    assert(seqs_of(r@) =~= before + seq![cur@]);
    r
}

/// Whether `a` and `b` hold the same characters.
pub fn chars_equal(a: &[char], b: &[char]) -> (r: bool)
    ensures
        r == (a@ == b@),
{
    if a.len() != b.len() {
        return false;
    }
    let mut i: usize = 0;
    while i < a.len()
        invariant
            i <= a.len() == b.len(),
            forall|j: int| 0 <= j < i ==> a@[j] == b@[j],
        decreases a.len() - i,
    {
        if a[i] != b[i] {
            return false;
        }
        i += 1;
    }
    assert(a@ =~= b@);
    true
}

/// The named pieces among `pieces`.
fn named_parts_of(pieces: &Vec<Vec<char>>) -> (r: Vec<Vec<char>>)
    ensures
        seqs_of(r@) == named_parts(seqs_of(pieces@)),
{
    let mut r: Vec<Vec<char>> = Vec::new();
    let mut i: usize = 0;
    while i < pieces.len()
        invariant
            i <= pieces.len(),
            seqs_of(r@) == named_parts(seqs_of(pieces@).take(i as int)),
        decreases pieces.len() - i,
    {
        proof {
            assert(seqs_of(pieces@).take(i + 1).drop_last() =~= seqs_of(pieces@).take(i as int));
            assert(seqs_of(pieces@).take(i + 1).last() == pieces@[i as int]@);
        }
        let p = &pieces[i];
        let dot = p.len() == 1 && p[0] == '.';
        assert(dot == (p@ == seq!['.'])) by {
            if p@ == seq!['.'] {
                assert(p@[0] == '.');
            }
            if dot {
                assert(p@ =~= seq!['.']);
            }
        }
        if !(p.len() == 0 || dot) {
            let ghost before = seqs_of(r@);
            let c = copy_range(p.as_slice(), 0, p.len());
            assert(c@ =~= p@);
            r.push(c);
            assert(seqs_of(r@) =~= before.push(p@));
        }
        i += 1;
    }
    assert(seqs_of(pieces@).take(pieces.len() as int) =~= seqs_of(pieces@));
    r
}

/// Whether two paths have the same components (`Path`'s `==` on Unix).
pub fn paths_equal(a: &str, b: &str) -> (r: bool)
    ensures
        r == same_path(a@, b@),
{
    let av = chars_of(a);
    let bv = chars_of(b);
    let ra = av.len() > 0 && av[0] == '/';
    let rb = bv.len() > 0 && bv[0] == '/';
    if ra != rb {
        return false;
    }
    let sa = split_chars(av.as_slice(), '/');
    let sb = split_chars(bv.as_slice(), '/');
    let dot: Vec<char> = vec!['.'];
    assert(dot@ =~= seq!['.']);
    assert(seqs_of(sa@)[0] == sa@[0]@);
    assert(seqs_of(sb@)[0] == sb@[0]@);
    let ca = !ra && chars_equal(sa[0].as_slice(), dot.as_slice());
    let cb = !rb && chars_equal(sb[0].as_slice(), dot.as_slice());
    if ca != cb {
        return false;
    }
    let na = named_parts_of(&sa);
    let nb = named_parts_of(&sb);
    if na.len() != nb.len() {
        assert(seqs_of(na@).len() != seqs_of(nb@).len());
        return false;
    }
    let mut i: usize = 0;
    while i < na.len()
        invariant
            i <= na.len() == nb.len(),
            seqs_of(na@) == named_parts(split_on(a@, '/')),
            seqs_of(nb@) == named_parts(split_on(b@, '/')),
            forall|j: int| 0 <= j < i ==> na@[j]@ == nb@[j]@,
        decreases na.len() - i,
    {
        if !chars_equal(na[i].as_slice(), nb[i].as_slice()) {
            assert(seqs_of(na@)[i as int] != seqs_of(nb@)[i as int]);
            return false;
        }
        i += 1;
    }
    assert(seqs_of(na@) =~= seqs_of(nb@));
    true
}

/// Turns a list of character vectors into the sequence of their views.
pub open spec fn seqs_of(v: Seq<Vec<char>>) -> Seq<Seq<char>> {
    v.map_values(|l: Vec<char>| l@)
}

/// The lines of `v` (`str::lines`).
pub fn split_lines(v: &[char]) -> (r: Vec<Vec<char>>)
    ensures
        seqs_of(r@) == lines(v@),
{
    let mut r: Vec<Vec<char>> = Vec::new();
    let mut cur: Vec<char> = Vec::new();
    let mut i: usize = 0;
    while i < v.len()
        invariant
            i <= v.len(),
            seqs_of(r@) + lines_from(v@, i as int, cur@) == lines(v@),
        decreases v.len() - i,
    {
        if v[i] == '\n' {
            let ghost old_cur = cur@;
            let mut line = cur;
            if line.len() > 0 && line[line.len() - 1] == '\r' {
                line.pop();
                assert(line@ =~= strip_cr(old_cur));
            }
            assert(line@ == strip_cr(old_cur));
            let ghost before = seqs_of(r@);
            r.push(line);
            assert(seqs_of(r@) =~= before + seq![strip_cr(old_cur)]);
            cur = Vec::new();
            assert(seqs_of(r@) + lines_from(v@, i + 1, cur@) =~= before + (seq![strip_cr(old_cur)]
                + lines_from(v@, i + 1, cur@)));
        } else {
            cur.push(v[i]);
        }
        i += 1;
    }
    if cur.len() > 0 {
        let ghost before = seqs_of(r@);
        r.push(cur);
        assert(seqs_of(r@) =~= before + seq![cur@]);
    } else {
        assert(seqs_of(r@) =~= seqs_of(r@) + lines_from(v@, i as int, cur@));
    }
    r
}

/// The white-space separated words of `v` (`str::split_whitespace`).
pub fn split_words(v: &[char]) -> (r: Vec<Vec<char>>)
    ensures
        seqs_of(r@) == words(v@),
{
    let mut r: Vec<Vec<char>> = Vec::new();
    let mut cur: Vec<char> = Vec::new();
    let mut i: usize = 0;
    while i < v.len()
        invariant
            i <= v.len(),
            seqs_of(r@) + words_from(v@, i as int, cur@) == words(v@),
        decreases v.len() - i,
    {
        if is_white_space_char(v[i]) {
            let ghost before = seqs_of(r@);
            let ghost old_cur = cur@;
            if cur.len() > 0 {
                r.push(cur);
                assert(seqs_of(r@) =~= before + seq![old_cur]);
            }
            cur = Vec::new();
            assert(seqs_of(r@) + words_from(v@, i + 1, cur@) =~= before + ((if old_cur.len()
                == 0 {
                seq![]
            } else {
                seq![old_cur]
            }) + words_from(v@, i + 1, cur@)));
        } else {
            cur.push(v[i]);
        }
        i += 1;
    }
    if cur.len() > 0 {
        let ghost before = seqs_of(r@);
        r.push(cur);
        assert(seqs_of(r@) =~= before + seq![cur@]);
    } else {
        assert(seqs_of(r@) =~= seqs_of(r@) + words_from(v@, i as int, cur@));
    }
    r
}

} // verus!
