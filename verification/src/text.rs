//! Character-level text primitives: conversions between strings and character
//! vectors, trimming, searching and splitting, each with its mathematical model
//! over `Seq<char>`.
use vstd::prelude::*;

verus! {

/// `String::push` of the standard library: appends one character to the end of
/// the string and changes nothing else.
pub assume_specification[ String::push ](s: &mut String, ch: char)
    ensures
        final(s)@ == old(s)@.push(ch),
;

/// The characters of `s`, in order.
pub fn str_to_chars(s: &str) -> (r: Vec<char>)
    ensures
        r@ == s@,
{
    let mut r: Vec<char> = Vec::new();
    for c in it: s.chars()
        invariant
            r@ == it.seq().take(it.index() as int),
            it.seq() == s@,
    {
        r.push(c);
    }
    r
}

/// The string made of the characters of `v`, in order.
pub fn chars_to_string(v: &Vec<char>) -> (r: String)
    ensures
        r@ == v@,
{
    let mut r = String::new();
    let mut i: usize = 0;
    while i < v.len()
        invariant
            i <= v.len(),
            r@ == v@.take(i as int),
        decreases v.len() - i,
    {
        r.push(v[i]);
        i += 1;
    }
    r
}

/// Whether two texts are equal.
pub fn str_eq(a: &str, b: &str) -> (r: bool)
    ensures
        r == (a@ == b@),
{
    a.to_owned() == b.to_owned()
}

/// The views of a sequence of character vectors.
pub open spec fn views_of(v: Seq<Vec<char>>) -> Seq<Seq<char>> {
    Seq::new(v.len(), |i: int| v[i]@)
}

/// Whether `c` has the Unicode property `White_Space`.
pub open spec fn is_whitespace(c: char) -> bool {
    let n = c as u32;
    ||| 0x09 <= n <= 0x0D
    ||| n == 0x20
    ||| n == 0x85
    ||| n == 0xA0
    ||| n == 0x1680
    ||| 0x2000 <= n <= 0x200A
    ||| n == 0x2028
    ||| n == 0x2029
    ||| n == 0x202F
    ||| n == 0x205F
    ||| n == 0x3000
}

/// Whether `c` has the Unicode property `White_Space`.
pub fn char_is_whitespace(c: char) -> (r: bool)
    ensures
        r == is_whitespace(c),
{
    let n: u32 = c as u32;
    (0x09 <= n && n <= 0x0D) || n == 0x20 || n == 0x85 || n == 0xA0 || n == 0x1680 || (0x2000 <= n
        && n <= 0x200A) || n == 0x2028 || n == 0x2029 || n == 0x202F || n == 0x205F || n == 0x3000
}

/// Whether `c` is one of the ASCII digits `0` to `9`.
pub open spec fn is_digit(c: char) -> bool {
    '0' <= c <= '9'
}

/// Whether `c` is one of the ASCII digits.
pub fn char_is_digit(c: char) -> (r: bool)
    ensures
        r == is_digit(c),
{
    let n: u32 = c as u32;
    0x30 <= n && n <= 0x39
}

/// A set of characters that trimming removes from the ends of a text.
#[derive(Clone, Copy)]
pub enum CharClass {
    /// Every character with the property `White_Space`.
    Whitespace,
    /// The one given character.
    Only(char),
}

impl CharClass {
    /// Whether `c` belongs to the class.
    pub open spec fn holds(self, c: char) -> bool {
        match self {
            CharClass::Whitespace => is_whitespace(c),
            CharClass::Only(m) => c == m,
        }
    }

    /// Whether `c` belongs to the class.
    pub fn has(&self, c: char) -> (r: bool)
        ensures
            r == self.holds(c),
    {
        match self {
            CharClass::Whitespace => char_is_whitespace(c),
            CharClass::Only(m) => c == *m,
        }
    }
}

/// How many characters at the start of `s` belong to `cls`.
pub open spec fn lead(s: Seq<char>, cls: CharClass) -> nat
    decreases s.len(),
{
    if s.len() > 0 && cls.holds(s[0]) {
        1 + lead(s.drop_first(), cls)
    } else {
        0
    }
}

/// How many characters at the end of `s` belong to `cls`.
pub open spec fn trail(s: Seq<char>, cls: CharClass) -> nat
    decreases s.len(),
{
    if s.len() > 0 && cls.holds(s.last()) {
        1 + trail(s.drop_last(), cls)
    } else {
        0
    }
}

/// `s` without its leading characters of `cls`.
pub open spec fn strip_start_of(s: Seq<char>, cls: CharClass) -> Seq<char> {
    s.skip(lead(s, cls) as int)
}

/// `s` without its trailing characters of `cls`.
pub open spec fn strip_end_of(s: Seq<char>, cls: CharClass) -> Seq<char> {
    s.take(s.len() - trail(s, cls))
}

/// `s` without its leading and trailing characters of `cls`.
pub open spec fn strip_of(s: Seq<char>, cls: CharClass) -> Seq<char> {
    strip_end_of(strip_start_of(s, cls), cls)
}

/// `s` without leading and trailing whitespace.
pub open spec fn trim_of(s: Seq<char>) -> Seq<char> {
    strip_of(s, CharClass::Whitespace)
}

/// `s` without leading and trailing occurrences of `c`.
pub open spec fn trim_matches_of(s: Seq<char>, c: char) -> Seq<char> {
    strip_of(s, CharClass::Only(c))
}

/// The leading run stops inside the text at a character outside the class.
pub proof fn lemma_lead_bound(s: Seq<char>, cls: CharClass)
    ensures
        lead(s, cls) <= s.len(),
        lead(s, cls) < s.len() ==> !cls.holds(s[lead(s, cls) as int]),
        forall|i: int| 0 <= i < lead(s, cls) ==> cls.holds(#[trigger] s[i]),
    decreases s.len(),
{
    if s.len() > 0 && cls.holds(s[0]) {
        let t = s.drop_first();
        lemma_lead_bound(t, cls);
        assert forall|i: int| 0 <= i < lead(s, cls) implies cls.holds(#[trigger] s[i]) by {
            if i > 0 {
                assert(s[i] == t[i - 1]);
            }
        }
        if lead(s, cls) < s.len() {
            assert(s[lead(s, cls) as int] == t[lead(t, cls) as int]);
        }
    }
}

/// The trailing run stops inside the text at a character outside the class.
pub proof fn lemma_trail_bound(s: Seq<char>, cls: CharClass)
    ensures
        trail(s, cls) <= s.len(),
        trail(s, cls) < s.len() ==> !cls.holds(s[s.len() - 1 - trail(s, cls)]),
        forall|i: int| s.len() - trail(s, cls) <= i < s.len() ==> cls.holds(#[trigger] s[i]),
    decreases s.len(),
{
    if s.len() > 0 && cls.holds(s.last()) {
        let t = s.drop_last();
        lemma_trail_bound(t, cls);
        assert forall|i: int| s.len() - trail(s, cls) <= i < s.len() implies cls.holds(
            #[trigger] s[i],
        ) by {
            if i < s.len() - 1 {
                assert(s[i] == t[i]);
            }
        }
        if trail(s, cls) < s.len() {
            assert(s[s.len() - 1 - trail(s, cls)] == t[t.len() - 1 - trail(t, cls)]);
        }
    }
}

/// A text whose first character is outside the class has no leading run, and
/// likewise at the end.
pub proof fn lemma_strip_fixed(s: Seq<char>, cls: CharClass)
    requires
        s.len() == 0 || (!cls.holds(s[0]) && !cls.holds(s.last())),
    ensures
        strip_of(s, cls) == s,
{
    assert(lead(s, cls) == 0);
    assert(trail(s, cls) == 0);
    assert(s.skip(0) =~= s);
    assert(s.take(s.len() as int) =~= s);
}

/// Stripping leaves a text that is empty or begins and ends outside the class.
pub proof fn lemma_strip_ends(s: Seq<char>, cls: CharClass)
    ensures
        strip_of(s, cls).len() == 0 || (!cls.holds(strip_of(s, cls)[0]) && !cls.holds(
            strip_of(s, cls).last(),
        )),
        strip_of(s, cls).len() <= s.len(),
{
    lemma_lead_bound(s, cls);
    let t = strip_start_of(s, cls);
    lemma_trail_bound(t, cls);
    let u = strip_end_of(t, cls);
    if u.len() > 0 {
        assert(u[0] == t[0]);
        assert(t[0] == s[lead(s, cls) as int]);
        assert(u.last() == t[t.len() - 1 - trail(t, cls)]);
    }
}

/// Stripping twice is stripping once.
pub proof fn lemma_strip_idempotent(s: Seq<char>, cls: CharClass)
    ensures
        strip_of(strip_of(s, cls), cls) == strip_of(s, cls),
{
    lemma_strip_ends(s, cls);
    lemma_strip_fixed(strip_of(s, cls), cls);
}

/// A copy of the characters of `s` from `from` up to `to`.
pub fn subvec(s: &Vec<char>, from: usize, to: usize) -> (r: Vec<char>)
    requires
        from <= to <= s.len(),
    ensures
        r@ == s@.subrange(from as int, to as int),
{
    let mut r: Vec<char> = Vec::new();
    let mut i: usize = from;
    while i < to
        invariant
            from <= i <= to <= s.len(),
            r@ == s@.subrange(from as int, i as int),
        decreases to - i,
    {
        r.push(s[i]);
        i += 1;
    }
    r
}

/// The index just behind the leading run of `cls` in `s[from..to]`.
pub fn skip_lead(s: &Vec<char>, from: usize, to: usize, cls: CharClass) -> (r: usize)
    requires
        from <= to <= s.len(),
    ensures
        r == from + lead(s@.subrange(from as int, to as int), cls),
        from <= r <= to,
{
    let ghost whole = s@.subrange(from as int, to as int);
    let mut i: usize = from;
    while i < to && cls.has(s[i])
        invariant
            from <= i <= to <= s.len(),
            whole == s@.subrange(from as int, to as int),
            lead(whole, cls) == (i - from) + lead(s@.subrange(i as int, to as int), cls),
        decreases to - i,
    {
        proof {
            let cur = s@.subrange(i as int, to as int);
            assert(cur[0] == s@[i as int]);
            assert(cur.drop_first() =~= s@.subrange(i + 1, to as int));
        }
        i += 1;
    }
    proof {
        let cur = s@.subrange(i as int, to as int);
        if i < to {
            assert(cur[0] == s@[i as int]);
        }
        assert(lead(cur, cls) == 0);
    }
    i
}

/// The index at which the trailing run of `cls` in `s[from..to]` begins.
pub fn skip_trail(s: &Vec<char>, from: usize, to: usize, cls: CharClass) -> (r: usize)
    requires
        from <= to <= s.len(),
    ensures
        r == to - trail(s@.subrange(from as int, to as int), cls),
        from <= r <= to,
{
    let ghost whole = s@.subrange(from as int, to as int);
    let mut j: usize = to;
    while j > from && cls.has(s[j - 1])
        invariant
            from <= j <= to <= s.len(),
            whole == s@.subrange(from as int, to as int),
            trail(whole, cls) == (to - j) + trail(s@.subrange(from as int, j as int), cls),
        decreases j - from,
    {
        proof {
            let cur = s@.subrange(from as int, j as int);
            assert(cur.last() == s@[j - 1]);
            assert(cur.drop_last() =~= s@.subrange(from as int, j - 1));
        }
        j -= 1;
    }
    proof {
        let cur = s@.subrange(from as int, j as int);
        if j > from {
            assert(cur.last() == s@[j - 1]);
        }
        assert(trail(cur, cls) == 0);
    }
    j
}

/// `s` without its leading characters of `cls`.
pub fn strip_start(s: &Vec<char>, cls: CharClass) -> (r: Vec<char>)
    ensures
        r@ == strip_start_of(s@, cls),
{
    assert(s@.subrange(0, s.len() as int) =~= s@);
    let i = skip_lead(s, 0, s.len(), cls);
    subvec(s, i, s.len())
}

/// `s` without its trailing characters of `cls`.
pub fn strip_end(s: &Vec<char>, cls: CharClass) -> (r: Vec<char>)
    ensures
        r@ == strip_end_of(s@, cls),
{
    assert(s@.subrange(0, s.len() as int) =~= s@);
    let j = skip_trail(s, 0, s.len(), cls);
    subvec(s, 0, j)
}

/// `s` without its leading and trailing characters of `cls`.
pub fn strip(s: &Vec<char>, cls: CharClass) -> (r: Vec<char>)
    ensures
        r@ == strip_of(s@, cls),
{
    assert(s@.subrange(0, s.len() as int) =~= s@);
    let i = skip_lead(s, 0, s.len(), cls);
    let j = skip_trail(s, i, s.len(), cls);
    proof {
        let t = strip_start_of(s@, cls);
        assert(t =~= s@.subrange(i as int, s.len() as int));
        assert(strip_end_of(t, cls) =~= s@.subrange(i as int, j as int));
    }
    subvec(s, i, j)
}

/// `s` without leading and trailing whitespace.
pub fn trim(s: &Vec<char>) -> (r: Vec<char>)
    ensures
        r@ == trim_of(s@),
{
    strip(s, CharClass::Whitespace)
}

/// `s` without leading and trailing occurrences of `c`.
pub fn trim_matches(s: &Vec<char>, c: char) -> (r: Vec<char>)
    ensures
        r@ == trim_matches_of(s@, c),
{
    strip(s, CharClass::Only(c))
}

/// Whether the characters of `s` are exactly those of `lit`.
pub fn chars_eq(s: &Vec<char>, lit: &str) -> (r: bool)
    ensures
        r == (s@ == lit@),
{
    let other = str_to_chars(lit);
    if s.len() != other.len() {
        return false;
    }
    let mut i: usize = 0;
    while i < s.len()
        invariant
            i <= s.len(),
            s.len() == other.len(),
            other@ == lit@,
            forall|k: int| 0 <= k < i ==> s@[k] == other@[k],
        decreases s.len() - i,
    {
        if s[i] != other[i] {
            assert(s@[i as int] != other@[i as int]);
            return false;
        }
        i += 1;
    }
    assert(s@ =~= other@);
    true
}

/// Whether `s[at..]` begins with `pat`.
pub open spec fn matches_at(s: Seq<char>, at: int, pat: Seq<char>) -> bool {
    &&& 0 <= at
    &&& at + pat.len() <= s.len()
    &&& s.subrange(at, at + pat.len()) == pat
}

/// Whether `s[at..]` begins with `pat`.
pub fn has_at(s: &Vec<char>, at: usize, pat: &Vec<char>) -> (r: bool)
    requires
        at <= s.len(),
    ensures
        r == matches_at(s@, at as int, pat@),
{
    if pat.len() > s.len() - at {
        return false;
    }
    let mut k: usize = 0;
    while k < pat.len()
        invariant
            k <= pat.len(),
            at + pat.len() <= s.len(),
            forall|m: int| 0 <= m < k ==> s@[at + m] == pat@[m],
        decreases pat.len() - k,
    {
        if s[at + k] != pat[k] {
            proof {
                let w = s@.subrange(at as int, at + pat.len());
                assert(w[k as int] == s@[at + k]);
            }
            return false;
        }
        k += 1;
    }
    assert(s@.subrange(at as int, at + pat.len()) =~= pat@);
    true
}

/// Whether `s` begins with `pat`.
pub open spec fn starts_with_of(s: Seq<char>, pat: Seq<char>) -> bool {
    matches_at(s, 0, pat)
}

/// Whether `s` begins with the text `pat`.
pub fn starts_with(s: &Vec<char>, pat: &str) -> (r: bool)
    ensures
        r == starts_with_of(s@, pat@),
{
    let p = str_to_chars(pat);
    has_at(s, 0, &p)
}

/// The least index from `from` on at which `pat` occurs in `s`, or the length of
/// `s` where there is none.
pub open spec fn find_from(s: Seq<char>, from: int, pat: Seq<char>) -> int
    decreases s.len() - from,
{
    if from >= s.len() {
        s.len() as int
    } else if matches_at(s, from, pat) {
        from
    } else {
        find_from(s, from + 1, pat)
    }
}

/// The least index at which `pat` occurs in `s`, or the length of `s` where
/// there is none.
pub open spec fn find_of(s: Seq<char>, pat: Seq<char>) -> int {
    find_from(s, 0, pat)
}

/// What `find_from` returns: the first match at or after `from`.
pub proof fn lemma_find_from(s: Seq<char>, from: int, pat: Seq<char>)
    requires
        0 <= from,
    ensures
        from <= s.len() ==> from <= find_from(s, from, pat) <= s.len(),
        find_from(s, from, pat) < s.len() ==> matches_at(s, find_from(s, from, pat), pat),
        forall|k: int| from <= k < find_from(s, from, pat) ==> !matches_at(s, k, pat),
    decreases s.len() - from,
{
    if from < s.len() && !matches_at(s, from, pat) {
        lemma_find_from(s, from + 1, pat);
    }
}

/// The least index from `from` on at which `pat` occurs in `s`, or the length of
/// `s`.
pub fn find_at(s: &Vec<char>, from: usize, pat: &Vec<char>) -> (r: usize)
    requires
        from <= s.len(),
    ensures
        r == find_from(s@, from as int, pat@),
        from <= r <= s.len(),
{
    let mut i: usize = from;
    while i < s.len()
        invariant
            from <= i <= s.len(),
            find_from(s@, from as int, pat@) == find_from(s@, i as int, pat@),
        decreases s.len() - i,
    {
        if has_at(s, i, pat) {
            return i;
        }
        i += 1;
    }
    i
}

/// The least index at which the text `pat` occurs in `s`, or the length of `s`.
pub fn find(s: &Vec<char>, pat: &str) -> (r: usize)
    ensures
        r == find_of(s@, pat@),
        r <= s.len(),
{
    let p = str_to_chars(pat);
    find_at(s, 0, &p)
}

/// The least index at which the character `c` occurs in `s`, or the length of
/// `s`.
pub open spec fn index_of(s: Seq<char>, c: char) -> int {
    find_of(s, seq![c])
}

/// The least index at which the character `c` occurs in `s`, or the length
/// of `s`.
pub fn find_char(s: &Vec<char>, c: char) -> (r: usize)
    ensures
        r == index_of(s@, c),
        r <= s.len(),
{
    let mut p: Vec<char> = Vec::new();
    p.push(c);
    assert(p@ =~= seq![c]);
    find_at(s, 0, &p)
}

/// The two parts of `s` around the first occurrence of `c`, if there is one.
pub open spec fn split_once_of(s: Seq<char>, c: char) -> Option<(Seq<char>, Seq<char>)> {
    let i = index_of(s, c);
    if i < s.len() {
        Some((s.take(i), s.skip(i + 1)))
    } else {
        None
    }
}

/// The two parts of `s` around the first occurrence of `c`.
pub fn split_once(s: &Vec<char>, c: char) -> (r: Option<(Vec<char>, Vec<char>)>)
    ensures
        r is Some == split_once_of(s@, c) is Some,
        r matches Some(p) ==> (p.0@, p.1@) == split_once_of(s@, c)->0,
{
    let i = find_char(s, c);
    if i < s.len() {
        let a = subvec(s, 0, i);
        let b = subvec(s, i + 1, s.len());
        Some((a, b))
    } else {
        None
    }
}

/// The pieces of `s` between the occurrences of `c`. There is always a last
/// piece, which is empty where `s` ends with `c` or is empty.
pub open spec fn split_of(s: Seq<char>, c: char) -> Seq<Seq<char>>
    decreases s.len(),
{
    let i = index_of(s, c);
    if 0 <= i < s.len() {
        seq![s.take(i)] + split_of(s.skip(i + 1), c)
    } else {
        seq![s]
    }
}

/// `find_from` sees a suffix as it sees the whole text.
pub proof fn lemma_find_suffix(s: Seq<char>, base: int, from: int, pat: Seq<char>)
    requires
        0 <= base <= from <= s.len(),
    ensures
        find_from(s.skip(base), from - base, pat) == find_from(s, from, pat) - base,
    decreases s.len() - from,
{
    let t = s.skip(base);
    if from < s.len() {
        if from + pat.len() <= s.len() {
            assert(t.subrange(from - base, from - base + pat.len()) =~= s.subrange(
                from,
                from + pat.len(),
            ));
        }
        assert(matches_at(t, from - base, pat) == matches_at(s, from, pat));
        if !matches_at(s, from, pat) {
            lemma_find_suffix(s, base, from + 1, pat);
        }
    }
}

/// The pieces of `s` between the occurrences of `c`.
pub fn split(s: &Vec<char>, c: char) -> (r: Vec<Vec<char>>)
    ensures
        views_of(r@) == split_of(s@, c),
{
    let mut out: Vec<Vec<char>> = Vec::new();
    let mut p: Vec<char> = Vec::new();
    p.push(c);
    assert(p@ =~= seq![c]);
    let mut pos: usize = 0;
    assert(s@.skip(0) =~= s@);
    assert(views_of(out@) + split_of(s@.skip(0), c) =~= split_of(s@, c));
    loop
        invariant_except_break
            pos <= s.len(),
            p@ == seq![c],
            split_of(s@, c) == views_of(out@) + split_of(s@.skip(pos as int), c),
        ensures
            views_of(out@) == split_of(s@, c),
        decreases s.len() - pos,
    {
        let i = find_at(s, pos, &p);
        proof {
            lemma_find_suffix(s@, pos as int, pos as int, p@);
        }
        let ghost rest = s@.skip(pos as int);
        let ghost before = views_of(out@);
        if i < s.len() {
            let piece = subvec(s, pos, i);
            out.push(piece);
            proof {
                assert(rest.take(i - pos) =~= s@.subrange(pos as int, i as int));
                assert(rest.skip(i - pos + 1) =~= s@.skip(i + 1));
                assert(views_of(out@) =~= before + seq![piece@]);
                assert(split_of(rest, c) == seq![rest.take(i - pos)] + split_of(
                    rest.skip(i - pos + 1),
                    c,
                ));
                assert(views_of(out@) + split_of(s@.skip(i + 1), c) =~= before + split_of(rest, c));
            }
            pos = i + 1;
        } else {
            let piece = subvec(s, pos, s.len());
            out.push(piece);
            proof {
                assert(piece@ =~= rest);
                assert(views_of(out@) =~= before + seq![piece@]);
                assert(split_of(rest, c) == seq![rest]);
            }
            break;
        }
    }
    out
}

/// `line` without one carriage return at its end.
pub open spec fn without_cr(line: Seq<char>) -> Seq<char> {
    if line.len() > 0 && line.last() == '\r' {
        line.drop_last()
    } else {
        line
    }
}

/// The lines of `s`. A line ends at a line feed, which is not part of it, nor
/// is a carriage return just before the line feed. What follows the last line
/// feed is a line if it is not empty.
pub open spec fn lines_of(s: Seq<char>) -> Seq<Seq<char>>
    decreases s.len(),
{
    let i = index_of(s, '\n');
    if s.len() == 0 {
        seq![]
    } else if 0 <= i < s.len() {
        seq![without_cr(s.take(i))] + lines_of(s.skip(i + 1))
    } else {
        seq![s]
    }
}

/// The lines of `s`.
pub fn lines(s: &Vec<char>) -> (r: Vec<Vec<char>>)
    ensures
        views_of(r@) == lines_of(s@),
{
    let mut out: Vec<Vec<char>> = Vec::new();
    let mut p: Vec<char> = Vec::new();
    p.push('\n');
    assert(p@ =~= seq!['\n']);
    let mut pos: usize = 0;
    assert(s@.skip(0) =~= s@);
    assert(views_of(out@) + lines_of(s@.skip(0)) =~= lines_of(s@));
    while pos < s.len()
        invariant
            pos <= s.len(),
            p@ == seq!['\n'],
            lines_of(s@) == views_of(out@) + lines_of(s@.skip(pos as int)),
        decreases s.len() - pos,
    {
        let i = find_at(s, pos, &p);
        proof {
            lemma_find_suffix(s@, pos as int, pos as int, p@);
        }
        let ghost rest = s@.skip(pos as int);
        let ghost before = views_of(out@);
        if i < s.len() {
            let end = if i > pos && s[i - 1] == '\r' {
                i - 1
            } else {
                i
            };
            let piece = subvec(s, pos, end);
            out.push(piece);
            proof {
                let raw = rest.take(i - pos);
                assert(raw =~= s@.subrange(pos as int, i as int));
                if i > pos {
                    assert(raw.last() == s@[i - 1]);
                }
                assert(without_cr(raw) =~= piece@);
                assert(rest.skip(i - pos + 1) =~= s@.skip(i + 1));
                assert(views_of(out@) =~= before + seq![piece@]);
                assert(lines_of(rest) == seq![without_cr(raw)] + lines_of(
                    rest.skip(i - pos + 1),
                ));
                assert(views_of(out@) + lines_of(s@.skip(i + 1)) =~= before + lines_of(rest));
            }
            pos = i + 1;
        } else {
            let piece = subvec(s, pos, s.len());
            out.push(piece);
            proof {
                assert(piece@ =~= rest);
                assert(views_of(out@) =~= before + seq![piece@]);
                assert(lines_of(rest) == seq![rest]);
                assert(s@.skip(s.len() as int).len() == 0);
                assert(lines_of(s@.skip(s.len() as int)) =~= Seq::<Seq<char>>::empty());
            }
            pos = s.len();
        }
    }
    proof {
        assert(s@.skip(s.len() as int).len() == 0);
        assert(lines_of(s@.skip(pos as int)) =~= Seq::<Seq<char>>::empty());
        assert(views_of(out@) + Seq::<Seq<char>>::empty() =~= views_of(out@));
    }
    out
}

/// `s` after `pat` has been taken from its start as often as it stands there.
pub open spec fn strip_prefixes_of(s: Seq<char>, pat: Seq<char>) -> Seq<char>
    decreases s.len(),
{
    if pat.len() > 0 && matches_at(s, 0, pat) {
        strip_prefixes_of(s.skip(pat.len() as int), pat)
    } else {
        s
    }
}

/// `s` after `pat` has been taken from its start as often as it stands
/// there.
pub fn strip_prefixes(s: &Vec<char>, pat: &str) -> (r: Vec<char>)
    ensures
        r@ == strip_prefixes_of(s@, pat@),
{
    let p = str_to_chars(pat);
    let mut pos: usize = 0;
    assert(s@.skip(0) =~= s@);
    while p.len() > 0 && has_at(s, pos, &p)
        invariant
            pos <= s.len(),
            p@ == pat@,
            strip_prefixes_of(s@, pat@) == strip_prefixes_of(s@.skip(pos as int), pat@),
        decreases s.len() - pos,
    {
        proof {
            let rest = s@.skip(pos as int);
            assert(rest.subrange(0, p.len() as int) =~= s@.subrange(
                pos as int,
                pos + p.len(),
            ));
            assert(matches_at(rest, 0, p@));
            assert(rest.skip(p.len() as int) =~= s@.skip(pos + p.len()));
        }
        pos += p.len();
    }
    proof {
        let rest = s@.skip(pos as int);
        if p.len() > 0 && pos + p.len() <= s.len() {
            assert(rest.subrange(0, p.len() as int) =~= s@.subrange(
                pos as int,
                pos + p.len(),
            ));
        }
        assert(rest =~= s@.subrange(pos as int, s.len() as int));
    }
    subvec(s, pos, s.len())
}

/// The lower-case form of an ASCII capital letter; any other character
/// stands for itself.
pub open spec fn ascii_lower(c: char) -> char {
    if 'A' <= c <= 'Z' {
        ((c as u8) + 32) as u8 as char
    } else {
        c
    }
}

/// The upper-case form of an ASCII small letter; any other character stands
/// for itself.
pub open spec fn ascii_upper(c: char) -> char {
    if 'a' <= c <= 'z' {
        ((c as u8) - 32) as u8 as char
    } else {
        c
    }
}

/// The lower-case form of an ASCII capital letter.
pub fn to_ascii_lower(c: char) -> (r: char)
    ensures
        r == ascii_lower(c),
{
    let n: u32 = c as u32;
    if 0x41 <= n && n <= 0x5A {
        ((n as u8) + 32) as char
    } else {
        c
    }
}

/// The upper-case form of an ASCII small letter.
pub fn to_ascii_upper(c: char) -> (r: char)
    ensures
        r == ascii_upper(c),
{
    let n: u32 = c as u32;
    if 0x61 <= n && n <= 0x7A {
        ((n as u8) - 32) as char
    } else {
        c
    }
}

/// `s` with each ASCII small letter in its upper-case form.
pub open spec fn ascii_uppercase_of(s: Seq<char>) -> Seq<char> {
    Seq::new(s.len(), |i: int| ascii_upper(s[i]))
}

/// `s` with each ASCII small letter in its upper-case form.
pub fn to_ascii_uppercase(s: &str) -> (r: String)
    ensures
        r@ == ascii_uppercase_of(s@),
{
    let chars = str_to_chars(s);
    let mut out = String::new();
    let mut i: usize = 0;
    while i < chars.len()
        invariant
            i <= chars.len(),
            chars@ == s@,
            out@ == ascii_uppercase_of(s@).take(i as int),
        decreases chars.len() - i,
    {
        out.push(to_ascii_upper(chars[i]));
        assert(out@ =~= ascii_uppercase_of(s@).take(i + 1));
        i += 1;
    }
    assert(ascii_uppercase_of(s@).take(chars.len() as int) =~= ascii_uppercase_of(s@));
    out
}

/// The texts one after the other, with `sep` between each two.
pub open spec fn join_of(parts: Seq<Seq<char>>, sep: Seq<char>) -> Seq<char>
    decreases parts.len(),
{
    if parts.len() == 0 {
        Seq::<char>::empty()
    } else if parts.len() == 1 {
        parts[0]
    } else {
        parts[0] + sep + join_of(parts.drop_first(), sep)
    }
}

/// The views of a sequence of strings.
pub open spec fn texts_of(v: Seq<String>) -> Seq<Seq<char>> {
    Seq::new(v.len(), |i: int| v[i]@)
}

/// The views of a sequence of pairs of strings.
pub open spec fn text_pairs_of(v: Seq<(String, String)>) -> Seq<(Seq<char>, Seq<char>)> {
    Seq::new(v.len(), |i: int| (v[i].0@, v[i].1@))
}

/// The strings one after the other, with `sep` between each two.
pub fn join(parts: &Vec<String>, sep: &str) -> (r: String)
    ensures
        r@ == join_of(texts_of(parts@), sep@),
{
    let ghost all = texts_of(parts@);
    let mut out = String::new();
    let mut i: usize = 0;
    assert(all.skip(0) =~= all);
    assert(out@ + join_of(all, sep@) =~= join_of(all, sep@));
    while i < parts.len()
        invariant
            i <= parts.len(),
            all == texts_of(parts@),
            join_of(all, sep@) == out@ + join_of(all.skip(i as int), sep@),
        decreases parts.len() - i,
    {
        let ghost rest = all.skip(i as int);
        let ghost before = out@;
        assert(rest[0] == parts[i as int]@);
        assert(rest.drop_first() =~= all.skip(i + 1));
        out.append(parts[i].as_str());
        if i + 1 < parts.len() {
            out.append(sep);
            assert(out@ + join_of(all.skip(i + 1), sep@) =~= before + join_of(rest, sep@));
        } else {
            assert(all.skip(i + 1).len() == 0);
            assert(out@ + join_of(all.skip(i + 1), sep@) =~= before + join_of(rest, sep@));
        }
        i += 1;
    }
    assert(all.skip(parts.len() as int).len() == 0);
    assert(out@ + Seq::<char>::empty() =~= out@);
    out
}

/// `s` from `pos` on with each occurrence of `pat`, which is not empty,
/// replaced by `with`; the occurrences are taken from left to right and do
/// not overlap.
pub open spec fn replace_from(s: Seq<char>, pos: int, pat: Seq<char>, with: Seq<char>) -> Seq<char>
    decreases s.len() - pos,
{
    let i = find_from(s, pos, pat);
    if pat.len() > 0 && 0 <= pos <= i < s.len() && i + pat.len() <= s.len() {
        s.subrange(pos, i) + with + replace_from(s, i + pat.len(), pat, with)
    } else if 0 <= pos <= s.len() {
        s.skip(pos)
    } else {
        Seq::<char>::empty()
    }
}

/// `with` behind each character of `s`.
pub open spec fn followed_by(s: Seq<char>, with: Seq<char>) -> Seq<char>
    decreases s.len(),
{
    if s.len() == 0 {
        Seq::<char>::empty()
    } else {
        seq![s[0]] + with + followed_by(s.drop_first(), with)
    }
}

/// `s` with each occurrence of `pat` replaced by `with`. An empty `pat`
/// occurs before each character and at the end.
pub open spec fn replace_of(s: Seq<char>, pat: Seq<char>, with: Seq<char>) -> Seq<char> {
    if pat.len() == 0 {
        with + followed_by(s, with)
    } else {
        replace_from(s, 0, pat, with)
    }
}

/// `s` with each occurrence of `pat` replaced by `with`.
pub fn replace(s: &str, pat: &str, with: &str) -> (r: String)
    ensures
        r@ == replace_of(s@, pat@, with@),
{
    let chars = str_to_chars(s);
    let p = str_to_chars(pat);
    let mut out = String::new();
    let mut pos: usize = 0;
    if p.len() == 0 {
        out.append(with);
        assert(chars@.skip(0) =~= chars@);
        while pos < chars.len()
            invariant
                pos <= chars.len(),
                chars@ == s@,
                with@ + followed_by(s@, with@) == out@ + followed_by(
                    chars@.skip(pos as int),
                    with@,
                ),
            decreases chars.len() - pos,
        {
            let ghost rest = chars@.skip(pos as int);
            let ghost before = out@;
            assert(rest[0] == chars@[pos as int]);
            assert(rest.drop_first() =~= chars@.skip(pos + 1));
            out.push(chars[pos]);
            out.append(with);
            assert(out@ + followed_by(chars@.skip(pos + 1), with@) =~= before + followed_by(
                rest,
                with@,
            ));
            pos += 1;
        }
        assert(chars@.skip(chars.len() as int).len() == 0);
        assert(out@ + Seq::<char>::empty() =~= out@);
        return out;
    }
    assert(out@ + replace_from(chars@, 0, p@, with@) =~= replace_from(chars@, 0, p@, with@));
    loop
        invariant_except_break
            pos <= chars.len(),
            chars@ == s@,
            p@ == pat@,
            p.len() > 0,
            replace_from(chars@, 0, p@, with@) == out@ + replace_from(
                chars@,
                pos as int,
                p@,
                with@,
            ),
        ensures
            out@ == replace_of(s@, pat@, with@),
        decreases chars.len() - pos,
    {
        let i = find_at(&chars, pos, &p);
        proof {
            lemma_find_from(chars@, pos as int, p@);
        }
        let ghost before = out@;
        if i < chars.len() {
            let piece = subvec(&chars, pos, i);
            let text = chars_to_string(&piece);
            out.append(text.as_str());
            out.append(with);
            assert(out@ + replace_from(chars@, i + p.len(), p@, with@) =~= before + replace_from(
                chars@,
                pos as int,
                p@,
                with@,
            ));
            pos = i + p.len();
        } else {
            let piece = subvec(&chars, pos, chars.len());
            let text = chars_to_string(&piece);
            out.append(text.as_str());
            assert(piece@ =~= chars@.skip(pos as int));
            break;
        }
    }
    out
}

/// The character that writes the digit `d`.
pub open spec fn digit_char(d: int) -> char {
    (('0' as u8) + d) as u8 as char
}

/// The decimal numeral of `n`, without leading zeros.
pub open spec fn decimal_of(n: nat) -> Seq<char>
    decreases n,
{
    if n < 10 {
        seq![digit_char(n as int)]
    } else {
        decimal_of(n / 10) + seq![digit_char((n % 10) as int)]
    }
}

/// The decimal numeral of `v`, with a minus sign where `v` is negative.
pub open spec fn integer_text_of(v: int) -> Seq<char> {
    if v < 0 {
        seq!['-'] + decimal_of((-v) as nat)
    } else {
        decimal_of(v as nat)
    }
}

/// Appends the decimal numeral of `n`.
fn push_decimal(s: &mut String, n: u64)
    ensures
        final(s)@ == old(s)@ + decimal_of(n as nat),
    decreases n,
{
    if n >= 10 {
        push_decimal(s, n / 10);
    }
    let d: u8 = (n % 10) as u8;
    s.push((0x30 + d) as char);
    assert(s@ =~= old(s)@ + decimal_of(n as nat));
}

/// The decimal numeral of `v`.
pub fn integer_to_string(v: i64) -> (r: String)
    ensures
        r@ == integer_text_of(v as int),
{
    let mut s = String::new();
    if v < 0 {
        s.push('-');
        let m: u64 = if v == i64::MIN {
            0x8000_0000_0000_0000
        } else {
            (-v) as u64
        };
        push_decimal(&mut s, m);
    } else {
        push_decimal(&mut s, v as u64);
    }
    assert(s@ =~= integer_text_of(v as int));
    s
}

/// How often the character `c` stands in `s`.
pub open spec fn count_of(s: Seq<char>, c: char) -> nat
    decreases s.len(),
{
    if s.len() == 0 {
        0
    } else {
        count_of(s.drop_last(), c) + (if s.last() == c {
            1nat
        } else {
            0nat
        })
    }
}

/// How often the character `c` stands in `s`.
pub fn count_char(s: &Vec<char>, c: char) -> (r: usize)
    ensures
        r == count_of(s@, c),
        r <= s.len(),
{
    let mut n: usize = 0;
    let mut i: usize = 0;
    while i < s.len()
        invariant
            i <= s.len(),
            n <= i,
            n == count_of(s@.take(i as int), c),
        decreases s.len() - i,
    {
        assert(s@.take(i + 1).drop_last() =~= s@.take(i as int));
        if s[i] == c {
            n += 1;
        }
        i += 1;
    }
    assert(s@.take(s.len() as int) =~= s@);
    n
}

/// How `a` stands to `b` in the order of the dictionary, character by
/// character: -1 where `a` comes first, 1 where `b` does, 0 where they are
/// equal.
pub open spec fn lex_sign(a: Seq<char>, b: Seq<char>) -> int
    decreases a.len(),
{
    if a.len() == 0 && b.len() == 0 {
        0
    } else if a.len() == 0 {
        -1
    } else if b.len() == 0 {
        1
    } else if a[0] < b[0] {
        -1
    } else if a[0] > b[0] {
        1
    } else {
        lex_sign(a.drop_first(), b.drop_first())
    }
}

/// Compares two texts in the order of the dictionary.
pub fn compare_texts(a: &Vec<char>, b: &Vec<char>) -> (r: i8)
    ensures
        r == lex_sign(a@, b@),
{
    let mut i: usize = 0;
    assert(a@.skip(0) =~= a@ && b@.skip(0) =~= b@);
    loop
        invariant
            i <= a.len(),
            i <= b.len(),
            lex_sign(a@, b@) == lex_sign(a@.skip(i as int), b@.skip(i as int)),
        decreases a.len() - i,
    {
        let ghost x = a@.skip(i as int);
        let ghost y = b@.skip(i as int);
        if i >= a.len() && i >= b.len() {
            return 0;
        }
        if i >= a.len() {
            return -1;
        }
        if i >= b.len() {
            return 1;
        }
        assert(x[0] == a@[i as int] && y[0] == b@[i as int]);
        if a[i] < b[i] {
            return -1;
        }
        if a[i] > b[i] {
            return 1;
        }
        assert(x.drop_first() =~= a@.skip(i + 1));
        assert(y.drop_first() =~= b@.skip(i + 1));
        i += 1;
    }
}

/// Turning two texts round turns their order round.
pub proof fn lemma_lex_sign_mirror(a: Seq<char>, b: Seq<char>)
    ensures
        lex_sign(a, b) == -lex_sign(b, a),
        -1 <= lex_sign(a, b) <= 1,
    decreases a.len(),
{
    if a.len() > 0 && b.len() > 0 && a[0] == b[0] {
        lemma_lex_sign_mirror(a.drop_first(), b.drop_first());
    }
}

/// Only equal texts stand at the same place.
pub proof fn lemma_lex_sign_equal(a: Seq<char>, b: Seq<char>)
    ensures
        lex_sign(a, b) == 0 <==> a == b,
    decreases a.len(),
{
    if a.len() > 0 && b.len() > 0 && a[0] == b[0] {
        lemma_lex_sign_equal(a.drop_first(), b.drop_first());
        if a.drop_first() == b.drop_first() {
            assert(a =~= seq![a[0]] + a.drop_first());
            assert(b =~= seq![b[0]] + b.drop_first());
        }
    } else if a.len() == 0 && b.len() == 0 {
        assert(a =~= b);
    }
}

/// What stands before a text stands before all that the text stands before.
pub proof fn lemma_lex_sign_chain(a: Seq<char>, b: Seq<char>, c: Seq<char>)
    requires
        lex_sign(a, b) <= 0,
        lex_sign(b, c) <= 0,
    ensures
        lex_sign(a, c) <= 0,
        lex_sign(a, b) < 0 || lex_sign(b, c) < 0 ==> lex_sign(a, c) < 0,
    decreases a.len(),
{
    if a.len() > 0 && b.len() > 0 && c.len() > 0 && a[0] == b[0] && b[0] == c[0] {
        lemma_lex_sign_chain(a.drop_first(), b.drop_first(), c.drop_first());
    }
}

} // verus!
