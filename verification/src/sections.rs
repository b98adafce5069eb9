//! The section splitter, which cuts a document at its `[name]` header lines,
//! and what the section parsers share: the lines that count, and the
//! `key=value` pairs on them.
use crate::splitter::pair_views_of;
use crate::strmap::{distinct_keys, lemma_with_entry, map_of, with_entry, StrMap};
use crate::text::{
    chars_to_string, lines, lines_of, split_once, split_once_of, starts_with, starts_with_of,
    subvec, trim, trim_matches, trim_matches_of, trim_of, views_of,
};
use vstd::prelude::*;

verus! {

/// Whether `c` may stand in a section's name: an ASCII letter, an ASCII
/// digit or the underscore.
pub open spec fn is_word_char(c: char) -> bool {
    ||| 'a' <= c <= 'z'
    ||| 'A' <= c <= 'Z'
    ||| '0' <= c <= '9'
    ||| c == '_'
}

/// Whether `c` may stand in a section's name.
pub fn char_is_word(c: char) -> (r: bool)
    ensures
        r == is_word_char(c),
{
    let n: u32 = c as u32;
    (0x61 <= n && n <= 0x7A) || (0x41 <= n && n <= 0x5A) || (0x30 <= n && n <= 0x39) || n == 0x5F
}

/// The index just behind the run of name characters that begins at `from`.
pub open spec fn word_run(s: Seq<char>, from: int) -> int
    decreases s.len() - from,
{
    if 0 <= from < s.len() && is_word_char(s[from]) {
        word_run(s, from + 1)
    } else {
        from
    }
}

/// Whether a section header begins at `s[i]`: at the start of a line an
/// opening bracket, a name of one or more characters and a closing bracket,
/// with which the line ends.
pub open spec fn is_header_at(s: Seq<char>, i: int) -> bool {
    let e = word_run(s, i + 1);
    &&& 0 <= i < s.len()
    &&& (i == 0 || s[i - 1] == '\n')
    &&& s[i] == '['
    &&& e > i + 1
    &&& e < s.len()
    &&& s[e] == ']'
    &&& (e + 1 == s.len() || s[e + 1] == '\n')
}

/// The first index from `from` on at which a section header begins, or the
/// length of `s` where there is none.
pub open spec fn next_header(s: Seq<char>, from: int) -> int
    decreases s.len() - from,
{
    if from >= s.len() {
        s.len() as int
    } else if is_header_at(s, from) {
        from
    } else {
        next_header(s, from + 1)
    }
}

/// What stands before the first section header.
pub open spec fn preamble_of(s: Seq<char>) -> Seq<char> {
    s.take(next_header(s, 0))
}

/// The sections from the header at `from` on: each runs from its header up to
/// the next header, the last one to the end.
pub open spec fn sections_from(s: Seq<char>, from: int) -> Seq<Seq<char>>
    decreases s.len() - from,
{
    if from < 0 || from >= s.len() {
        seq![]
    } else {
        let next = next_header(s, from + 1);
        if from < next <= s.len() {
            seq![s.subrange(from, next)] + sections_from(s, next)
        } else {
            seq![s.subrange(from, s.len() as int)]
        }
    }
}

/// The sections of a document, in order.
pub open spec fn sections_of(s: Seq<char>) -> Seq<Seq<char>> {
    sections_from(s, next_header(s, 0))
}

/// What `next_header` returns.
pub proof fn lemma_next_header(s: Seq<char>, from: int)
    requires
        0 <= from <= s.len(),
    ensures
        from <= next_header(s, from) <= s.len(),
        next_header(s, from) < s.len() ==> is_header_at(s, next_header(s, from)),
        forall|k: int| from <= k < next_header(s, from) ==> !is_header_at(s, k),
    decreases s.len() - from,
{
    if from < s.len() && !is_header_at(s, from) {
        lemma_next_header(s, from + 1);
    }
}

/// The preamble and the sections, one after the other, are the document.
pub proof fn lemma_sections_cover(s: Seq<char>, from: int)
    requires
        0 <= from <= s.len(),
    ensures
        sections_from(s, from).flatten() == s.skip(from),
        forall|i: int|
            0 <= i < sections_from(s, from).len() ==> (#[trigger] sections_from(s, from)[i]).len()
                > 0,
    decreases s.len() - from,
{
    if from < s.len() {
        lemma_next_header(s, from + 1);
        let next = next_header(s, from + 1);
        let first = s.subrange(from, next);
        let rest = sections_from(s, next);
        lemma_sections_cover(s, next);
        let all = seq![first] + rest;
        assert(all.drop_first() =~= rest);
        assert(all.first() == first);
        assert(all.flatten() == first + rest.flatten()) by {
            reveal_with_fuel(Seq::flatten, 2);
        }
        assert(first + s.skip(next) =~= s.skip(from));
        assert forall|i: int| 0 <= i < all.len() implies (#[trigger] all[i]).len() > 0 by {
            if i > 0 {
                assert(all[i] == rest[i - 1]);
            }
        }
    } else {
        assert(s.skip(from) =~= Seq::<char>::empty());
        assert(sections_from(s, from).flatten() =~= Seq::<char>::empty());
    }
}

/// The index just behind the run of name characters that begins at `from`.
fn scan_word(s: &Vec<char>, from: usize) -> (r: usize)
    requires
        from <= s.len(),
    ensures
        r == word_run(s@, from as int),
        from <= r <= s.len(),
{
    let mut i: usize = from;
    while i < s.len() && char_is_word(s[i])
        invariant
            from <= i <= s.len(),
            word_run(s@, from as int) == word_run(s@, i as int),
        decreases s.len() - i,
    {
        i += 1;
    }
    i
}

/// Whether a section header begins at `s[i]`.
fn header_at(s: &Vec<char>, i: usize) -> (r: bool)
    requires
        i < s.len(),
    ensures
        r == is_header_at(s@, i as int),
{
    if !((i == 0 || s[i - 1] == '\n') && s[i] == '[') {
        return false;
    }
    let e = scan_word(s, i + 1);
    e > i + 1 && e < s.len() && s[e] == ']' && (e + 1 == s.len() || s[e + 1] == '\n')
}

/// The first index from `from` on at which a section header begins.
fn find_header(s: &Vec<char>, from: usize) -> (r: usize)
    requires
        from <= s.len(),
    ensures
        r == next_header(s@, from as int),
        from <= r <= s.len(),
{
    let mut i: usize = from;
    while i < s.len()
        invariant
            from <= i <= s.len(),
            next_header(s@, from as int) == next_header(s@, i as int),
        decreases s.len() - i,
    {
        if header_at(s, i) {
            return i;
        }
        i += 1;
    }
    i
}

/// A document cut at its section headers.
pub struct SectionSplit {
    /// What stands before the first header; empty where the document begins
    /// with one.
    pub preamble: Vec<char>,
    /// The sections in order, each with its header line.
    pub sections: Vec<Vec<char>>,
}

/// Cuts a document at its section headers.
pub fn split_sections(content: &Vec<char>) -> (r: SectionSplit)
    ensures
        r.preamble@ == preamble_of(content@),
        views_of(r.sections@) == sections_of(content@),
{
    let first = find_header(content, 0);
    let preamble = subvec(content, 0, first);
    let mut out: Vec<Vec<char>> = Vec::new();
    let mut at: usize = first;
    assert(views_of(out@) + sections_from(content@, first as int) =~= sections_from(
        content@,
        first as int,
    ));
    while at < content.len()
        invariant
            at <= content.len(),
            sections_of(content@) == views_of(out@) + sections_from(content@, at as int),
        decreases content.len() - at,
    {
        let next = find_header(content, at + 1);
        let ghost before = views_of(out@);
        let piece = subvec(content, at, next);
        out.push(piece);
        proof {
            assert(views_of(out@) =~= before + seq![piece@]);
            assert(views_of(out@) + sections_from(content@, next as int) =~= before
                + sections_from(content@, at as int));
        }
        at = next;
    }
    assert(views_of(out@) + Seq::<Seq<char>>::empty() =~= views_of(out@));
    SectionSplit { preamble, sections: out }
}

/// Whether a trimmed line counts: it is not empty and no comment.
pub open spec fn is_significant(line: Seq<char>) -> bool {
    line.len() > 0 && line[0] != '#'
}

/// The lines that count among `ls`, each trimmed.
pub open spec fn significant_in(ls: Seq<Seq<char>>) -> Seq<Seq<char>>
    decreases ls.len(),
{
    if ls.len() == 0 {
        seq![]
    } else {
        let rest = significant_in(ls.drop_first());
        let t = trim_of(ls[0]);
        if is_significant(t) {
            seq![t] + rest
        } else {
            rest
        }
    }
}

/// The lines of `content` that count: each line is trimmed, and empty lines
/// and lines that begin with `#` are left out.
pub open spec fn significant_lines_of(content: Seq<char>) -> Seq<Seq<char>> {
    significant_in(lines_of(content))
}

/// The lines of `content` that count.
pub fn significant_lines(content: &Vec<char>) -> (r: Vec<Vec<char>>)
    ensures
        views_of(r@) == significant_lines_of(content@),
        forall|i: int| 0 <= i < r.len() ==> is_significant(#[trigger] r[i]@),
{
    let all = lines(content);
    let ghost ls = views_of(all@);
    let mut out: Vec<Vec<char>> = Vec::new();
    let mut i: usize = 0;
    assert(ls.skip(0) =~= ls);
    assert(views_of(out@) + significant_in(ls) =~= significant_in(ls));
    while i < all.len()
        invariant
            i <= all.len(),
            ls == views_of(all@),
            significant_in(ls) == views_of(out@) + significant_in(ls.skip(i as int)),
            forall|k: int| 0 <= k < out.len() ==> is_significant(#[trigger] out[k]@),
        decreases all.len() - i,
    {
        let ghost rest = ls.skip(i as int);
        let ghost before = views_of(out@);
        assert(rest[0] == all[i as int]@);
        assert(rest.drop_first() =~= ls.skip(i + 1));
        let t = trim(&all[i]);
        if t.len() > 0 && t[0] != '#' {
            let ghost tv = t@;
            out.push(t);
            assert(views_of(out@) =~= before + seq![tv]);
            assert(views_of(out@) + significant_in(ls.skip(i + 1)) =~= before + significant_in(
                rest,
            ));
        }
        i += 1;
    }
    assert(ls.skip(all.len() as int) =~= Seq::<Seq<char>>::empty());
    assert(views_of(out@) + Seq::<Seq<char>>::empty() =~= views_of(out@));
    out
}

/// The key and the value on a line that counts: the parts around its first
/// `=`, both trimmed, the value without double quotes at its ends. `None`
/// where the line has no `=`, and where it begins with `[` while
/// `skip_bracket` is set.
pub open spec fn key_value_of(line: Seq<char>, skip_bracket: bool) -> Option<
    (Seq<char>, Seq<char>),
> {
    if skip_bracket && line.len() > 0 && line[0] == '[' {
        None
    } else {
        match split_once_of(line, '=') {
            Some((k, v)) => Some((trim_of(k), trim_matches_of(trim_of(v), '"'))),
            None => None,
        }
    }
}

/// The keys and values on the lines `ls`, in order.
pub open spec fn key_values_in(ls: Seq<Seq<char>>, skip_bracket: bool) -> Seq<
    (Seq<char>, Seq<char>),
>
    decreases ls.len(),
{
    if ls.len() == 0 {
        seq![]
    } else {
        let rest = key_values_in(ls.drop_first(), skip_bracket);
        match key_value_of(ls[0], skip_bracket) {
            Some(p) => seq![p] + rest,
            None => rest,
        }
    }
}

/// The keys and values that a section's text holds, in order.
pub open spec fn key_values_of(content: Seq<char>, skip_bracket: bool) -> Seq<
    (Seq<char>, Seq<char>),
> {
    key_values_in(significant_lines_of(content), skip_bracket)
}

/// The key and the value on a line that counts.
pub fn parse_key_value(line: &Vec<char>, skip_bracket: bool) -> (r: Option<(Vec<char>, Vec<char>)>)
    ensures
        r is Some == key_value_of(line@, skip_bracket) is Some,
        r matches Some(p) ==> key_value_of(line@, skip_bracket) == Some((p.0@, p.1@)),
{
    if skip_bracket && line.len() > 0 && line[0] == '[' {
        return None;
    }
    match split_once(line, '=') {
        Some((k, v)) => {
            let key = trim(&k);
            let value = trim_matches(&trim(&v), '"');
            Some((key, value))
        },
        None => None,
    }
}

/// The keys and values that a section's text holds, in order.
pub fn parse_key_values(content: &Vec<char>, skip_bracket: bool) -> (r: Vec<(Vec<char>, Vec<char>)>)
    ensures
        pair_views_of(r@) == key_values_of(content@, skip_bracket),
{
    let all = significant_lines(content);
    let ghost ls = views_of(all@);
    let mut out: Vec<(Vec<char>, Vec<char>)> = Vec::new();
    let mut i: usize = 0;
    assert(ls.skip(0) =~= ls);
    assert(pair_views_of(out@) + key_values_in(ls, skip_bracket) =~= key_values_in(
        ls,
        skip_bracket,
    ));
    while i < all.len()
        invariant
            i <= all.len(),
            ls == views_of(all@),
            key_values_in(ls, skip_bracket) == pair_views_of(out@) + key_values_in(
                ls.skip(i as int),
                skip_bracket,
            ),
        decreases all.len() - i,
    {
        let ghost rest = ls.skip(i as int);
        let ghost before = pair_views_of(out@);
        assert(rest[0] == all[i as int]@);
        assert(rest.drop_first() =~= ls.skip(i + 1));
        match parse_key_value(&all[i], skip_bracket) {
            Some(p) => {
                let ghost pv = (p.0@, p.1@);
                out.push(p);
                assert(pair_views_of(out@) =~= before + seq![pv]);
                assert(pair_views_of(out@) + key_values_in(ls.skip(i + 1), skip_bracket)
                    =~= before + key_values_in(rest, skip_bracket));
            },
            None => {},
        }
        i += 1;
    }
    assert(ls.skip(all.len() as int) =~= Seq::<Seq<char>>::empty());
    assert(pair_views_of(out@) + Seq::<(Seq<char>, Seq<char>)>::empty() =~= pair_views_of(out@));
    out
}

/// Whether a section's text, trimmed, begins with `header`.
pub open spec fn has_header(content: Seq<char>, header: Seq<char>) -> bool {
    starts_with_of(trim_of(content), header)
}

/// Whether a section's text, trimmed, begins with `header`.
pub fn check_header(content: &Vec<char>, header: &str) -> (r: bool)
    ensures
        r == has_header(content@, header@),
{
    let t = trim(content);
    starts_with(&t, header)
}

/// The view of an optional text.
pub open spec fn text_of(t: Option<String>) -> Option<Seq<char>> {
    match t {
        Some(s) => Some(s@),
        None => None,
    }
}

/// The entries after each of the pairs has been given to its key, in order:
/// of two pairs with one key the later one counts.
pub open spec fn insert_all(
    acc: Seq<(Seq<char>, Seq<char>)>,
    pairs: Seq<(Seq<char>, Seq<char>)>,
) -> Seq<(Seq<char>, Seq<char>)>
    decreases pairs.len(),
{
    if pairs.len() == 0 {
        acc
    } else {
        insert_all(with_entry(acc, pairs[0].0, pairs[0].1), pairs.drop_first())
    }
}

/// The map that holds each of the pairs under its key.
pub fn collect_map(pairs: &Vec<(Vec<char>, Vec<char>)>) -> (r: StrMap<String>)
    ensures
        r@ == insert_all(seq![], pair_views_of(pairs@)),
{
    let mut m: StrMap<String> = StrMap::new();
    let ghost all = pair_views_of(pairs@);
    let mut i: usize = 0;
    assert(all.skip(0) =~= all);
    while i < pairs.len()
        invariant
            i <= pairs.len(),
            all == pair_views_of(pairs@),
            insert_all(seq![], all) == insert_all(m@, all.skip(i as int)),
        decreases pairs.len() - i,
    {
        let ghost rest = all.skip(i as int);
        assert(rest[0] == (pairs[i as int].0@, pairs[i as int].1@));
        assert(rest.drop_first() =~= all.skip(i + 1));
        let key = chars_to_string(&pairs[i].0);
        let value = chars_to_string(&pairs[i].1);
        m.insert(key.as_str(), value);
        i += 1;
    }
    assert(all.skip(pairs.len() as int).len() == 0);
    m
}

/// Last wins: of the pairs with one key the last one gives the key its
/// value.
pub proof fn lemma_insert_all_last_wins(
    acc: Seq<(Seq<char>, Seq<char>)>,
    pairs: Seq<(Seq<char>, Seq<char>)>,
    j: int,
)
    requires
        distinct_keys(acc),
        0 <= j < pairs.len(),
        forall|k: int| j < k < pairs.len() ==> (#[trigger] pairs[k]).0 != pairs[j].0,
    ensures
        distinct_keys(insert_all(acc, pairs)),
        map_of(insert_all(acc, pairs)).dom().contains(pairs[j].0),
        map_of(insert_all(acc, pairs))[pairs[j].0] == pairs[j].1,
    decreases pairs.len(),
{
    let next = with_entry(acc, pairs[0].0, pairs[0].1);
    let rest = pairs.drop_first();
    lemma_with_entry(acc, pairs[0].0, pairs[0].1);
    if j == 0 {
        assert forall|k: int| 0 <= k < rest.len() implies (#[trigger] rest[k]).0 != pairs[0].0 by {
            assert(rest[k] == pairs[k + 1]);
        }
        lemma_insert_all_keeps(next, rest, pairs[0].0);
    } else {
        assert(rest[j - 1] == pairs[j]);
        assert forall|k: int| j - 1 < k < rest.len() implies (#[trigger] rest[k]).0 != rest[j
            - 1].0 by {
            assert(rest[k] == pairs[k + 1]);
        }
        lemma_insert_all_last_wins(next, rest, j - 1);
    }
}

/// Pairs with other keys leave a key's value as it is.
pub proof fn lemma_insert_all_keeps(
    acc: Seq<(Seq<char>, Seq<char>)>,
    pairs: Seq<(Seq<char>, Seq<char>)>,
    key: Seq<char>,
)
    requires
        distinct_keys(acc),
        forall|k: int| 0 <= k < pairs.len() ==> (#[trigger] pairs[k]).0 != key,
    ensures
        distinct_keys(insert_all(acc, pairs)),
        map_of(insert_all(acc, pairs)).dom().contains(key) == map_of(acc).dom().contains(key),
        map_of(acc).dom().contains(key) ==> map_of(insert_all(acc, pairs))[key] == map_of(
            acc,
        )[key],
    decreases pairs.len(),
{
    if pairs.len() > 0 {
        let next = with_entry(acc, pairs[0].0, pairs[0].1);
        let rest = pairs.drop_first();
        lemma_with_entry(acc, pairs[0].0, pairs[0].1);
        assert(pairs[0].0 != key);
        assert forall|k: int| 0 <= k < rest.len() implies (#[trigger] rest[k]).0 != key by {
            assert(rest[k] == pairs[k + 1]);
        }
        lemma_insert_all_keeps(next, rest, key);
    }
}

/// The run of name characters in a piece of a text is the run in the text,
/// as far as the piece reaches.
proof fn lemma_word_run_piece(s: Seq<char>, from: int, to: int, at: int)
    requires
        0 <= from <= at <= to <= s.len(),
        word_run(s, at) < to,
    ensures
        word_run(s.subrange(from, to), at - from) == word_run(s, at) - from,
    decreases s.len() - at,
{
    let piece = s.subrange(from, to);
    if at < s.len() && is_word_char(s[at]) {
        lemma_word_run(s, at + 1);
        assert(piece[at - from] == s[at]);
        lemma_word_run_piece(s, from, to, at + 1);
    } else {
        assert(word_run(s, at) == at);
        assert(piece[at - from] == s[at]);
    }
}

/// The run of name characters stays within the text and holds nothing else.
proof fn lemma_word_run(s: Seq<char>, from: int)
    requires
        0 <= from <= s.len(),
    ensures
        from <= word_run(s, from) <= s.len(),
        forall|k: int| from <= k < word_run(s, from) ==> is_word_char(#[trigger] s[k]),
    decreases s.len() - from,
{
    if from < s.len() && is_word_char(s[from]) {
        lemma_word_run(s, from + 1);
    }
}

/// No header begins inside the line of another header.
proof fn lemma_header_line(s: Seq<char>, h: int)
    requires
        is_header_at(s, h),
    ensures
        next_header(s, h + 1) > word_run(s, h + 1),
        next_header(s, h + 1) <= s.len(),
    decreases s.len(),
{
    let e = word_run(s, h + 1);
    lemma_word_run(s, h + 1);
    lemma_next_header(s, h + 1);
    let n = next_header(s, h + 1);
    if n <= e {
        assert(is_header_at(s, n));
        assert(s[n] == '[');
        if n < e {
            assert(is_word_char(s[n]));
        }
    }
}

/// Each section begins with a header line.
pub proof fn lemma_sections_begin_with_header(s: Seq<char>, from: int, i: int)
    requires
        is_header_at(s, from),
        0 <= i < sections_from(s, from).len(),
    ensures
        is_header_at(sections_from(s, from)[i], 0),
    decreases s.len() - from,
{
    let e = word_run(s, from + 1);
    lemma_header_line(s, from);
    lemma_next_header(s, from + 1);
    let next = next_header(s, from + 1);
    let first = s.subrange(from, next);
    if i == 0 {
        assert(sections_from(s, from)[0] == first);
        lemma_word_run_piece(s, from, next, from + 1);
        assert(first[0] == s[from]);
        assert(first[e - from] == s[e]);
        if e + 1 < next {
            assert(first[e - from + 1] == s[e + 1]);
        } else {
            if e + 1 < s.len() {
                // The section ends with its header line, so another header follows.
                assert(next == e + 1);
                assert(is_header_at(s, next));
                assert(s[next] == '[');
            }
        }
    } else {
        let rest = sections_from(s, next);
        assert(sections_from(s, from) =~= seq![first] + rest);
        assert(sections_from(s, from)[i] == rest[i - 1]);
        lemma_sections_begin_with_header(s, next, i - 1);
    }
}

/// What stands before the first header and the sections, one after the
/// other, are the document; and no section is empty.
pub proof fn lemma_sections_partition(s: Seq<char>)
    ensures
        preamble_of(s) + sections_of(s).flatten() == s,
        forall|i: int| 0 <= i < sections_of(s).len() ==> (#[trigger] sections_of(s)[i]).len() > 0,
{
    lemma_next_header(s, 0);
    let first = next_header(s, 0);
    lemma_sections_cover(s, first);
    assert(s.take(first) + s.skip(first) =~= s);
}

/// Each section of a document begins with a header line, and what stands
/// before the first section holds none.
pub proof fn lemma_sections_headed(s: Seq<char>)
    ensures
        forall|i: int|
            0 <= i < sections_of(s).len() ==> is_header_at(#[trigger] sections_of(s)[i], 0),
        forall|k: int| 0 <= k < preamble_of(s).len() ==> !is_header_at(s, k),
{
    lemma_next_header(s, 0);
    let first = next_header(s, 0);
    assert forall|i: int| 0 <= i < sections_of(s).len() implies is_header_at(
        #[trigger] sections_of(s)[i],
        0,
    ) by {
        lemma_sections_begin_with_header(s, first, i);
    }
}

} // verus!
