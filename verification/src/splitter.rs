//! The balanced splitter: splitting a text at the separators that stand at top
//! level, outside double quotes and outside parentheses.
use crate::text::{
    chars_to_string, str_to_chars, subvec, text_pairs_of, trim, trim_matches, trim_matches_of,
    trim_of, views_of,
};
use vstd::prelude::*;

verus! {

/// Where a left-to-right scan stands: inside double quotes or not, how many
/// parentheses are open, and whether the next character is escaped.
pub ghost struct ScanState {
    pub in_quotes: bool,
    pub depth: nat,
    /// Whether the last character was a backslash inside double quotes that
    /// was not escaped itself, so that it escapes the next character.
    pub escaped: bool,
}

/// The state in which a scan begins.
pub open spec fn scan_start() -> ScanState {
    ScanState { in_quotes: false, depth: 0, escaped: false }
}

/// The state after the character `c`. Inside double quotes a backslash
/// escapes the character behind it, which then changes nothing, a double
/// quote among them. Every other double quote toggles the quote state.
/// Outside quotes an opening parenthesis adds one to the depth and a closing
/// one takes one off, unless the depth is zero already.
pub open spec fn scan_step(st: ScanState, c: char) -> ScanState {
    if st.in_quotes && st.escaped {
        ScanState { in_quotes: true, depth: st.depth, escaped: false }
    } else if st.in_quotes && c == '\\' {
        ScanState { in_quotes: true, depth: st.depth, escaped: true }
    } else if c == '"' {
        ScanState { in_quotes: !st.in_quotes, depth: st.depth, escaped: false }
    } else if c == '(' && !st.in_quotes {
        ScanState { in_quotes: false, depth: st.depth + 1, escaped: false }
    } else if c == ')' && !st.in_quotes && st.depth > 0 {
        ScanState { in_quotes: false, depth: (st.depth - 1) as nat, escaped: false }
    } else {
        ScanState { in_quotes: st.in_quotes, depth: st.depth, escaped: false }
    }
}

/// The state after the first `n` characters of `s`.
pub open spec fn scan_state(s: Seq<char>, n: int) -> ScanState
    decreases n,
{
    if n <= 0 {
        scan_start()
    } else {
        scan_step(scan_state(s, n - 1), s[n - 1])
    }
}

/// Whether `s[i]` is the separator `sep` at top level.
pub open spec fn is_split_point(s: Seq<char>, i: int, sep: char) -> bool {
    &&& 0 <= i < s.len()
    &&& s[i] == sep
    &&& !scan_state(s, i).in_quotes
    &&& scan_state(s, i).depth == 0
}

/// The first split point at or after `from`, or the length of `s` where there
/// is none.
pub open spec fn next_split(s: Seq<char>, from: int, sep: char) -> int
    decreases s.len() - from,
{
    if from >= s.len() {
        s.len() as int
    } else if is_split_point(s, from, sep) {
        from
    } else {
        next_split(s, from + 1, sep)
    }
}

/// The segments of `s` from `from` on: the pieces between the split points,
/// and last the piece behind the last split point, which may be empty.
pub open spec fn segments_from(s: Seq<char>, from: int, sep: char) -> Seq<Seq<char>>
    decreases s.len() - from,
{
    let i = next_split(s, from, sep);
    if from <= i < s.len() {
        seq![s.subrange(from, i)] + segments_from(s, i + 1, sep)
    } else {
        seq![s.subrange(from, s.len() as int)]
    }
}

/// The segments of `s` between the top-level occurrences of `sep`.
pub open spec fn split_top_level_of(s: Seq<char>, sep: char) -> Seq<Seq<char>> {
    segments_from(s, 0, sep)
}

/// The two parts of `s` around the first top-level occurrence of `sep`.
pub open spec fn split_first_of(s: Seq<char>, sep: char) -> Option<(Seq<char>, Seq<char>)> {
    let i = next_split(s, 0, sep);
    if 0 <= i < s.len() {
        Some((s.take(i), s.skip(i + 1)))
    } else {
        None
    }
}

/// What `next_split` returns.
pub proof fn lemma_next_split(s: Seq<char>, from: int, sep: char)
    requires
        0 <= from <= s.len(),
    ensures
        from <= next_split(s, from, sep) <= s.len(),
        next_split(s, from, sep) < s.len() ==> is_split_point(s, next_split(s, from, sep), sep),
        forall|k: int| from <= k < next_split(s, from, sep) ==> !is_split_point(s, k, sep),
    decreases s.len() - from,
{
    if from < s.len() && !is_split_point(s, from, sep) {
        lemma_next_split(s, from + 1, sep);
    }
}

/// The segments with the separator between each two are the text again.
pub proof fn lemma_segments_join(s: Seq<char>, from: int, sep: char)
    requires
        0 <= from <= s.len(),
    ensures
        segments_from(s, from, sep).len() >= 1,
        crate::text::join_of(segments_from(s, from, sep), seq![sep]) == s.skip(from),
    decreases s.len() - from,
{
    lemma_next_split(s, from, sep);
    let i = next_split(s, from, sep);
    if i < s.len() {
        lemma_segments_join(s, i + 1, sep);
        let rest = segments_from(s, i + 1, sep);
        let all = seq![s.subrange(from, i)] + rest;
        assert(all.drop_first() =~= rest);
        assert(all[0] == s.subrange(from, i));
        assert(s[i] == sep);
        assert(s.subrange(from, i) + seq![sep] + s.skip(i + 1) =~= s.skip(from));
    } else {
        assert(s.subrange(from, s.len() as int) =~= s.skip(from));
    }
}

/// Splitting at the top-level separators loses nothing: the segments with
/// the separator between each two are the text again.
pub proof fn lemma_split_top_level_join(s: Seq<char>, sep: char)
    ensures
        crate::text::join_of(split_top_level_of(s, sep), seq![sep]) == s,
{
    lemma_segments_join(s, 0, sep);
    assert(s.skip(0) =~= s);
}

/// Whether `c` means nothing to the scan: it is no double quote, no
/// parenthesis and no backslash.
pub open spec fn is_neutral(c: char) -> bool {
    c != '"' && c != '(' && c != ')' && c != '\\'
}

/// Whether the scan passes from `from` to `to` on one level: the state is
/// the same at both ends, and the depth is the same all the way.
pub open spec fn is_flat(x: Seq<char>, from: int, to: int) -> bool {
    &&& scan_state(x, to) == scan_state(x, from)
    &&& forall|k: int|
        from <= k <= to ==> (#[trigger] scan_state(x, k)).depth == scan_state(x, from).depth
}

/// A run of characters that mean nothing to the scan is passed on one level,
/// where no escape is pending at its start.
pub proof fn lemma_scan_neutral(x: Seq<char>, from: int, to: int)
    requires
        0 <= from <= to <= x.len(),
        forall|k: int| from <= k < to ==> is_neutral(#[trigger] x[k]),
        !scan_state(x, from).escaped,
    ensures
        scan_state(x, to) == scan_state(x, from),
        is_flat(x, from, to),
    decreases to - from,
{
    if from < to {
        lemma_scan_neutral(x, from, to - 1);
        assert(is_neutral(x[to - 1]));
    }
}

/// A text between double quotes that holds neither a double quote nor a
/// backslash is passed on one level, where it begins outside quotes.
pub proof fn lemma_scan_quoted(x: Seq<char>, from: int, to: int)
    requires
        0 <= from,
        from + 2 <= to <= x.len(),
        x[from] == '"',
        x[to - 1] == '"',
        forall|k: int| from < k < to - 1 ==> is_neutral(#[trigger] x[k]),
        !scan_state(x, from).in_quotes,
        !scan_state(x, from).escaped,
    ensures
        is_flat(x, from, to),
{
    let st = scan_state(x, from);
    let inside = scan_state(x, from + 1);
    assert(inside == scan_step(st, x[from]));
    assert forall|k: int| from < k <= to - 1 implies scan_state(x, k) == inside by {
        lemma_scan_neutral(x, from + 1, k);
    }
    assert(scan_state(x, to) == scan_step(scan_state(x, to - 1), x[to - 1]));
}

/// Two stretches that are each passed on one level are so together.
pub proof fn lemma_flat_join(x: Seq<char>, a: int, b: int, c: int)
    requires
        a <= b <= c,
        is_flat(x, a, b),
        is_flat(x, b, c),
    ensures
        is_flat(x, a, c),
{
    assert forall|k: int| a <= k <= c implies (#[trigger] scan_state(x, k)).depth == scan_state(
        x,
        a,
    ).depth by {
        if k > b {
            assert(scan_state(x, k).depth == scan_state(x, b).depth);
        }
    }
}

/// The first split point from `from` on is the first place at which the
/// separator stands at top level, where it stands nowhere before.
pub proof fn lemma_next_split_is(s: Seq<char>, from: int, at: int, sep: char)
    requires
        0 <= from <= at <= s.len(),
        forall|k: int| from <= k < at ==> #[trigger] s[k] != sep,
        at < s.len() ==> is_split_point(s, at, sep),
    ensures
        next_split(s, from, sep) == at,
    decreases at - from,
{
    if from < at {
        assert(s[from] != sep);
        lemma_next_split_is(s, from + 1, at, sep);
    }
}

/// The depth never exceeds the number of characters read.
pub proof fn lemma_depth_bound(s: Seq<char>, n: int)
    requires
        0 <= n,
    ensures
        scan_state(s, n).depth <= n,
    decreases n,
{
    if n > 0 {
        lemma_depth_bound(s, n - 1);
    }
}

/// The scan state as machine values.
pub struct Scanner {
    pub in_quotes: bool,
    pub depth: usize,
    pub escaped: bool,
}

impl View for Scanner {
    type V = ScanState;

    open spec fn view(&self) -> ScanState {
        ScanState { in_quotes: self.in_quotes, depth: self.depth as nat, escaped: self.escaped }
    }
}

impl Scanner {
    /// A scanner at the start of a text.
    pub fn new() -> (r: Self)
        ensures
            r@ == scan_start(),
    {
        Scanner { in_quotes: false, depth: 0, escaped: false }
    }

    /// Whether the scan stands outside double quotes and parentheses.
    pub fn is_top_level(&self) -> (r: bool)
        ensures
            r == (!self@.in_quotes && self@.depth == 0),
    {
        !self.in_quotes && self.depth == 0
    }

    /// Reads the character `c`.
    pub fn step(&mut self, c: char)
        requires
            old(self).depth < usize::MAX,
        ensures
            final(self)@ == scan_step(old(self)@, c),
    {
        if self.in_quotes && self.escaped {
            self.escaped = false;
        } else if self.in_quotes && c == '\\' {
            self.escaped = true;
        } else {
            self.escaped = false;
            if c == '"' {
                self.in_quotes = !self.in_quotes;
            } else if c == '(' {
                if !self.in_quotes {
                    self.depth = self.depth + 1;
                }
            } else if c == ')' {
                if !self.in_quotes && self.depth > 0 {
                    self.depth = self.depth - 1;
                }
            }
        }
    }
}

/// The first top-level occurrence of `sep` in `s`, or the length of `s`.
pub fn find_top_level(s: &Vec<char>, sep: char) -> (r: usize)
    ensures
        r == next_split(s@, 0, sep),
        r <= s.len(),
{
    let mut st = Scanner::new();
    let mut i: usize = 0;
    while i < s.len()
        invariant
            i <= s.len(),
            st@ == scan_state(s@, i as int),
            next_split(s@, 0, sep) == next_split(s@, i as int, sep),
        decreases s.len() - i,
    {
        if s[i] == sep && st.is_top_level() {
            return i;
        }
        proof {
            lemma_depth_bound(s@, i as int);
        }
        st.step(s[i]);
        i += 1;
    }
    i
}

/// The two parts of `s` around the first top-level occurrence of `sep`.
pub fn split_first(s: &Vec<char>, sep: char) -> (r: Option<(Vec<char>, Vec<char>)>)
    ensures
        r is Some == split_first_of(s@, sep) is Some,
        r matches Some(p) ==> split_first_of(s@, sep) == Some((p.0@, p.1@)),
{
    let i = find_top_level(s, sep);
    if i < s.len() {
        let a = subvec(s, 0, i);
        let b = subvec(s, i + 1, s.len());
        Some((a, b))
    } else {
        None
    }
}

/// The segments of `s` between the top-level occurrences of `sep`: those
/// outside double quotes and outside parentheses. The piece behind the last
/// such separator is always there, so the result is never empty.
pub fn split_top_level(s: &Vec<char>, sep: char) -> (r: Vec<Vec<char>>)
    ensures
        views_of(r@) == split_top_level_of(s@, sep),
        r.len() >= 1,
{
    let mut out: Vec<Vec<char>> = Vec::new();
    let mut st = Scanner::new();
    let mut start: usize = 0;
    let mut i: usize = 0;
    assert(views_of(out@) + segments_from(s@, 0, sep) =~= segments_from(s@, 0, sep));
    while i < s.len()
        invariant
            start <= i <= s.len(),
            st@ == scan_state(s@, i as int),
            next_split(s@, start as int, sep) == next_split(s@, i as int, sep),
            split_top_level_of(s@, sep) == views_of(out@) + segments_from(s@, start as int, sep),
        decreases s.len() - i,
    {
        if s[i] == sep && st.is_top_level() {
            let ghost before = views_of(out@);
            let piece = subvec(s, start, i);
            out.push(piece);
            proof {
                assert(is_split_point(s@, i as int, sep));
                assert(next_split(s@, i as int, sep) == i);
                assert(views_of(out@) =~= before + seq![piece@]);
                assert(segments_from(s@, start as int, sep) == seq![
                    s@.subrange(start as int, i as int),
                ] + segments_from(s@, i + 1, sep));
                assert(views_of(out@) + segments_from(s@, i + 1, sep) =~= before + segments_from(
                    s@,
                    start as int,
                    sep,
                ));
            }
            start = i + 1;
        }
        proof {
            lemma_depth_bound(s@, i as int);
        }
        st.step(s[i]);
        i += 1;
    }
    let ghost before = views_of(out@);
    let piece = subvec(s, start, s.len());
    out.push(piece);
    proof {
        assert(next_split(s@, start as int, sep) == s.len());
        assert(views_of(out@) =~= before + seq![piece@]);
        assert(segments_from(s@, start as int, sep) == seq![
            s@.subrange(start as int, s.len() as int),
        ]);
    }
    out
}

/// The name and the raw value that one `key:value` fragment holds: the parts
/// around its first top-level colon, both trimmed, the name without double
/// quotes at its ends. `None` where the fragment has no top-level colon.
pub open spec fn property_of(fragment: Seq<char>) -> Option<(Seq<char>, Seq<char>)> {
    match split_first_of(fragment, ':') {
        Some((k, v)) => Some((trim_matches_of(trim_of(k), '"'), trim_of(v))),
        None => None,
    }
}

/// The properties that a sequence of fragments holds, in order; a fragment
/// without a top-level colon holds none.
pub open spec fn properties_in(fragments: Seq<Seq<char>>) -> Seq<(Seq<char>, Seq<char>)>
    decreases fragments.len(),
{
    if fragments.len() == 0 {
        seq![]
    } else {
        let rest = properties_in(fragments.drop_first());
        match property_of(fragments[0]) {
            Some(p) => seq![p] + rest,
            None => rest,
        }
    }
}

/// The properties of a property list: the list is split at its top-level
/// commas, and each fragment at its first top-level colon.
pub open spec fn properties_of(s: Seq<char>) -> Seq<(Seq<char>, Seq<char>)> {
    properties_in(split_top_level_of(s, ','))
}

/// The views of a sequence of pairs of character vectors.
pub open spec fn pair_views_of(v: Seq<(Vec<char>, Vec<char>)>) -> Seq<(Seq<char>, Seq<char>)> {
    Seq::new(v.len(), |i: int| (v[i].0@, v[i].1@))
}

/// The name and the raw value that one `key:value` fragment holds.
pub fn parse_property(fragment: &Vec<char>) -> (r: Option<(Vec<char>, Vec<char>)>)
    ensures
        r is Some == property_of(fragment@) is Some,
        r matches Some(p) ==> property_of(fragment@) == Some((p.0@, p.1@)),
{
    match split_first(fragment, ':') {
        Some((k, v)) => {
            let key = trim_matches(&trim(&k), '"');
            let value = trim(&v);
            Some((key, value))
        },
        None => None,
    }
}

/// The properties of a property list, as pairs of a name and a raw value.
pub fn split_properties(s: &Vec<char>) -> (r: Vec<(Vec<char>, Vec<char>)>)
    ensures
        pair_views_of(r@) == properties_of(s@),
{
    let fragments = split_top_level(s, ',');
    let ghost all = views_of(fragments@);
    let mut out: Vec<(Vec<char>, Vec<char>)> = Vec::new();
    let mut i: usize = 0;
    assert(all.skip(0) =~= all);
    assert(pair_views_of(out@) + properties_in(all) =~= properties_in(all));
    while i < fragments.len()
        invariant
            i <= fragments.len(),
            all == views_of(fragments@),
            properties_in(all) == pair_views_of(out@) + properties_in(all.skip(i as int)),
        decreases fragments.len() - i,
    {
        let ghost rest = all.skip(i as int);
        let ghost before = pair_views_of(out@);
        assert(rest[0] == fragments[i as int]@);
        assert(rest.drop_first() =~= all.skip(i + 1));
        match parse_property(&fragments[i]) {
            Some(p) => {
                let ghost pv = (p.0@, p.1@);
                out.push(p);
                assert(pair_views_of(out@) =~= before + seq![pv]);
                assert(pair_views_of(out@) + properties_in(all.skip(i + 1)) =~= before
                    + properties_in(rest));
            },
            None => {},
        }
        i += 1;
    }
    assert(all.skip(fragments.len() as int) =~= Seq::<Seq<char>>::empty());
    assert(pair_views_of(out@) + Seq::<(Seq<char>, Seq<char>)>::empty() =~= pair_views_of(out@));
    out
}

/// Splits a property list such as `"device":-1,"position":Vector2(0, 0)`
/// into its properties, each a name and a raw value. Commas and colons
/// inside double quotes or parentheses do not split.
pub fn split_properties_string(properties: &str) -> (r: Vec<(String, String)>)
    ensures
        text_pairs_of(r@) == properties_of(properties@),
{
    let chars = str_to_chars(properties);
    let pairs = split_properties(&chars);
    let mut out: Vec<(String, String)> = Vec::new();
    let mut i: usize = 0;
    while i < pairs.len()
        invariant
            i <= pairs.len(),
            out.len() == i,
            forall|k: int|
                0 <= k < i ==> (#[trigger] out[k]).0@ == pairs[k].0@ && out[k].1@ == pairs[k].1@,
        decreases pairs.len() - i,
    {
        out.push((chars_to_string(&pairs[i].0), chars_to_string(&pairs[i].1)));
        i += 1;
    }
    assert(text_pairs_of(out@) =~= pair_views_of(pairs@));
    out
}

} // verus!
