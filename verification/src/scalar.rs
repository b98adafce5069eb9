//! Scalar coercion: what kind of value a raw token of the configuration text
//! stands for. The text carries no type tags, so a fixed order of rules decides.
use crate::text::{
    char_is_digit, chars_eq, chars_to_string, has_at, is_digit, matches_at, split, split_of,
    str_to_chars, subvec, trim, trim_matches, trim_matches_of, trim_of, views_of,
};
use vstd::prelude::*;

verus! {

/// The index just behind the run of digits that begins at `from`.
pub open spec fn digit_run(s: Seq<char>, from: int) -> int
    decreases s.len() - from,
{
    if 0 <= from < s.len() && is_digit(s[from]) {
        digit_run(s, from + 1)
    } else {
        from
    }
}

/// The number that the digits `s[from..to]` write in base ten.
pub open spec fn digits_value(s: Seq<char>, from: int, to: int) -> int
    decreases to - from,
{
    if from < to {
        digits_value(s, from, to - 1) * 10 + (s[to - 1] as int - '0' as int)
    } else {
        0
    }
}

/// Whether `c` is a plus or a minus sign.
pub open spec fn is_sign(c: char) -> bool {
    c == '+' || c == '-'
}

/// Where the digits of a number begin: behind one leading sign, if there is one.
pub open spec fn after_sign(s: Seq<char>) -> int {
    if s.len() > 0 && is_sign(s[0]) {
        1
    } else {
        0
    }
}

/// The integer that `s` writes: an optional sign and then one or more digits,
/// nothing else. `None` where `s` is not of that form.
pub open spec fn integer_of(s: Seq<char>) -> Option<int> {
    let k = after_sign(s);
    if k < s.len() && digit_run(s, k) == s.len() {
        let v = digits_value(s, k, s.len() as int);
        Some(
            if s[0] == '-' {
                -v
            } else {
                v
            },
        )
    } else {
        None
    }
}

/// The 32-bit signed integer that `s` writes, if it writes an integer in range.
pub open spec fn parse_i32_of(s: Seq<char>) -> Option<int> {
    match integer_of(s) {
        Some(v) => if i32::MIN <= v <= i32::MAX {
            Some(v)
        } else {
            None
        },
        None => None,
    }
}

/// The 32-bit unsigned integer that `s` writes, if it writes one in range. A
/// minus sign is not accepted, not even before zero.
pub open spec fn parse_u32_of(s: Seq<char>) -> Option<int> {
    match integer_of(s) {
        Some(v) => if s[0] != '-' && v <= u32::MAX {
            Some(v)
        } else {
            None
        },
        None => None,
    }
}

/// The digits `s[from..to]` write a number that does not shrink as `to` grows.
pub proof fn lemma_digits_value_grows(s: Seq<char>, from: int, mid: int, to: int)
    requires
        0 <= from <= mid <= to <= s.len(),
        digit_run(s, from) >= to,
    ensures
        0 <= digits_value(s, from, mid) <= digits_value(s, from, to),
    decreases to - from,
{
    lemma_digit_run(s, from);
    if from < to {
        assert(is_digit(s[to - 1]));
        if mid < to {
            lemma_digits_value_grows(s, from, mid, to - 1);
        } else {
            lemma_digits_value_grows(s, from, to - 1, to - 1);
        }
    }
}

/// What `digit_run` returns: the end of the longest run of digits from `from`.
pub proof fn lemma_digit_run(s: Seq<char>, from: int)
    requires
        0 <= from <= s.len(),
    ensures
        from <= digit_run(s, from) <= s.len(),
        forall|i: int| from <= i < digit_run(s, from) ==> is_digit(#[trigger] s[i]),
        digit_run(s, from) < s.len() ==> !is_digit(s[digit_run(s, from)]),
    decreases s.len() - from,
{
    if from < s.len() && is_digit(s[from]) {
        lemma_digit_run(s, from + 1);
    }
}

/// The index just behind the run of digits that begins at `from`.
pub fn scan_digits(s: &Vec<char>, from: usize) -> (r: usize)
    requires
        from <= s.len(),
    ensures
        r == digit_run(s@, from as int),
        from <= r <= s.len(),
{
    let mut i: usize = from;
    while i < s.len() && char_is_digit(s[i])
        invariant
            from <= i <= s.len(),
            digit_run(s@, from as int) == digit_run(s@, i as int),
        decreases s.len() - i,
    {
        i += 1;
    }
    i
}

/// The magnitude and sign that `s` writes, where it is an integer whose
/// magnitude is at most 2^32.
fn parse_integer(s: &Vec<char>) -> (r: Option<(bool, u64)>)
    ensures
        match r {
            Some((neg, v)) => integer_of(s@) == Some(
                if neg {
                    -(v as int)
                } else {
                    v as int
                },
            ) && neg == (s@[0] == '-') && v <= 0x1_0000_0000,
            None => match integer_of(s@) {
                Some(v) => if s@[0] == '-' {
                    v < -0x1_0000_0000
                } else {
                    v > 0x1_0000_0000
                },
                None => true,
            },
        },
{
    let n = s.len();
    let k: usize = if n > 0 && (s[0] == '+' || s[0] == '-') {
        1
    } else {
        0
    };
    if k >= n {
        return None;
    }
    let end = scan_digits(s, k);
    if end != n {
        return None;
    }
    let neg = s[0] == '-';
    let mut acc: u64 = 0;
    let mut i: usize = k;
    while i < n
        invariant
            k <= i <= n,
            n == s.len(),
            digit_run(s@, k as int) == n,
            k == after_sign(s@),
            acc == digits_value(s@, k as int, i as int),
            acc <= 0x1_0000_0000,
        decreases n - i,
    {
        proof {
            lemma_digit_run(s@, k as int);
            assert(is_digit(s@[i as int]));
        }
        let d: u64 = (s[i] as u32 - 0x30) as u64;
        acc = acc * 10 + d;
        i += 1;
        assert(acc == digits_value(s@, k as int, i as int));
        if acc > 0x1_0000_0000 {
            proof {
                lemma_digits_value_grows(s@, k as int, i as int, n as int);
            }
            return None;
        }
    }
    Some((neg, acc))
}

/// The 32-bit signed integer that `s` writes.
pub fn parse_i32(s: &Vec<char>) -> (r: Option<i32>)
    ensures
        r is Some == parse_i32_of(s@) is Some,
        r matches Some(v) ==> parse_i32_of(s@) == Some(v as int),
{
    match parse_integer(s) {
        Some((neg, v)) => {
            if neg {
                if v <= 0x8000_0000 {
                    Some((-(v as i64)) as i32)
                } else {
                    None
                }
            } else {
                if v <= 0x7fff_ffff {
                    Some(v as i32)
                } else {
                    None
                }
            }
        },
        None => None,
    }
}

/// The 32-bit unsigned integer that `s` writes.
pub fn parse_u32(s: &Vec<char>) -> (r: Option<u32>)
    ensures
        r is Some == parse_u32_of(s@) is Some,
        r matches Some(v) ==> parse_u32_of(s@) == Some(v as int),
{
    match parse_integer(s) {
        Some((neg, v)) => {
            if !neg && v <= 0xffff_ffff {
                Some(v as u32)
            } else {
                None
            }
        },
        None => None,
    }
}

/// Whether `c` is the lower-case letter `l` or its upper-case form.
pub open spec fn same_letter(c: char, l: char) -> bool {
    c == l || ('A' <= c <= 'Z' && c as u32 + 32 == l as u32)
}

/// Whether `s[from..]` is the lower-case word `word`, in any mix of cases.
pub open spec fn is_word_at(s: Seq<char>, from: int, word: Seq<char>) -> bool {
    &&& s.len() - from == word.len()
    &&& forall|i: int| 0 <= i < word.len() ==> same_letter(#[trigger] s[from + i], word[i])
}

/// Whether `s[from..]` is an exponent: the letter `e`, an optional sign, and
/// one or more digits up to the end.
pub open spec fn is_exponent_at(s: Seq<char>, from: int) -> bool {
    let k = if from + 1 < s.len() && is_sign(s[from + 1]) {
        from + 2
    } else {
        from + 1
    };
    &&& 0 <= from < s.len()
    &&& same_letter(s[from], 'e')
    &&& k < s.len()
    &&& digit_run(s, k) == s.len()
}

/// Whether `s[from..]` is a decimal number: digits with at most one point
/// among them, at least one digit, and an optional exponent.
pub open spec fn is_number_at(s: Seq<char>, from: int) -> bool {
    let a = digit_run(s, from);
    let dot = a < s.len() && s[a] == '.';
    let b = if dot {
        digit_run(s, a + 1)
    } else {
        a
    };
    let digits = (a - from) + (if dot {
        b - (a + 1)
    } else {
        0
    });
    &&& digits > 0
    &&& (b == s.len() || is_exponent_at(s, b))
}

/// Whether `s` is a floating-point literal: an optional sign, then `inf`,
/// `infinity` or `nan` in any mix of cases, or a decimal number.
pub open spec fn is_float_literal(s: Seq<char>) -> bool {
    let k = after_sign(s);
    ||| is_word_at(s, k, "inf"@)
    ||| is_word_at(s, k, "infinity"@)
    ||| is_word_at(s, k, "nan"@)
    ||| is_number_at(s, k)
}

/// Whether `c` is the lower-case letter `l` or its upper-case form.
fn letter_is(c: char, l: char) -> (r: bool)
    ensures
        r == same_letter(c, l),
{
    let cn: u32 = c as u32;
    c == l || (0x41 <= cn && cn <= 0x5A && cn + 32 == l as u32)
}

/// Whether `s[from..]` is the lower-case word `word`, in any mix of cases.
pub fn word_at(s: &Vec<char>, from: usize, word: &str) -> (r: bool)
    requires
        from <= s.len(),
    ensures
        r == is_word_at(s@, from as int, word@),
{
    let w = str_to_chars(word);
    if s.len() - from != w.len() {
        return false;
    }
    let mut i: usize = 0;
    while i < w.len()
        invariant
            i <= w.len(),
            from + w.len() == s.len(),
            w@ == word@,
            forall|j: int| 0 <= j < i ==> same_letter(#[trigger] s@[from + j], w@[j]),
        decreases w.len() - i,
    {
        if !letter_is(s[from + i], w[i]) {
            assert(!same_letter(s@[from + i], w@[i as int]));
            return false;
        }
        assert(same_letter(s@[from + i], w@[i as int]));
        i += 1;
    }
    true
}

/// Whether `s[from..]` is an exponent.
fn exponent_at(s: &Vec<char>, from: usize) -> (r: bool)
    requires
        from <= s.len(),
    ensures
        r == is_exponent_at(s@, from as int),
{
    let n = s.len();
    if from >= n {
        return false;
    }
    if !(s[from] == 'e' || s[from] == 'E') {
        return false;
    }
    let k: usize = if from + 1 < n && (s[from + 1] == '+' || s[from + 1] == '-') {
        from + 2
    } else {
        from + 1
    };
    if k >= n {
        return false;
    }
    scan_digits(s, k) == n
}

/// Whether `s[from..]` is a decimal number.
fn number_at(s: &Vec<char>, from: usize) -> (r: bool)
    requires
        from <= s.len(),
    ensures
        r == is_number_at(s@, from as int),
{
    let n = s.len();
    let a = scan_digits(s, from);
    let dot = a < n && s[a] == '.';
    let b = if dot {
        scan_digits(s, a + 1)
    } else {
        a
    };
    let digits = (a - from) + (if dot {
        b - (a + 1)
    } else {
        0
    });
    if digits == 0 {
        return false;
    }
    b == n || exponent_at(s, b)
}

/// Whether `s` is a floating-point literal.
pub fn float_literal(s: &Vec<char>) -> (r: bool)
    ensures
        r == is_float_literal(s@),
{
    let k: usize = if s.len() > 0 && (s[0] == '+' || s[0] == '-') {
        1
    } else {
        0
    };
    word_at(s, k, "inf") || word_at(s, k, "infinity") || word_at(s, k, "nan") || number_at(s, k)
}

/// The two components of a vector literal `Vector2(x, y)`, as written and
/// trimmed, where both are floating-point literals.
pub open spec fn vector2_of(s: Seq<char>) -> Option<(Seq<char>, Seq<char>)> {
    if matches_at(s, 0, "Vector2("@) && s.last() == ')' && s.len() > "Vector2("@.len() {
        let inner = s.subrange("Vector2("@.len() as int, s.len() - 1);
        let parts = split_of(inner, ',');
        if parts.len() == 2 && is_float_literal(trim_of(parts[0])) && is_float_literal(
            trim_of(parts[1]),
        ) {
            Some((trim_of(parts[0]), trim_of(parts[1])))
        } else {
            None
        }
    } else {
        None
    }
}

/// The two components of a vector literal, where `s` is one.
pub fn parse_vector2(s: &Vec<char>) -> (r: Option<(Vec<char>, Vec<char>)>)
    ensures
        r is Some == vector2_of(s@) is Some,
        r matches Some(p) ==> vector2_of(s@) == Some((p.0@, p.1@)),
{
    let head = str_to_chars("Vector2(");
    let n = s.len();
    if !(has_at(s, 0, &head) && n > head.len() && s[n - 1] == ')') {
        return None;
    }
    let inner = subvec(s, head.len(), n - 1);
    let parts = split(&inner, ',');
    assert(views_of(parts@).len() == parts.len());
    if parts.len() != 2 {
        return None;
    }
    assert(views_of(parts@)[0] == parts[0]@);
    assert(views_of(parts@)[1] == parts[1]@);
    let x = trim(&parts[0]);
    let y = trim(&parts[1]);
    if float_literal(&x) && float_literal(&y) {
        Some((x, y))
    } else {
        None
    }
}

/// What a token stands for.
pub enum Scalar {
    Bool(bool),
    Int(i32),
    /// A floating-point number, kept as the literal that writes it.
    Float(String),
    /// A vector of two floating-point numbers, each kept as its literal.
    Vec2(String, String),
    Str(String),
}

/// The mathematical model of a [`Scalar`].
pub ghost enum ScalarView {
    Bool(bool),
    Int(int),
    Float(Seq<char>),
    Vec2(Seq<char>, Seq<char>),
    Str(Seq<char>),
}

impl View for Scalar {
    type V = ScalarView;

    open spec fn view(&self) -> ScalarView {
        match self {
            Scalar::Bool(b) => ScalarView::Bool(*b),
            Scalar::Int(i) => ScalarView::Int(*i as int),
            Scalar::Float(t) => ScalarView::Float(t@),
            Scalar::Vec2(x, y) => ScalarView::Vec2(x@, y@),
            Scalar::Str(t) => ScalarView::Str(t@),
        }
    }
}

/// Whether `s` begins and ends with a double quote.
pub open spec fn is_quoted(s: Seq<char>) -> bool {
    s.len() > 0 && s[0] == '"' && s.last() == '"'
}

/// What the token `s` stands for. The rules are tried in this order: the
/// words `true` and `false`; a 32-bit signed integer; a floating-point
/// literal; a vector literal with two floating-point components; a text in
/// double quotes, which loses the quotes at both ends; anything else, `null`
/// among it, is a text as it stands.
pub open spec fn coerce_of(s: Seq<char>) -> ScalarView {
    if s == "true"@ {
        ScalarView::Bool(true)
    } else if s == "false"@ {
        ScalarView::Bool(false)
    } else if parse_i32_of(s) is Some {
        ScalarView::Int(parse_i32_of(s)->0)
    } else if is_float_literal(s) {
        ScalarView::Float(s)
    } else if let Some(p) = vector2_of(s) {
        ScalarView::Vec2(p.0, p.1)
    } else if is_quoted(s) {
        ScalarView::Str(trim_matches_of(s, '"'))
    } else {
        ScalarView::Str(s)
    }
}

/// What the token `s` stands for.
pub fn coerce(s: &Vec<char>) -> (r: Scalar)
    ensures
        r@ == coerce_of(s@),
{
    if chars_eq(s, "true") {
        return Scalar::Bool(true);
    }
    if chars_eq(s, "false") {
        return Scalar::Bool(false);
    }
    if let Some(v) = parse_i32(s) {
        return Scalar::Int(v);
    }
    if float_literal(s) {
        return Scalar::Float(chars_to_string(s));
    }
    if let Some(p) = parse_vector2(s) {
        return Scalar::Vec2(chars_to_string(&p.0), chars_to_string(&p.1));
    }
    let n = s.len();
    if n > 0 && s[0] == '"' && s[n - 1] == '"' {
        let inner = trim_matches(s, '"');
        return Scalar::Str(chars_to_string(&inner));
    }
    Scalar::Str(chars_to_string(s))
}

/// A text between double quotes that holds no double quote itself is
/// coerced to that text, whatever it looks like: the quotes keep it from
/// being a boolean, a number or a vector. Taking the quotes off the result
/// once more changes nothing.
pub proof fn lemma_quoted_token(inner: Seq<char>)
    requires
        forall|i: int| 0 <= i < inner.len() ==> inner[i] != '"',
    ensures
        coerce_of(seq!['"'] + inner + seq!['"']) == ScalarView::Str(inner),
        trim_matches_of(seq!['"'] + inner + seq!['"'], '"') == inner,
        trim_matches_of(inner, '"') == inner,
{
    let token = seq!['"'] + inner + seq!['"'];
    let n = token.len() as int;
    let cls = crate::text::CharClass::Only('"');
    assert(token[0] == '"' && token.last() == '"');
    assert(n == inner.len() + 2);
    reveal_strlit("true");
    reveal_strlit("false");
    reveal_strlit("inf");
    reveal_strlit("infinity");
    reveal_strlit("nan");
    reveal_strlit("Vector2(");
    assert(token != "true"@) by {
        assert("true"@[0] == 't');
    }
    assert(token != "false"@) by {
        assert("false"@[0] == 'f');
    }
    assert(after_sign(token) == 0);
    assert(digit_run(token, 0) == 0);
    assert(parse_i32_of(token) is None);
    assert(!is_word_at(token, 0, "inf"@)) by {
        assert("inf"@[0] == 'i');
        if is_word_at(token, 0, "inf"@) {
            assert(same_letter(token[0int + 0int], "inf"@[0]));
        }
    }
    assert(!is_word_at(token, 0, "infinity"@)) by {
        assert("infinity"@[0] == 'i');
        if is_word_at(token, 0, "infinity"@) {
            assert(same_letter(token[0int + 0int], "infinity"@[0]));
        }
    }
    assert(!is_word_at(token, 0, "nan"@)) by {
        assert("nan"@[0] == 'n');
        if is_word_at(token, 0, "nan"@) {
            assert(same_letter(token[0int + 0int], "nan"@[0]));
        }
    }
    assert(!is_number_at(token, 0));
    assert(!is_float_literal(token));
    assert(vector2_of(token) is None) by {
        if matches_at(token, 0, "Vector2("@) {
            let w = token.subrange(0, "Vector2("@.len() as int);
            assert(w[0] == token[0]);
            assert("Vector2("@[0] == 'V');
        }
    }
    assert(is_quoted(token));
    // The quotes at both ends go, and nothing else.
    let rest = token.drop_first();
    assert(rest =~= inner + seq!['"']);
    assert(crate::text::lead(rest, cls) == (if inner.len() == 0 {
        1nat
    } else {
        0nat
    })) by {
        if inner.len() == 0 {
            assert(rest.drop_first().len() == 0);
            assert(crate::text::lead(rest.drop_first(), cls) == 0);
        } else {
            assert(rest[0] == inner[0]);
        }
    }
    assert(crate::text::lead(token, cls) == 1 + crate::text::lead(rest, cls));
    let stripped = crate::text::strip_start_of(token, cls);
    if inner.len() == 0 {
        assert(stripped =~= Seq::<char>::empty());
        assert(crate::text::trail(stripped, cls) == 0);
        assert(crate::text::strip_end_of(stripped, cls) =~= inner);
    } else {
        assert(stripped =~= inner + seq!['"']);
        assert(stripped.last() == '"');
        assert(stripped.drop_last() =~= inner);
        assert(crate::text::trail(inner, cls) == 0) by {
            assert(inner.last() == inner[inner.len() - 1]);
        }
        assert(crate::text::trail(stripped, cls) == 1);
        assert(crate::text::strip_end_of(stripped, cls) =~= inner);
    }
    assert(trim_matches_of(token, '"') == inner);
    if inner.len() > 0 {
        assert(inner.last() == inner[inner.len() - 1]);
    }
    crate::text::lemma_strip_fixed(inner, cls);
}

} // verus!
