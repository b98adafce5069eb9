//! Conversions between the ways of writing a name, and resource paths.
use crate::text::{
    ascii_lower, ascii_upper, replace, replace_of, str_to_chars, to_ascii_lower, to_ascii_upper,
};
use vstd::prelude::*;

verus! {

/// Whether `c` has the Unicode property `Uppercase`.
pub uninterp spec fn is_uppercase(c: char) -> bool;

/// `char::is_uppercase` of the standard library: whether the character has
/// the Unicode property `Uppercase`. The contract gives the answer a name
/// and says nothing else of it.
#[verifier::external_body]
fn char_is_uppercase(c: char) -> (r: bool)
    ensures
        r == is_uppercase(c),
{
    c.is_uppercase()
}

/// The upper-case form of a text by the Unicode rules.
pub uninterp spec fn uppercase_of(s: Seq<char>) -> Seq<char>;

/// `str::to_uppercase` of the standard library: the upper-case form of the
/// text by the Unicode rules, under which one character may become several.
/// The contract gives the result a name and says nothing else of it.
#[verifier::external_body]
pub(crate) fn to_uppercase(s: &str) -> (r: String)
    ensures
        r@ == uppercase_of(s@),
{
    s.to_uppercase()
}

/// For each character of `s`, whether it is an upper-case one.
pub open spec fn uppercase_flags_of(s: Seq<char>) -> Seq<bool> {
    Seq::new(s.len(), |i: int| is_uppercase(s[i]))
}

/// The snake-case form of `s` from index `i` on, where `upper` says of each
/// character whether it is an upper-case one: each character in its ASCII
/// lower-case form, with an underscore before each upper-case character but
/// the first of `s`. A character of which `upper` says nothing counts as not
/// upper-case.
pub open spec fn snake_from(s: Seq<char>, upper: Seq<bool>, i: int) -> Seq<char>
    decreases s.len() - i,
{
    if i < 0 || i >= s.len() {
        Seq::<char>::empty()
    } else {
        (if i < upper.len() && upper[i] && i > 0 {
            seq!['_']
        } else {
            Seq::<char>::empty()
        }) + seq![ascii_lower(s[i])] + snake_from(s, upper, i + 1)
    }
}

/// The snake-case form of a name written in Pascal case.
pub open spec fn snake_case_of(s: Seq<char>) -> Seq<char> {
    snake_from(s, uppercase_flags_of(s), 0)
}

/// For each character of `s`, whether it is an upper-case one.
pub fn uppercase_flags(s: &str) -> (r: Vec<bool>)
    ensures
        r@ == uppercase_flags_of(s@),
{
    let chars = str_to_chars(s);
    let mut out: Vec<bool> = Vec::new();
    let mut i: usize = 0;
    while i < chars.len()
        invariant
            i <= chars.len(),
            chars@ == s@,
            out@ == uppercase_flags_of(s@).take(i as int),
        decreases chars.len() - i,
    {
        out.push(char_is_uppercase(chars[i]));
        assert(out@ =~= uppercase_flags_of(s@).take(i + 1));
        i += 1;
    }
    assert(uppercase_flags_of(s@).take(chars.len() as int) =~= uppercase_flags_of(s@));
    out
}

/// Turns a name into snake case, given of each of its characters whether it
/// is an upper-case one.
pub fn snake_case_with(s: &str, upper: &Vec<bool>) -> (r: String)
    ensures
        r@ == snake_from(s@, upper@, 0),
{
    let chars = str_to_chars(s);
    let mut out = String::new();
    let mut i: usize = 0;
    assert(out@ + snake_from(chars@, upper@, 0) =~= snake_from(chars@, upper@, 0));
    while i < chars.len()
        invariant
            i <= chars.len(),
            chars@ == s@,
            snake_from(s@, upper@, 0) == out@ + snake_from(chars@, upper@, i as int),
        decreases chars.len() - i,
    {
        let ghost before = out@;
        if i < upper.len() && upper[i] && i > 0 {
            out.push('_');
        }
        out.push(to_ascii_lower(chars[i]));
        assert(out@ + snake_from(chars@, upper@, i + 1) =~= before + snake_from(
            chars@,
            upper@,
            i as int,
        ));
        i += 1;
    }
    assert(out@ + Seq::<char>::empty() =~= out@);
    out
}

/// Turns a name in Pascal case, such as `JumpAction`, into snake case,
/// `jump_action`.
pub fn pascal_to_snake_case(s: &str) -> (r: String)
    ensures
        r@ == snake_case_of(s@),
{
    let upper = uppercase_flags(s);
    snake_case_with(s, &upper)
}

/// Turns a name in upper camel case, such as `ExampleString`, into snake
/// case, `example_string`.
pub fn upper_camel_to_snake_case(s: &str) -> (r: String)
    ensures
        r@ == snake_case_of(s@),
{
    pascal_to_snake_case(s)
}

/// The upper camel-case form of `s` from index `i` on. The underscores are
/// left out; `capitalize` says whether the next character that is none is
/// put in its ASCII upper-case form, as the first one and each one behind an
/// underscore are.
pub open spec fn camel_from(s: Seq<char>, i: int, capitalize: bool) -> Seq<char>
    decreases s.len() - i,
{
    if i < 0 || i >= s.len() {
        Seq::<char>::empty()
    } else if s[i] == '_' {
        camel_from(s, i + 1, true)
    } else if capitalize {
        seq![ascii_upper(s[i])] + camel_from(s, i + 1, false)
    } else {
        seq![s[i]] + camel_from(s, i + 1, false)
    }
}

/// The upper camel-case form of a name written in snake case.
pub open spec fn upper_camel_case_of(s: Seq<char>) -> Seq<char> {
    camel_from(s, 0, true)
}

/// Turns a name in snake case, such as `example_string`, into upper camel
/// case, `ExampleString`.
pub fn to_upper_camel_case(s: &str) -> (r: String)
    ensures
        r@ == upper_camel_case_of(s@),
{
    let chars = str_to_chars(s);
    let mut out = String::new();
    let mut capitalize = true;
    let mut i: usize = 0;
    assert(out@ + camel_from(chars@, 0, true) =~= camel_from(chars@, 0, true));
    while i < chars.len()
        invariant
            i <= chars.len(),
            chars@ == s@,
            upper_camel_case_of(s@) == out@ + camel_from(chars@, i as int, capitalize),
        decreases chars.len() - i,
    {
        let ghost before = out@;
        let ghost was = capitalize;
        let c = chars[i];
        if c == '_' {
            capitalize = true;
        } else if capitalize {
            out.push(to_ascii_upper(c));
            capitalize = false;
        } else {
            out.push(c);
        }
        assert(out@ + camel_from(chars@, i + 1, capitalize) =~= before + camel_from(
            chars@,
            i as int,
            was,
        ));
        i += 1;
    }
    assert(out@ + Seq::<char>::empty() =~= out@);
    out
}

/// Turns a path on disk into a resource path: each occurrence of the
/// resource directory's path becomes `res:/`.
pub fn to_resource_path(path: &str, resource_path: &str) -> (r: String)
    ensures
        r@ == replace_of(path@, resource_path@, "res:/"@),
{
    replace(path, resource_path, "res:/")
}

/// Whether `c` is an ASCII capital letter.
pub open spec fn is_ascii_capital(c: char) -> bool {
    'A' <= c <= 'Z'
}

/// Whether `c` is an ASCII small letter.
pub open spec fn is_ascii_small(c: char) -> bool {
    'a' <= c <= 'z'
}

/// Whether `s` is a name in upper camel case of which `upper` marks the
/// upper-case characters: it holds no underscore, does not begin with a
/// small letter, every ASCII capital letter is marked, and no ASCII small
/// letter is.
pub open spec fn is_camel_name(s: Seq<char>, upper: Seq<bool>) -> bool {
    &&& upper.len() == s.len()
    &&& s.len() > 0 ==> !is_ascii_small(s[0])
    &&& forall|i: int|
        0 <= i < s.len() ==> {
            &&& #[trigger] s[i] != '_'
            &&& is_ascii_capital(s[i]) ==> upper[i]
            &&& upper[i] ==> !is_ascii_small(s[i])
        }
}

/// The camel-case form of a text that begins with `c` goes on behind `c` as
/// that of the rest does.
proof fn lemma_camel_shift(c: char, rest: Seq<char>, j: int, capitalize: bool)
    requires
        0 <= j,
    ensures
        camel_from(seq![c] + rest, j + 1, capitalize) == camel_from(rest, j, capitalize),
    decreases rest.len() - j,
{
    let x = seq![c] + rest;
    if j < rest.len() {
        assert(x[j + 1] == rest[j]);
        lemma_camel_shift(c, rest, j + 1, true);
        lemma_camel_shift(c, rest, j + 1, false);
    }
}

/// The camel-case form of a text by its first character and its rest.
proof fn lemma_camel_cons(c: char, rest: Seq<char>, capitalize: bool)
    ensures
        camel_from(seq![c] + rest, 0, capitalize) == (if c == '_' {
            camel_from(rest, 0, true)
        } else if capitalize {
            seq![ascii_upper(c)] + camel_from(rest, 0, false)
        } else {
            seq![c] + camel_from(rest, 0, false)
        }),
{
    let x = seq![c] + rest;
    assert(x[0] == c);
    lemma_camel_shift(c, rest, 0, true);
    lemma_camel_shift(c, rest, 0, false);
}

/// Behind the first character, the camel-case form of the snake-case form
/// is the name again.
proof fn lemma_camel_of_snake_from(s: Seq<char>, upper: Seq<bool>, i: int)
    requires
        is_camel_name(s, upper),
        1 <= i <= s.len(),
    ensures
        camel_from(snake_from(s, upper, i), 0, false) == s.skip(i),
    decreases s.len() - i,
{
    if i < s.len() {
        let c = s[i];
        let low = ascii_lower(c);
        let tail = snake_from(s, upper, i + 1);
        lemma_camel_of_snake_from(s, upper, i + 1);
        assert(c != '_');
        assert(low != '_');
        lemma_camel_cons(low, tail, false);
        lemma_camel_cons(low, tail, true);
        if upper[i] {
            assert(snake_from(s, upper, i) =~= seq!['_'] + (seq![low] + tail));
            lemma_camel_cons('_', seq![low] + tail, false);
            assert(ascii_upper(low) == c);
        } else {
            assert(snake_from(s, upper, i) =~= seq![low] + tail);
            assert(low == c);
        }
        assert(seq![c] + s.skip(i + 1) =~= s.skip(i));
    } else {
        assert(s.skip(i) =~= Seq::<char>::empty());
    }
}

/// A name in upper camel case comes back from its snake-case form: turning
/// `ExampleString` into `example_string` and that into upper camel case
/// gives `ExampleString` again.
pub proof fn lemma_camel_of_snake(s: Seq<char>, upper: Seq<bool>)
    requires
        is_camel_name(s, upper),
    ensures
        upper_camel_case_of(snake_from(s, upper, 0)) == s,
{
    if s.len() > 0 {
        let c = s[0];
        let low = ascii_lower(c);
        let tail = snake_from(s, upper, 1);
        lemma_camel_of_snake_from(s, upper, 1);
        assert(c != '_');
        assert(snake_from(s, upper, 0) =~= seq![low] + tail);
        lemma_camel_cons(low, tail, true);
        assert(ascii_upper(low) == c);
        assert(seq![c] + s.skip(1) =~= s);
    } else {
        assert(snake_from(s, upper, 0) =~= Seq::<char>::empty());
    }
}

/// Whether `s` is a name in snake case: it holds no ASCII capital letter,
/// does not begin with an underscore, and behind each underscore stands an
/// ASCII small letter.
pub open spec fn is_snake_name(s: Seq<char>) -> bool {
    &&& s.len() > 0 ==> s[0] != '_'
    &&& forall|i: int|
        0 <= i < s.len() ==> {
            &&& !is_ascii_capital(#[trigger] s[i])
            &&& s[i] == '_' ==> i + 1 < s.len() && is_ascii_small(s[i + 1])
        }
}

/// Whether `upper` marks exactly the ASCII capital letters of `x`.
pub open spec fn marks_capitals(x: Seq<char>, upper: Seq<bool>) -> bool {
    &&& upper.len() == x.len()
    &&& forall|i: int| 0 <= i < x.len() ==> #[trigger] upper[i] == is_ascii_capital(x[i])
}

/// The snake-case form of a text that is not the beginning of a name: each
/// character in its lower-case form, with an underscore before each ASCII
/// capital letter.
spec fn snake_rest(x: Seq<char>) -> Seq<char>
    decreases x.len(),
{
    if x.len() == 0 {
        Seq::<char>::empty()
    } else {
        (if is_ascii_capital(x[0]) {
            seq!['_']
        } else {
            Seq::<char>::empty()
        }) + seq![ascii_lower(x[0])] + snake_rest(x.drop_first())
    }
}

/// Behind the first character the snake-case form goes by the rest alone.
proof fn lemma_snake_from_rest(x: Seq<char>, upper: Seq<bool>, i: int)
    requires
        marks_capitals(x, upper),
        1 <= i <= x.len(),
    ensures
        snake_from(x, upper, i) == snake_rest(x.skip(i)),
    decreases x.len() - i,
{
    let rest = x.skip(i);
    if i < x.len() {
        lemma_snake_from_rest(x, upper, i + 1);
        assert(rest[0] == x[i]);
        assert(rest.drop_first() =~= x.skip(i + 1));
        assert(upper[i] == is_ascii_capital(x[i]));
    }
}

/// The camel-case form from `i` on, taken back to snake case, is the name
/// from `i` on.
proof fn lemma_snake_of_camel_from(s: Seq<char>, i: int)
    requires
        is_snake_name(s),
        0 <= i <= s.len(),
    ensures
        snake_rest(camel_from(s, i, false)) == s.skip(i),
    decreases s.len() - i,
{
    if i < s.len() {
        let c = s[i];
        assert(!is_ascii_capital(c));
        if c == '_' {
            let d = s[i + 1];
            assert(!is_ascii_capital(d));
            assert(is_ascii_small(d));
            let up = ascii_upper(d);
            let tail = camel_from(s, i + 2, false);
            lemma_snake_of_camel_from(s, i + 2);
            let out = camel_from(s, i, false);
            assert(d != '_');
            assert(out == camel_from(s, i + 1, true));
            assert(camel_from(s, i + 1, true) == seq![up] + tail);
            assert(out[0] == up);
            assert(out.drop_first() =~= tail);
            assert(ascii_lower(up) == d);
            assert(seq!['_'] + seq![d] + s.skip(i + 2) =~= s.skip(i));
        } else {
            let tail = camel_from(s, i + 1, false);
            lemma_snake_of_camel_from(s, i + 1);
            let out = camel_from(s, i, false);
            assert(out == seq![c] + tail);
            assert(out[0] == c);
            assert(out.drop_first() =~= tail);
            assert(seq![c] + s.skip(i + 1) =~= s.skip(i));
        }
    } else {
        assert(s.skip(i) =~= Seq::<char>::empty());
    }
}

/// A name in snake case comes back from its upper camel-case form: turning
/// `example_string` into `ExampleString` and that into snake case gives
/// `example_string` again.
pub proof fn lemma_snake_of_camel(s: Seq<char>, upper: Seq<bool>)
    requires
        is_snake_name(s),
        marks_capitals(upper_camel_case_of(s), upper),
    ensures
        snake_from(upper_camel_case_of(s), upper, 0) == s,
{
    let out = upper_camel_case_of(s);
    if s.len() > 0 {
        let c = s[0];
        assert(!is_ascii_capital(c));
        let tail = camel_from(s, 1, false);
        assert(out == seq![ascii_upper(c)] + tail);
        assert(out[0] == ascii_upper(c));
        assert(out.skip(1) =~= tail);
        lemma_snake_from_rest(out, upper, 1);
        lemma_snake_of_camel_from(s, 1);
        assert(ascii_lower(ascii_upper(c)) == c);
        assert(seq![c] + s.skip(1) =~= s);
    } else {
        assert(out =~= Seq::<char>::empty());
        assert(snake_from(out, upper, 0) =~= Seq::<char>::empty());
    }
}

} // verus!
