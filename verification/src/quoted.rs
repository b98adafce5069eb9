//! A law of the object literal: a text value is filed as the text that it
//! writes, whether it stands between double quotes or not.
use crate::event::{
    empty_event, event_of, file_all, group_len, lemma_group_len_is, literal_body_of,
};
use crate::scalar::{
    coerce_of, is_float_literal, lemma_quoted_token, parse_i32_of, ScalarView,
};
use crate::splitter::{
    is_flat, is_neutral, lemma_flat_join, lemma_next_split_is, lemma_scan_neutral,
    lemma_scan_quoted, next_split, properties_in, properties_of, property_of, scan_start,
    scan_state, scan_step, segments_from, split_first_of, split_top_level_of,
};
use crate::strmap::map_of;
use crate::text::{is_whitespace, lemma_strip_fixed, matches_at, trim_of, CharClass};
use vstd::prelude::*;

verus! {

/// Whether no character of `s` has a meaning in an object literal: none is a
/// double quote, a parenthesis, a backslash, a comma or a colon.
pub open spec fn is_plain_text(s: Seq<char>) -> bool {
    forall|i: int|
        0 <= i < s.len() ==> is_neutral(#[trigger] s[i]) && s[i] != ',' && s[i] != ':'
}

/// The token that writes the text `s`: `s` between double quotes, or `s` as
/// it stands.
pub open spec fn token_for(s: Seq<char>, quoted: bool) -> Seq<char> {
    if quoted {
        seq!['"'] + s + seq!['"']
    } else {
        s
    }
}

/// Whether `s` can be written without quotes and still be read as a text: it
/// is not empty, has no whitespace at its ends, holds no character with a
/// meaning in a literal, and is no boolean, integer or floating-point
/// literal.
pub open spec fn is_text_value(s: Seq<char>) -> bool {
    &&& s.len() > 0
    &&& !is_whitespace(s[0])
    &&& !is_whitespace(s.last())
    &&& is_plain_text(s)
    &&& s != "true"@
    &&& s != "false"@
    &&& parse_i32_of(s) is None
    &&& !is_float_literal(s)
}

/// An object literal of the type `T` with the property `k`, whose value the
/// token `t` writes, and the property `z` with the value 0.
pub open spec fn literal_with(t: Seq<char>) -> Seq<char> {
    "Object(T,\"k\":"@ + t + ",\"z\":0)"@
}

/// The fragment of the property `k`.
spec fn frag_k(t: Seq<char>) -> Seq<char> {
    seq!['"', 'k', '"', ':'] + t
}

/// The fragment of the property `z`.
spec fn frag_z() -> Seq<char> {
    seq!['"', 'z', '"', ':', '0']
}

/// The property list of the literal.
spec fn props_with(t: Seq<char>) -> Seq<char> {
    frag_k(t) + seq![','] + frag_z()
}

/// What stands between the parentheses of the literal.
spec fn body_with(t: Seq<char>) -> Seq<char> {
    seq!['T', ','] + props_with(t)
}

/// The token holds neither a comma nor a colon.
proof fn lemma_token_chars(s: Seq<char>, quoted: bool)
    requires
        is_plain_text(s),
    ensures
        forall|j: int|
            0 <= j < token_for(s, quoted).len() ==> #[trigger] token_for(s, quoted)[j] != ','
                && token_for(s, quoted)[j] != ':',
{
    let t = token_for(s, quoted);
    assert forall|j: int| 0 <= j < t.len() implies #[trigger] t[j] != ',' && t[j] != ':' by {
        if quoted && 0 < j < t.len() - 1 {
            assert(t[j] == s[j - 1]);
        }
    }
}

/// The token is passed on one level, wherever it stands outside quotes.
proof fn lemma_flat_token(x: Seq<char>, at: int, s: Seq<char>, quoted: bool)
    requires
        is_plain_text(s),
        0 <= at,
        at + token_for(s, quoted).len() <= x.len(),
        forall|j: int|
            0 <= j < token_for(s, quoted).len() ==> x[at + j] == #[trigger] token_for(s, quoted)[j],
        !scan_state(x, at).in_quotes,
        !scan_state(x, at).escaped,
    ensures
        is_flat(x, at, at + token_for(s, quoted).len()),
{
    let t = token_for(s, quoted);
    if quoted {
        assert(x[at] == t[0]);
        assert(x[at + t.len() - 1] == t[t.len() - 1]);
        assert forall|k: int| at < k < at + t.len() - 1 implies is_neutral(#[trigger] x[k]) by {
            assert(x[at + (k - at)] == t[k - at]);
            assert(t[k - at] == s[k - at - 1]);
        }
        lemma_scan_quoted(x, at, at + t.len());
    } else {
        assert forall|k: int| at <= k < at + t.len() implies is_neutral(#[trigger] x[k]) by {
            assert(x[at + (k - at)] == t[k - at]);
        }
        lemma_scan_neutral(x, at, at + t.len());
    }
}

/// The property list is passed on one level up to its comma and up to its
/// end, wherever it stands outside quotes.
proof fn lemma_flat_props(x: Seq<char>, o: int, s: Seq<char>, quoted: bool)
    requires
        is_plain_text(s),
        0 <= o,
        o + props_with(token_for(s, quoted)).len() <= x.len(),
        forall|j: int|
            0 <= j < props_with(token_for(s, quoted)).len() ==> x[o + j] == #[trigger] props_with(
                token_for(s, quoted),
            )[j],
        !scan_state(x, o).in_quotes,
        !scan_state(x, o).escaped,
    ensures
        is_flat(x, o, o + 4 + token_for(s, quoted).len()),
        is_flat(x, o, o + props_with(token_for(s, quoted)).len()),
{
    let t = token_for(s, quoted);
    let p = props_with(t);
    let n = t.len() as int;
    assert(p.len() == n + 10);
    assert(x[o + 0] == p[0] && x[o + 1] == p[1] && x[o + 2] == p[2] && x[o + 3] == p[3]);
    lemma_scan_quoted(x, o, o + 3);
    lemma_scan_neutral(x, o + 3, o + 4);
    lemma_flat_join(x, o, o + 3, o + 4);
    assert forall|j: int| 0 <= j < n implies x[o + 4 + j] == #[trigger] t[j] by {
        assert(x[o + (4 + j)] == p[4 + j]);
    }
    lemma_flat_token(x, o + 4, s, quoted);
    lemma_flat_join(x, o, o + 4, o + 4 + n);
    assert(x[o + (n + 4)] == p[n + 4]);
    assert(x[o + (n + 5)] == p[n + 5]);
    assert(x[o + (n + 6)] == p[n + 6]);
    assert(x[o + (n + 7)] == p[n + 7]);
    assert(x[o + (n + 8)] == p[n + 8]);
    assert(x[o + (n + 9)] == p[n + 9]);
    lemma_scan_neutral(x, o + n + 4, o + n + 5);
    lemma_flat_join(x, o, o + n + 4, o + n + 5);
    lemma_scan_quoted(x, o + n + 5, o + n + 8);
    lemma_flat_join(x, o, o + n + 5, o + n + 8);
    lemma_scan_neutral(x, o + n + 8, o + n + 10);
    lemma_flat_join(x, o, o + n + 8, o + n + 10);
}

/// What stands between the parentheses of the literal is found whole.
proof fn lemma_body(s: Seq<char>, quoted: bool)
    requires
        is_plain_text(s),
    ensures
        literal_body_of(literal_with(token_for(s, quoted))) == body_with(token_for(s, quoted)),
{
    let t = token_for(s, quoted);
    let n = t.len() as int;
    let body = body_with(t);
    let p = props_with(t);
    let e = seq!['O', 'b', 'j', 'e', 'c', 't', '('] + body + seq![')'];
    reveal_strlit("Object(T,\"k\":");
    reveal_strlit(",\"z\":0)");
    reveal_strlit("Object(");
    assert(literal_with(t) =~= e);
    let head = "Object("@;
    assert(e.subrange(0, 7) =~= head);
    assert(matches_at(e, 0, head));
    let g = e.skip(6);
    assert(g.len() == n + 14);
    assert(g[0] == '(');
    assert(scan_state(g, 0) == scan_start());
    assert(scan_state(g, 1) == scan_step(scan_state(g, 0), g[0]));
    assert(g[1] == 'T' && g[2] == ',');
    lemma_scan_neutral(g, 1, 3);
    assert forall|j: int| 0 <= j < p.len() implies g[3 + j] == #[trigger] p[j] by {
        assert(g[3 + j] == e[9 + j]);
        assert(e[9 + j] == body[2 + j]);
    }
    lemma_flat_props(g, 3, s, quoted);
    lemma_flat_join(g, 1, 3, n + 13);
    assert(g[n + 13] == ')');
    assert(scan_state(g, n + 14) == scan_step(scan_state(g, n + 13), g[n + 13]));
    assert forall|k: int| 1 <= k < n + 14 implies scan_state(g, k).depth != 0 by {
        assert(scan_state(g, k).depth == scan_state(g, 1).depth);
    }
    lemma_group_len_is(g, 1, n + 14);
    assert(group_len(g) == n + 14);
    assert(e.subrange(7, n + 19) =~= body);
}

/// The body is split into the type tag and the property list.
proof fn lemma_tag(s: Seq<char>, quoted: bool)
    requires
        is_plain_text(s),
    ensures
        split_first_of(body_with(token_for(s, quoted)), ',') == Some(
            (seq!['T'], props_with(token_for(s, quoted))),
        ),
{
    let t = token_for(s, quoted);
    let body = body_with(t);
    assert(body[0] == 'T' && body[1] == ',');
    assert(scan_state(body, 0) == scan_start());
    assert(scan_state(body, 1) == scan_step(scan_state(body, 0), body[0]));
    lemma_next_split_is(body, 0, 1, ',');
    assert(body.take(1) =~= seq!['T']);
    assert(body.skip(2) =~= props_with(t));
}

/// The property list is split into its two fragments.
proof fn lemma_fragments(s: Seq<char>, quoted: bool)
    requires
        is_plain_text(s),
    ensures
        split_top_level_of(props_with(token_for(s, quoted)), ',') == seq![
            frag_k(token_for(s, quoted)),
            frag_z(),
        ],
{
    let t = token_for(s, quoted);
    let n = t.len() as int;
    let p = props_with(t);
    let at = n + 4;
    assert(p.len() == n + 10);
    assert(scan_state(p, 0) == scan_start());
    lemma_flat_props(p, 0, s, quoted);
    lemma_token_chars(s, quoted);
    assert(p[at] == ',');
    assert forall|k: int| 0 <= k < at implies #[trigger] p[k] != ',' by {
        if k < 4 {
            assert(p[0] == '"' && p[1] == 'k' && p[2] == '"' && p[3] == ':');
        } else {
            assert(p[k] == t[k - 4]);
        }
    }
    lemma_next_split_is(p, 0, at, ',');
    assert forall|k: int| at + 1 <= k < p.len() implies #[trigger] p[k] != ',' by {
        assert(p[n + 5] == '"' && p[n + 6] == 'z' && p[n + 7] == '"' && p[n + 8] == ':' && p[n
            + 9] == '0');
    }
    lemma_next_split_is(p, at + 1, p.len() as int, ',');
    assert(p.subrange(0, at) =~= frag_k(t));
    assert(p.subrange(at + 1, p.len() as int) =~= frag_z());
    assert(segments_from(p, at + 1, ',') =~= seq![frag_z()]);
    assert(segments_from(p, 0, ',') =~= seq![frag_k(t)] + segments_from(p, at + 1, ','));
    assert(seq![frag_k(t)] + seq![frag_z()] =~= seq![frag_k(t), frag_z()]);
}

/// A fragment with a one-letter name between double quotes gives that name
/// and, trimmed, what stands behind its colon.
proof fn lemma_fragment(frag: Seq<char>, name: char, value: Seq<char>)
    requires
        frag == seq!['"', name, '"', ':'] + value,
        is_neutral(name),
        name != ':',
    ensures
        property_of(frag) == Some((seq![name], trim_of(value))),
{
    assert(frag[0] == '"' && frag[1] == name && frag[2] == '"' && frag[3] == ':');
    assert(scan_state(frag, 0) == scan_start());
    lemma_scan_quoted(frag, 0, 3);
    lemma_next_split_is(frag, 0, 3, ':');
    let key = seq!['"', name, '"'];
    assert(frag.take(3) =~= key);
    assert(frag.skip(4) =~= value);
    assert(!is_whitespace('"'));
    lemma_strip_fixed(key, CharClass::Whitespace);
    assert(key =~= seq!['"'] + seq![name] + seq!['"']);
    lemma_quoted_token(seq![name]);
}

/// The token of a text value is coerced to the text.
proof fn lemma_coerce_token(s: Seq<char>, quoted: bool)
    requires
        is_text_value(s),
    ensures
        coerce_of(token_for(s, quoted)) == ScalarView::Str(s),
        trim_of(token_for(s, quoted)) == token_for(s, quoted),
{
    let t = token_for(s, quoted);
    assert(!is_whitespace('"'));
    lemma_strip_fixed(t, CharClass::Whitespace);
    if quoted {
        lemma_quoted_token(s);
    } else {
        reveal_strlit("Vector2(");
        if matches_at(s, 0, "Vector2("@) {
            assert(s.subrange(0, 8)[7] == "Vector2("@[7]);
            assert(s[7] == '(');
            assert(is_neutral(s[7]));
        }
        assert(is_neutral(s[0]));
    }
}

/// The digit zero is coerced to the integer zero.
proof fn lemma_coerce_zero()
    ensures
        coerce_of(seq!['0']) == ScalarView::Int(0),
        trim_of(seq!['0']) == seq!['0'],
{
    let z = seq!['0'];
    reveal_strlit("true");
    reveal_strlit("false");
    assert(z != "true"@);
    assert(z != "false"@);
    assert(crate::scalar::after_sign(z) == 0);
    assert(crate::scalar::digit_run(z, 1) == 1);
    assert(crate::scalar::digit_run(z, 0) == 1);
    assert(crate::scalar::digits_value(z, 0, 0) == 0);
    assert(crate::scalar::digits_value(z, 0, 1) == 0);
    assert(crate::scalar::integer_of(z) == Some(0int));
    assert(parse_i32_of(z) == Some(0int));
    lemma_strip_fixed(z, CharClass::Whitespace);
}

/// A text value in an object literal is filed as the text that it writes,
/// whether it stands between double quotes or not: the quotes are taken off
/// once, and a text without them is left as it is.
pub proof fn lemma_text_value_is_kept(s: Seq<char>, quoted: bool)
    requires
        is_text_value(s),
    ensures
        event_of(literal_with(token_for(s, quoted))) is Some,
        map_of(event_of(literal_with(token_for(s, quoted)))->0.strs).dom().contains("k"@),
        map_of(event_of(literal_with(token_for(s, quoted)))->0.strs)["k"@] == s,
{
    let t = token_for(s, quoted);
    reveal_strlit("k");
    assert("k"@ =~= seq!['k']);
    lemma_body(s, quoted);
    lemma_tag(s, quoted);
    lemma_fragments(s, quoted);
    lemma_fragment(frag_k(t), 'k', t);
    assert(frag_z() =~= seq!['"', 'z', '"', ':'] + seq!['0']);
    lemma_fragment(frag_z(), 'z', seq!['0']);
    lemma_coerce_token(s, quoted);
    lemma_coerce_zero();
    let frags = seq![frag_k(t), frag_z()];
    let k = seq!['k'];
    let z = seq!['z'];
    assert(properties_of(props_with(t)) == properties_in(frags));
    assert(frags.drop_first() =~= seq![frag_z()]);
    assert(frags.drop_first().drop_first() =~= Seq::<Seq<char>>::empty());
    assert(properties_in(frags.drop_first().drop_first()) =~= Seq::<(Seq<char>, Seq<char>)>::empty(
    ));
    assert(properties_in(frags.drop_first()) =~= seq![(z, seq!['0'])]);
    let pairs = seq![(k, t), (z, seq!['0'])];
    assert(properties_in(frags) =~= pairs);
    let tag = trim_of(seq!['T']);
    let start = empty_event(tag);
    let first = crate::event::file_property(start, k, coerce_of(t));
    let second = crate::event::file_property(first, z, coerce_of(seq!['0']));
    assert(pairs.drop_first() =~= seq![(z, seq!['0'])]);
    assert(pairs.drop_first().drop_first() =~= Seq::<(Seq<char>, Seq<char>)>::empty());
    assert(file_all(second, pairs.drop_first().drop_first()) == second);
    assert(file_all(first, pairs.drop_first()) == second);
    assert(file_all(start, pairs) == second);
    assert(event_of(literal_with(t)) == Some(second));
    // The property `k` is filed first, and the property `z` leaves it alone.
    assert(crate::strmap::position_of(start.strs, k) == 0);
    assert(first.strs =~= seq![(k, s)]);
    assert(k[0] != z[0]);
    assert(first.strs.drop_first() =~= Seq::<(Seq<char>, Seq<char>)>::empty());
    assert(crate::strmap::position_of(first.strs.drop_first(), z) == 0);
    assert(crate::strmap::position_of(first.strs, z) == 1);
    assert(second.strs == first.strs);
    assert(first.strs.drop_last() =~= Seq::<(Seq<char>, Seq<char>)>::empty());
    assert(first.strs.last() == (k, s));
    assert(map_of(first.strs.drop_last()) =~= Map::<Seq<char>, Seq<char>>::empty());
    assert(map_of(first.strs) =~= Map::<Seq<char>, Seq<char>>::empty().insert(k, s));
}

} // verus!
