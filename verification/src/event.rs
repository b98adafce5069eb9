//! Input events: the object literal that writes one, the array that holds
//! several, and the name of the key or button that an event stands for.
use crate::scalar::{coerce, coerce_of, Scalar, ScalarView};
use crate::splitter::{
    lemma_depth_bound, pair_views_of, properties_of, scan_state, split_first, split_first_of,
    split_properties, Scanner,
};
use crate::strmap::{map_of, with_entry, without_key, StrMap};
use crate::text::{
    chars_to_string, find_at, find_from, has_at, lemma_find_from, matches_at, str_to_chars,
    subvec, texts_of, trim, trim_of,
};
use vstd::prelude::*;

verus! {

/// One input event of an action: its type tag, such as `InputEventKey`, and
/// its properties, each in the map of the kind that its value has.
pub struct InputEvent {
    pub event_type: String,
    pub str_properties: StrMap<String>,
    pub bool_properties: StrMap<bool>,
    pub int_properties: StrMap<i32>,
    /// Floating-point properties, each kept as the literal that writes it.
    pub float_properties: StrMap<String>,
    /// Vector properties, each kept as the literals of its two components.
    pub vec2_properties: StrMap<(String, String)>,
}

/// The mathematical model of an [`InputEvent`].
pub ghost struct InputEventView {
    pub event_type: Seq<char>,
    pub strs: Seq<(Seq<char>, Seq<char>)>,
    pub bools: Seq<(Seq<char>, bool)>,
    pub ints: Seq<(Seq<char>, i32)>,
    pub floats: Seq<(Seq<char>, Seq<char>)>,
    pub vec2s: Seq<(Seq<char>, (Seq<char>, Seq<char>))>,
}

impl View for InputEvent {
    type V = InputEventView;

    open spec fn view(&self) -> InputEventView {
        InputEventView {
            event_type: self.event_type@,
            strs: self.str_properties@,
            bools: self.bool_properties@,
            ints: self.int_properties@,
            floats: self.float_properties@,
            vec2s: self.vec2_properties@,
        }
    }
}

/// An event of the given type without properties.
pub open spec fn empty_event(event_type: Seq<char>) -> InputEventView {
    InputEventView {
        event_type,
        strs: seq![],
        bools: seq![],
        ints: seq![],
        floats: seq![],
        vec2s: seq![],
    }
}

/// The event after the property `name` has been given `value`: it stands in
/// the map of the value's kind and in no other.
pub open spec fn file_property(
    ev: InputEventView,
    name: Seq<char>,
    value: ScalarView,
) -> InputEventView {
    let cleared = InputEventView {
        event_type: ev.event_type,
        strs: without_key(ev.strs, name),
        bools: without_key(ev.bools, name),
        ints: without_key(ev.ints, name),
        floats: without_key(ev.floats, name),
        vec2s: without_key(ev.vec2s, name),
    };
    match value {
        ScalarView::Bool(b) => InputEventView { bools: with_entry(ev.bools, name, b), ..cleared },
        ScalarView::Int(i) => InputEventView {
            ints: with_entry(ev.ints, name, i as i32),
            ..cleared
        },
        ScalarView::Float(t) => InputEventView {
            floats: with_entry(ev.floats, name, t),
            ..cleared
        },
        ScalarView::Vec2(x, y) => InputEventView {
            vec2s: with_entry(ev.vec2s, name, (x, y)),
            ..cleared
        },
        ScalarView::Str(t) => InputEventView { strs: with_entry(ev.strs, name, t), ..cleared },
    }
}

/// The event after each of the properties, a name and a raw value, has been
/// coerced and filed, in order.
pub open spec fn file_all(ev: InputEventView, props: Seq<(Seq<char>, Seq<char>)>) -> InputEventView
    decreases props.len(),
{
    if props.len() == 0 {
        ev
    } else {
        file_all(file_property(ev, props[0].0, coerce_of(props[0].1)), props.drop_first())
    }
}

/// In how many of the event's maps the name `k` stands.
pub open spec fn count_of(ev: InputEventView, k: Seq<char>) -> int {
    (if map_of(ev.strs).dom().contains(k) {
        1int
    } else {
        0int
    }) + (if map_of(ev.bools).dom().contains(k) {
        1int
    } else {
        0int
    }) + (if map_of(ev.ints).dom().contains(k) {
        1int
    } else {
        0int
    }) + (if map_of(ev.floats).dom().contains(k) {
        1int
    } else {
        0int
    }) + (if map_of(ev.vec2s).dom().contains(k) {
        1int
    } else {
        0int
    })
}

/// Whether no property name stands in two of the event's maps.
pub open spec fn is_partitioned(ev: InputEventView) -> bool {
    forall|k: Seq<char>| #[trigger] count_of(ev, k) <= 1
}

/// Whether no name stands twice in any one of the event's maps.
pub open spec fn has_distinct_keys(ev: InputEventView) -> bool {
    &&& crate::strmap::distinct_keys(ev.strs)
    &&& crate::strmap::distinct_keys(ev.bools)
    &&& crate::strmap::distinct_keys(ev.ints)
    &&& crate::strmap::distinct_keys(ev.floats)
    &&& crate::strmap::distinct_keys(ev.vec2s)
}

/// Filing a property keeps the maps apart.
pub proof fn lemma_file_property_partitioned(ev: InputEventView, name: Seq<char>, value: ScalarView)
    requires
        is_partitioned(ev),
        has_distinct_keys(ev),
    ensures
        is_partitioned(file_property(ev, name, value)),
        has_distinct_keys(file_property(ev, name, value)),
{
    let next = file_property(ev, name, value);
    crate::strmap::lemma_without_key(ev.strs, name);
    crate::strmap::lemma_without_key(ev.bools, name);
    crate::strmap::lemma_without_key(ev.ints, name);
    crate::strmap::lemma_without_key(ev.floats, name);
    crate::strmap::lemma_without_key(ev.vec2s, name);
    match value {
        ScalarView::Bool(b) => crate::strmap::lemma_with_entry(ev.bools, name, b),
        ScalarView::Int(i) => crate::strmap::lemma_with_entry(ev.ints, name, i as i32),
        ScalarView::Float(t) => crate::strmap::lemma_with_entry(ev.floats, name, t),
        ScalarView::Vec2(x, y) => crate::strmap::lemma_with_entry(ev.vec2s, name, (x, y)),
        ScalarView::Str(t) => crate::strmap::lemma_with_entry(ev.strs, name, t),
    }
    assert forall|k: Seq<char>| #[trigger] count_of(next, k) <= 1 by {
        assert(count_of(ev, k) <= 1);
    }
}

impl InputEvent {
    /// An event of the given type without properties.
    pub fn new(event_type: &str) -> (r: Self)
        ensures
            r@ == empty_event(event_type@),
            is_partitioned(r@),
    {
        InputEvent {
            event_type: event_type.to_owned(),
            str_properties: StrMap::new(),
            bool_properties: StrMap::new(),
            int_properties: StrMap::new(),
            float_properties: StrMap::new(),
            vec2_properties: StrMap::new(),
        }
    }

    /// Gives the property `name` the value `value`, in the map of the
    /// value's kind, and takes the name out of the other maps.
    pub fn set_property(&mut self, name: &str, value: Scalar)
        ensures
            final(self)@ == file_property(old(self)@, name@, value@),
            is_partitioned(old(self)@) ==> is_partitioned(final(self)@),
    {
        let _ = self.str_properties.len();
        let _ = self.bool_properties.len();
        let _ = self.int_properties.len();
        let _ = self.float_properties.len();
        let _ = self.vec2_properties.len();
        assert(has_distinct_keys(self@));
        match value {
            Scalar::Bool(b) => {
                self.bool_properties.insert(name, b);
                self.str_properties.remove(name);
                self.int_properties.remove(name);
                self.float_properties.remove(name);
                self.vec2_properties.remove(name);
            },
            Scalar::Int(i) => {
                self.int_properties.insert(name, i);
                self.str_properties.remove(name);
                self.bool_properties.remove(name);
                self.float_properties.remove(name);
                self.vec2_properties.remove(name);
            },
            Scalar::Float(t) => {
                self.float_properties.insert(name, t);
                self.str_properties.remove(name);
                self.bool_properties.remove(name);
                self.int_properties.remove(name);
                self.vec2_properties.remove(name);
            },
            Scalar::Vec2(x, y) => {
                self.vec2_properties.insert(name, (x, y));
                self.str_properties.remove(name);
                self.bool_properties.remove(name);
                self.int_properties.remove(name);
                self.float_properties.remove(name);
            },
            Scalar::Str(t) => {
                self.str_properties.insert(name, t);
                self.bool_properties.remove(name);
                self.int_properties.remove(name);
                self.float_properties.remove(name);
                self.vec2_properties.remove(name);
            },
        }
        proof {
            if is_partitioned(old(self)@) {
                lemma_file_property_partitioned(old(self)@, name@, value@);
            }
        }
    }
}

/// The length of the parenthesised group that `s` begins with, counted from
/// `n` characters on: up to the first place at which no parenthesis is open.
/// Zero where the group is not closed.
pub open spec fn group_len_from(s: Seq<char>, n: int) -> int
    decreases s.len() - n,
{
    if n < 1 || n > s.len() {
        0
    } else if scan_state(s, n).depth == 0 {
        n
    } else if n == s.len() {
        0
    } else {
        group_len_from(s, n + 1)
    }
}

/// The length of the parenthesised group that `s` begins with, from its
/// opening parenthesis to the closing one that matches it. Parentheses inside
/// double quotes do not count. Zero where `s` does not begin with an opening
/// parenthesis or the group is not closed.
pub open spec fn group_len(s: Seq<char>) -> int {
    if s.len() > 0 && s[0] == '(' {
        group_len_from(s, 1)
    } else {
        0
    }
}

/// `group_len_from` stays within the text.
pub proof fn lemma_group_len_from(s: Seq<char>, n: int)
    requires
        1 <= n,
    ensures
        group_len_from(s, n) == 0 || n <= group_len_from(s, n) <= s.len(),
    decreases s.len() - n,
{
    if n < s.len() && scan_state(s, n).depth != 0 {
        lemma_group_len_from(s, n + 1);
    }
}

/// The length of the parenthesised group that begins at `s[open]`.
pub fn measure_group(s: &Vec<char>, open: usize) -> (r: usize)
    requires
        open <= s.len(),
    ensures
        r == group_len(s@.skip(open as int)),
        open + r <= s.len(),
{
    let ghost t = s@.skip(open as int);
    if open >= s.len() || s[open] != '(' {
        return 0;
    }
    let mut st = Scanner::new();
    st.step(s[open]);
    let mut i: usize = open + 1;
    assert(scan_state(t, 1) == crate::splitter::scan_step(scan_state(t, 0), t[0]));
    loop
        invariant
            open < i <= s.len(),
            t == s@.skip(open as int),
            st@ == scan_state(t, i - open),
            group_len(t) == group_len_from(t, i - open),
        decreases s.len() - i,
    {
        if st.depth == 0 {
            return i - open;
        }
        if i >= s.len() {
            return 0;
        }
        proof {
            lemma_depth_bound(t, i - open);
            assert(t[i - open] == s@[i as int]);
        }
        st.step(s[i]);
        i += 1;
    }
}

/// What stands between the parentheses of a leading `Object(` wrapper, up to
/// the closing parenthesis that matches the opening one, or up to the end
/// where none does. A text without the wrapper stands for itself.
pub open spec fn literal_body_of(s: Seq<char>) -> Seq<char> {
    let head = "Object("@;
    if head.len() > 0 && matches_at(s, 0, head) {
        let open = head.len() - 1;
        let g = group_len(s.skip(open));
        if g > 0 {
            s.subrange(head.len() as int, open + g - 1)
        } else {
            s.skip(head.len() as int)
        }
    } else {
        s
    }
}

/// What stands between the parentheses of a leading `Object(` wrapper.
fn literal_body(s: &Vec<char>) -> (r: Vec<char>)
    ensures
        r@ == literal_body_of(s@),
{
    let head = str_to_chars("Object(");
    if head.len() > 0 && has_at(s, 0, &head) {
        let open = head.len() - 1;
        let g = measure_group(s, open);
        proof {
            let t = s@.skip(open as int);
            if g > 0 {
                lemma_group_len_from(t, 1);
                assert(scan_state(t, 0) == crate::splitter::scan_start());
                assert(t.len() > 0 && t[0] == '(');
                assert(scan_state(t, 1) == crate::splitter::scan_step(scan_state(t, 0), t[0]));
                assert(scan_state(t, 1).depth == 1);
                lemma_group_len_from(t, 2);
                assert(g >= 2);
            }
        }
        if g > 0 {
            subvec(s, head.len(), open + g - 1)
        } else {
            let r = subvec(s, head.len(), s.len());
            assert(r@ =~= s@.skip(head.len() as int));
            r
        }
    } else {
        let r = subvec(s, 0, s.len());
        assert(r@ =~= s@);
        r
    }
}

/// The event that an object literal writes. A leading `Object(` wrapper is
/// taken off; what is left is split at its first top-level comma into the
/// type tag, which is trimmed, and the property list, whose properties are
/// coerced and filed in order. `None` where there is no top-level comma.
pub open spec fn event_of(s: Seq<char>) -> Option<InputEventView> {
    match split_first_of(literal_body_of(s), ',') {
        Some((tag, props)) => Some(file_all(empty_event(trim_of(tag)), properties_of(props))),
        None => None,
    }
}

/// Filing properties keeps the maps apart.
pub proof fn lemma_file_all_partitioned(ev: InputEventView, props: Seq<(Seq<char>, Seq<char>)>)
    requires
        is_partitioned(ev),
        has_distinct_keys(ev),
    ensures
        is_partitioned(file_all(ev, props)),
        has_distinct_keys(file_all(ev, props)),
    decreases props.len(),
{
    if props.len() > 0 {
        lemma_file_property_partitioned(ev, props[0].0, coerce_of(props[0].1));
        lemma_file_all_partitioned(
            file_property(ev, props[0].0, coerce_of(props[0].1)),
            props.drop_first(),
        );
    }
}

/// In the event that a literal writes, each property name stands in exactly
/// one of the five maps, and once in it.
pub proof fn lemma_event_of_partitioned(s: Seq<char>)
    ensures
        event_of(s) matches Some(ev) ==> is_partitioned(ev) && has_distinct_keys(ev),
{
    match split_first_of(literal_body_of(s), ',') {
        Some((tag, props)) => {
            let start = empty_event(trim_of(tag));
            assert forall|k: Seq<char>| #[trigger] count_of(start, k) <= 1 by {
                assert(!map_of(start.strs).dom().contains(k));
            }
            lemma_file_all_partitioned(start, properties_of(props));
        },
        None => {},
    }
}

/// Parses one object literal into the event that it writes.
pub fn extract_input_event_from_string(event_str: &str) -> (r: Option<InputEvent>)
    ensures
        r is Some == event_of(event_str@) is Some,
        r matches Some(ev) ==> event_of(event_str@) == Some(ev@) && is_partitioned(ev@),
{
    let chars = str_to_chars(event_str);
    let body = literal_body(&chars);
    match split_first(&body, ',') {
        Some((tag, list)) => {
            let tag = trim(&tag);
            let tag_string = chars_to_string(&tag);
            let mut ev = InputEvent::new(tag_string.as_str());
            let props = split_properties(&list);
            let ghost all = pair_views_of(props@);
            let ghost start = ev@;
            let mut i: usize = 0;
            assert(all.skip(0) =~= all);
            while i < props.len()
                invariant
                    i <= props.len(),
                    all == pair_views_of(props@),
                    file_all(start, all) == file_all(ev@, all.skip(i as int)),
                    is_partitioned(ev@),
                decreases props.len() - i,
            {
                let ghost rest = all.skip(i as int);
                assert(rest[0] == (props[i as int].0@, props[i as int].1@));
                assert(rest.drop_first() =~= all.skip(i + 1));
                let name = chars_to_string(&props[i].0);
                let value = coerce(&props[i].1);
                ev.set_property(name.as_str(), value);
                i += 1;
            }
            assert(all.skip(props.len() as int).len() == 0);
            Some(ev)
        },
        None => None,
    }
}

/// The object literals in `s` from `pos` on: each runs from an `Object(` to
/// the closing parenthesis that matches its opening one, and the search goes
/// on behind it. An `Object(` whose parenthesis is never closed begins none.
pub open spec fn event_spans_from(s: Seq<char>, pos: int) -> Seq<Seq<char>>
    decreases s.len() - pos,
{
    let head = "Object("@;
    let p = find_from(s, pos, head);
    if 0 <= pos <= p < s.len() && head.len() > 0 {
        let open = p + head.len() - 1;
        let g = group_len(s.skip(open));
        if g > 0 && open + g <= s.len() {
            seq![s.subrange(p, open + g)] + event_spans_from(s, open + g)
        } else {
            event_spans_from(s, p + 1)
        }
    } else {
        seq![]
    }
}

/// The scan of a text reads only what it has passed: two texts that begin
/// alike are in the same state behind their common beginning.
pub proof fn lemma_scan_state_prefix(s: Seq<char>, t: Seq<char>, n: int)
    requires
        0 <= n <= s.len(),
        n <= t.len(),
        forall|k: int| 0 <= k < n ==> s[k] == t[k],
    ensures
        scan_state(s, n) == scan_state(t, n),
    decreases n,
{
    if n > 0 {
        lemma_scan_state_prefix(s, t, n - 1);
    }
}

/// What `group_len_from` returns, where it finds the group closed: the first
/// place from `n` on at which no parenthesis is open.
pub proof fn lemma_group_closes(s: Seq<char>, n: int)
    requires
        1 <= n,
        group_len_from(s, n) > 0,
    ensures
        n <= group_len_from(s, n) <= s.len(),
        scan_state(s, group_len_from(s, n)).depth == 0,
        forall|k: int| n <= k < group_len_from(s, n) ==> scan_state(s, k).depth != 0,
    decreases s.len() - n,
{
    if n <= s.len() && scan_state(s, n).depth != 0 && n < s.len() {
        lemma_group_closes(s, n + 1);
    }
}

/// A text in which no parenthesis is open at `g`, and one is at every place
/// from `n` up to there, has its group closed at `g`.
pub proof fn lemma_group_len_is(s: Seq<char>, n: int, g: int)
    requires
        1 <= n <= g <= s.len(),
        scan_state(s, g).depth == 0,
        forall|k: int| n <= k < g ==> scan_state(s, k).depth != 0,
    ensures
        group_len_from(s, n) == g,
    decreases g - n,
{
    if n < g {
        lemma_group_len_is(s, n + 1, g);
    }
}

/// A parenthesised group is a group by itself: cut off behind its closing
/// parenthesis, the text is one group from end to end.
pub proof fn lemma_group_stands_alone(s: Seq<char>)
    requires
        group_len(s) > 0,
    ensures
        group_len(s) <= s.len(),
        group_len(s.take(group_len(s))) == group_len(s),
{
    let g = group_len(s);
    lemma_group_closes(s, 1);
    let t = s.take(g);
    assert(t[0] == s[0]);
    assert forall|k: int| 1 <= k < g implies scan_state(t, k).depth != 0 by {
        lemma_scan_state_prefix(s, t, k);
    }
    lemma_scan_state_prefix(s, t, g);
    lemma_group_len_is(t, 1, g);
}

/// Whether `span` is an object literal: `Object` and then one parenthesised
/// group from its opening parenthesis to the closing one that matches it.
pub open spec fn is_object_literal(span: Seq<char>) -> bool {
    let head = "Object("@;
    &&& head.len() > 0
    &&& matches_at(span, 0, head)
    &&& group_len(span.skip(head.len() - 1)) == span.len() - (head.len() - 1)
}

/// Each span that the search yields is an object literal by itself, whatever
/// parentheses stand inside it.
pub proof fn lemma_event_spans_are_literals(s: Seq<char>, pos: int, i: int)
    requires
        0 <= pos,
        0 <= i < event_spans_from(s, pos).len(),
    ensures
        is_object_literal(event_spans_from(s, pos)[i]),
    decreases s.len() - pos,
{
    let head = "Object("@;
    let p = find_from(s, pos, head);
    lemma_find_from(s, pos, head);
    if pos <= p < s.len() && head.len() > 0 {
        let open = p + head.len() - 1;
        let g = group_len(s.skip(open));
        if g > 0 && open + g <= s.len() {
            let span = s.subrange(p, open + g);
            let rest = event_spans_from(s, open + g);
            assert(event_spans_from(s, pos) =~= seq![span] + rest);
            if i == 0 {
                lemma_group_stands_alone(s.skip(open));
                assert(span.subrange(0, head.len() as int) =~= s.subrange(p, p + head.len()));
                assert(span.skip(head.len() - 1) =~= s.skip(open).take(g));
            } else {
                assert(event_spans_from(s, pos)[i] == rest[i - 1]);
                lemma_event_spans_are_literals(s, open + g, i - 1);
            }
        } else {
            lemma_event_spans_are_literals(s, p + 1, i);
        }
    }
}

/// The object literals of an events array, in order.
pub open spec fn event_spans_of(s: Seq<char>) -> Seq<Seq<char>> {
    event_spans_from(s, 0)
}

/// Splits an events array such as `[Object(..), Object(..)]` into its object
/// literals.
pub fn split_events_array(events: &str) -> (r: Vec<String>)
    ensures
        texts_of(r@) == event_spans_of(events@),
{
    let s = str_to_chars(events);
    let head = str_to_chars("Object(");
    let mut out: Vec<String> = Vec::new();
    let mut pos: usize = 0;
    assert(texts_of(out@) + event_spans_from(s@, 0) =~= event_spans_from(s@, 0));
    if head.len() == 0 {
        return out;
    }
    while pos < s.len()
        invariant
            pos <= s.len(),
            head@ == "Object("@,
            head.len() > 0,
            s@ == events@,
            event_spans_of(s@) == texts_of(out@) + event_spans_from(s@, pos as int),
        decreases s.len() - pos,
    {
        let p = find_at(&s, pos, &head);
        proof {
            lemma_find_from(s@, pos as int, head@);
        }
        if p >= s.len() {
            pos = s.len();
        } else {
            let open = p + head.len() - 1;
            let g = measure_group(&s, open);
            if g > 0 {
                let ghost before = texts_of(out@);
                let piece = subvec(&s, p, open + g);
                let text = chars_to_string(&piece);
                out.push(text);
                proof {
                    assert(texts_of(out@) =~= before + seq![piece@]);
                    assert(texts_of(out@) + event_spans_from(s@, open + g) =~= before
                        + event_spans_from(s@, pos as int));
                }
                pos = open + g;
            } else {
                pos = p + 1;
            }
        }
    }
    assert(event_spans_from(s@, pos as int) =~= Seq::<Seq<char>>::empty());
    assert(texts_of(out@) + Seq::<Seq<char>>::empty() =~= texts_of(out@));
    out
}

} // verus!
