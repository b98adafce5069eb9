//! The project descriptor: a document with an optional `config_version`
//! before its first section and the sections `[application]`, `[autoload]`,
//! `[dotnet]`, `[input]`, `[layer_names]` and `[rendering]`.
use crate::event::{
    event_of, event_spans_of, extract_input_event_from_string, split_events_array, InputEvent,
    InputEventView,
};
use crate::scalar::{float_literal, is_float_literal, parse_u32, parse_u32_of};
use crate::sections::{
    check_header, collect_map, has_header, insert_all, is_significant, key_values_of,
    parse_key_values, preamble_of, sections_of, significant_lines, significant_lines_of,
    split_sections, text_of,
};
use crate::splitter::pair_views_of;
use crate::strmap::{with_entry, StrMap};
use crate::text::{
    chars_eq, chars_to_string, find, find_of, lines, lines_of, split, split_of, split_once,
    split_once_of, str_to_chars, strip_end, strip_end_of, strip_prefixes, strip_prefixes_of,
    strip_start, strip_start_of, subvec, texts_of, trim, trim_matches, trim_matches_of, trim_of,
    views_of,
    CharClass,
};
use vstd::prelude::*;

verus! {

/// The `[application]` section.
pub struct ApplicationSection {
    pub name: Option<String>,
    pub main_scene: Option<String>,
    pub features: Option<Vec<String>>,
    pub icon: Option<String>,
}

/// The mathematical model of an [`ApplicationSection`].
pub ghost struct ApplicationView {
    pub name: Option<Seq<char>>,
    pub main_scene: Option<Seq<char>>,
    pub features: Option<Seq<Seq<char>>>,
    pub icon: Option<Seq<char>>,
}

impl View for ApplicationSection {
    type V = ApplicationView;

    open spec fn view(&self) -> ApplicationView {
        ApplicationView {
            name: text_of(self.name),
            main_scene: text_of(self.main_scene),
            features: match self.features {
                Some(v) => Some(texts_of(v@)),
                None => None,
            },
            icon: text_of(self.icon),
        }
    }
}

/// One feature as it stands in the list: trimmed and without double quotes
/// at its ends.
pub open spec fn feature_of(piece: Seq<char>) -> Seq<char> {
    trim_matches_of(trim_of(piece), '"')
}

/// The features that a value such as `PackedStringArray("a", "b")` lists:
/// what stands between the parentheses, split at every comma.
pub open spec fn features_of(value: Seq<char>) -> Seq<Seq<char>> {
    let inner = strip_end_of(strip_prefixes_of(value, "PackedStringArray("@), CharClass::Only(')'));
    let pieces = split_of(inner, ',');
    Seq::new(pieces.len(), |i: int| feature_of(pieces[i]))
}

/// The section after the key `k` has been given the value `v`.
pub open spec fn application_step(
    c: ApplicationView,
    k: Seq<char>,
    v: Seq<char>,
) -> ApplicationView {
    if k == "config/name"@ {
        ApplicationView { name: Some(v), ..c }
    } else if k == "run/main_scene"@ {
        ApplicationView { main_scene: Some(v), ..c }
    } else if k == "config/icon"@ {
        ApplicationView { icon: Some(v), ..c }
    } else if k == "config/features"@ {
        ApplicationView { features: Some(features_of(v)), ..c }
    } else {
        c
    }
}

/// The section after all the pairs, in order.
pub open spec fn application_fold(
    c: ApplicationView,
    pairs: Seq<(Seq<char>, Seq<char>)>,
) -> ApplicationView
    decreases pairs.len(),
{
    if pairs.len() == 0 {
        c
    } else {
        application_fold(application_step(c, pairs[0].0, pairs[0].1), pairs.drop_first())
    }
}

/// An application section in which nothing is set.
pub open spec fn empty_application() -> ApplicationView {
    ApplicationView { name: None, main_scene: None, features: None, icon: None }
}

/// What an `[application]` section holds; `None` where the text is not
/// headed `[application]`.
pub open spec fn application_of(content: Seq<char>) -> Option<ApplicationView> {
    if has_header(content, "[application]"@) {
        Some(application_fold(empty_application(), key_values_of(content, false)))
    } else {
        None
    }
}

/// The features that a value lists.
fn parse_features(value: &Vec<char>) -> (r: Vec<String>)
    ensures
        texts_of(r@) == features_of(value@),
{
    let inner = strip_end(&strip_prefixes(value, "PackedStringArray("), CharClass::Only(')'));
    let pieces = split(&inner, ',');
    let ghost all = views_of(pieces@);
    let mut out: Vec<String> = Vec::new();
    let mut i: usize = 0;
    while i < pieces.len()
        invariant
            i <= pieces.len(),
            all == views_of(pieces@),
            out.len() == i,
            forall|k: int| 0 <= k < i ==> (#[trigger] out[k])@ == feature_of(all[k]),
        decreases pieces.len() - i,
    {
        assert(all[i as int] == pieces[i as int]@);
        let f = trim_matches(&trim(&pieces[i]), '"');
        out.push(chars_to_string(&f));
        i += 1;
    }
    assert(texts_of(out@) =~= features_of(value@));
    out
}

impl ApplicationSection {
    /// Parses an `[application]` section.
    pub fn parse(content: &str) -> (r: Option<ApplicationSection>)
        ensures
            r is Some == application_of(content@) is Some,
            r matches Some(c) ==> application_of(content@) == Some(c@),
    {
        let chars = str_to_chars(content);
        Self::parse_chars(&chars)
    }

    /// Parses the section from its characters.
    pub fn parse_chars(chars: &Vec<char>) -> (r: Option<ApplicationSection>)
        ensures
            r is Some == application_of(chars@) is Some,
            r matches Some(c) ==> application_of(chars@) == Some(c@),
    {
        if !check_header(chars, "[application]") {
            return None;
        }
        let pairs = parse_key_values(chars, false);
        let mut c = ApplicationSection { name: None, main_scene: None, features: None, icon: None };
        let ghost all = pair_views_of(pairs@);
        let mut i: usize = 0;
        assert(all.skip(0) =~= all);
        while i < pairs.len()
            invariant
                i <= pairs.len(),
                all == pair_views_of(pairs@),
                application_fold(empty_application(), all) == application_fold(
                    c@,
                    all.skip(i as int),
                ),
            decreases pairs.len() - i,
        {
            let ghost rest = all.skip(i as int);
            assert(rest[0] == (pairs[i as int].0@, pairs[i as int].1@));
            assert(rest.drop_first() =~= all.skip(i + 1));
            let key = &pairs[i].0;
            let value = &pairs[i].1;
            if chars_eq(key, "config/name") {
                c.name = Some(chars_to_string(value));
            } else if chars_eq(key, "run/main_scene") {
                c.main_scene = Some(chars_to_string(value));
            } else if chars_eq(key, "config/icon") {
                c.icon = Some(chars_to_string(value));
            } else if chars_eq(key, "config/features") {
                c.features = Some(parse_features(value));
            }
            i += 1;
        }
        assert(all.skip(pairs.len() as int).len() == 0);
        Some(c)
    }
}

/// The `[autoload]` section: the path of each autoloaded node by its name.
pub struct AutoloadSection {
    pub autoloads: StrMap<String>,
}

impl View for AutoloadSection {
    type V = Seq<(Seq<char>, Seq<char>)>;

    open spec fn view(&self) -> Seq<(Seq<char>, Seq<char>)> {
        self.autoloads@
    }
}

/// The entries that an `[autoload]` section holds; `None` where the text is
/// not headed `[autoload]`.
pub open spec fn autoload_of(content: Seq<char>) -> Option<Seq<(Seq<char>, Seq<char>)>> {
    if has_header(content, "[autoload]"@) {
        Some(insert_all(seq![], key_values_of(content, true)))
    } else {
        None
    }
}

impl AutoloadSection {
    /// Parses an `[autoload]` section.
    pub fn parse(content: &str) -> (r: Option<AutoloadSection>)
        ensures
            r is Some == autoload_of(content@) is Some,
            r matches Some(c) ==> autoload_of(content@) == Some(c@),
    {
        let chars = str_to_chars(content);
        Self::parse_chars(&chars)
    }

    /// Parses the section from its characters.
    pub fn parse_chars(chars: &Vec<char>) -> (r: Option<AutoloadSection>)
        ensures
            r is Some == autoload_of(chars@) is Some,
            r matches Some(c) ==> autoload_of(chars@) == Some(c@),
    {
        if !check_header(chars, "[autoload]") {
            return None;
        }
        let pairs = parse_key_values(chars, true);
        Some(AutoloadSection { autoloads: collect_map(&pairs) })
    }
}

/// The `[layer_names]` section: the name of each layer by its group and
/// index, such as `2d_physics/layer_1`.
pub struct LayerNamesSection {
    pub layers: StrMap<String>,
}

impl View for LayerNamesSection {
    type V = Seq<(Seq<char>, Seq<char>)>;

    open spec fn view(&self) -> Seq<(Seq<char>, Seq<char>)> {
        self.layers@
    }
}

/// The entries that a `[layer_names]` section holds; `None` where the text
/// is not headed `[layer_names]`.
pub open spec fn layer_names_of(content: Seq<char>) -> Option<Seq<(Seq<char>, Seq<char>)>> {
    if has_header(content, "[layer_names]"@) {
        Some(insert_all(seq![], key_values_of(content, true)))
    } else {
        None
    }
}

impl LayerNamesSection {
    /// Parses a `[layer_names]` section.
    pub fn parse(content: &str) -> (r: Option<LayerNamesSection>)
        ensures
            r is Some == layer_names_of(content@) is Some,
            r matches Some(c) ==> layer_names_of(content@) == Some(c@),
    {
        let chars = str_to_chars(content);
        Self::parse_chars(&chars)
    }

    /// Parses the section from its characters.
    pub fn parse_chars(chars: &Vec<char>) -> (r: Option<LayerNamesSection>)
        ensures
            r is Some == layer_names_of(chars@) is Some,
            r matches Some(c) ==> layer_names_of(chars@) == Some(c@),
    {
        if !check_header(chars, "[layer_names]") {
            return None;
        }
        let pairs = parse_key_values(chars, true);
        Some(LayerNamesSection { layers: collect_map(&pairs) })
    }
}

/// The value that the last pair with the key `key` gives it, if any pair has
/// that key.
pub open spec fn last_value_of(
    acc: Option<Seq<char>>,
    pairs: Seq<(Seq<char>, Seq<char>)>,
    key: Seq<char>,
) -> Option<Seq<char>>
    decreases pairs.len(),
{
    if pairs.len() == 0 {
        acc
    } else {
        last_value_of(
            if pairs[0].0 == key {
                Some(pairs[0].1)
            } else {
                acc
            },
            pairs.drop_first(),
            key,
        )
    }
}

/// The value that the last pair with the key `key` gives it.
fn last_value(pairs: &Vec<(Vec<char>, Vec<char>)>, key: &str) -> (r: Option<String>)
    ensures
        text_of(r) == last_value_of(None, pair_views_of(pairs@), key@),
{
    let ghost all = pair_views_of(pairs@);
    let mut found: Option<String> = None;
    let mut i: usize = 0;
    assert(all.skip(0) =~= all);
    while i < pairs.len()
        invariant
            i <= pairs.len(),
            all == pair_views_of(pairs@),
            last_value_of(None, all, key@) == last_value_of(
                text_of(found),
                all.skip(i as int),
                key@,
            ),
        decreases pairs.len() - i,
    {
        let ghost rest = all.skip(i as int);
        assert(rest[0] == (pairs[i as int].0@, pairs[i as int].1@));
        assert(rest.drop_first() =~= all.skip(i + 1));
        if chars_eq(&pairs[i].0, key) {
            found = Some(chars_to_string(&pairs[i].1));
        }
        i += 1;
    }
    assert(all.skip(pairs.len() as int).len() == 0);
    found
}

/// The `[dotnet]` section.
pub struct DotnetSection {
    pub assembly_name: Option<String>,
}

impl View for DotnetSection {
    type V = Option<Seq<char>>;

    open spec fn view(&self) -> Option<Seq<char>> {
        text_of(self.assembly_name)
    }
}

/// The assembly name that a `[dotnet]` section holds, if it holds one;
/// the outer `None` where the text is not headed `[dotnet]`.
pub open spec fn dotnet_of(content: Seq<char>) -> Option<Option<Seq<char>>> {
    if has_header(content, "[dotnet]"@) {
        Some(last_value_of(None, key_values_of(content, true), "project/assembly_name"@))
    } else {
        None
    }
}

impl DotnetSection {
    /// Parses a `[dotnet]` section.
    pub fn parse(content: &str) -> (r: Option<DotnetSection>)
        ensures
            r is Some == dotnet_of(content@) is Some,
            r matches Some(c) ==> dotnet_of(content@) == Some(c@),
    {
        let chars = str_to_chars(content);
        Self::parse_chars(&chars)
    }

    /// Parses the section from its characters.
    pub fn parse_chars(chars: &Vec<char>) -> (r: Option<DotnetSection>)
        ensures
            r is Some == dotnet_of(chars@) is Some,
            r matches Some(c) ==> dotnet_of(chars@) == Some(c@),
    {
        if !check_header(chars, "[dotnet]") {
            return None;
        }
        let pairs = parse_key_values(chars, true);
        Some(DotnetSection { assembly_name: last_value(&pairs, "project/assembly_name") })
    }
}

/// The `[rendering]` section.
pub struct RenderingSection {
    pub rendering_method: Option<String>,
    pub rendering_method_mobile: Option<String>,
}

/// The mathematical model of a [`RenderingSection`].
pub ghost struct RenderingView {
    pub rendering_method: Option<Seq<char>>,
    pub rendering_method_mobile: Option<Seq<char>>,
}

impl View for RenderingSection {
    type V = RenderingView;

    open spec fn view(&self) -> RenderingView {
        RenderingView {
            rendering_method: text_of(self.rendering_method),
            rendering_method_mobile: text_of(self.rendering_method_mobile),
        }
    }
}

/// What a `[rendering]` section holds; `None` where the text is not headed
/// `[rendering]`.
pub open spec fn rendering_of(content: Seq<char>) -> Option<RenderingView> {
    if has_header(content, "[rendering]"@) {
        Some(
            RenderingView {
                rendering_method: last_value_of(
                    None,
                    key_values_of(content, true),
                    "renderer/rendering_method"@,
                ),
                rendering_method_mobile: last_value_of(
                    None,
                    key_values_of(content, true),
                    "renderer/rendering_method.mobile"@,
                ),
            },
        )
    } else {
        None
    }
}

impl RenderingSection {
    /// Parses a `[rendering]` section.
    pub fn parse(content: &str) -> (r: Option<RenderingSection>)
        ensures
            r is Some == rendering_of(content@) is Some,
            r matches Some(c) ==> rendering_of(content@) == Some(c@),
    {
        let chars = str_to_chars(content);
        Self::parse_chars(&chars)
    }

    /// Parses the section from its characters.
    pub fn parse_chars(chars: &Vec<char>) -> (r: Option<RenderingSection>)
        ensures
            r is Some == rendering_of(chars@) is Some,
            r matches Some(c) ==> rendering_of(chars@) == Some(c@),
    {
        if !check_header(chars, "[rendering]") {
            return None;
        }
        let pairs = parse_key_values(chars, true);
        Some(
            RenderingSection {
                rendering_method: last_value(&pairs, "renderer/rendering_method"),
                rendering_method_mobile: last_value(&pairs, "renderer/rendering_method.mobile"),
            },
        )
    }
}

/// One input action: its name, its dead zone and its events.
pub struct Input {
    pub name: String,
    /// The dead zone, kept as the floating-point literal that writes it.
    pub deadzone: Option<String>,
    pub events: Vec<InputEvent>,
}

/// The mathematical model of an [`Input`].
pub ghost struct InputView {
    pub name: Seq<char>,
    pub deadzone: Option<Seq<char>>,
    pub events: Seq<InputEventView>,
}

/// The views of a sequence of events.
pub open spec fn event_views_of(v: Seq<InputEvent>) -> Seq<InputEventView> {
    Seq::new(v.len(), |i: int| v[i]@)
}

impl View for Input {
    type V = InputView;

    open spec fn view(&self) -> InputView {
        InputView {
            name: self.name@,
            deadzone: text_of(self.deadzone),
            events: event_views_of(self.events@),
        }
    }
}

/// The events that the object literals write, in order; a literal that
/// writes none is left out.
pub open spec fn events_in(spans: Seq<Seq<char>>) -> Seq<InputEventView>
    decreases spans.len(),
{
    if spans.len() == 0 {
        seq![]
    } else {
        let rest = events_in(spans.drop_first());
        match event_of(spans[0]) {
            Some(ev) => seq![ev] + rest,
            None => rest,
        }
    }
}

/// The events of the value of an `events` member: the value loses the
/// brackets at its ends and is trimmed, and its object literals are parsed.
pub open spec fn events_of(value: Seq<char>) -> Seq<InputEventView> {
    events_in(
        event_spans_of(
            trim_of(
                strip_end_of(strip_start_of(value, CharClass::Only('[')), CharClass::Only(']')),
            ),
        ),
    )
}

/// Where the parser of an input block stands between two lines.
pub ghost struct BlockState {
    pub input: InputView,
    /// Whether the closing `}` has been met.
    pub done: bool,
}

/// The state after one line of a block. The line is trimmed; an empty line
/// and a comment change nothing. A line with `={` names the action; a line
/// `}` ends the block; a line with `: ` is a member, of which `deadzone`
/// and `events` count.
pub open spec fn block_step(st: BlockState, raw: Seq<char>) -> BlockState {
    let line = trim_of(raw);
    if st.done || !is_significant(line) {
        st
    } else if find_of(line, "={"@) < line.len() {
        BlockState {
            input: InputView { name: trim_of(line.take(find_of(line, "={"@))), ..st.input },
            done: false,
        }
    } else if line == "}"@ {
        BlockState { done: true, ..st }
    } else if find_of(line, ": "@) < line.len() {
        match split_once_of(line, ':') {
            Some((k, v)) => {
                let key = trim_matches_of(trim_of(k), '"');
                let value = trim_matches_of(trim_of(v), ',');
                if key == "deadzone"@ {
                    BlockState {
                        input: InputView {
                            deadzone: if is_float_literal(value) {
                                Some(value)
                            } else {
                                None
                            },
                            ..st.input
                        },
                        done: false,
                    }
                } else if key == "events"@ {
                    BlockState {
                        input: InputView {
                            events: st.input.events + events_of(value),
                            ..st.input
                        },
                        done: false,
                    }
                } else {
                    st
                }
            },
            None => st,
        }
    } else {
        st
    }
}

/// The state after all the lines, in order.
pub open spec fn block_fold(st: BlockState, ls: Seq<Seq<char>>) -> BlockState
    decreases ls.len(),
{
    if ls.len() == 0 {
        st
    } else {
        block_fold(block_step(st, ls[0]), ls.drop_first())
    }
}

/// The state in which the parsing of a block begins.
pub open spec fn block_start() -> BlockState {
    BlockState {
        input: InputView { name: Seq::<char>::empty(), deadzone: None, events: seq![] },
        done: false,
    }
}

/// The action that the lines of a block write; `None` where they give it no
/// name.
pub open spec fn input_of_block(ls: Seq<Seq<char>>) -> Option<InputView> {
    let st = block_fold(block_start(), ls);
    if st.input.name.len() == 0 {
        None
    } else {
        Some(st.input)
    }
}

/// Parses the events of the value of an `events` member and puts them behind
/// `events`.
fn parse_events(value: &Vec<char>, events: &mut Vec<InputEvent>)
    ensures
        event_views_of(final(events)@) == event_views_of(old(events)@) + events_of(value@),
{
    let inner = trim(&strip_end(&strip_start(value, CharClass::Only('[')), CharClass::Only(']')));
    let text = chars_to_string(&inner);
    let spans = split_events_array(text.as_str());
    let ghost all = texts_of(spans@);
    let ghost start = event_views_of(events@);
    let mut i: usize = 0;
    assert(all.skip(0) =~= all);
    while i < spans.len()
        invariant
            i <= spans.len(),
            all == texts_of(spans@),
            start + events_in(all) == event_views_of(events@) + events_in(all.skip(i as int)),
        decreases spans.len() - i,
    {
        let ghost rest = all.skip(i as int);
        let ghost before = event_views_of(events@);
        assert(rest[0] == spans[i as int]@);
        assert(rest.drop_first() =~= all.skip(i + 1));
        match extract_input_event_from_string(spans[i].as_str()) {
            Some(ev) => {
                let ghost evv = ev@;
                events.push(ev);
                assert(event_views_of(events@) =~= before + seq![evv]);
                assert(event_views_of(events@) + events_in(all.skip(i + 1)) =~= before
                    + events_in(rest));
            },
            None => {},
        }
        i += 1;
    }
    assert(all.skip(spans.len() as int).len() == 0);
    assert(event_views_of(events@) + Seq::<InputEventView>::empty() =~= event_views_of(events@));
}

/// Parses the lines of one input block, from the line that names the action
/// to the closing `}`.
pub fn parse_input_from_input_block(block_lines: Vec<String>) -> (r: Option<Input>)
    ensures
        r is Some == input_of_block(texts_of(block_lines@)) is Some,
        r matches Some(input) ==> input_of_block(texts_of(block_lines@)) == Some(input@),
{
    let ghost all = texts_of(block_lines@);
    let mut name = String::new();
    let mut deadzone: Option<String> = None;
    let mut events: Vec<InputEvent> = Vec::new();
    let mut done = false;
    let mut i: usize = 0;
    assert(all.skip(0) =~= all);
    assert(event_views_of(events@) =~= Seq::<InputEventView>::empty());
    while i < block_lines.len()
        invariant
            i <= block_lines.len(),
            all == texts_of(block_lines@),
            block_fold(block_start(), all) == block_fold(
                BlockState {
                    input: InputView {
                        name: name@,
                        deadzone: text_of(deadzone),
                        events: event_views_of(events@),
                    },
                    done,
                },
                all.skip(i as int),
            ),
        decreases block_lines.len() - i,
    {
        let ghost rest = all.skip(i as int);
        let ghost st = BlockState {
            input: InputView {
                name: name@,
                deadzone: text_of(deadzone),
                events: event_views_of(events@),
            },
            done,
        };
        assert(rest[0] == block_lines[i as int]@);
        assert(rest.drop_first() =~= all.skip(i + 1));
        let raw = str_to_chars(block_lines[i].as_str());
        let line = trim(&raw);
        if done || line.len() == 0 || line[0] == '#' {
        } else {
            let at = find(&line, "={");
            if at < line.len() {
                name = chars_to_string(&trim(&subvec(&line, 0, at)));
            } else if chars_eq(&line, "}") {
                done = true;
            } else if find(&line, ": ") < line.len() {
                match split_once(&line, ':') {
                    Some((k, v)) => {
                        let key = trim_matches(&trim(&k), '"');
                        let value = trim_matches(&trim(&v), ',');
                        if chars_eq(&key, "deadzone") {
                            deadzone = if float_literal(&value) {
                                Some(chars_to_string(&value))
                            } else {
                                None
                            };
                        } else if chars_eq(&key, "events") {
                            parse_events(&value, &mut events);
                        }
                    },
                    None => {},
                }
            }
        }
        assert(BlockState {
            input: InputView {
                name: name@,
                deadzone: text_of(deadzone),
                events: event_views_of(events@),
            },
            done,
        } == block_step(st, block_lines[i as int]@));
        i += 1;
    }
    assert(all.skip(block_lines.len() as int).len() == 0);
    if name.as_str().is_empty() {
        return None;
    }
    Some(Input { name, deadzone, events })
}

/// The `[input]` section: the actions by their names.
pub struct InputSection {
    pub inputs: StrMap<Input>,
}

/// The mathematical model of the actions: each under its name, in the order
/// of their first coming.
pub type InputsView = Seq<(Seq<char>, InputView)>;

impl View for InputSection {
    type V = InputsView;

    open spec fn view(&self) -> InputsView {
        self.inputs@
    }
}

/// Where the parser of the input section stands between two lines.
pub ghost struct InputsState {
    pub inputs: InputsView,
    /// The lines of the open block so far, if a block is open.
    pub block: Option<Seq<Seq<char>>>,
}

/// The state after one line that counts. A line that begins with `[` is
/// passed over. A line with `={` opens a block; the lines behind it are
/// gathered up to a line `}`, with which the block is parsed and its action
/// takes the place of an earlier one of that name.
pub open spec fn inputs_step(st: InputsState, line: Seq<char>) -> InputsState {
    if line.len() > 0 && line[0] == '[' {
        st
    } else if find_of(line, "={"@) < line.len() {
        InputsState { block: Some(seq![line]), ..st }
    } else if st.block is Some {
        let gathered = st.block->0.push(line);
        if line == "}"@ {
            InputsState {
                inputs: match input_of_block(gathered) {
                    Some(input) => with_entry(st.inputs, input.name, input),
                    None => st.inputs,
                },
                block: None,
            }
        } else {
            InputsState { block: Some(gathered), ..st }
        }
    } else {
        st
    }
}

/// The state after all the lines, in order.
pub open spec fn inputs_fold(st: InputsState, ls: Seq<Seq<char>>) -> InputsState
    decreases ls.len(),
{
    if ls.len() == 0 {
        st
    } else {
        inputs_fold(inputs_step(st, ls[0]), ls.drop_first())
    }
}

/// The actions that an `[input]` section holds; `None` where the text is
/// not headed `[input]`.
pub open spec fn inputs_of(content: Seq<char>) -> Option<InputsView> {
    if has_header(content, "[input]"@) {
        Some(
            inputs_fold(
                InputsState { inputs: seq![], block: None },
                significant_lines_of(content),
            ).inputs,
        )
    } else {
        None
    }
}

impl InputSection {
    /// Parses an `[input]` section.
    pub fn parse(content: &str) -> (r: Option<InputSection>)
        ensures
            r is Some == inputs_of(content@) is Some,
            r matches Some(c) ==> inputs_of(content@) == Some(c@),
    {
        let chars = str_to_chars(content);
        Self::parse_chars(&chars)
    }

    /// Parses the section from its characters.
    pub fn parse_chars(chars: &Vec<char>) -> (r: Option<InputSection>)
        ensures
            r is Some == inputs_of(chars@) is Some,
            r matches Some(c) ==> inputs_of(chars@) == Some(c@),
    {
        if !check_header(chars, "[input]") {
            return None;
        }
        let ls = significant_lines(chars);
        let ghost all = views_of(ls@);
        let ghost start = InputsState { inputs: seq![], block: None };
        let mut inputs: StrMap<Input> = StrMap::new();
        let mut in_block = false;
        let mut block_lines: Vec<String> = Vec::new();
        let mut i: usize = 0;
        assert(all.skip(0) =~= all);
        while i < ls.len()
            invariant
                i <= ls.len(),
                all == views_of(ls@),
                forall|k: int| 0 <= k < ls.len() ==> is_significant(#[trigger] ls[k]@),
                inputs_fold(start, all) == inputs_fold(
                    InputsState {
                        inputs: inputs@,
                        block: if in_block {
                            Some(texts_of(block_lines@))
                        } else {
                            None
                        },
                    },
                    all.skip(i as int),
                ),
            decreases ls.len() - i,
        {
            let ghost rest = all.skip(i as int);
            let ghost st = InputsState {
                inputs: inputs@,
                block: if in_block {
                    Some(texts_of(block_lines@))
                } else {
                    None
                },
            };
            assert(rest[0] == ls[i as int]@);
            assert(rest.drop_first() =~= all.skip(i + 1));
            let line = &ls[i];
            assert(is_significant(line@));
            if line[0] == '[' {
            } else if find(line, "={") < line.len() {
                in_block = true;
                block_lines = Vec::new();
                block_lines.push(chars_to_string(line));
                assert(texts_of(block_lines@) =~= seq![line@]);
            } else if in_block {
                let ghost before = texts_of(block_lines@);
                block_lines.push(chars_to_string(line));
                assert(texts_of(block_lines@) =~= before.push(line@));
                if chars_eq(line, "}") {
                    in_block = false;
                    let mut gathered: Vec<String> = Vec::new();
                    core::mem::swap(&mut gathered, &mut block_lines);
                    match parse_input_from_input_block(gathered) {
                        Some(input) => {
                            let name = input.name.clone();
                            inputs.insert(name.as_str(), input);
                        },
                        None => {},
                    }
                }
            }
            assert(InputsState {
                inputs: inputs@,
                block: if in_block {
                    Some(texts_of(block_lines@))
                } else {
                    None
                },
            } == inputs_step(st, ls[i as int]@));
            i += 1;
        }
        assert(all.skip(ls.len() as int).len() == 0);
        Some(InputSection { inputs })
    }
}

/// A project descriptor: the configuration version and each of the sections,
/// where the document has them.
pub struct ProjectGodot {
    pub config_version: Option<u32>,
    pub application: Option<ApplicationSection>,
    pub autoload: Option<AutoloadSection>,
    pub dotnet: Option<DotnetSection>,
    pub input: Option<InputSection>,
    pub layer_names: Option<LayerNamesSection>,
    pub rendering: Option<RenderingSection>,
}

/// The mathematical model of a [`ProjectGodot`].
pub ghost struct ProjectGodotView {
    pub config_version: Option<u32>,
    pub application: Option<ApplicationView>,
    pub autoload: Option<Seq<(Seq<char>, Seq<char>)>>,
    pub dotnet: Option<Option<Seq<char>>>,
    pub input: Option<InputsView>,
    pub layer_names: Option<Seq<(Seq<char>, Seq<char>)>>,
    pub rendering: Option<RenderingView>,
}

impl View for ProjectGodot {
    type V = ProjectGodotView;

    open spec fn view(&self) -> ProjectGodotView {
        ProjectGodotView {
            config_version: self.config_version,
            application: match self.application {
                Some(c) => Some(c@),
                None => None,
            },
            autoload: match self.autoload {
                Some(c) => Some(c@),
                None => None,
            },
            dotnet: match self.dotnet {
                Some(c) => Some(c@),
                None => None,
            },
            input: match self.input {
                Some(c) => Some(c@),
                None => None,
            },
            layer_names: match self.layer_names {
                Some(c) => Some(c@),
                None => None,
            },
            rendering: match self.rendering {
                Some(c) => Some(c@),
                None => None,
            },
        }
    }
}

/// The configuration version after one line of the preamble: a line whose
/// key is `config_version` sets it to the number that its value writes, or
/// to nothing where the value writes none.
pub open spec fn version_step(acc: Option<u32>, line: Seq<char>) -> Option<u32> {
    match split_once_of(line, '=') {
        Some((k, v)) => if trim_of(k) == "config_version"@ {
            match parse_u32_of(trim_of(v)) {
                Some(n) => Some(n as u32),
                None => None,
            }
        } else {
            acc
        },
        None => acc,
    }
}

/// The configuration version after all the lines, in order.
pub open spec fn version_fold(acc: Option<u32>, ls: Seq<Seq<char>>) -> Option<u32>
    decreases ls.len(),
{
    if ls.len() == 0 {
        acc
    } else {
        version_fold(version_step(acc, ls[0]), ls.drop_first())
    }
}

/// A descriptor without a version and without sections.
pub open spec fn empty_project() -> ProjectGodotView {
    ProjectGodotView {
        config_version: None,
        application: None,
        autoload: None,
        dotnet: None,
        input: None,
        layer_names: None,
        rendering: None,
    }
}

/// The descriptor after one section: the kind whose header the section has
/// takes it, and replaces an earlier section of that kind; a section of no
/// known kind is dropped.
pub open spec fn project_step(doc: ProjectGodotView, section: Seq<char>) -> ProjectGodotView {
    if application_of(section) is Some {
        ProjectGodotView { application: application_of(section), ..doc }
    } else if autoload_of(section) is Some {
        ProjectGodotView { autoload: autoload_of(section), ..doc }
    } else if dotnet_of(section) is Some {
        ProjectGodotView { dotnet: dotnet_of(section), ..doc }
    } else if inputs_of(section) is Some {
        ProjectGodotView { input: inputs_of(section), ..doc }
    } else if layer_names_of(section) is Some {
        ProjectGodotView { layer_names: layer_names_of(section), ..doc }
    } else if rendering_of(section) is Some {
        ProjectGodotView { rendering: rendering_of(section), ..doc }
    } else {
        doc
    }
}

/// The descriptor after all the sections, in order.
pub open spec fn project_fold(doc: ProjectGodotView, sections: Seq<Seq<char>>) -> ProjectGodotView
    decreases sections.len(),
{
    if sections.len() == 0 {
        doc
    } else {
        project_fold(project_step(doc, sections[0]), sections.drop_first())
    }
}

/// The descriptor that a document holds: the version from what stands
/// before the first section header, and the sections.
pub open spec fn project_of(content: Seq<char>) -> ProjectGodotView {
    project_fold(
        ProjectGodotView {
            config_version: version_fold(None, lines_of(preamble_of(content))),
            ..empty_project()
        },
        sections_of(content),
    )
}

/// The configuration version that the lines before the first section give.
fn parse_version(preamble: &Vec<char>) -> (r: Option<u32>)
    ensures
        r == version_fold(None, lines_of(preamble@)),
{
    let ls = lines(preamble);
    let ghost all = views_of(ls@);
    let mut version: Option<u32> = None;
    let mut i: usize = 0;
    assert(all.skip(0) =~= all);
    while i < ls.len()
        invariant
            i <= ls.len(),
            all == views_of(ls@),
            version_fold(None, all) == version_fold(version, all.skip(i as int)),
        decreases ls.len() - i,
    {
        let ghost rest = all.skip(i as int);
        assert(rest[0] == ls[i as int]@);
        assert(rest.drop_first() =~= all.skip(i + 1));
        match split_once(&ls[i], '=') {
            Some((k, v)) => {
                if chars_eq(&trim(&k), "config_version") {
                    version = parse_u32(&trim(&v));
                }
            },
            None => {},
        }
        i += 1;
    }
    assert(all.skip(ls.len() as int).len() == 0);
    version
}

impl ProjectGodot {
    /// A descriptor without a version and without sections.
    pub fn new() -> (r: Self)
        ensures
            r@ == empty_project(),
    {
        ProjectGodot {
            config_version: None,
            application: None,
            autoload: None,
            dotnet: None,
            input: None,
            layer_names: None,
            rendering: None,
        }
    }

    /// Parses a project descriptor. The document is cut at its section
    /// headers; what stands before the first gives the configuration
    /// version, and each section goes to the parser of its kind.
    pub fn parse_from_str(content: &str) -> (r: ProjectGodot)
        ensures
            r@ == project_of(content@),
    {
        let chars = str_to_chars(content);
        let split = split_sections(&chars);
        let sections = split.sections;
        let ghost all = views_of(sections@);
        let mut doc = ProjectGodot::new();
        doc.config_version = parse_version(&split.preamble);
        let ghost start = doc@;
        let mut i: usize = 0;
        assert(all.skip(0) =~= all);
        while i < sections.len()
            invariant
                i <= sections.len(),
                all == views_of(sections@),
                project_fold(start, all) == project_fold(doc@, all.skip(i as int)),
            decreases sections.len() - i,
        {
            let ghost rest = all.skip(i as int);
            assert(rest[0] == sections[i as int]@);
            assert(rest.drop_first() =~= all.skip(i + 1));
            let section = &sections[i];
            if let Some(c) = ApplicationSection::parse_chars(section) {
                doc.application = Some(c);
            } else if let Some(c) = AutoloadSection::parse_chars(section) {
                doc.autoload = Some(c);
            } else if let Some(c) = DotnetSection::parse_chars(section) {
                doc.dotnet = Some(c);
            } else if let Some(c) = InputSection::parse_chars(section) {
                doc.input = Some(c);
            } else if let Some(c) = LayerNamesSection::parse_chars(section) {
                doc.layer_names = Some(c);
            } else if let Some(c) = RenderingSection::parse_chars(section) {
                doc.rendering = Some(c);
            }
            i += 1;
        }
        assert(all.skip(sections.len() as int).len() == 0);
        doc
    }
}

} // verus!
