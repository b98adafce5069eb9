//! The source text of the generated modules for input actions: a constant
//! function for each action, and a trait that asks the engine whether an
//! action is pressed.
use crate::event::{InputEvent, InputEventView};
use crate::keys::key_string_of;
use crate::projectgodot::{event_views_of, InputSection, InputsView};
use crate::sorting::{lemma_sort_of_map, sort_by, sort_of};
use crate::text::{
    ascii_uppercase_of, compare_texts, find, find_of, join, join_of, lex_sign, str_to_chars,
    texts_of, to_ascii_uppercase,
};
use crate::utils::{pascal_to_snake_case, snake_case_of};
use vstd::prelude::*;

verus! {

/// The name of the module of constants.
pub const MOD_CONSTS: &'static str = "consts";

/// The name of the module of invocations.
pub const MOD_INVOCATIONS: &'static str = "invocations";

/// The name of the generated module of the kind `t`.
pub fn mod_name(t: &str) -> (r: String)
    ensures
        r@ == "actions_"@ + t@,
{
    let mut s = "actions_".to_owned();
    s.append(t);
    s
}

/// The keystrokes with `` ` or ` `` between each two.
pub open spec fn joined_keystrokes_of(keystrokes: Seq<Seq<char>>) -> Seq<char> {
    join_of(keystrokes, "` or `"@)
}

/// Joins the keystrokes of an action for a documentation comment.
pub fn join_keystrokes(keystrokes: &Vec<String>) -> (r: String)
    ensures
        r@ == joined_keystrokes_of(texts_of(keystrokes@)),
{
    join(keystrokes, "` or `")
}

/// The documentation comment that names the keystrokes of an action.
pub fn get_action_keystroke_doc_comment(keystrokes: &Vec<String>) -> (r: String)
    ensures
        r@ == "/// Maps to: `"@ + joined_keystrokes_of(texts_of(keystrokes@)) + "`"@,
{
    let mut s = "/// Maps to: `".to_owned();
    let joined = join_keystrokes(keystrokes);
    s.append(joined.as_str());
    s.append("`");
    s
}

/// `Path::join` of the standard library, and the result as text: the path
/// of `file` inside the directory `dir`. How a path is written depends on
/// the platform, so nothing is promised of the result.
#[verifier::external_body]
fn join_path(dir: &str, file: &str) -> (r: String) {
    std::path::Path::new(dir).join(file).to_string_lossy().into_owned()
}

/// `path` with a backslash in place of each slash.
pub open spec fn with_backslashes_of(path: Seq<char>) -> Seq<char> {
    Seq::new(
        path.len(),
        |i: int|
            if path[i] == '/' {
                '\\'
            } else {
                path[i]
            },
    )
}

/// Writes a path with backslashes in place of slashes.
pub fn with_backslashes(path: &str) -> (r: String)
    ensures
        r@ == with_backslashes_of(path@),
{
    let chars = str_to_chars(path);
    let mut out = String::new();
    let mut i: usize = 0;
    while i < chars.len()
        invariant
            i <= chars.len(),
            chars@ == path@,
            out@ == with_backslashes_of(path@).take(i as int),
        decreases chars.len() - i,
    {
        if chars[i] == '/' {
            out.push('\\');
        } else {
            out.push(chars[i]);
        }
        assert(out@ =~= with_backslashes_of(path@).take(i + 1));
        i += 1;
    }
    assert(with_backslashes_of(path@).take(chars.len() as int) =~= with_backslashes_of(path@));
    out
}

/// The path of the generated file of the kind `name` inside `output_dir`,
/// written with backslashes. The platform joins the directory and the
/// file's name; whatever it returns, no slash is left in the result.
pub fn get_action_mod_file(output_dir: &str, name: &str) -> (r: String)
    ensures
        forall|i: int| 0 <= i < r@.len() ==> r@[i] != '/',
{
    let mut file = mod_name(name);
    file.append(".rs");
    let joined = join_path(output_dir, file.as_str());
    with_backslashes(joined.as_str())
}

/// The text of the module of constants: its head and then the constants.
pub fn get_consts_file_content(consts: &str) -> (r: String)
    ensures
        r@ == "#![allow(dead_code)]\n#![allow(non_snake_case)]\nuse godot::builtin::StringName;\n\n"@
            + consts@,
{
    let mut s =
        "#![allow(dead_code)]\n#![allow(non_snake_case)]\nuse godot::builtin::StringName;\n\n".to_owned();
    s.append(consts);
    s
}

/// The name of the constant function of an action: its snake-case form in
/// ASCII capitals.
pub open spec fn const_name_of(action: Seq<char>) -> Seq<char> {
    ascii_uppercase_of(snake_case_of(action))
}

/// The constant function of an action, under its documentation comment.
pub fn format_action_to_const(action: &str, doc_comment: &str) -> (r: String)
    ensures
        r@ == doc_comment@ + "\npub fn "@ + const_name_of(action@)
            + "() -> StringName { StringName::from(\""@ + action@ + "\") }"@,
{
    let mut s = doc_comment.to_owned();
    s.append("\npub fn ");
    let snake = pascal_to_snake_case(action);
    let upper = to_ascii_uppercase(snake.as_str());
    s.append(upper.as_str());
    s.append("() -> StringName { StringName::from(\"");
    s.append(action);
    s.append("\") }");
    s
}

/// The text of the module of invocations: the trait with its declarations
/// and its implementation for the engine's input singleton.
pub fn get_invocations_file_content(trait_defs: &str, impl_defs: &str) -> (r: String)
    ensures
        r@ == "#![allow(dead_code)]\nuse godot::classes::Input;\n\npub trait InputActionInvocations {\n"@
            + trait_defs@ + "\n}\n\nimpl InputActionInvocations for Input {\n"@ + impl_defs@
            + "\n}"@,
{
    let mut s =
        "#![allow(dead_code)]\nuse godot::classes::Input;\n\npub trait InputActionInvocations {\n".to_owned();
    s.append(trait_defs);
    s.append("\n}\n\nimpl InputActionInvocations for Input {\n");
    s.append(impl_defs);
    s.append("\n}");
    s
}

/// The verb of the documentation comments: `are` where the first keystroke
/// is a combination, `is` otherwise.
pub open spec fn conjunction_of(first: Seq<char>) -> Seq<char> {
    if find_of(first, "+"@) < first.len() {
        "are"@
    } else {
        "is"@
    }
}

/// The three declarations of an action in the trait, each under its
/// documentation comment.
pub open spec fn invocation_trait_of(action: Seq<char>, keystrokes: Seq<Seq<char>>) -> Seq<char> {
    let sc = snake_case_of(action);
    let joined = joined_keystrokes_of(keystrokes);
    let verb = conjunction_of(keystrokes[0]);
    "    /// Returns true while `"@ + joined + "` "@ + verb + " pressed"@ + "\n    "@ + "fn is_"@
        + sc + "_pressed(&self) -> bool;"@ + "\n    "@ + "/// Returns true when `"@ + joined
        + "` "@ + verb + " just pressed"@ + "\n    "@ + "fn is_"@ + sc
        + "_just_pressed(&self) -> bool;"@ + "\n    "@ + "/// Returns true when `"@ + joined
        + "` "@ + verb + " just released"@ + "\n    "@ + "fn is_"@ + sc
        + "_just_released(&self) -> bool;"@
}

/// The three declarations of an action in the trait. The action has at
/// least one keystroke.
pub fn format_action_to_invocation_trait(action: &str, keystrokes: &Vec<String>) -> (r: String)
    requires
        keystrokes.len() > 0,
    ensures
        r@ == invocation_trait_of(action@, texts_of(keystrokes@)),
{
    let sc = pascal_to_snake_case(action);
    let joined = join_keystrokes(keystrokes);
    let first = str_to_chars(keystrokes[0].as_str());
    let verb = if find(&first, "+") < first.len() {
        "are"
    } else {
        "is"
    };
    assert(texts_of(keystrokes@)[0] == keystrokes[0]@);
    let mut s = "    /// Returns true while `".to_owned();
    s.append(joined.as_str());
    s.append("` ");
    s.append(verb);
    s.append(" pressed");
    s.append("\n    ");
    s.append("fn is_");
    s.append(sc.as_str());
    s.append("_pressed(&self) -> bool;");
    s.append("\n    ");
    s.append("/// Returns true when `");
    s.append(joined.as_str());
    s.append("` ");
    s.append(verb);
    s.append(" just pressed");
    s.append("\n    ");
    s.append("fn is_");
    s.append(sc.as_str());
    s.append("_just_pressed(&self) -> bool;");
    s.append("\n    ");
    s.append("/// Returns true when `");
    s.append(joined.as_str());
    s.append("` ");
    s.append(verb);
    s.append(" just released");
    s.append("\n    ");
    s.append("fn is_");
    s.append(sc.as_str());
    s.append("_just_released(&self) -> bool;");
    s
}

/// The three functions of an action in the implementation of the trait.
pub open spec fn invocation_impl_of(action: Seq<char>) -> Seq<char> {
    let sc = snake_case_of(action);
    "    fn is_"@ + sc + "_pressed(&self) -> bool { self.is_action_pressed(\""@ + action
        + "\") }"@ + "\n    "@ + "fn is_"@ + sc
        + "_just_pressed(&self) -> bool { self.is_action_just_pressed(\""@ + action + "\") }"@
        + "\n    "@ + "fn is_"@ + sc
        + "_just_released(&self) -> bool { self.is_action_just_released(\""@ + action + "\") }"@
}

/// The three functions of an action in the implementation of the trait.
pub fn format_action_to_invocation_impl(action: &str) -> (r: String)
    ensures
        r@ == invocation_impl_of(action@),
{
    let sc = pascal_to_snake_case(action);
    let mut s = "    fn is_".to_owned();
    s.append(sc.as_str());
    s.append("_pressed(&self) -> bool { self.is_action_pressed(\"");
    s.append(action);
    s.append("\") }");
    s.append("\n    ");
    s.append("fn is_");
    s.append(sc.as_str());
    s.append("_just_pressed(&self) -> bool { self.is_action_just_pressed(\"");
    s.append(action);
    s.append("\") }");
    s.append("\n    ");
    s.append("fn is_");
    s.append(sc.as_str());
    s.append("_just_released(&self) -> bool { self.is_action_just_released(\"");
    s.append(action);
    s.append("\") }");
    s
}

/// The actions of a project: each action's name with its keystrokes.
pub type ActionsView = Seq<(Seq<char>, Seq<Seq<char>>)>;

/// The views of a sequence of actions.
pub open spec fn action_views_of(v: Seq<(String, Vec<String>)>) -> ActionsView {
    Seq::new(v.len(), |i: int| (v[i].0@, texts_of(v[i].1@)))
}

/// The trigger strings of the events, one for each.
pub open spec fn key_strings_of(events: Seq<InputEventView>) -> Seq<Seq<char>> {
    Seq::new(events.len(), |i: int| key_string_of(events[i]))
}

/// The actions as the input section holds them: each name with the trigger
/// strings of its events.
pub open spec fn unsorted_actions_of(inputs: InputsView) -> ActionsView {
    Seq::new(inputs.len(), |i: int| (inputs[i].0, key_strings_of(inputs[i].1.events)))
}

/// The actions of an input section in the order of their names.
pub open spec fn actions_of(inputs: InputsView) -> ActionsView {
    sort_of(
        unsorted_actions_of(inputs),
        |a: (Seq<char>, Seq<Seq<char>>), b: (Seq<char>, Seq<Seq<char>>)| lex_sign(a.0, b.0) <= 0,
    )
}

/// The trigger strings of the events, one for each.
fn key_strings(events: &Vec<InputEvent>) -> (r: Vec<String>)
    ensures
        texts_of(r@) == key_strings_of(event_views_of(events@)),
{
    let mut out: Vec<String> = Vec::new();
    let mut i: usize = 0;
    while i < events.len()
        invariant
            i <= events.len(),
            out.len() == i,
            forall|k: int| 0 <= k < i ==> (#[trigger] out[k])@ == key_string_of(events[k]@),
        decreases events.len() - i,
    {
        let key = events[i].get_key_string();
        out.push(key.unwrap());
        i += 1;
    }
    assert(texts_of(out@) =~= key_strings_of(event_views_of(events@)));
    out
}

/// The actions of an input section, each with the trigger strings of its
/// events, in the order of their names.
pub fn collect_actions(inputs: &InputSection) -> (r: Vec<(String, Vec<String>)>)
    ensures
        action_views_of(r@) == actions_of(inputs@),
{
    let mut list: Vec<(String, Vec<String>)> = Vec::new();
    let n = inputs.inputs.len();
    let mut i: usize = 0;
    while i < n
        invariant
            i <= n,
            n == inputs@.len(),
            list.len() == i,
            forall|k: int|
                0 <= k < i ==> ((#[trigger] list[k]).0@, texts_of(list[k].1@))
                    == unsorted_actions_of(inputs@)[k],
        decreases n - i,
    {
        let e = inputs.inputs.entry(i);
        list.push((e.0.clone(), key_strings(&e.1.events)));
        i += 1;
    }
    assert(action_views_of(list@) =~= unsorted_actions_of(inputs@));
    let le = |a: &(String, Vec<String>), b: &(String, Vec<String>)| -> (o: bool)
        ensures
            o == (lex_sign(a.0@, b.0@) <= 0),
        {
            let x = str_to_chars(a.0.as_str());
            let y = str_to_chars(b.0.as_str());
            compare_texts(&x, &y) <= 0
        };
    let ghost rel_t = |a: (String, Vec<String>), b: (String, Vec<String>)|
        lex_sign(a.0@, b.0@) <= 0;
    let ghost rel_u = |a: (Seq<char>, Seq<Seq<char>>), b: (Seq<char>, Seq<Seq<char>>)|
        lex_sign(a.0, b.0) <= 0;
    let ghost f = |e: (String, Vec<String>)| (e.0@, texts_of(e.1@));
    let ghost before = list@;
    let sorted = sort_by(list, le, Ghost(rel_t));
    proof {
        lemma_sort_of_map(before, f, rel_t, rel_u);
        assert(action_views_of(before) =~= before.map_values(f));
        assert(action_views_of(sorted@) =~= sorted@.map_values(f));
    }
    sorted
}

/// The constant function of an action under the comment that names its
/// keystrokes.
pub open spec fn action_const_of(action: Seq<char>, keystrokes: Seq<Seq<char>>) -> Seq<char> {
    "/// Maps to: `"@ + joined_keystrokes_of(keystrokes) + "`"@ + "\npub fn "@ + const_name_of(
        action,
    ) + "() -> StringName { StringName::from(\""@ + action + "\") }"@
}

/// The constant functions of the actions, one for each.
pub open spec fn action_consts_of(actions: ActionsView) -> Seq<Seq<char>> {
    Seq::new(actions.len(), |i: int| action_const_of(actions[i].0, actions[i].1))
}

/// The text of the module of constants for the actions: its head and the
/// constant functions, one after the other.
pub fn consts_file_content(actions: &Vec<(String, Vec<String>)>) -> (r: String)
    ensures
        r@ == "#![allow(dead_code)]\n#![allow(non_snake_case)]\nuse godot::builtin::StringName;\n\n"@
            + join_of(action_consts_of(action_views_of(actions@)), "\n"@),
{
    let mut items: Vec<String> = Vec::new();
    let mut i: usize = 0;
    while i < actions.len()
        invariant
            i <= actions.len(),
            items.len() == i,
            forall|k: int|
                0 <= k < i ==> (#[trigger] items[k])@ == action_const_of(
                    actions[k].0@,
                    texts_of(actions[k].1@),
                ),
        decreases actions.len() - i,
    {
        let doc = get_action_keystroke_doc_comment(&actions[i].1);
        items.push(format_action_to_const(actions[i].0.as_str(), doc.as_str()));
        i += 1;
    }
    assert(texts_of(items@) =~= action_consts_of(action_views_of(actions@)));
    let joined = join(&items, "\n");
    get_consts_file_content(joined.as_str())
}

/// The declarations of the actions in the trait, three for each.
pub open spec fn invocation_traits_of(actions: ActionsView) -> Seq<Seq<char>> {
    Seq::new(actions.len(), |i: int| invocation_trait_of(actions[i].0, actions[i].1))
}

/// The functions of the actions in the implementation, three for each.
pub open spec fn invocation_impls_of(actions: ActionsView) -> Seq<Seq<char>> {
    Seq::new(actions.len(), |i: int| invocation_impl_of(actions[i].0))
}

/// Whether each action has a keystroke.
pub open spec fn all_have_keystrokes(actions: ActionsView) -> bool {
    forall|i: int| 0 <= i < actions.len() ==> (#[trigger] actions[i]).1.len() > 0
}

/// Whether each action has a keystroke.
pub fn have_keystrokes(actions: &Vec<(String, Vec<String>)>) -> (r: bool)
    ensures
        r == all_have_keystrokes(action_views_of(actions@)),
{
    let mut i: usize = 0;
    while i < actions.len()
        invariant
            i <= actions.len(),
            forall|k: int| 0 <= k < i ==> (#[trigger] action_views_of(actions@)[k]).1.len() > 0,
        decreases actions.len() - i,
    {
        assert(action_views_of(actions@)[i as int].1.len() == actions[i as int].1.len());
        if actions[i].1.len() == 0 {
            return false;
        }
        i += 1;
    }
    true
}

/// The text of the module of invocations for the actions: the trait with
/// the declarations of each action, and its implementation. Each action has
/// at least one keystroke.
pub fn invocations_file_content(actions: &Vec<(String, Vec<String>)>) -> (r: String)
    requires
        all_have_keystrokes(action_views_of(actions@)),
    ensures
        r@ == "#![allow(dead_code)]\nuse godot::classes::Input;\n\npub trait InputActionInvocations {\n"@
            + join_of(invocation_traits_of(action_views_of(actions@)), "\n\n"@)
            + "\n}\n\nimpl InputActionInvocations for Input {\n"@ + join_of(
            invocation_impls_of(action_views_of(actions@)),
            "\n\n"@,
        ) + "\n}"@,
{
    let mut traits: Vec<String> = Vec::new();
    let mut impls: Vec<String> = Vec::new();
    let mut i: usize = 0;
    while i < actions.len()
        invariant
            i <= actions.len(),
            traits.len() == i,
            impls.len() == i,
            all_have_keystrokes(action_views_of(actions@)),
            forall|k: int|
                0 <= k < i ==> (#[trigger] traits[k])@ == invocation_trait_of(
                    actions[k].0@,
                    texts_of(actions[k].1@),
                ),
            forall|k: int|
                0 <= k < i ==> (#[trigger] impls[k])@ == invocation_impl_of(actions[k].0@),
        decreases actions.len() - i,
    {
        assert(action_views_of(actions@)[i as int].1.len() == actions[i as int].1.len());
        traits.push(format_action_to_invocation_trait(actions[i].0.as_str(), &actions[i].1));
        impls.push(format_action_to_invocation_impl(actions[i].0.as_str()));
        i += 1;
    }
    assert(texts_of(traits@) =~= invocation_traits_of(action_views_of(actions@)));
    assert(texts_of(impls@) =~= invocation_impls_of(action_views_of(actions@)));
    let trait_defs = join(&traits, "\n\n");
    let impl_defs = join(&impls, "\n\n");
    get_invocations_file_content(trait_defs.as_str(), impl_defs.as_str())
}

/// The names of the modules that a run generates for the actions: that of
/// the constants and that of the invocations, each where it is asked for.
pub fn action_modules(output_consts: bool, output_invocations: bool) -> (r: Vec<String>)
    ensures
        texts_of(r@) == (if output_consts {
            seq!["actions_"@ + MOD_CONSTS@]
        } else {
            Seq::<Seq<char>>::empty()
        }) + (if output_invocations {
            seq!["actions_"@ + MOD_INVOCATIONS@]
        } else {
            Seq::<Seq<char>>::empty()
        }),
{
    let mut mods: Vec<String> = Vec::new();
    if output_consts {
        mods.push(mod_name(MOD_CONSTS));
    }
    if output_invocations {
        mods.push(mod_name(MOD_INVOCATIONS));
    }
    assert(texts_of(mods@) =~= (if output_consts {
        seq!["actions_"@ + MOD_CONSTS@]
    } else {
        Seq::<Seq<char>>::empty()
    }) + (if output_invocations {
        seq!["actions_"@ + MOD_INVOCATIONS@]
    } else {
        Seq::<Seq<char>>::empty()
    }));
    mods
}

} // verus!
