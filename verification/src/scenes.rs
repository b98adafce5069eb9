//! The source text of the generated modules for scenes: a constant with each
//! scene's resource path, and a trait that changes to each scene.
use crate::text::{
    compare_texts, count_char, count_of, join, join_of, lex_sign, replace_of, str_to_chars,
    text_pairs_of, texts_of,
};
use crate::utils::{pascal_to_snake_case, snake_case_of, to_uppercase, uppercase_of};
use std::cmp::Ordering;
use vstd::prelude::*;

verus! {

/// The name of the module of actions.
pub const ACTIONS: &'static str = "actions";

/// The name of the module of constants.
pub const CONSTS: &'static str = "consts";

/// The name of the generated module of the kind `output`.
pub fn mod_name(output: &str) -> (r: String)
    ensures
        r@ == "scene_"@ + output@,
{
    let mut s = "scene_".to_owned();
    s.append(output);
    s
}

/// The order of two resource paths: the one with fewer slashes comes first,
/// and of two with the same number the one that comes first in the
/// dictionary.
pub open spec fn scene_order(a: Seq<char>, b: Seq<char>) -> Ordering {
    if count_of(a, '/') < count_of(b, '/') {
        Ordering::Less
    } else if count_of(a, '/') > count_of(b, '/') {
        Ordering::Greater
    } else if lex_sign(a, b) < 0 {
        Ordering::Less
    } else if lex_sign(a, b) > 0 {
        Ordering::Greater
    } else {
        Ordering::Equal
    }
}

/// Orders two resource paths: fewer directories first, then by the
/// dictionary.
pub fn least_directories_then_alphabetical(a: &&str, b: &&str) -> (r: Ordering)
    ensures
        r == scene_order(a@, b@),
{
    let x = str_to_chars(*a);
    let y = str_to_chars(*b);
    let a_dirs = count_char(&x, '/');
    let b_dirs = count_char(&y, '/');
    if a_dirs < b_dirs {
        Ordering::Less
    } else if a_dirs > b_dirs {
        Ordering::Greater
    } else {
        let sign = compare_texts(&x, &y);
        if sign < 0 {
            Ordering::Less
        } else if sign > 0 {
            Ordering::Greater
        } else {
            Ordering::Equal
        }
    }
}

/// The documentation comment that names a scene's path.
pub open spec fn scene_doc_comment_of(scene_path: Seq<char>) -> Seq<char> {
    "/// `"@ + scene_path + "`"@
}

/// The documentation comment that names a scene's path.
pub fn format_scene_to_doc_comment(scene_path: &str) -> (r: String)
    ensures
        r@ == scene_doc_comment_of(scene_path@),
{
    let mut s = "/// `".to_owned();
    s.append(scene_path);
    s.append("`");
    s
}

/// The constant with the name `const_name` for a scene, under its
/// documentation comment; its value is the scene's path.
pub open spec fn scene_const_with(const_name: Seq<char>, scene_path: Seq<char>) -> Seq<char> {
    scene_doc_comment_of(scene_path) + "\npub const "@ + const_name + ": &'static str = \""@
        + scene_path + "\";"@
}

/// The constant of a scene, under its documentation comment: its name is
/// the scene's in snake case and capitals, its value the scene's path.
pub open spec fn scene_const_of(scene_name: Seq<char>, scene_path: Seq<char>) -> Seq<char> {
    scene_const_with(uppercase_of(snake_case_of(scene_name)), scene_path)
}

/// The constant with the name `const_name` for a scene, under its
/// documentation comment.
pub fn format_scene_const_named(const_name: &str, scene_path: &str) -> (r: String)
    ensures
        r@ == scene_const_with(const_name@, scene_path@),
{
    let mut s = format_scene_to_doc_comment(scene_path);
    s.append("\npub const ");
    s.append(const_name);
    s.append(": &'static str = \"");
    s.append(scene_path);
    s.append("\";");
    s
}

/// The constant of a scene, under its documentation comment.
pub fn format_scene_to_const(scene_name: &str, scene_path: &str) -> (r: String)
    ensures
        r@ == scene_const_of(scene_name@, scene_path@),
{
    let snake = pascal_to_snake_case(scene_name);
    let upper = to_uppercase(snake.as_str());
    format_scene_const_named(upper.as_str(), scene_path)
}

/// The declaration of a scene's function in the trait, under its
/// documentation comment.
pub open spec fn scene_action_trait_of(scene_name: Seq<char>, scene_path: Seq<char>) -> Seq<char> {
    "    "@ + scene_doc_comment_of(scene_path) + "\n    fn change_scene_to_"@ + snake_case_of(
        scene_name,
    ) + "(&self) -> Option<Error>;"@
}

/// The declaration of a scene's function in the trait.
pub fn format_scene_to_action_trait(scene_name: &str, scene_path: &str) -> (r: String)
    ensures
        r@ == scene_action_trait_of(scene_name@, scene_path@),
{
    let mut s = "    ".to_owned();
    let doc = format_scene_to_doc_comment(scene_path);
    s.append(doc.as_str());
    s.append("\n    fn change_scene_to_");
    let snake = pascal_to_snake_case(scene_name);
    s.append(snake.as_str());
    s.append("(&self) -> Option<Error>;");
    s
}

/// A scene's function in the implementation of the trait.
pub open spec fn scene_action_impl_of(scene_name: Seq<char>, scene_path: Seq<char>) -> Seq<char> {
    "    fn change_scene_to_"@ + snake_case_of(scene_name)
        + "(&self) -> Option<Error> { self.change_scene_to(\""@ + scene_path + "\") }"@
}

/// A scene's function in the implementation of the trait.
pub fn format_scene_to_action_impl(scene_name: &str, scene_path: &str) -> (r: String)
    ensures
        r@ == scene_action_impl_of(scene_name@, scene_path@),
{
    let mut s = "    fn change_scene_to_".to_owned();
    let snake = pascal_to_snake_case(scene_name);
    s.append(snake.as_str());
    s.append("(&self) -> Option<Error> { self.change_scene_to(\"");
    s.append(scene_path);
    s.append("\") }");
    s
}

/// The constants of the scenes, one for each.
pub open spec fn scene_consts_of(scenes: Seq<(Seq<char>, Seq<char>)>) -> Seq<Seq<char>> {
    Seq::new(scenes.len(), |i: int| scene_const_of(scenes[i].0, scenes[i].1))
}

/// The declarations of the scenes, one for each.
pub open spec fn scene_action_traits_of(scenes: Seq<(Seq<char>, Seq<char>)>) -> Seq<Seq<char>> {
    Seq::new(scenes.len(), |i: int| scene_action_trait_of(scenes[i].0, scenes[i].1))
}

/// The functions of the scenes, one for each.
pub open spec fn scene_action_impls_of(scenes: Seq<(Seq<char>, Seq<char>)>) -> Seq<Seq<char>> {
    Seq::new(scenes.len(), |i: int| scene_action_impl_of(scenes[i].0, scenes[i].1))
}

/// The text of the module of constants: its head and then the constants of
/// the scenes, one on each line.
pub fn format_scenes_to_consts(scenes_and_paths: &Vec<(String, String)>) -> (r: String)
    ensures
        r@ == "#![allow(dead_code)]\n"@ + join_of(
            scene_consts_of(text_pairs_of(scenes_and_paths@)),
            "\n"@,
        ),
{
    let mut items: Vec<String> = Vec::new();
    let mut i: usize = 0;
    while i < scenes_and_paths.len()
        invariant
            i <= scenes_and_paths.len(),
            items.len() == i,
            forall|k: int|
                0 <= k < i ==> (#[trigger] items[k])@ == scene_const_of(
                    scenes_and_paths[k].0@,
                    scenes_and_paths[k].1@,
                ),
        decreases scenes_and_paths.len() - i,
    {
        items.push(
            format_scene_to_const(scenes_and_paths[i].0.as_str(), scenes_and_paths[i].1.as_str()),
        );
        i += 1;
    }
    assert(texts_of(items@) =~= scene_consts_of(text_pairs_of(scenes_and_paths@)));
    let joined = join(&items, "\n");
    let mut s = "#![allow(dead_code)]\n".to_owned();
    s.append(joined.as_str());
    s
}

/// The head of the module of actions: the imports and the trait up to its
/// first declaration.
pub open spec fn scene_actions_head() -> Seq<char> {
    "#![allow(dead_code)]\nuse godot::{\n    prelude::Node,\n    global::Error\n};\n\npub trait SceneActions {\n    fn change_scene_to(&self, scene_path: &str) -> Option<Error>;\n"@
}

/// The middle of the module of actions: the end of the trait and the
/// implementation up to its first generated function.
pub open spec fn scene_actions_middle() -> Seq<char> {
    "\n}\n\nimpl SceneActions for Node {\n    fn change_scene_to(&self, scene_path: &str) -> Option<Error> {\n        let st = self.get_tree();\n        let mut err = None;\n\n        if st.is_some() {\n            err = Some(st.unwrap().change_scene_to_file(scene_path));\n        }\n\n        err\n    }\n\n"@
}

/// The text of the module of actions: the trait with a declaration for each
/// scene, and its implementation for the engine's node with a function for
/// each scene.
pub fn format_scenes_to_actions(scenes_and_paths: &Vec<(String, String)>) -> (r: String)
    ensures
        r@ == scene_actions_head() + join_of(
            scene_action_traits_of(text_pairs_of(scenes_and_paths@)),
            "\n"@,
        ) + scene_actions_middle() + join_of(
            scene_action_impls_of(text_pairs_of(scenes_and_paths@)),
            "\n"@,
        ) + "\n}"@,
{
    let mut traits: Vec<String> = Vec::new();
    let mut impls: Vec<String> = Vec::new();
    let mut i: usize = 0;
    while i < scenes_and_paths.len()
        invariant
            i <= scenes_and_paths.len(),
            traits.len() == i,
            impls.len() == i,
            forall|k: int|
                0 <= k < i ==> (#[trigger] traits[k])@ == scene_action_trait_of(
                    scenes_and_paths[k].0@,
                    scenes_and_paths[k].1@,
                ),
            forall|k: int|
                0 <= k < i ==> (#[trigger] impls[k])@ == scene_action_impl_of(
                    scenes_and_paths[k].0@,
                    scenes_and_paths[k].1@,
                ),
        decreases scenes_and_paths.len() - i,
    {
        let name = scenes_and_paths[i].0.as_str();
        let path = scenes_and_paths[i].1.as_str();
        traits.push(format_scene_to_action_trait(name, path));
        impls.push(format_scene_to_action_impl(name, path));
        i += 1;
    }
    assert(texts_of(traits@) =~= scene_action_traits_of(text_pairs_of(scenes_and_paths@)));
    assert(texts_of(impls@) =~= scene_action_impls_of(text_pairs_of(scenes_and_paths@)));
    let trait_defs = join(&traits, "\n");
    let impl_defs = join(&impls, "\n");
    let mut s =
        "#![allow(dead_code)]\nuse godot::{\n    prelude::Node,\n    global::Error\n};\n\npub trait SceneActions {\n    fn change_scene_to(&self, scene_path: &str) -> Option<Error>;\n".to_owned();
    s.append(trait_defs.as_str());
    s.append(
        "\n}\n\nimpl SceneActions for Node {\n    fn change_scene_to(&self, scene_path: &str) -> Option<Error> {\n        let st = self.get_tree();\n        let mut err = None;\n\n        if st.is_some() {\n            err = Some(st.unwrap().change_scene_to_file(scene_path));\n        }\n\n        err\n    }\n\n",
    );
    s.append(impl_defs.as_str());
    s.append("\n}");
    s
}

/// Whether the path `a` stands before the path `b`, or at its place: it has
/// fewer slashes, or as many and comes no later in the dictionary.
pub open spec fn path_le(a: Seq<char>, b: Seq<char>) -> bool {
    count_of(a, '/') < count_of(b, '/') || (count_of(a, '/') == count_of(b, '/') && lex_sign(a, b)
        <= 0)
}

/// Whether the path `a` stands before the path `b`, or at its place.
pub fn path_before(a: &str, b: &str) -> (r: bool)
    ensures
        r == path_le(a@, b@),
{
    let x = str_to_chars(a);
    let y = str_to_chars(b);
    let a_dirs = count_char(&x, '/');
    let b_dirs = count_char(&y, '/');
    a_dirs < b_dirs || (a_dirs == b_dirs && compare_texts(&x, &y) <= 0)
}

/// The order of the paths is total and transitive.
pub proof fn lemma_path_le_order()
    ensures
        forall|a: Seq<char>, b: Seq<char>| #[trigger] path_le(a, b) || path_le(b, a),
        forall|a: Seq<char>, b: Seq<char>, c: Seq<char>|
            #[trigger] path_le(a, b) && #[trigger] path_le(b, c) ==> path_le(a, c),
{
    assert forall|a: Seq<char>, b: Seq<char>| #[trigger] path_le(a, b) || path_le(b, a) by {
        crate::text::lemma_lex_sign_mirror(a, b);
    }
    assert forall|a: Seq<char>, b: Seq<char>, c: Seq<char>|
        #[trigger] path_le(a, b) && #[trigger] path_le(b, c) implies path_le(a, c) by {
        if count_of(a, '/') == count_of(b, '/') && count_of(b, '/') == count_of(c, '/') {
            crate::text::lemma_lex_sign_chain(a, b, c);
        }
    }
}

/// One scene file as it was found on disk.
pub struct SceneFile {
    /// The file's name without its extension.
    pub stem: String,
    /// The names of the directories above the file, the nearest one first.
    pub ancestors: Vec<String>,
    /// The file's path as the platform writes it.
    pub path: String,
}

/// The mathematical model of a [`SceneFile`].
pub ghost struct SceneFileView {
    pub stem: Seq<char>,
    pub ancestors: Seq<Seq<char>>,
    pub path: Seq<char>,
}

impl View for SceneFile {
    type V = SceneFileView;

    open spec fn view(&self) -> SceneFileView {
        SceneFileView { stem: self.stem@, ancestors: texts_of(self.ancestors@), path: self.path@ }
    }
}

/// The views of a sequence of scene files.
pub open spec fn file_views_of(v: Seq<SceneFile>) -> Seq<SceneFileView> {
    Seq::new(v.len(), |i: int| v[i]@)
}

/// The scenes found so far: under each scene's name, the name and the
/// resource path.
pub type ScenesView = Seq<(Seq<char>, (Seq<char>, Seq<char>))>;

/// The name that a scene gets: while the name is taken, the name of the
/// next directory above the file is put before it, as long as there is one.
pub open spec fn scene_name_from(
    taken: ScenesView,
    name: Seq<char>,
    ancestors: Seq<Seq<char>>,
    i: int,
) -> Seq<char>
    decreases ancestors.len() - i,
{
    if crate::strmap::map_of(taken).dom().contains(name) && 0 <= i < ancestors.len() {
        scene_name_from(taken, ancestors[i] + name, ancestors, i + 1)
    } else {
        name
    }
}

/// The resource path of a file: its path with slashes for backslashes, and
/// `res:/` for the resource directory's path.
pub open spec fn scene_resource_path_of(path: Seq<char>, resource_path: Seq<char>) -> Seq<char> {
    replace_of(replace_of(path, "\\"@, "/"@), resource_path, "res:/"@)
}

/// The scenes after one more file: the file's scene stands under the name
/// that it gets, in the place of an earlier scene of that name.
pub open spec fn with_scene(
    scenes: ScenesView,
    file: SceneFileView,
    resource_path: Seq<char>,
) -> ScenesView {
    let name = scene_name_from(scenes, file.stem, file.ancestors, 0);
    crate::strmap::with_entry(
        scenes,
        name,
        (name, scene_resource_path_of(file.path, resource_path)),
    )
}

/// The scenes after all the files, in order.
pub open spec fn scenes_fold(
    scenes: ScenesView,
    files: Seq<SceneFileView>,
    resource_path: Seq<char>,
) -> ScenesView
    decreases files.len(),
{
    if files.len() == 0 {
        scenes
    } else {
        scenes_fold(with_scene(scenes, files[0], resource_path), files.drop_first(), resource_path)
    }
}

/// The names and resource paths of the scenes, without the keys.
pub open spec fn scene_values_of(scenes: ScenesView) -> Seq<(Seq<char>, Seq<char>)> {
    Seq::new(scenes.len(), |i: int| scenes[i].1)
}

/// The scenes of the files with their names and resource paths, in the
/// order of their paths.
pub open spec fn scene_list_of(files: Seq<SceneFileView>, resource_path: Seq<char>) -> Seq<
    (Seq<char>, Seq<char>),
> {
    crate::sorting::sort_of(
        scene_values_of(scenes_fold(seq![], files, resource_path)),
        |a: (Seq<char>, Seq<char>), b: (Seq<char>, Seq<char>)| path_le(a.1, b.1),
    )
}

/// The name that a scene gets among the scenes found so far.
fn scene_name(
    taken: &crate::strmap::StrMap<(String, String)>,
    stem: &str,
    ancestors: &Vec<String>,
) -> (r: String)
    ensures
        r@ == scene_name_from(taken@, stem@, texts_of(ancestors@), 0),
{
    let ghost all = texts_of(ancestors@);
    let mut name = stem.to_owned();
    let mut i: usize = 0;
    while i < ancestors.len() && taken.contains_key(name.as_str())
        invariant
            i <= ancestors.len(),
            all == texts_of(ancestors@),
            scene_name_from(taken@, stem@, all, 0) == scene_name_from(taken@, name@, all, i as int),
        decreases ancestors.len() - i,
    {
        assert(all[i as int] == ancestors[i as int]@);
        let mut longer = ancestors[i].clone();
        longer.append(name.as_str());
        name = longer;
        i += 1;
    }
    name
}

/// Gives each scene file its name and its resource path, and puts the
/// scenes in the order of their paths. Of two files that get one name the
/// later one stays.
pub fn collect_scenes(files: &Vec<SceneFile>, resource_path: &str) -> (r: Vec<(String, String)>)
    ensures
        text_pairs_of(r@) == scene_list_of(file_views_of(files@), resource_path@),
{
    let ghost all = file_views_of(files@);
    let mut scenes: crate::strmap::StrMap<(String, String)> = crate::strmap::StrMap::new();
    let mut i: usize = 0;
    assert(all.skip(0) =~= all);
    while i < files.len()
        invariant
            i <= files.len(),
            all == file_views_of(files@),
            scenes_fold(seq![], all, resource_path@) == scenes_fold(
                scenes@,
                all.skip(i as int),
                resource_path@,
            ),
        decreases files.len() - i,
    {
        let ghost rest = all.skip(i as int);
        assert(rest[0] == files[i as int]@);
        assert(rest.drop_first() =~= all.skip(i + 1));
        let file = &files[i];
        let name = scene_name(&scenes, file.stem.as_str(), &file.ancestors);
        let slashed = crate::text::replace(file.path.as_str(), "\\", "/");
        let path = crate::utils::to_resource_path(slashed.as_str(), resource_path);
        let key = name.clone();
        scenes.insert(key.as_str(), (name, path));
        i += 1;
    }
    assert(all.skip(files.len() as int).len() == 0);
    let mut list: Vec<(String, String)> = Vec::new();
    let n = scenes.len();
    let mut k: usize = 0;
    while k < n
        invariant
            k <= n,
            n == scenes@.len(),
            list.len() == k,
            forall|j: int|
                0 <= j < k ==> ((#[trigger] list[j]).0@, list[j].1@) == scenes@[j].1,
        decreases n - k,
    {
        let e = scenes.entry(k);
        list.push((e.1.0.clone(), e.1.1.clone()));
        k += 1;
    }
    assert(text_pairs_of(list@) =~= scene_values_of(scenes@));
    let le = |a: &(String, String), b: &(String, String)| -> (o: bool)
        ensures
            o == path_le(a.1@, b.1@),
        { path_before(a.1.as_str(), b.1.as_str()) };
    let ghost rel_t = |a: (String, String), b: (String, String)| path_le(a.1@, b.1@);
    let ghost rel_u = |a: (Seq<char>, Seq<char>), b: (Seq<char>, Seq<char>)| path_le(a.1, b.1);
    let ghost f = |e: (String, String)| (e.0@, e.1@);
    let ghost before = list@;
    let sorted = crate::sorting::sort_by(list, le, Ghost(rel_t));
    proof {
        crate::sorting::lemma_sort_of_map(before, f, rel_t, rel_u);
        assert(text_pairs_of(before) =~= before.map_values(f));
        assert(text_pairs_of(sorted@) =~= sorted@.map_values(f));
    }
    sorted
}

/// The scenes in their order stand each before all the later ones, and they
/// are the scenes that were found, each once.
pub proof fn lemma_scene_list_sorted(files: Seq<SceneFileView>, resource_path: Seq<char>)
    ensures
        forall|i: int, j: int|
            0 <= i < j < scene_list_of(files, resource_path).len() ==> path_le(
                scene_list_of(files, resource_path)[i].1,
                scene_list_of(files, resource_path)[j].1,
            ),
        scene_list_of(files, resource_path).to_multiset() == scene_values_of(
            scenes_fold(seq![], files, resource_path),
        ).to_multiset(),
{
    let rel = |a: (Seq<char>, Seq<char>), b: (Seq<char>, Seq<char>)| path_le(a.1, b.1);
    let values = scene_values_of(scenes_fold(seq![], files, resource_path));
    lemma_path_le_order();
    assert(crate::sorting::is_total(rel)) by {
        assert forall|a: (Seq<char>, Seq<char>), b: (Seq<char>, Seq<char>)| #[trigger]
            rel(a, b) || rel(b, a) by {
            assert(path_le(a.1, b.1) || path_le(b.1, a.1));
        }
    }
    assert(crate::sorting::is_transitive(rel)) by {
        assert forall|
            a: (Seq<char>, Seq<char>),
            b: (Seq<char>, Seq<char>),
            c: (Seq<char>, Seq<char>),
        | #[trigger] rel(a, b) && #[trigger] rel(b, c) implies rel(a, c) by {
            assert(path_le(a.1, b.1) && path_le(b.1, c.1) ==> path_le(a.1, c.1));
        }
    }
    crate::sorting::lemma_sort_of_sorted(values, rel);
    crate::sorting::lemma_sort_of_permutes(values, rel);
    let list = scene_list_of(files, resource_path);
    assert forall|i: int, j: int| 0 <= i < j < list.len() implies path_le(list[i].1, list[j].1) by {
        assert(rel(list[i], list[j]));
    }
}

/// The names of the modules that a run generates for the scenes: that of
/// the constants and that of the actions, each where it is asked for.
pub fn scene_modules(scene_consts: bool, scene_actions: bool) -> (r: Vec<String>)
    ensures
        texts_of(r@) == (if scene_consts {
            seq!["scene_"@ + CONSTS@]
        } else {
            Seq::<Seq<char>>::empty()
        }) + (if scene_actions {
            seq!["scene_"@ + ACTIONS@]
        } else {
            Seq::<Seq<char>>::empty()
        }),
{
    let mut mods: Vec<String> = Vec::new();
    if scene_consts {
        mods.push(mod_name(CONSTS));
    }
    if scene_actions {
        mods.push(mod_name(ACTIONS));
    }
    assert(texts_of(mods@) =~= (if scene_consts {
        seq!["scene_"@ + CONSTS@]
    } else {
        Seq::<Seq<char>>::empty()
    }) + (if scene_actions {
        seq!["scene_"@ + ACTIONS@]
    } else {
        Seq::<Seq<char>>::empty()
    }));
    mods
}

} // verus!
