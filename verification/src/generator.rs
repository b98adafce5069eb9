//! The settings of a generation run, gathered by a builder that records what
//! is wrong with them instead of failing.
use crate::strmap::{with_entry, StrMap};
use crate::text::{str_eq, texts_of};
use vstd::prelude::*;

verus! {

/// The settings of a generation run.
pub struct Generator {
    output_dir: String,
    output_dir_valid: bool,
    gdextension_path: String,
    gdextension_path_valid: bool,
    project_godot_path: String,
    project_godot_path_valid: bool,
    source_path: String,
    source_path_valid: bool,
    resource_path: String,
    resource_path_valid: bool,
    validation_errors: Vec<String>,
    icon_sources: StrMap<String>,
    layer_consts: bool,
    action_consts: bool,
    action_invocations: bool,
    icon_comments: bool,
}

/// The mathematical model of a [`Generator`].
pub ghost struct GeneratorView {
    /// The directory that the generated files go to.
    pub output_dir: Seq<char>,
    pub output_dir_valid: bool,
    /// The path of the extension descriptor.
    pub gdextension_path: Seq<char>,
    pub gdextension_path_valid: bool,
    /// The path of the project descriptor.
    pub project_godot_path: Seq<char>,
    pub project_godot_path_valid: bool,
    /// The directory of the source files.
    pub source_path: Seq<char>,
    pub source_path_valid: bool,
    /// The directory that `res://` stands for.
    pub resource_path: Seq<char>,
    pub resource_path_valid: bool,
    /// What is wrong with the settings so far, in the order of the calls.
    pub validation_errors: Seq<Seq<char>>,
    /// Where the icons under a resource prefix are found.
    pub icon_sources: Seq<(Seq<char>, Seq<char>)>,
    pub layer_consts: bool,
    pub action_consts: bool,
    pub action_invocations: bool,
    pub icon_comments: bool,
}

impl View for Generator {
    type V = GeneratorView;

    closed spec fn view(&self) -> GeneratorView {
        GeneratorView {
            output_dir: self.output_dir@,
            output_dir_valid: self.output_dir_valid,
            gdextension_path: self.gdextension_path@,
            gdextension_path_valid: self.gdextension_path_valid,
            project_godot_path: self.project_godot_path@,
            project_godot_path_valid: self.project_godot_path_valid,
            source_path: self.source_path@,
            source_path_valid: self.source_path_valid,
            resource_path: self.resource_path@,
            resource_path_valid: self.resource_path_valid,
            validation_errors: texts_of(self.validation_errors@),
            icon_sources: self.icon_sources@,
            layer_consts: self.layer_consts,
            action_consts: self.action_consts,
            action_invocations: self.action_invocations,
            icon_comments: self.icon_comments,
        }
    }
}

/// The settings with which a builder begins: no output directory and no
/// descriptors, the source directory `./src`, the resource directory
/// `../godot`, and nothing to generate.
pub open spec fn default_settings() -> GeneratorView {
    GeneratorView {
        output_dir: ""@,
        output_dir_valid: false,
        gdextension_path: ""@,
        gdextension_path_valid: false,
        project_godot_path: ""@,
        project_godot_path_valid: false,
        source_path: "./src"@,
        source_path_valid: true,
        resource_path: "../godot"@,
        resource_path_valid: true,
        validation_errors: seq![],
        icon_sources: seq![],
        layer_consts: false,
        action_consts: false,
        action_invocations: false,
        icon_comments: false,
    }
}

/// The errors with `message` behind them where `wrong` holds.
pub open spec fn with_error(errors: Seq<Seq<char>>, wrong: bool, message: Seq<char>) -> Seq<
    Seq<char>,
> {
    if wrong {
        errors.push(message)
    } else {
        errors
    }
}

/// The settings after the output directory has been set. `exists` says
/// whether the directory is there, `created` whether it could be made where
/// it was not. A directory that had to be made is not yet valid.
pub open spec fn with_output_dir(
    g: GeneratorView,
    path: Seq<char>,
    exists: bool,
    created: bool,
) -> GeneratorView {
    GeneratorView {
        output_dir: path,
        output_dir_valid: path.len() > 0 && exists,
        validation_errors: with_error(
            with_error(
                g.validation_errors,
                path.len() == 0,
                "Output directory must be set, and cannot be empty"@,
            ),
            !exists && !created,
            "Failed to create output directory"@,
        ),
        ..g
    }
}

/// The settings after the extension descriptor's path has been set.
pub open spec fn with_gdextension_path(
    g: GeneratorView,
    path: Seq<char>,
    exists: bool,
) -> GeneratorView {
    GeneratorView {
        gdextension_path: path,
        gdextension_path_valid: path.len() > 0 && exists,
        validation_errors: with_error(
            with_error(
                g.validation_errors,
                path.len() == 0,
                "gdextension path must be set with `set_gdextension_path`"@,
            ),
            !exists,
            "gdextension path does not exist: "@ + path,
        ),
        ..g
    }
}

/// The settings after the project descriptor's path has been set.
pub open spec fn with_project_godot_path(
    g: GeneratorView,
    path: Seq<char>,
    exists: bool,
) -> GeneratorView {
    GeneratorView {
        project_godot_path: path,
        project_godot_path_valid: path.len() > 0 && exists,
        validation_errors: with_error(
            with_error(
                g.validation_errors,
                path.len() == 0,
                "project.godot path must be set with `set_project_godot_path`"@,
            ),
            !exists,
            "project.godot path does not exist: "@ + path,
        ),
        ..g
    }
}

/// What is said of a path that is the default one.
pub open spec fn default_hint(path: Seq<char>, default: Seq<char>, hint: Seq<char>) -> Seq<char> {
    if path == default {
        hint
    } else {
        Seq::<char>::empty()
    }
}

/// The settings after the source directory has been set. An empty path is
/// reported and nothing else is asked of it; a path that is fine leaves the
/// validity as it was.
pub open spec fn with_source_path(
    g: GeneratorView,
    path: Seq<char>,
    exists: bool,
) -> GeneratorView {
    if path.len() == 0 {
        GeneratorView {
            source_path: path,
            source_path_valid: false,
            validation_errors: g.validation_errors.push(
                "Source path must be set with `set_source_path`"@,
            ),
            ..g
        }
    } else if !exists {
        GeneratorView {
            source_path: path,
            source_path_valid: false,
            validation_errors: g.validation_errors.push(
                "Source path does not exist: "@ + path + default_hint(
                    path,
                    "./src"@,
                    " (default, change with `set_source_path`)"@,
                ),
            ),
            ..g
        }
    } else {
        GeneratorView { source_path: path, ..g }
    }
}

/// The settings after the resource directory has been set, in the way of
/// the source directory.
pub open spec fn with_resource_path(
    g: GeneratorView,
    path: Seq<char>,
    exists: bool,
) -> GeneratorView {
    if path.len() == 0 {
        GeneratorView {
            resource_path: path,
            resource_path_valid: false,
            validation_errors: g.validation_errors.push(
                "Resource path must be set with `set_resource_path`"@,
            ),
            ..g
        }
    } else if !exists {
        GeneratorView {
            resource_path: path,
            resource_path_valid: false,
            validation_errors: g.validation_errors.push(
                "Resource path does not exist: "@ + path + default_hint(
                    path,
                    "../godot"@,
                    " (default, change with `set_resource_path`)"@,
                ),
            ),
            ..g
        }
    } else {
        GeneratorView { resource_path: path, ..g }
    }
}

/// The settings after an icon source has been added: the resource prefix is
/// given the place of its icons, unless one of the two is empty, which is
/// reported.
pub open spec fn with_icon_source(
    g: GeneratorView,
    local_path: Seq<char>,
    icon_path: Seq<char>,
) -> GeneratorView {
    if local_path.len() == 0 || icon_path.len() == 0 {
        GeneratorView {
            validation_errors: g.validation_errors.push(
                "Icon source paths must be non-empty strings"@,
            ),
            ..g
        }
    } else {
        GeneratorView { icon_sources: with_entry(g.icon_sources, local_path, icon_path), ..g }
    }
}

impl Generator {
    /// The settings with which a builder begins.
    pub fn builder() -> (r: Self)
        ensures
            r@ == default_settings(),
    {
        let r = Generator {
            output_dir: "".to_owned(),
            output_dir_valid: false,
            gdextension_path: "".to_owned(),
            gdextension_path_valid: false,
            project_godot_path: "".to_owned(),
            project_godot_path_valid: false,
            source_path: "./src".to_owned(),
            source_path_valid: true,
            resource_path: "../godot".to_owned(),
            resource_path_valid: true,
            validation_errors: Vec::new(),
            icon_sources: StrMap::new(),
            layer_consts: false,
            action_consts: false,
            action_invocations: false,
            icon_comments: false,
        };
        assert(texts_of(r.validation_errors@) =~= Seq::<Seq<char>>::empty());
        r
    }

    /// Records one more thing that is wrong with the settings.
    fn report(&mut self, message: String)
        ensures
            final(self)@ == (GeneratorView {
                validation_errors: old(self)@.validation_errors.push(message@),
                ..old(self)@
            }),
    {
        self.validation_errors.push(message);
        assert(texts_of(self.validation_errors@) =~= texts_of(old(self).validation_errors@).push(
            message@,
        ));
    }

    /// Sets the directory that the generated files go to. `exists` says
    /// whether the directory is there, `created` whether it could be made
    /// where it was not.
    pub fn set_output_dir(self, path: &str, exists: bool, created: bool) -> (r: Self)
        ensures
            r@ == with_output_dir(self@, path@, exists, created),
    {
        let mut g = self;
        g.output_dir = path.to_owned();
        g.output_dir_valid = true;
        if path.is_empty() {
            g.report("Output directory must be set, and cannot be empty".to_owned());
            g.output_dir_valid = false;
        }
        if !exists {
            if !created {
                g.report("Failed to create output directory".to_owned());
            }
            g.output_dir_valid = false;
        }
        g
    }

    /// Sets the path of the extension descriptor. `exists` says whether a
    /// file is there.
    pub fn set_gdextension_path(self, path: &str, exists: bool) -> (r: Self)
        ensures
            r@ == with_gdextension_path(self@, path@, exists),
    {
        let mut g = self;
        g.gdextension_path = path.to_owned();
        g.gdextension_path_valid = true;
        if path.is_empty() {
            g.report("gdextension path must be set with `set_gdextension_path`".to_owned());
            g.gdextension_path_valid = false;
        }
        if !exists {
            let mut message = "gdextension path does not exist: ".to_owned();
            message.append(path);
            g.report(message);
            g.gdextension_path_valid = false;
        }
        g
    }

    /// Sets the path of the project descriptor. `exists` says whether a file
    /// is there.
    pub fn set_project_godot_path(self, path: &str, exists: bool) -> (r: Self)
        ensures
            r@ == with_project_godot_path(self@, path@, exists),
    {
        let mut g = self;
        g.project_godot_path = path.to_owned();
        g.project_godot_path_valid = true;
        if path.is_empty() {
            g.report("project.godot path must be set with `set_project_godot_path`".to_owned());
            g.project_godot_path_valid = false;
        }
        if !exists {
            let mut message = "project.godot path does not exist: ".to_owned();
            message.append(path);
            g.report(message);
            g.project_godot_path_valid = false;
        }
        g
    }

    /// Sets the directory of the source files. `exists` says whether the
    /// directory is there.
    pub fn set_source_path(self, path: &str, exists: bool) -> (r: Self)
        ensures
            r@ == with_source_path(self@, path@, exists),
    {
        let mut g = self;
        g.source_path = path.to_owned();
        if path.is_empty() {
            g.report("Source path must be set with `set_source_path`".to_owned());
            g.source_path_valid = false;
            return g;
        }
        if !exists {
            let mut message = "Source path does not exist: ".to_owned();
            message.append(path);
            if str_eq(path, "./src") {
                message.append(" (default, change with `set_source_path`)");
            } else {
                assert(message@ + Seq::<char>::empty() =~= message@);
            }
            g.report(message);
            g.source_path_valid = false;
        }
        g
    }

    /// Sets the directory that `res://` stands for. `exists` says whether
    /// the directory is there.
    pub fn set_resource_path(self, path: &str, exists: bool) -> (r: Self)
        ensures
            r@ == with_resource_path(self@, path@, exists),
    {
        let mut g = self;
        g.resource_path = path.to_owned();
        if path.is_empty() {
            g.report("Resource path must be set with `set_resource_path`".to_owned());
            g.resource_path_valid = false;
            return g;
        }
        if !exists {
            let mut message = "Resource path does not exist: ".to_owned();
            message.append(path);
            if str_eq(path, "../godot") {
                message.append(" (default, change with `set_resource_path`)");
            } else {
                assert(message@ + Seq::<char>::empty() =~= message@);
            }
            g.report(message);
            g.resource_path_valid = false;
        }
        g
    }

    /// Adds a place where the icons under the resource prefix `local_path`
    /// are found: a directory or the beginning of a URL. A later source for
    /// the same prefix takes the place of an earlier one.
    pub fn add_icon_source(self, local_path: &str, icon_path: &str) -> (r: Self)
        ensures
            r@ == with_icon_source(self@, local_path@, icon_path@),
    {
        let mut g = self;
        if local_path.is_empty() || icon_path.is_empty() {
            g.report("Icon source paths must be non-empty strings".to_owned());
        } else {
            g.icon_sources.insert(local_path, icon_path.to_owned());
        }
        g
    }

    /// Asks for the constants of the layers.
    pub fn output_layer_consts(self) -> (r: Self)
        ensures
            r@ == (GeneratorView { layer_consts: true, ..self@ }),
    {
        let mut g = self;
        g.layer_consts = true;
        g
    }

    /// Whether the constants of the layers are asked for and can be made.
    pub fn layer_consts_valid(&self) -> (r: bool)
        ensures
            r == (self@.layer_consts && self@.project_godot_path_valid),
    {
        self.layer_consts && self.project_godot_path_valid
    }

    /// Asks for the constants of the actions.
    pub fn output_action_consts(self) -> (r: Self)
        ensures
            r@ == (GeneratorView { action_consts: true, ..self@ }),
    {
        let mut g = self;
        g.action_consts = true;
        g
    }

    /// Whether the modules of the actions can be made: the invocations are
    /// asked for and the project descriptor is there.
    pub fn action_either_valid(&self) -> (r: bool)
        ensures
            r == (self@.action_invocations && self@.project_godot_path_valid),
    {
        self.action_invocations && self.project_godot_path_valid
    }

    /// Asks for the invocations of the actions.
    pub fn output_action_invocations(self) -> (r: Self)
        ensures
            r@ == (GeneratorView { action_invocations: true, ..self@ }),
    {
        let mut g = self;
        g.action_invocations = true;
        g
    }

    /// Asks for the icons that comments in the source files name.
    pub fn output_icon_comments(self) -> (r: Self)
        ensures
            r@ == (GeneratorView { icon_comments: true, ..self@ }),
    {
        let mut g = self;
        g.icon_comments = true;
        g
    }

    /// Whether the icons are asked for and the three paths that they need
    /// are valid.
    pub fn icon_comments_valid(&self) -> (r: bool)
        ensures
            r == (self@.icon_comments && self@.gdextension_path_valid && self@.source_path_valid
                && self@.resource_path_valid),
    {
        self.icon_comments && self.gdextension_path_valid && self.source_path_valid
            && self.resource_path_valid
    }

    /// Whether a run may go ahead: nothing wrong has been recorded. A run
    /// with recorded errors reports them and generates nothing.
    pub fn can_generate(&self) -> (r: bool)
        ensures
            r == (self@.validation_errors.len() == 0),
    {
        self.validation_errors.len() == 0
    }

    /// The directory that the generated files go to.
    pub fn output_dir(&self) -> (r: &String)
        ensures
            r@ == self@.output_dir,
    {
        &self.output_dir
    }

    /// The path of the extension descriptor.
    pub fn gdextension_path(&self) -> (r: &String)
        ensures
            r@ == self@.gdextension_path,
    {
        &self.gdextension_path
    }

    /// The path of the project descriptor.
    pub fn project_godot_path(&self) -> (r: &String)
        ensures
            r@ == self@.project_godot_path,
    {
        &self.project_godot_path
    }

    /// Whether the project descriptor has been set and is there.
    pub fn project_godot_path_valid(&self) -> (r: bool)
        ensures
            r == self@.project_godot_path_valid,
    {
        self.project_godot_path_valid
    }

    /// The directory of the source files.
    pub fn source_path(&self) -> (r: &String)
        ensures
            r@ == self@.source_path,
    {
        &self.source_path
    }

    /// The directory that `res://` stands for.
    pub fn resource_path(&self) -> (r: &String)
        ensures
            r@ == self@.resource_path,
    {
        &self.resource_path
    }

    /// What is wrong with the settings, in the order of the calls.
    pub fn validation_errors(&self) -> (r: &Vec<String>)
        ensures
            texts_of(r@) == self@.validation_errors,
    {
        &self.validation_errors
    }

    /// Where the icons under each resource prefix are found.
    pub fn icon_sources(&self) -> (r: &StrMap<String>)
        ensures
            r@ == self@.icon_sources,
    {
        &self.icon_sources
    }

    /// Whether the constants of the actions are asked for.
    pub fn action_consts(&self) -> (r: bool)
        ensures
            r == self@.action_consts,
    {
        self.action_consts
    }

    /// Whether the invocations of the actions are asked for.
    pub fn action_invocations(&self) -> (r: bool)
        ensures
            r == self@.action_invocations,
    {
        self.action_invocations
    }
}

} // verus!
