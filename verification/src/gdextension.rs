//! The extension descriptor: a document with the sections `[configuration]`,
//! `[libraries]`, `[icons]` and `[dependencies]`.
use crate::scalar::{is_word_at, word_at};
use crate::sections::{
    check_header, collect_map, has_header, insert_all, is_significant, key_values_of,
    parse_key_values, sections_of, significant_lines, significant_lines_of, split_sections,
    text_of,
};
use crate::splitter::pair_views_of;
use crate::strmap::{map_of, with_entry, StrMap};
use crate::text::{
    chars_eq, chars_to_string, find, find_at, find_from, find_of, str_to_chars, strip_end,
    strip_end_of, subvec, trim, trim_matches, trim_matches_of, trim_of, views_of, CharClass,
};
use vstd::prelude::*;

verus! {

/// The text of `key="value"` lines that writes the entries, one line each.
pub open spec fn entry_lines_of(es: Seq<(Seq<char>, Seq<char>)>) -> Seq<char>
    decreases es.len(),
{
    if es.len() == 0 {
        Seq::<char>::empty()
    } else {
        es[0].0 + "=\""@ + es[0].1 + "\"\n"@ + entry_lines_of(es.drop_first())
    }
}

/// The header line and then one `key="value"` line for each entry.
fn write_map_section(header: &str, m: &StrMap<String>) -> (r: String)
    ensures
        r@ == header@ + entry_lines_of(m@),
{
    let mut s = header.to_owned();
    let n = m.len();
    let mut i: usize = 0;
    assert(m@.skip(0) =~= m@);
    while i < n
        invariant
            i <= n,
            n == m@.len(),
            header@ + entry_lines_of(m@) == s@ + entry_lines_of(m@.skip(i as int)),
        decreases n - i,
    {
        let ghost rest = m@.skip(i as int);
        let ghost before = s@;
        assert(rest[0] == m@[i as int]);
        assert(rest.drop_first() =~= m@.skip(i + 1));
        let e = m.entry(i);
        s.append(e.0.as_str());
        s.append("=\"");
        s.append(e.1.as_str());
        s.append("\"\n");
        assert(s@ + entry_lines_of(m@.skip(i + 1)) =~= before + entry_lines_of(rest));
        i += 1;
    }
    assert(m@.skip(n as int).len() == 0);
    assert(s@ + Seq::<char>::empty() =~= s@);
    s
}

/// The `[configuration]` section.
pub struct ConfigurationSection {
    pub entry_symbol: Option<String>,
    pub compatibility_minimum: Option<String>,
    pub compatibility_maximum: Option<String>,
    pub reloadable: Option<bool>,
    pub android_aar_plugin: Option<bool>,
}

/// The mathematical model of a [`ConfigurationSection`].
pub ghost struct ConfigurationView {
    pub entry_symbol: Option<Seq<char>>,
    pub compatibility_minimum: Option<Seq<char>>,
    pub compatibility_maximum: Option<Seq<char>>,
    pub reloadable: Option<bool>,
    pub android_aar_plugin: Option<bool>,
}

impl View for ConfigurationSection {
    type V = ConfigurationView;

    open spec fn view(&self) -> ConfigurationView {
        ConfigurationView {
            entry_symbol: text_of(self.entry_symbol),
            compatibility_minimum: text_of(self.compatibility_minimum),
            compatibility_maximum: text_of(self.compatibility_maximum),
            reloadable: self.reloadable,
            android_aar_plugin: self.android_aar_plugin,
        }
    }
}

/// A configuration in which nothing is set.
pub open spec fn empty_configuration() -> ConfigurationView {
    ConfigurationView {
        entry_symbol: None,
        compatibility_minimum: None,
        compatibility_maximum: None,
        reloadable: None,
        android_aar_plugin: None,
    }
}

/// Whether a value writes `true`, in any mix of cases.
pub open spec fn is_true_word(v: Seq<char>) -> bool {
    is_word_at(v, 0, "true"@)
}

/// The configuration after the key `k` has been given the value `v`; a key
/// that the section does not know changes nothing.
pub open spec fn configuration_step(
    c: ConfigurationView,
    k: Seq<char>,
    v: Seq<char>,
) -> ConfigurationView {
    if k == "entry_symbol"@ {
        ConfigurationView { entry_symbol: Some(v), ..c }
    } else if k == "compatibility.minimum"@ {
        ConfigurationView { compatibility_minimum: Some(v), ..c }
    } else if k == "compatibility.maximum"@ {
        ConfigurationView { compatibility_maximum: Some(v), ..c }
    } else if k == "reloadable"@ {
        ConfigurationView { reloadable: Some(is_true_word(v)), ..c }
    } else if k == "android.aar_plugin"@ {
        ConfigurationView { android_aar_plugin: Some(is_true_word(v)), ..c }
    } else {
        c
    }
}

/// The configuration after all the pairs, in order.
pub open spec fn configuration_fold(
    c: ConfigurationView,
    pairs: Seq<(Seq<char>, Seq<char>)>,
) -> ConfigurationView
    decreases pairs.len(),
{
    if pairs.len() == 0 {
        c
    } else {
        configuration_fold(configuration_step(c, pairs[0].0, pairs[0].1), pairs.drop_first())
    }
}

/// The configuration that a section's text holds; `None` where the text is
/// not headed `[configuration]`.
pub open spec fn configuration_of(content: Seq<char>) -> Option<ConfigurationView> {
    if has_header(content, "[configuration]"@) {
        Some(configuration_fold(empty_configuration(), key_values_of(content, false)))
    } else {
        None
    }
}

/// The text of an optional field whose value stands in double quotes.
pub open spec fn quoted_field_of(label: Seq<char>, v: Option<Seq<char>>) -> Seq<char> {
    match v {
        Some(t) => label + t + "\""@,
        None => Seq::<char>::empty(),
    }
}

/// The text of an optional boolean field.
pub open spec fn bool_field_of(label: Seq<char>, v: Option<bool>) -> Seq<char> {
    match v {
        Some(b) => label + (if b {
            "true"@
        } else {
            "false"@
        }),
        None => Seq::<char>::empty(),
    }
}

/// The text that writes a configuration: the header, one line for each field
/// that is set, and a line feed.
pub open spec fn configuration_text_of(c: ConfigurationView) -> Seq<char> {
    "[configuration]"@ + quoted_field_of("\nentry_symbol=\""@, c.entry_symbol) + quoted_field_of(
        "\ncompatibility.minimum=\""@,
        c.compatibility_minimum,
    ) + quoted_field_of("\ncompatibility.maximum=\""@, c.compatibility_maximum) + bool_field_of(
        "\nreloadable="@,
        c.reloadable,
    ) + bool_field_of("\nandroid.aar_plugin="@, c.android_aar_plugin) + "\n"@
}

/// Appends an optional field whose value stands in double quotes.
fn append_quoted_field(s: &mut String, label: &str, v: &Option<String>)
    ensures
        final(s)@ == old(s)@ + quoted_field_of(label@, text_of(*v)),
{
    match v {
        Some(t) => {
            s.append(label);
            s.append(t.as_str());
            s.append("\"");
            assert(s@ =~= old(s)@ + quoted_field_of(label@, text_of(*v)));
        },
        None => {
            assert(s@ =~= old(s)@ + quoted_field_of(label@, text_of(*v)));
        },
    }
}

/// Appends an optional boolean field.
fn append_bool_field(s: &mut String, label: &str, v: &Option<bool>)
    ensures
        final(s)@ == old(s)@ + bool_field_of(label@, *v),
{
    match v {
        Some(b) => {
            s.append(label);
            if *b {
                s.append("true");
            } else {
                s.append("false");
            }
            assert(s@ =~= old(s)@ + bool_field_of(label@, *v));
        },
        None => {
            assert(s@ =~= old(s)@ + bool_field_of(label@, *v));
        },
    }
}

impl ConfigurationSection {
    /// Parses a `[configuration]` section.
    pub fn parse(content: &str) -> (r: Option<ConfigurationSection>)
        ensures
            r is Some == configuration_of(content@) is Some,
            r matches Some(c) ==> configuration_of(content@) == Some(c@),
    {
        let chars = str_to_chars(content);
        Self::parse_chars(&chars)
    }

    /// Parses the section from its characters.
    pub fn parse_chars(chars: &Vec<char>) -> (r: Option<ConfigurationSection>)
        ensures
            r is Some == configuration_of(chars@) is Some,
            r matches Some(c) ==> configuration_of(chars@) == Some(c@),
    {
        if !check_header(chars, "[configuration]") {
            return None;
        }
        let pairs = parse_key_values(chars, false);
        let mut c = ConfigurationSection {
            entry_symbol: None,
            compatibility_minimum: None,
            compatibility_maximum: None,
            reloadable: None,
            android_aar_plugin: None,
        };
        let ghost all = pair_views_of(pairs@);
        let mut i: usize = 0;
        assert(all.skip(0) =~= all);
        while i < pairs.len()
            invariant
                i <= pairs.len(),
                all == pair_views_of(pairs@),
                configuration_fold(empty_configuration(), all) == configuration_fold(
                    c@,
                    all.skip(i as int),
                ),
            decreases pairs.len() - i,
        {
            let ghost rest = all.skip(i as int);
            assert(rest[0] == (pairs[i as int].0@, pairs[i as int].1@));
            assert(rest.drop_first() =~= all.skip(i + 1));
            let key = &pairs[i].0;
            let value = &pairs[i].1;
            if chars_eq(key, "entry_symbol") {
                c.entry_symbol = Some(chars_to_string(value));
            } else if chars_eq(key, "compatibility.minimum") {
                c.compatibility_minimum = Some(chars_to_string(value));
            } else if chars_eq(key, "compatibility.maximum") {
                c.compatibility_maximum = Some(chars_to_string(value));
            } else if chars_eq(key, "reloadable") {
                c.reloadable = Some(word_at(value, 0, "true"));
            } else if chars_eq(key, "android.aar_plugin") {
                c.android_aar_plugin = Some(word_at(value, 0, "true"));
            }
            i += 1;
        }
        assert(all.skip(pairs.len() as int).len() == 0);
        Some(c)
    }

    /// Writes the section as text.
    pub fn to_string(&self) -> (r: String)
        ensures
            r@ == configuration_text_of(self@),
    {
        let mut s = "[configuration]".to_owned();
        append_quoted_field(&mut s, "\nentry_symbol=\"", &self.entry_symbol);
        append_quoted_field(&mut s, "\ncompatibility.minimum=\"", &self.compatibility_minimum);
        append_quoted_field(&mut s, "\ncompatibility.maximum=\"", &self.compatibility_maximum);
        append_bool_field(&mut s, "\nreloadable=", &self.reloadable);
        append_bool_field(&mut s, "\nandroid.aar_plugin=", &self.android_aar_plugin);
        s.append("\n");
        s
    }
}

/// The `[libraries]` section: the path of the library for each platform key.
pub struct LibrariesSection {
    pub libraries: StrMap<String>,
}

impl View for LibrariesSection {
    type V = Seq<(Seq<char>, Seq<char>)>;

    open spec fn view(&self) -> Seq<(Seq<char>, Seq<char>)> {
        self.libraries@
    }
}

/// The entries that a `[libraries]` section holds; `None` where the text is
/// not headed `[libraries]`.
pub open spec fn libraries_of(content: Seq<char>) -> Option<Seq<(Seq<char>, Seq<char>)>> {
    if has_header(content, "[libraries]"@) {
        Some(insert_all(seq![], key_values_of(content, false)))
    } else {
        None
    }
}

impl LibrariesSection {
    /// Parses a `[libraries]` section.
    pub fn parse(content: &str) -> (r: Option<LibrariesSection>)
        ensures
            r is Some == libraries_of(content@) is Some,
            r matches Some(c) ==> libraries_of(content@) == Some(c@),
    {
        let chars = str_to_chars(content);
        Self::parse_chars(&chars)
    }

    /// Parses the section from its characters.
    pub fn parse_chars(chars: &Vec<char>) -> (r: Option<LibrariesSection>)
        ensures
            r is Some == libraries_of(chars@) is Some,
            r matches Some(c) ==> libraries_of(chars@) == Some(c@),
    {
        if !check_header(chars, "[libraries]") {
            return None;
        }
        let pairs = parse_key_values(chars, false);
        Some(LibrariesSection { libraries: collect_map(&pairs) })
    }

    /// Writes the section as text: the header and one line for each entry.
    pub fn to_string(&self) -> (r: String)
        ensures
            r@ == "[libraries]\n"@ + entry_lines_of(self@),
    {
        write_map_section("[libraries]\n", &self.libraries)
    }
}

/// The `[icons]` section: the path of the icon for each class name.
pub struct IconsSection {
    /// The section's name, `icons`.
    pub name: String,
    pub icons: StrMap<String>,
}

impl View for IconsSection {
    type V = Seq<(Seq<char>, Seq<char>)>;

    open spec fn view(&self) -> Seq<(Seq<char>, Seq<char>)> {
        self.icons@
    }
}

/// The entries that an `[icons]` section holds; `None` where the text is not
/// headed `[icons]`.
pub open spec fn icons_of(content: Seq<char>) -> Option<Seq<(Seq<char>, Seq<char>)>> {
    if has_header(content, "[icons]"@) {
        Some(insert_all(seq![], key_values_of(content, true)))
    } else {
        None
    }
}

impl IconsSection {
    /// Parses an `[icons]` section.
    pub fn parse(content: &str) -> (r: Option<IconsSection>)
        ensures
            r is Some == icons_of(content@) is Some,
            r matches Some(c) ==> icons_of(content@) == Some(c@) && c.name@ == "icons"@,
    {
        let chars = str_to_chars(content);
        Self::parse_chars(&chars)
    }

    /// Parses the section from its characters.
    pub fn parse_chars(chars: &Vec<char>) -> (r: Option<IconsSection>)
        ensures
            r is Some == icons_of(chars@) is Some,
            r matches Some(c) ==> icons_of(chars@) == Some(c@) && c.name@ == "icons"@,
    {
        if !check_header(chars, "[icons]") {
            return None;
        }
        let pairs = parse_key_values(chars, true);
        Some(IconsSection { name: "icons".to_owned(), icons: collect_map(&pairs) })
    }

    /// Writes the section as text: the header and one line for each entry.
    pub fn to_string(&self) -> (r: String)
        ensures
            r@ == "[icons]\n"@ + entry_lines_of(self@),
    {
        write_map_section("[icons]\n", &self.icons)
    }
}

/// The `[dependencies]` section: for each platform key, the install path of
/// each dependency.
pub struct DependenciesSection {
    pub dependencies: StrMap<StrMap<String>>,
}

/// The mathematical model of the dependencies: for each platform key, in the
/// order of their first coming, the entries of its block.
pub type DependenciesView = Seq<(Seq<char>, Seq<(Seq<char>, Seq<char>)>)>;

impl View for DependenciesSection {
    type V = DependenciesView;

    open spec fn view(&self) -> DependenciesView {
        self.dependencies@
    }
}

/// Where the parser of the dependencies stands between two lines.
pub ghost struct DependenciesState {
    pub deps: DependenciesView,
    /// The platform whose block is open, if one is.
    pub current: Option<Seq<char>>,
    /// Whether the header of another section has been met.
    pub stopped: bool,
}

/// One side of a dependency entry: the text between its double quotes. The
/// side is trimmed, loses the commas at its end, which only separate the
/// member lines, is trimmed again, and loses the double quotes at its ends.
pub open spec fn entry_side_of(x: Seq<char>) -> Seq<char> {
    trim_matches_of(trim_of(strip_end_of(trim_of(x), CharClass::Only(','))), '"')
}

/// The source path and the install path on a line that holds ` : ` exactly
/// once.
pub open spec fn dependency_entry_of(line: Seq<char>) -> Option<(Seq<char>, Seq<char>)> {
    let sep = " : "@;
    let i = find_of(line, sep);
    if 0 <= i < line.len() && find_from(line, i + sep.len(), sep) >= line.len() {
        Some((entry_side_of(line.take(i)), entry_side_of(line.skip(i + sep.len()))))
    } else {
        None
    }
}

/// The state after one line that counts. The header of another section ends
/// the parsing. A line with ` = {` opens the block of the platform named
/// before it, which begins empty; a line `}` closes the open block; inside a
/// block a line with one ` : ` adds an entry to it.
pub open spec fn dependencies_step(st: DependenciesState, line: Seq<char>) -> DependenciesState {
    let open = " = {"@;
    if st.stopped {
        st
    } else if line.len() > 0 && line[0] == '[' && line != "[dependencies]"@ {
        DependenciesState { stopped: true, ..st }
    } else if find_of(line, open) < line.len() {
        let platform = trim_of(line.take(find_of(line, open)));
        DependenciesState {
            deps: with_entry(st.deps, platform, seq![]),
            current: Some(platform),
            stopped: false,
        }
    } else if line == "}"@ {
        DependenciesState { current: None, ..st }
    } else if st.current is Some && find_of(line, " : "@) < line.len() && map_of(
        st.deps,
    ).dom().contains(st.current->0) {
        match dependency_entry_of(line) {
            Some((k, v)) => DependenciesState {
                deps: with_entry(
                    st.deps,
                    st.current->0,
                    with_entry(map_of(st.deps)[st.current->0], k, v),
                ),
                ..st
            },
            None => st,
        }
    } else {
        st
    }
}

/// The state after all the lines, in order.
pub open spec fn dependencies_fold(st: DependenciesState, ls: Seq<Seq<char>>) -> DependenciesState
    decreases ls.len(),
{
    if ls.len() == 0 {
        st
    } else {
        dependencies_fold(dependencies_step(st, ls[0]), ls.drop_first())
    }
}

/// The dependencies that a section's text holds; `None` where the text is
/// not headed `[dependencies]`.
pub open spec fn dependencies_of(content: Seq<char>) -> Option<DependenciesView> {
    if has_header(content, "[dependencies]"@) {
        Some(
            dependencies_fold(
                DependenciesState { deps: seq![], current: None, stopped: false },
                significant_lines_of(content),
            ).deps,
        )
    } else {
        None
    }
}

/// The lines that write the entries of one platform's block.
pub open spec fn dependency_lines_of(es: Seq<(Seq<char>, Seq<char>)>) -> Seq<char>
    decreases es.len(),
{
    if es.len() == 0 {
        Seq::<char>::empty()
    } else {
        "    \""@ + es[0].0 + "\" : \""@ + es[0].1 + "\"\n"@ + dependency_lines_of(es.drop_first())
    }
}

/// The blocks that write the platforms, one after the other.
pub open spec fn dependency_blocks_of(ps: DependenciesView) -> Seq<char>
    decreases ps.len(),
{
    if ps.len() == 0 {
        Seq::<char>::empty()
    } else {
        ps[0].0 + " = {\n"@ + dependency_lines_of(ps[0].1) + "}\n"@ + dependency_blocks_of(
            ps.drop_first(),
        )
    }
}

/// The source path and the install path on a line that holds ` : ` exactly
/// once.
fn parse_dependency_entry(line: &Vec<char>) -> (r: Option<(Vec<char>, Vec<char>)>)
    ensures
        r is Some == dependency_entry_of(line@) is Some,
        r matches Some(p) ==> dependency_entry_of(line@) == Some((p.0@, p.1@)),
{
    let sep = str_to_chars(" : ");
    let i = find_at(line, 0, &sep);
    if i >= line.len() {
        return None;
    }
    proof {
        crate::text::lemma_find_from(line@, 0, sep@);
    }
    let after = i + sep.len();
    if find_at(line, after, &sep) < line.len() {
        return None;
    }
    let left = subvec(line, 0, i);
    let right = subvec(line, after, line.len());
    assert(right@ =~= line@.skip(after as int));
    let k = trim_matches(&trim(&strip_end(&trim(&left), CharClass::Only(','))), '"');
    let v = trim_matches(&trim(&strip_end(&trim(&right), CharClass::Only(','))), '"');
    Some((k, v))
}

/// Appends the lines that write the entries of one platform's block.
fn append_dependency_lines(s: &mut String, m: &StrMap<String>)
    ensures
        final(s)@ == old(s)@ + dependency_lines_of(m@),
{
    let n = m.len();
    let mut i: usize = 0;
    assert(m@.skip(0) =~= m@);
    while i < n
        invariant
            i <= n,
            n == m@.len(),
            old(s)@ + dependency_lines_of(m@) == s@ + dependency_lines_of(m@.skip(i as int)),
        decreases n - i,
    {
        let ghost rest = m@.skip(i as int);
        let ghost before = s@;
        assert(rest[0] == m@[i as int]);
        assert(rest.drop_first() =~= m@.skip(i + 1));
        let e = m.entry(i);
        s.append("    \"");
        s.append(e.0.as_str());
        s.append("\" : \"");
        s.append(e.1.as_str());
        s.append("\"\n");
        assert(s@ + dependency_lines_of(m@.skip(i + 1)) =~= before + dependency_lines_of(rest));
        i += 1;
    }
    assert(m@.skip(n as int).len() == 0);
    assert(s@ + Seq::<char>::empty() =~= s@);
}

impl DependenciesSection {
    /// Parses a `[dependencies]` section.
    pub fn parse(content: &str) -> (r: Option<DependenciesSection>)
        ensures
            r is Some == dependencies_of(content@) is Some,
            r matches Some(c) ==> dependencies_of(content@) == Some(c@),
    {
        let chars = str_to_chars(content);
        Self::parse_chars(&chars)
    }

    /// Parses the section from its characters.
    pub fn parse_chars(chars: &Vec<char>) -> (r: Option<DependenciesSection>)
        ensures
            r is Some == dependencies_of(chars@) is Some,
            r matches Some(c) ==> dependencies_of(chars@) == Some(c@),
    {
        if !check_header(chars, "[dependencies]") {
            return None;
        }
        let ls = significant_lines(chars);
        let ghost all = views_of(ls@);
        let ghost start = DependenciesState { deps: seq![], current: None, stopped: false };
        let mut deps: StrMap<StrMap<String>> = StrMap::new();
        let mut current: Option<String> = None;
        let mut stopped = false;
        let mut i: usize = 0;
        assert(all.skip(0) =~= all);
        while i < ls.len()
            invariant
                i <= ls.len(),
                all == views_of(ls@),
                forall|k: int| 0 <= k < ls.len() ==> is_significant(#[trigger] ls[k]@),
                dependencies_fold(start, all) == dependencies_fold(
                    DependenciesState { deps: deps@, current: text_of(current), stopped },
                    all.skip(i as int),
                ),
            decreases ls.len() - i,
        {
            let ghost rest = all.skip(i as int);
            let ghost st = DependenciesState { deps: deps@, current: text_of(current), stopped };
            assert(rest[0] == ls[i as int]@);
            assert(rest.drop_first() =~= all.skip(i + 1));
            let line = &ls[i];
            assert(is_significant(line@));
            if stopped {
            } else if line[0] == '[' && !chars_eq(line, "[dependencies]") {
                stopped = true;
            } else {
                let at = find(line, " = {");
                if at < line.len() {
                    let platform = chars_to_string(&trim(&subvec(line, 0, at)));
                    deps.insert(platform.as_str(), StrMap::new());
                    current = Some(platform);
                } else if chars_eq(line, "}") {
                    current = None;
                } else if current.is_some() && find(line, " : ") < line.len() {
                    let name = current.unwrap();
                    if deps.contains_key(name.as_str()) {
                        match parse_dependency_entry(line) {
                            Some((k, v)) => {
                                let ghost before = deps@;
                                let key = chars_to_string(&k);
                                let value = chars_to_string(&v);
                                let taken = deps.insert(name.as_str(), StrMap::new());
                                let mut block = taken.unwrap();
                                block.insert(key.as_str(), value);
                                deps.insert(name.as_str(), block);
                                proof {
                                    crate::strmap::lemma_with_entry_twice(
                                        before,
                                        name@,
                                        seq![],
                                        block@,
                                    );
                                }
                            },
                            None => {},
                        }
                    }
                    current = Some(name);
                }
            }
            assert(DependenciesState { deps: deps@, current: text_of(current), stopped }
                == dependencies_step(st, ls[i as int]@));
            i += 1;
        }
        assert(all.skip(ls.len() as int).len() == 0);
        Some(DependenciesSection { dependencies: deps })
    }

    /// Writes the section as text: the header and one block for each
    /// platform.
    pub fn to_string(&self) -> (r: String)
        ensures
            r@ == "[dependencies]\n"@ + dependency_blocks_of(self@),
    {
        let mut s = "[dependencies]\n".to_owned();
        let m = &self.dependencies;
        let n = m.len();
        let mut i: usize = 0;
        assert(m@.skip(0) =~= m@);
        while i < n
            invariant
                i <= n,
                n == m@.len(),
                "[dependencies]\n"@ + dependency_blocks_of(m@) == s@ + dependency_blocks_of(
                    m@.skip(i as int),
                ),
            decreases n - i,
        {
            let ghost rest = m@.skip(i as int);
            let ghost before = s@;
            assert(rest[0] == m@[i as int]);
            assert(rest.drop_first() =~= m@.skip(i + 1));
            let e = m.entry(i);
            s.append(e.0.as_str());
            s.append(" = {\n");
            append_dependency_lines(&mut s, e.1);
            s.append("}\n");
            assert(s@ + dependency_blocks_of(m@.skip(i + 1)) =~= before + dependency_blocks_of(
                rest,
            ));
            i += 1;
        }
        assert(m@.skip(n as int).len() == 0);
        assert(s@ + Seq::<char>::empty() =~= s@);
        s
    }
}

/// An extension descriptor: each of its sections, where the document has it.
pub struct Gdextension {
    pub configuration: Option<ConfigurationSection>,
    pub libraries: Option<LibrariesSection>,
    pub icons: Option<IconsSection>,
    pub dependencies: Option<DependenciesSection>,
}

/// The mathematical model of a [`Gdextension`].
pub ghost struct GdextensionView {
    pub configuration: Option<ConfigurationView>,
    pub libraries: Option<Seq<(Seq<char>, Seq<char>)>>,
    pub icons: Option<Seq<(Seq<char>, Seq<char>)>>,
    pub dependencies: Option<DependenciesView>,
}

impl View for Gdextension {
    type V = GdextensionView;

    open spec fn view(&self) -> GdextensionView {
        GdextensionView {
            configuration: match self.configuration {
                Some(c) => Some(c@),
                None => None,
            },
            libraries: match self.libraries {
                Some(c) => Some(c@),
                None => None,
            },
            icons: match self.icons {
                Some(c) => Some(c@),
                None => None,
            },
            dependencies: match self.dependencies {
                Some(c) => Some(c@),
                None => None,
            },
        }
    }
}

/// A descriptor without sections.
pub open spec fn empty_gdextension() -> GdextensionView {
    GdextensionView { configuration: None, libraries: None, icons: None, dependencies: None }
}

/// The descriptor after one section: the first kind whose header the section
/// has takes it, and replaces an earlier section of that kind; a section of
/// no known kind is dropped.
pub open spec fn gdextension_step(doc: GdextensionView, section: Seq<char>) -> GdextensionView {
    if configuration_of(section) is Some {
        GdextensionView { configuration: configuration_of(section), ..doc }
    } else if libraries_of(section) is Some {
        GdextensionView { libraries: libraries_of(section), ..doc }
    } else if icons_of(section) is Some {
        GdextensionView { icons: icons_of(section), ..doc }
    } else if dependencies_of(section) is Some {
        GdextensionView { dependencies: dependencies_of(section), ..doc }
    } else {
        doc
    }
}

/// The descriptor after all the sections, in order.
pub open spec fn gdextension_fold(doc: GdextensionView, sections: Seq<Seq<char>>) -> GdextensionView
    decreases sections.len(),
{
    if sections.len() == 0 {
        doc
    } else {
        gdextension_fold(gdextension_step(doc, sections[0]), sections.drop_first())
    }
}

/// The descriptor that a document holds.
pub open spec fn gdextension_of(content: Seq<char>) -> GdextensionView {
    gdextension_fold(empty_gdextension(), sections_of(content))
}

impl Gdextension {
    /// A descriptor without sections.
    pub fn new() -> (r: Self)
        ensures
            r@ == empty_gdextension(),
    {
        Gdextension { configuration: None, libraries: None, icons: None, dependencies: None }
    }

    /// Parses an extension descriptor. The document is cut at its section
    /// headers, and each section goes to the parser of its kind.
    pub fn parse_from_str(content: &str) -> (r: Gdextension)
        ensures
            r@ == gdextension_of(content@),
    {
        let chars = str_to_chars(content);
        let split = split_sections(&chars);
        let sections = split.sections;
        let ghost all = views_of(sections@);
        let mut doc = Gdextension::new();
        let mut i: usize = 0;
        assert(all.skip(0) =~= all);
        while i < sections.len()
            invariant
                i <= sections.len(),
                all == views_of(sections@),
                gdextension_fold(empty_gdextension(), all) == gdextension_fold(
                    doc@,
                    all.skip(i as int),
                ),
            decreases sections.len() - i,
        {
            let ghost rest = all.skip(i as int);
            assert(rest[0] == sections[i as int]@);
            assert(rest.drop_first() =~= all.skip(i + 1));
            let section = &sections[i];
            if let Some(c) = ConfigurationSection::parse_chars(section) {
                doc.configuration = Some(c);
            } else if let Some(c) = LibrariesSection::parse_chars(section) {
                doc.libraries = Some(c);
            } else if let Some(c) = IconsSection::parse_chars(section) {
                doc.icons = Some(c);
            } else if let Some(c) = DependenciesSection::parse_chars(section) {
                doc.dependencies = Some(c);
            }
            i += 1;
        }
        assert(all.skip(sections.len() as int).len() == 0);
        doc
    }
}

} // verus!
