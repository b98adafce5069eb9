//! The source text of the generated module of layer constants: one enum for
//! each group of layers, with the bit of each layer.
use crate::projectgodot::LayerNamesSection;
use crate::scalar::{parse_i32, parse_i32_of};
use crate::sorting::{lemma_sort_of_map, sort_by, sort_of};
use crate::text::{
    chars_to_string, compare_texts, integer_text_of, integer_to_string, join, join_of, lex_sign,
    replace, replace_of, split, split_of, str_to_chars, texts_of, views_of,
};
use crate::utils::{to_upper_camel_case, to_uppercase, upper_camel_case_of, uppercase_of};
use vstd::prelude::*;

verus! {

/// The name of the generated module.
pub const MOD_LAYERS: &'static str = "layer_consts";

/// The name of a group with its parts, which underscores divide, in reverse
/// order.
pub open spec fn reordered_of(group: Seq<char>) -> Seq<char> {
    join_of(split_of(group, '_').reverse(), "_"@)
}

/// Reverses the parts of a group's name, so that `2d_physics` becomes
/// `physics_2d` and the name no longer begins with a digit.
pub fn reorder_group_name(group: &str) -> (r: String)
    ensures
        r@ == reordered_of(group@),
{
    let chars = str_to_chars(group);
    let parts = split(&chars, '_');
    let ghost all = views_of(parts@);
    let mut reversed: Vec<String> = Vec::new();
    let n = parts.len();
    let mut i: usize = 0;
    while i < n
        invariant
            i <= n,
            n == parts.len(),
            all == views_of(parts@),
            reversed.len() == i,
            forall|k: int| 0 <= k < i ==> (#[trigger] reversed[k])@ == all[n - 1 - k],
        decreases n - i,
    {
        assert(all[n - 1 - i] == parts[n - 1 - i]@);
        reversed.push(chars_to_string(&parts[n - 1 - i]));
        i += 1;
    }
    assert(texts_of(reversed@) =~= all.reverse());
    join(&reversed, "_")
}

/// The two parts of a layer's key around its one slash, if it has exactly
/// one.
pub open spec fn key_parts_of(key: Seq<char>) -> Option<(Seq<char>, Seq<char>)> {
    let parts = split_of(key, '/');
    if parts.len() == 2 {
        Some((parts[0], parts[1]))
    } else {
        None
    }
}

/// The number of the layer that a key such as `2d_physics/layer_1` names:
/// what its second part writes once each `layer_` is taken out.
pub open spec fn layer_number_of(key: Seq<char>) -> Option<int> {
    match key_parts_of(key) {
        Some((_, index)) => parse_i32_of(replace_of(index, "layer_"@, Seq::<char>::empty())),
        None => None,
    }
}

/// The two parts of a layer's key around its one slash.
fn key_parts(key: &str) -> (r: Option<(String, String)>)
    ensures
        r is Some == key_parts_of(key@) is Some,
        r matches Some(p) ==> key_parts_of(key@) == Some((p.0@, p.1@)),
{
    let chars = str_to_chars(key);
    let parts = split(&chars, '/');
    assert(views_of(parts@).len() == parts.len());
    if parts.len() != 2 {
        return None;
    }
    assert(views_of(parts@)[0] == parts[0]@);
    assert(views_of(parts@)[1] == parts[1]@);
    Some((chars_to_string(&parts[0]), chars_to_string(&parts[1])))
}

/// The number of the layer that a key names, where it names one.
pub fn layer_number(key: &str) -> (r: Option<i32>)
    ensures
        r is Some == layer_number_of(key@) is Some,
        r matches Some(n) ==> layer_number_of(key@) == Some(n as int),
{
    match key_parts(key) {
        Some((_, index)) => {
            let digits = replace(index.as_str(), "layer_", "");
            proof {
                reveal_strlit("");
                assert(""@ =~= Seq::<char>::empty());
            }
            parse_i32(&str_to_chars(digits.as_str()))
        },
        None => None,
    }
}

/// The name in code of the group that a key names: the first part of the
/// key, its parts reversed, in upper camel case.
pub open spec fn group_name_of(key: Seq<char>) -> Seq<char> {
    match key_parts_of(key) {
        Some((first, _)) => upper_camel_case_of(reordered_of(first)),
        None => Seq::<char>::empty(),
    }
}

/// Takes a layer's key and name apart into the group's name in code, the
/// layer's number and the layer's name. `None` where the key does not have
/// exactly one slash. A key with one slash has to name a layer number.
pub fn extract_group_data(group: &str, name: &str) -> (r: Option<(String, i32, String)>)
    requires
        key_parts_of(group@) is Some ==> layer_number_of(group@) is Some,
    ensures
        r is Some == key_parts_of(group@) is Some,
        r matches Some(d) ==> d.0@ == group_name_of(group@) && layer_number_of(group@) == Some(
            d.1 as int,
        ) && d.2@ == name@,
{
    match key_parts(group) {
        Some((first, _)) => {
            let reordered = reorder_group_name(first.as_str());
            let group_name = to_upper_camel_case(reordered.as_str());
            let number = layer_number(group).unwrap();
            Some((group_name, number, name.to_owned()))
        },
        None => None,
    }
}

/// Two to the power of `n`.
pub open spec fn two_to(n: nat) -> nat
    decreases n,
{
    if n == 0 {
        1
    } else {
        2 * two_to((n - 1) as nat)
    }
}

/// The bit of the layer with the number `n` as a 32-bit signed integer: two
/// to the power of `n - 1`, which for the last layer is the sign bit.
pub open spec fn layer_bit_of(n: int) -> int {
    if n == 32 {
        -0x8000_0000
    } else {
        two_to((n - 1) as nat) as int
    }
}

/// The bit of the layer with the number `n`.
fn layer_bit(n: i32) -> (r: i64)
    requires
        1 <= n <= 32,
    ensures
        r == layer_bit_of(n as int),
{
    if n == 32 {
        return -0x8000_0000;
    }
    let mut v: i64 = 1;
    let mut i: i32 = 1;
    while i < n
        invariant
            1 <= i <= n <= 31,
            v == two_to((i - 1) as nat),
        decreases n - i,
    {
        proof {
            lemma_two_to_bound((i - 1) as nat, 30);
            lemma_two_to_values();
        }
        v = v * 2;
        i += 1;
    }
    v
}

/// The powers of two grow.
pub proof fn lemma_two_to_bound(a: nat, b: nat)
    requires
        a <= b,
    ensures
        two_to(a) <= two_to(b),
        a < b ==> 2 * two_to(a) <= two_to(b),
    decreases b,
{
    if a < b {
        lemma_two_to_bound(a, (b - 1) as nat);
    }
}

/// Two to the power of thirty.
pub proof fn lemma_two_to_values()
    ensures
        two_to(30) == 0x4000_0000,
{
    reveal_with_fuel(two_to, 31);
}

/// The line of one layer in its enum: the layer's label, with an underscore
/// for each blank, and its bit.
pub open spec fn layer_line_of(number: int, label: Seq<char>) -> Seq<char> {
    "    "@ + replace_of(label, " "@, "_"@) + " = "@ + integer_text_of(layer_bit_of(number))
        + ",\n"@
}

/// The lines of the layers, one after the other.
pub open spec fn layer_lines_of(layers: Seq<(i32, Seq<char>)>) -> Seq<char>
    decreases layers.len(),
{
    if layers.len() == 0 {
        Seq::<char>::empty()
    } else {
        layer_line_of(layers[0].0 as int, layers[0].1) + layer_lines_of(layers.drop_first())
    }
}

/// The layers as pairs of a number and a name's text.
pub open spec fn layer_views_of(v: Seq<(i32, String)>) -> Seq<(i32, Seq<char>)> {
    Seq::new(v.len(), |i: int| (v[i].0, v[i].1@))
}

/// The layers with each name in capitals by the Unicode rules.
pub open spec fn labelled_of(layers: Seq<(i32, Seq<char>)>) -> Seq<(i32, Seq<char>)> {
    Seq::new(layers.len(), |i: int| (layers[i].0, uppercase_of(layers[i].1)))
}

/// The enum of a group whose layers carry their labels: its derives, its
/// name and one line for each layer.
pub open spec fn group_enum_with(group: Seq<char>, layers: Seq<(i32, Seq<char>)>) -> Seq<char> {
    "#[derive(Debug, Clone, Copy, PartialEq, Eq, Hash)]\npub enum "@ + group + " {\n"@
        + layer_lines_of(layers) + "}\n"@
}

/// The enum of a group: its derives, its name and one line for each layer,
/// labelled with the layer's name in capitals.
pub open spec fn group_enum_of(group: Seq<char>, layers: Seq<(i32, Seq<char>)>) -> Seq<char> {
    group_enum_with(group, labelled_of(layers))
}

/// Whether each layer's number is one of the thirty-two that a layer mask
/// has.
pub open spec fn numbers_in_mask(layers: Seq<(i32, Seq<char>)>) -> bool {
    forall|i: int| 0 <= i < layers.len() ==> 1 <= (#[trigger] layers[i]).0 <= 32
}

/// Writes the enum of a group whose layers carry their labels. Each layer's
/// number is one of the thirty-two that a layer mask has.
pub fn format_group_with_labels(group: &str, layers: &Vec<(i32, String)>) -> (r: String)
    requires
        numbers_in_mask(layer_views_of(layers@)),
    ensures
        r@ == group_enum_with(group@, layer_views_of(layers@)),
{
    let ghost all = layer_views_of(layers@);
    let mut s = "#[derive(Debug, Clone, Copy, PartialEq, Eq, Hash)]\npub enum ".to_owned();
    s.append(group);
    s.append(" {\n");
    let ghost head = s@;
    let mut i: usize = 0;
    assert(all.skip(0) =~= all);
    assert(s@ + layer_lines_of(all) =~= head + layer_lines_of(all));
    while i < layers.len()
        invariant
            i <= layers.len(),
            all == layer_views_of(layers@),
            numbers_in_mask(all),
            head + layer_lines_of(all) == s@ + layer_lines_of(all.skip(i as int)),
        decreases layers.len() - i,
    {
        let ghost rest = all.skip(i as int);
        let ghost before = s@;
        assert(rest[0] == all[i as int]);
        assert(all[i as int] == (layers[i as int].0, layers[i as int].1@));
        assert(rest.drop_first() =~= all.skip(i + 1));
        let label = replace(layers[i].1.as_str(), " ", "_");
        let bit = integer_to_string(layer_bit(layers[i].0));
        s.append("    ");
        s.append(label.as_str());
        s.append(" = ");
        s.append(bit.as_str());
        s.append(",\n");
        assert(s@ =~= before + layer_line_of(layers[i as int].0 as int, layers[i as int].1@));
        assert(s@ + layer_lines_of(all.skip(i + 1)) =~= before + layer_lines_of(rest));
        i += 1;
    }
    assert(all.skip(layers.len() as int).len() == 0);
    assert(s@ + Seq::<char>::empty() =~= s@);
    s.append("}\n");
    s
}

/// Writes the enum of a group of layers, each labelled with its name in
/// capitals. Each layer's number is one of the thirty-two that a layer mask
/// has.
pub fn format_group_to_enum(group: &str, layers: &Vec<(i32, String)>) -> (r: String)
    requires
        numbers_in_mask(layer_views_of(layers@)),
    ensures
        r@ == group_enum_of(group@, layer_views_of(layers@)),
{
    let ghost all = layer_views_of(layers@);
    let mut labelled: Vec<(i32, String)> = Vec::new();
    let mut i: usize = 0;
    while i < layers.len()
        invariant
            i <= layers.len(),
            labelled.len() == i,
            all == layer_views_of(layers@),
            numbers_in_mask(all),
            forall|k: int|
                0 <= k < i ==> (#[trigger] labelled[k]).0 == layers[k].0 && labelled[k].1@
                    == uppercase_of(layers[k].1@),
        decreases layers.len() - i,
    {
        labelled.push((layers[i].0, to_uppercase(layers[i].1.as_str())));
        i += 1;
    }
    proof {
        assert(layer_views_of(labelled@) =~= labelled_of(all));
        assert forall|k: int| 0 <= k < labelled.len() implies 1 <= (#[trigger] layer_views_of(
            labelled@,
        )[k]).0 <= 32 by {
            assert(all[k].0 == layers[k].0);
        }
    }
    format_group_with_labels(group, &labelled)
}

/// One layer: the name in code of its group, its number, and its name.
pub type LayerView = (Seq<char>, i32, Seq<char>);

/// The views of a sequence of layers.
pub open spec fn layer_item_views_of(v: Seq<(String, i32, String)>) -> Seq<LayerView> {
    Seq::new(v.len(), |i: int| (v[i].0@, v[i].1, v[i].2@))
}

/// Whether a layer's key can be used: it has no slash or more than one, and
/// is passed over, or it names a layer number from one to thirty-two.
pub open spec fn is_usable_key(key: Seq<char>) -> bool {
    key_parts_of(key) is Some ==> layer_number_of(key) is Some && 1 <= layer_number_of(key)->0
        <= 32
}

/// Whether each of the entries has a key that can be used.
pub open spec fn all_usable(entries: Seq<(Seq<char>, Seq<char>)>) -> bool {
    forall|i: int| 0 <= i < entries.len() ==> is_usable_key((#[trigger] entries[i]).0)
}

/// The layers that the entries of a `[layer_names]` section name, in the
/// order of the entries; an entry whose key does not have exactly one slash
/// names none.
pub open spec fn layers_in(entries: Seq<(Seq<char>, Seq<char>)>) -> Seq<LayerView>
    decreases entries.len(),
{
    if entries.len() == 0 {
        seq![]
    } else {
        let rest = layers_in(entries.drop_first());
        if key_parts_of(entries[0].0) is Some {
            seq![
                (
                    group_name_of(entries[0].0),
                    layer_number_of(entries[0].0)->0 as i32,
                    entries[0].1,
                ),
            ] + rest
        } else {
            rest
        }
    }
}

/// Whether the layer `a` stands before the layer `b`, or at its place: its
/// group comes first in the dictionary, or the group is the same and its
/// number is not greater.
pub open spec fn layer_le(a: LayerView, b: LayerView) -> bool {
    lex_sign(a.0, b.0) < 0 || (lex_sign(a.0, b.0) == 0 && a.1 <= b.1)
}

/// The groups of layers: each group's name in code with the numbers and
/// names of its layers.
pub type GroupsView = Seq<(Seq<char>, Seq<(i32, Seq<char>)>)>;

/// The layers gathered into groups: a layer joins the group before it where
/// that has its group's name, and begins a new group otherwise.
pub open spec fn grouped_of(items: Seq<LayerView>) -> GroupsView
    decreases items.len(),
{
    if items.len() == 0 {
        seq![]
    } else {
        let before = grouped_of(items.drop_last());
        let x = items.last();
        if before.len() > 0 && before.last().0 == x.0 {
            before.drop_last().push((x.0, before.last().1.push((x.1, x.2))))
        } else {
            before.push((x.0, seq![(x.1, x.2)]))
        }
    }
}

/// The views of a sequence of groups.
pub open spec fn group_views_of(v: Seq<(String, Vec<(i32, String)>)>) -> GroupsView {
    Seq::new(v.len(), |i: int| (v[i].0@, layer_views_of(v[i].1@)))
}

/// The groups of the layers of a `[layer_names]` section: the layers in the
/// order of group and number, gathered into their groups.
pub open spec fn groups_of(entries: Seq<(Seq<char>, Seq<char>)>) -> GroupsView {
    grouped_of(sort_of(layers_in(entries), |a: LayerView, b: LayerView| layer_le(a, b)))
}

/// The enums of the groups, one for each.
pub open spec fn group_enums_of(groups: GroupsView) -> Seq<Seq<char>> {
    Seq::new(groups.len(), |i: int| group_enum_of(groups[i].0, groups[i].1))
}

/// The text of the module of layer constants: its head and the enums of the
/// groups in the order of the dictionary, with a line feed between each two.
pub open spec fn layers_text_of(groups: GroupsView) -> Seq<char> {
    "#![allow(dead_code)]\n\n"@ + join_of(
        sort_of(group_enums_of(groups), |a: Seq<char>, b: Seq<char>| lex_sign(a, b) <= 0),
        "\n"@,
    )
}

/// Whether each layer of each group has a number from one to thirty-two.
pub open spec fn all_in_mask(groups: GroupsView) -> bool {
    forall|i: int, j: int|
        0 <= i < groups.len() && 0 <= j < groups[i].1.len() ==> 1 <= (#[trigger] groups[i].1[j]).0
            <= 32
}

/// Whether each entry of the section has a key that can be used.
pub fn has_usable_keys(layers: &LayerNamesSection) -> (r: bool)
    ensures
        r == all_usable(layers@),
{
    let n = layers.layers.len();
    let mut i: usize = 0;
    while i < n
        invariant
            i <= n,
            n == layers@.len(),
            forall|k: int| 0 <= k < i ==> is_usable_key((#[trigger] layers@[k]).0),
        decreases n - i,
    {
        let e = layers.layers.entry(i);
        let usable = match key_parts(e.0.as_str()) {
            Some(_) => match layer_number(e.0.as_str()) {
                Some(number) => 1 <= number && number <= 32,
                None => false,
            },
            None => true,
        };
        if !usable {
            assert(!is_usable_key(layers@[i as int].0));
            return false;
        }
        i += 1;
    }
    true
}

/// The layers that the entries of the section name, in the order of the
/// entries.
fn collect_layers(layers: &LayerNamesSection) -> (r: Vec<(String, i32, String)>)
    requires
        all_usable(layers@),
    ensures
        layer_item_views_of(r@) == layers_in(layers@),
        forall|i: int| 0 <= i < r.len() ==> 1 <= (#[trigger] r[i]).1 <= 32,
{
    let ghost all = layers@;
    let mut out: Vec<(String, i32, String)> = Vec::new();
    let n = layers.layers.len();
    let mut i: usize = 0;
    assert(all.skip(0) =~= all);
    assert(layer_item_views_of(out@) + layers_in(all) =~= layers_in(all));
    while i < n
        invariant
            i <= n,
            n == all.len(),
            all == layers@,
            all_usable(all),
            layers_in(all) == layer_item_views_of(out@) + layers_in(all.skip(i as int)),
            forall|k: int| 0 <= k < out.len() ==> 1 <= (#[trigger] out[k]).1 <= 32,
        decreases n - i,
    {
        let ghost rest = all.skip(i as int);
        let ghost before = layer_item_views_of(out@);
        assert(rest[0] == all[i as int]);
        assert(rest.drop_first() =~= all.skip(i + 1));
        assert(is_usable_key(all[i as int].0));
        let e = layers.layers.entry(i);
        match extract_group_data(e.0.as_str(), e.1.as_str()) {
            Some(item) => {
                let ghost iv = (item.0@, item.1, item.2@);
                out.push(item);
                assert(layer_item_views_of(out@) =~= before + seq![iv]);
                assert(layer_item_views_of(out@) + layers_in(all.skip(i + 1)) =~= before
                    + layers_in(rest));
            },
            None => {},
        }
        i += 1;
    }
    assert(all.skip(n as int).len() == 0);
    assert(layer_item_views_of(out@) + Seq::<LayerView>::empty() =~= layer_item_views_of(out@));
    out
}

/// Gathers layers that stand in the order of their groups into the groups.
fn group_layers(items: Vec<(String, i32, String)>) -> (r: Vec<(String, Vec<(i32, String)>)>)
    ensures
        group_views_of(r@) == grouped_of(layer_item_views_of(items@)),
{
    let ghost all = layer_item_views_of(items@);
    let mut groups: Vec<(String, Vec<(i32, String)>)> = Vec::new();
    let mut i: usize = 0;
    assert(all.take(0) =~= Seq::<LayerView>::empty());
    assert(group_views_of(groups@) =~= grouped_of(all.take(0)));
    while i < items.len()
        invariant
            i <= items.len(),
            all == layer_item_views_of(items@),
            group_views_of(groups@) == grouped_of(all.take(i as int)),
        decreases items.len() - i,
    {
        let ghost prefix = all.take(i + 1);
        let ghost before = group_views_of(groups@);
        assert(prefix.drop_last() =~= all.take(i as int));
        assert(prefix.last() == (items[i as int].0@, items[i as int].1, items[i as int].2@));
        let number = items[i].1;
        let name = items[i].2.clone();
        let joins = groups.len() > 0 && groups[groups.len() - 1].0 == items[i].0;
        if joins {
            assert(before.last().0 == groups[groups.len() - 1].0@);
            let mut last = groups.pop().unwrap();
            let ghost members = layer_views_of(last.1@);
            last.1.push((number, name));
            assert(layer_views_of(last.1@) =~= members.push((number, name@)));
            groups.push(last);
            assert(group_views_of(groups@) =~= grouped_of(prefix));
        } else {
            if groups.len() > 0 {
                assert(before.last().0 == groups[groups.len() - 1].0@);
            }
            let mut members: Vec<(i32, String)> = Vec::new();
            members.push((number, name));
            assert(layer_views_of(members@) =~= seq![(number, name@)]);
            groups.push((items[i].0.clone(), members));
            assert(group_views_of(groups@) =~= grouped_of(prefix));
        }
        i += 1;
    }
    assert(all.take(items.len() as int) =~= all);
    groups
}

/// The numbers of the groups' layers are those of the layers.
proof fn lemma_grouped_in_mask(items: Seq<LayerView>)
    requires
        forall|i: int| 0 <= i < items.len() ==> 1 <= (#[trigger] items[i]).1 <= 32,
    ensures
        all_in_mask(grouped_of(items)),
    decreases items.len(),
{
    if items.len() > 0 {
        let head = items.drop_last();
        assert forall|i: int| 0 <= i < head.len() implies 1 <= (#[trigger] head[i]).1 <= 32 by {
            assert(head[i] == items[i]);
        }
        lemma_grouped_in_mask(head);
        let before = grouped_of(head);
        let x = items.last();
        assert(1 <= x.1 <= 32);
        let after = grouped_of(items);
        assert forall|i: int, j: int|
            0 <= i < after.len() && 0 <= j < after[i].1.len() implies 1 <= (
            #[trigger] after[i].1[j]).0 <= 32 by {
            if before.len() > 0 && before.last().0 == x.0 {
                if i < before.len() - 1 {
                    assert(after[i] == before[i]);
                    assert(1 <= before[i].1[j].0 <= 32);
                } else if j < before.last().1.len() {
                    assert(after[i].1[j] == before[before.len() - 1].1[j]);
                    assert(1 <= before[before.len() - 1].1[j].0 <= 32);
                }
            } else {
                if i < before.len() {
                    assert(after[i] == before[i]);
                    assert(1 <= before[i].1[j].0 <= 32);
                }
            }
        }
    }
}

/// The groups of the layers of a `[layer_names]` section. Each entry's key
/// can be used.
pub fn layer_groups(layers: &LayerNamesSection) -> (r: Vec<(String, Vec<(i32, String)>)>)
    requires
        all_usable(layers@),
    ensures
        group_views_of(r@) == groups_of(layers@),
        all_in_mask(group_views_of(r@)),
{
    let items = collect_layers(layers);
    let le = |a: &(String, i32, String), b: &(String, i32, String)| -> (o: bool)
        ensures
            o == layer_le((a.0@, a.1, a.2@), (b.0@, b.1, b.2@)),
        {
            let x = str_to_chars(a.0.as_str());
            let y = str_to_chars(b.0.as_str());
            let sign = compare_texts(&x, &y);
            sign < 0 || (sign == 0 && a.1 <= b.1)
        };
    let ghost rel_t = |a: (String, i32, String), b: (String, i32, String)|
        layer_le((a.0@, a.1, a.2@), (b.0@, b.1, b.2@));
    let ghost rel_u = |a: LayerView, b: LayerView| layer_le(a, b);
    let ghost f = |e: (String, i32, String)| (e.0@, e.1, e.2@);
    let ghost before = items@;
    let sorted = sort_by(items, le, Ghost(rel_t));
    proof {
        lemma_sort_of_map(before, f, rel_t, rel_u);
        assert(layer_item_views_of(before) =~= before.map_values(f));
        assert(layer_item_views_of(sorted@) =~= sorted@.map_values(f));
        let sv = layer_item_views_of(sorted@);
        crate::sorting::lemma_sort_of_permutes(layer_item_views_of(before), rel_u);
        assert forall|i: int| 0 <= i < sv.len() implies 1 <= (#[trigger] sv[i]).1 <= 32 by {
            let bv = layer_item_views_of(before);
            vstd::seq_lib::to_multiset_contains(sv, sv[i]);
            vstd::seq_lib::to_multiset_contains(bv, sv[i]);
            assert(sv.contains(sv[i]));
            let k = choose|k: int| 0 <= k < bv.len() && bv[k] == sv[i];
            assert(bv[k].1 == before[k].1);
        }
        lemma_grouped_in_mask(sv);
    }
    group_layers(sorted)
}

/// The text of the module of layer constants for the groups. Each layer's
/// number is one of the thirty-two that a layer mask has.
pub fn layers_file_content(groups: &Vec<(String, Vec<(i32, String)>)>) -> (r: String)
    requires
        all_in_mask(group_views_of(groups@)),
    ensures
        r@ == layers_text_of(group_views_of(groups@)),
{
    let mut rendered: Vec<String> = Vec::new();
    let mut i: usize = 0;
    while i < groups.len()
        invariant
            i <= groups.len(),
            rendered.len() == i,
            all_in_mask(group_views_of(groups@)),
            forall|k: int|
                0 <= k < i ==> (#[trigger] rendered[k])@ == group_enum_of(
                    groups[k].0@,
                    layer_views_of(groups[k].1@),
                ),
        decreases groups.len() - i,
    {
        proof {
            let gv = group_views_of(groups@);
            let members = layer_views_of(groups[i as int].1@);
            assert(gv[i as int].1 == members);
            assert forall|j: int| 0 <= j < members.len() implies 1 <= (#[trigger] members[j]).0
                <= 32 by {
                assert(1 <= gv[i as int].1[j].0 <= 32);
            }
        }
        rendered.push(format_group_to_enum(groups[i].0.as_str(), &groups[i].1));
        i += 1;
    }
    assert(texts_of(rendered@) =~= group_enums_of(group_views_of(groups@)));
    let sorted = crate::sorting::sort_texts(rendered);
    let joined = join(&sorted, "\n");
    let mut s = "#![allow(dead_code)]\n\n".to_owned();
    s.append(joined.as_str());
    s
}

/// The names of the modules that a run generates for the layers: the
/// module of layer constants where the project names layers, none where it
/// names none.
pub fn layer_modules(has_layers: bool) -> (r: Vec<String>)
    ensures
        texts_of(r@) == (if has_layers {
            seq![MOD_LAYERS@]
        } else {
            Seq::<Seq<char>>::empty()
        }),
{
    let mut mods: Vec<String> = Vec::new();
    if has_layers {
        mods.push(MOD_LAYERS.to_owned());
    }
    assert(texts_of(mods@) =~= (if has_layers {
        seq![MOD_LAYERS@]
    } else {
        Seq::<Seq<char>>::empty()
    }));
    mods
}

} // verus!
