//! The text of the module list that names the generated modules.
use crate::text::texts_of;
use vstd::prelude::*;

verus! {

/// The name of the file that lists the generated modules.
pub const MOD_FILE: &'static str = "mod.rs";

/// The declarations of the modules, one line each; an empty name declares
/// none.
pub open spec fn mod_lines_of(mods: Seq<Seq<char>>) -> Seq<char>
    decreases mods.len(),
{
    if mods.len() == 0 {
        Seq::<char>::empty()
    } else if mods[0].len() == 0 {
        mod_lines_of(mods.drop_first())
    } else {
        "pub mod "@ + mods[0] + ";\n"@ + mod_lines_of(mods.drop_first())
    }
}

/// The text of the module list: a public declaration for each module that
/// has a name.
pub fn mod_file_content(mods: &Vec<String>) -> (r: String)
    ensures
        r@ == mod_lines_of(texts_of(mods@)),
{
    let ghost all = texts_of(mods@);
    let mut s = String::new();
    let mut i: usize = 0;
    assert(all.skip(0) =~= all);
    assert(s@ + mod_lines_of(all) =~= mod_lines_of(all));
    while i < mods.len()
        invariant
            i <= mods.len(),
            all == texts_of(mods@),
            mod_lines_of(all) == s@ + mod_lines_of(all.skip(i as int)),
        decreases mods.len() - i,
    {
        let ghost rest = all.skip(i as int);
        let ghost before = s@;
        assert(rest[0] == mods[i as int]@);
        assert(rest.drop_first() =~= all.skip(i + 1));
        if !mods[i].as_str().is_empty() {
            s.append("pub mod ");
            s.append(mods[i].as_str());
            s.append(";\n");
            assert(s@ + mod_lines_of(all.skip(i + 1)) =~= before + mod_lines_of(rest));
        }
        i += 1;
    }
    assert(all.skip(mods.len() as int).len() == 0);
    assert(s@ + Seq::<char>::empty() =~= s@);
    s
}

} // verus!
