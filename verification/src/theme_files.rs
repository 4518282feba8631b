//! The user's own themes, kept as folders in the application's data folder.
use vstd::prelude::*;

verus! {

/// A theme folder: its name, and whether it holds a manifest.
#[derive(Debug)]
pub struct UserThemeInfo {
    pub name: String,
    pub has_manifest: bool,
}

/// An entry of the themes folder on disk: its name, whether it is
/// a folder, and whether it holds a theme manifest.
#[derive(Debug)]
pub struct ThemeDirEntry {
    pub name: String,
    pub is_dir: bool,
    pub has_manifest: bool,
}

/// The themes that the entries of the themes folder hold: every folder, in
/// order, with its name and whether it has a manifest; other entries are
/// skipped.
pub open spec fn theme_list(entries: Seq<ThemeDirEntry>) -> Seq<(Seq<char>, bool)>
    decreases entries.len(),
{
    if entries.len() == 0 {
        Seq::empty()
    } else {
        let before = theme_list(entries.drop_last());
        let e = entries.last();
        if e.is_dir {
            before.push((e.name@, e.has_manifest))
        } else {
            before
        }
    }
}

/// The user's themes, out of the entries of the themes folder (see
/// `theme_list`).
pub fn list_user_themes(entries: &Vec<ThemeDirEntry>) -> (r: Vec<UserThemeInfo>)
    ensures
        r@.map_values(|t: UserThemeInfo| (t.name@, t.has_manifest)) == theme_list(entries@),
{
    let mut themes: Vec<UserThemeInfo> = Vec::new();
    let mut i: usize = 0;
    assert(entries@.take(0) =~= Seq::<ThemeDirEntry>::empty());
    assert(themes@.map_values(|t: UserThemeInfo| (t.name@, t.has_manifest)) =~= Seq::<(Seq<char>, bool)>::empty());
    while i < entries.len()
        invariant
            i <= entries.len(),
            themes@.map_values(|t: UserThemeInfo| (t.name@, t.has_manifest)) == theme_list(entries@.take(i as int)),
        decreases entries.len() - i,
    {
        assert(entries@.take(i + 1).drop_last() =~= entries@.take(i as int));
        assert(entries@.take(i + 1).last() == entries@[i as int]);
        let ghost before = themes@.map_values(|t: UserThemeInfo| (t.name@, t.has_manifest));
        if entries[i].is_dir {
            themes.push(UserThemeInfo { name: entries[i].name.clone(), has_manifest: entries[i].has_manifest });
            assert(themes@.map_values(|t: UserThemeInfo| (t.name@, t.has_manifest)) =~= before.push(
                (entries@[i as int].name@, entries@[i as int].has_manifest),
            ));
        }
        i = i + 1;
    }
    assert(entries@.take(entries.len() as int) =~= entries@);
    themes
}

} // verus!
