//! The directories where applications keep their data.
use crate::path::{joined, pieces, split_paths, FilePath, COLON};
use vstd::prelude::*;
use vstd::utf8::encode_utf8;

verus! {

/// The part of the environment that names directories.
#[derive(Debug)]
pub struct Environment {
    /// `HOME`.
    pub home: Option<FilePath>,
    /// `XDG_DATA_HOME`.
    pub data_home: Option<FilePath>,
    /// `XDG_DATA_DIRS`.
    pub data_dirs: Option<FilePath>,
}

/// The paths as bytes.
pub open spec fn path_views(paths: Seq<FilePath>) -> Seq<Seq<u8>> {
    paths.map_values(|path: FilePath| path@)
}

/// The directory of the user's data.
pub open spec fn user_dirs(env: Environment) -> Seq<Seq<u8>> {
    match (env.data_home, env.home) {
        (Some(data_home), _) => seq![data_home@],
        (None, Some(home)) => seq![joined(home@, encode_utf8(".local/share"@))],
        (None, None) => Seq::empty(),
    }
}

/// The directories of the system's data.
pub open spec fn system_dirs(env: Environment) -> Seq<Seq<u8>> {
    match env.data_dirs {
        Some(data_dirs) => pieces(data_dirs@, COLON),
        None => seq![encode_utf8("/usr/local/share"@), encode_utf8("/usr/share"@)],
    }
}

/// The data directories for a child folder: that of the user, then those of the system.
pub open spec fn dirs_for(env: Environment, child: Seq<char>) -> Seq<Seq<u8>> {
    (user_dirs(env) + system_dirs(env)).map_values(
        |dir: Seq<u8>| joined(dir, encode_utf8(child)),
    )
}

/// Builds ordered data directories for a child folder such as `applications` or `icons`.
pub fn data_dirs(env: &Environment, child: &str) -> (dirs: Vec<FilePath>)
    ensures
        path_views(dirs@) == dirs_for(*env, child@),
{
    let ghost name = encode_utf8(child@);
    let child_path = FilePath::from_text(child);
    let mut dirs: Vec<FilePath> = Vec::new();

    if let Some(data_home) = &env.data_home {
        dirs.push(data_home.join(&child_path));
    } else if let Some(home) = &env.home {
        let share = FilePath::from_text(".local/share");
        dirs.push(home.join(&share).join(&child_path));
    }
    let ghost user = user_dirs(*env);
    assert(path_views(dirs@) =~= user.map_values(|dir: Seq<u8>| joined(dir, name)));

    let bases: Vec<FilePath> = match &env.data_dirs {
        Some(data_dirs) => split_paths(data_dirs),
        None => {
            let mut bases: Vec<FilePath> = Vec::new();
            bases.push(FilePath::from_text("/usr/local/share"));
            bases.push(FilePath::from_text("/usr/share"));
            bases
        },
    };
    let ghost system = system_dirs(*env);
    assert(path_views(bases@) =~= system);
    let mut i: usize = 0;
    assert(user + system.take(0) =~= user);
    while i < bases.len()
        invariant
            i <= bases.len(),
            path_views(bases@) == system,
            child_path@ == name,
            path_views(dirs@) == (user + system.take(i as int)).map_values(
                |dir: Seq<u8>| joined(dir, name),
            ),
        decreases bases.len() - i,
    {
        let ghost before = dirs@;
        assert(path_views(bases@)[i as int] == bases@[i as int]@);
        dirs.push(bases[i].join(&child_path));
        i += 1;
        proof {
            assert(user + system.take(i as int) =~= (user + system.take(i - 1)).push(
                system[i - 1],
            ));
            assert(path_views(dirs@) =~= path_views(before).push(joined(system[i - 1], name)));
            assert(path_views(dirs@) =~= (user + system.take(i as int)).map_values(
                |dir: Seq<u8>| joined(dir, name),
            ));
        }
    }
    assert(system.take(i as int) =~= system);
    dirs
}

/// The directories that can contain desktop entries.
pub fn application_dirs(env: &Environment) -> (dirs: Vec<FilePath>)
    ensures
        path_views(dirs@) == dirs_for(*env, "applications"@),
{
    data_dirs(env, "applications")
}

/// The directories used as a final fallback for loose icon files.
pub fn pixmap_dirs(env: &Environment) -> (dirs: Vec<FilePath>)
    ensures
        path_views(dirs@) == dirs_for(*env, "pixmaps"@),
{
    data_dirs(env, "pixmaps")
}

/// The icon theme directories: those of the data directories, and the legacy one at home.
pub open spec fn theme_dirs_for(env: Environment) -> Seq<Seq<u8>> {
    match env.home {
        Some(home) => dirs_for(env, "icons"@).push(joined(home@, encode_utf8(".icons"@))),
        None => dirs_for(env, "icons"@),
    }
}

/// The directories that contain icon themes.
pub fn icon_theme_dirs(env: &Environment) -> (dirs: Vec<FilePath>)
    ensures
        path_views(dirs@) == theme_dirs_for(*env),
{
    let mut dirs = data_dirs(env, "icons");
    let ghost before = dirs@;
    if let Some(home) = &env.home {
        let legacy = FilePath::from_text(".icons");
        dirs.push(home.join(&legacy));
        assert(path_views(dirs@) =~= path_views(before).push(
            joined(home@, encode_utf8(".icons"@)),
        ));
    }
    dirs
}

/// User data comes first: the directory of the user, where there is one, is the first of all.
pub proof fn user_data_comes_first(env: Environment, child: Seq<char>)
    requires
        env.data_home is Some || env.home is Some,
    ensures
        dirs_for(env, child).len() > 0,
        env.data_home matches Some(dir) ==> dirs_for(env, child)[0] == joined(
            dir@,
            encode_utf8(child),
        ),
        env.data_home is None ==> dirs_for(env, child)[0] == joined(
            joined(env.home->0@, encode_utf8(".local/share"@)),
            encode_utf8(child),
        ),
{
}

} // verus!
