//! Finding the executables: from the listings of the directories on a search
//! path to the map from version to path.
use vstd::prelude::*;

use crate::error::Error;
use crate::executables::{find_executable_in_hashmap, resolution, Executables};
use crate::path::FilePath;
use crate::text::text_of;
use crate::version::{version_of_path, ExactVersion, RequestedVersion};

verus! {

/// The paths of all the listings, in the order of the directories and, within
/// a directory, in the order of its listing. A directory that could not be
/// read has no listing and adds nothing.
pub open spec fn flattened(directories: Seq<Option<Vec<FilePath>>>) -> Seq<FilePath>
    decreases directories.len(),
{
    if directories.len() == 0 {
        Seq::empty()
    } else {
        flattened(directories.drop_last()) + match directories.last() {
            Some(listing) => listing@,
            None => Seq::empty(),
        }
    }
}

/// Whether `paths[i]` is the first path that is named after `version`.
pub open spec fn is_first_of_version(paths: Seq<FilePath>, version: ExactVersion, i: int) -> bool {
    &&& 0 <= i < paths.len()
    &&& version_of_path(paths[i]) == Ok::<ExactVersion, Error>(version)
    &&& forall|j: int|
        0 <= j < i ==> version_of_path(#[trigger] paths[j]) != Ok::<ExactVersion, Error>(
            version,
        )
}

/// Whether some path is named after `version`.
pub open spec fn has_version(paths: Seq<FilePath>, version: ExactVersion) -> bool {
    exists|i: int|
        0 <= i < paths.len() && version_of_path(#[trigger] paths[i]) == Ok::<ExactVersion, Error>(
            version,
        )
}

/// The executables among `paths`: each version that a path is named after,
/// with the first path that is named after it. Paths that are named after no
/// version are left out.
pub open spec fn discovered(paths: Seq<FilePath>) -> Map<ExactVersion, Seq<char>> {
    Map::new(
        |version: ExactVersion| has_version(paths, version),
        |version: ExactVersion|
            paths[choose|i: int| is_first_of_version(paths, version, i)].path@,
    )
}

/// What one more path adds to what was found before it: it is kept for its
/// version unless that version has a path already, and it adds nothing when
/// it is named after no version.
pub open spec fn found_with(found: Map<ExactVersion, Seq<char>>, path: FilePath) -> Map<
    ExactVersion,
    Seq<char>,
> {
    match version_of_path(path) {
        Ok(version) => if found.contains_key(version) {
            found
        } else {
            found.insert(version, path.path@)
        },
        Err(_) => found,
    }
}

/// Joins the listings of the directories into one sequence of paths.
pub fn flatten_directories(directories: Vec<Option<Vec<FilePath>>>) -> (paths: Vec<FilePath>)
    ensures
        paths@ == flattened(directories@),
{
    let mut paths: Vec<FilePath> = Vec::new();
    for directory in outer: directories
        invariant
            outer.seq() == directories@,
            paths@ == flattened(directories@.take(outer.index() as int)),
    {
        let ghost before = paths@;
        proof {
            let done = directories@.take(outer.index() + 1);
            assert(done.drop_last() == directories@.take(outer.index() as int));
            assert(done.last() == directory);
        }
        match directory {
            Some(listing) => {
                for path in inner: listing
                    invariant
                        inner.seq() == listing@,
                        paths@ == before + listing@.take(inner.index() as int),
                {
                    paths.push(path);
                }
                assert(listing@.take(listing@.len() as int) == listing@);
            },
            None => {
                assert(before + Seq::<FilePath>::empty() == before);
            },
        }
    }
    assert(directories@.take(directories@.len() as int) == directories@);
    paths
}

/// The first path that is named after a version is the one that is kept for
/// it.
pub proof fn lemma_first_path_is_kept(paths: Seq<FilePath>, version: ExactVersion, i: int)
    requires
        is_first_of_version(paths, version, i),
    ensures
        discovered(paths).contains_key(version),
        discovered(paths)[version] == paths[i].path@,
{
    let chosen = choose|k: int| is_first_of_version(paths, version, k);
    if chosen < i {
        assert(version_of_path(paths[chosen]) != Ok::<ExactVersion, Error>(version));
    } else if i < chosen {
        assert(version_of_path(paths[i]) != Ok::<ExactVersion, Error>(version));
    }
}

/// Among the paths that are named after `version` there is a first one.
proof fn lemma_first_exists(paths: Seq<FilePath>, version: ExactVersion, i: int) -> (first: int)
    requires
        0 <= i < paths.len(),
        version_of_path(paths[i]) == Ok::<ExactVersion, Error>(version),
    ensures
        is_first_of_version(paths, version, first),
        first <= i,
    decreases i,
{
    if is_first_of_version(paths, version, i) {
        i
    } else {
        let earlier = choose|j: int|
            0 <= j < i && version_of_path(#[trigger] paths[j]) == Ok::<ExactVersion, Error>(
                version,
            );
        lemma_first_exists(paths, version, earlier)
    }
}

/// Paths are taken in one by one: what is discovered among `paths` and one
/// more path is what that path adds to what is discovered among `paths`.
pub proof fn lemma_discovered_push(paths: Seq<FilePath>, path: FilePath)
    ensures
        discovered(paths.push(path)) == found_with(discovered(paths), path),
{
    let longer = paths.push(path);
    let expected = found_with(discovered(paths), path);
    assert forall|version: ExactVersion| discovered(longer).contains_key(version)
        <==> expected.contains_key(version) by {
        if has_version(longer, version) {
            let i = choose|i: int|
                0 <= i < longer.len() && version_of_path(#[trigger] longer[i]) == Ok::<
                    ExactVersion,
                    Error,
                >(version);
            if i < paths.len() {
                assert(longer[i] == paths[i]);
                assert(has_version(paths, version));
            }
        }
        if has_version(paths, version) {
            let i = choose|i: int|
                0 <= i < paths.len() && version_of_path(#[trigger] paths[i]) == Ok::<
                    ExactVersion,
                    Error,
                >(version);
            assert(longer[i] == paths[i]);
        }
        if version_of_path(path) == Ok::<ExactVersion, Error>(version) {
            assert(longer[paths.len() as int] == path);
        }
    }
    assert forall|version: ExactVersion| discovered(longer).contains_key(version) implies discovered(
        longer,
    )[version] == expected[version] by {
        let i = choose|i: int|
            0 <= i < longer.len() && version_of_path(#[trigger] longer[i]) == Ok::<
                ExactVersion,
                Error,
            >(version);
        let first = lemma_first_exists(longer, version, i);
        lemma_first_path_is_kept(longer, version, first);
        if first < paths.len() {
            assert(longer[first] == paths[first]);
            assert forall|j: int| 0 <= j < first implies version_of_path(#[trigger] paths[j])
                != Ok::<ExactVersion, Error>(version) by {
                assert(longer[j] == paths[j]);
            }
            lemma_first_path_is_kept(paths, version, first);
        } else {
            assert(longer[first] == path);
            if has_version(paths, version) {
                let k = choose|k: int|
                    0 <= k < paths.len() && version_of_path(#[trigger] paths[k]) == Ok::<
                        ExactVersion,
                        Error,
                    >(version);
                assert(longer[k] == paths[k]);
            }
        }
    }
    assert(discovered(longer) =~= expected);
}

/// Collects the executables among `paths`: for each version the first path
/// that is named after it.
pub fn all_executables_in_paths(paths: Vec<FilePath>) -> (found: Executables)
    ensures
        found@ == discovered(paths@),
{
    let mut found = Executables::new();
    assert(discovered(paths@.take(0)) =~= Map::<ExactVersion, Seq<char>>::empty());
    for path in each: paths
        invariant
            each.seq() == paths@,
            found@ == discovered(paths@.take(each.index() as int)),
    {
        proof {
            assert(paths@.take(each.index() + 1) == paths@.take(each.index() as int).push(path));
            lemma_discovered_push(paths@.take(each.index() as int), path);
        }
        match ExactVersion::from_path(&path) {
            Ok(version) => {
                found.or_insert(version, path.path);
            },
            Err(_) => {},
        }
    }
    assert(paths@.take(paths@.len() as int) == paths@);
    found
}

/// Collects the executables in the listings of the directories on a search
/// path. Directories that come first win: a version keeps the first path
/// that is named after it.
pub fn all_executables(directories: Vec<Option<Vec<FilePath>>>) -> (found: Executables)
    ensures
        found@ == discovered(flattened(directories@)),
{
    let paths = flatten_directories(directories);
    all_executables_in_paths(paths)
}

/// Finds the executable for `requested` in the listings of the directories on
/// a search path: the first path that is named after the highest version
/// that supports the request.
pub fn find_executable(
    requested: RequestedVersion,
    directories: Vec<Option<Vec<FilePath>>>,
) -> (path: Option<String>)
    ensures
        text_of(path) == resolution(discovered(flattened(directories@)), requested),
{
    let found_executables = all_executables(directories);
    find_executable_in_hashmap(requested, &found_executables)
}

} // verus!
