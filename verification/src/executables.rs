//! The executables that were found, by version.
use vstd::prelude::*;

use crate::text::text_of;
use crate::version::{ExactVersion, RequestedVersion};

verus! {

/// A map from the version of an interpreter to the path of its executable,
/// with at most one path for a version.
#[derive(Debug)]
pub struct Executables {
    entries: Vec<(ExactVersion, String)>,
}

impl View for Executables {
    type V = Map<ExactVersion, Seq<char>>;

    /// The path that is held for each version.
    closed spec fn view(&self) -> Map<ExactVersion, Seq<char>> {
        Map::new(
            |version: ExactVersion| self.holds(version),
            |version: ExactVersion| self.entries@[self.place_of(version)].1@,
        )
    }
}

impl Executables {
    /// No version occurs twice.
    #[verifier::type_invariant]
    spec fn distinct_versions(self) -> bool {
        forall|i: int, j: int|
            0 <= i < j < self.entries@.len() ==> self.entries@[i].0 != self.entries@[j].0
    }

    /// Whether some entry is for `version`.
    spec fn holds(self, version: ExactVersion) -> bool {
        exists|i: int| 0 <= i < self.entries@.len() && self.entries@[i].0 == version
    }

    /// Where the entry for `version` stands.
    spec fn place_of(self, version: ExactVersion) -> int {
        choose|i: int| 0 <= i < self.entries@.len() && self.entries@[i].0 == version
    }

    /// The versions of the entries, in the order of the entries.
    spec fn versions_in_order(self) -> Seq<ExactVersion> {
        self.entries@.map_values(|entry: (ExactVersion, String)| entry.0)
    }

    /// The view holds what the entries hold.
    proof fn lemma_entries(self)
        requires
            self.distinct_versions(),
        ensures
            forall|i: int|
                0 <= i < self.entries@.len() ==> self@.contains_key(
                    (#[trigger] self.entries@[i]).0,
                ) && self@[self.entries@[i].0] == self.entries@[i].1@,
            forall|version: ExactVersion| #[trigger]
                self@.contains_key(version) ==> 0 <= self.place_of(version) < self.entries@.len()
                    && self.entries@[self.place_of(version)].0 == version,
            self@.dom() == self.versions_in_order().to_set(),
            self.versions_in_order().no_duplicates(),
            self@.dom().finite(),
            self@.len() == self.entries@.len(),
    {
        assert forall|i: int| 0 <= i < self.entries@.len() implies self@.contains_key(
            (#[trigger] self.entries@[i]).0,
        ) && self@[self.entries@[i].0] == self.entries@[i].1@ by {
            let version = self.entries@[i].0;
            assert(self.holds(version));
            let place = self.place_of(version);
            if place < i {
                assert(self.entries@[place].0 != self.entries@[i].0);
            } else if i < place {
                assert(self.entries@[i].0 != self.entries@[place].0);
            }
        }
        let versions = self.versions_in_order();
        assert forall|version: ExactVersion|
            self@.dom().contains(version) == versions.to_set().contains(version) by {
            if self@.dom().contains(version) {
                assert(versions[self.place_of(version)] == version);
            }
            if versions.to_set().contains(version) {
                let i = choose|i: int| 0 <= i < versions.len() && versions[i] == version;
                assert(self.entries@[i].0 == version);
            }
        }
        assert(self@.dom() =~= versions.to_set());
        assert forall|i: int, j: int|
            0 <= i < versions.len() && 0 <= j < versions.len() && i != j implies versions[i]
            != versions[j] by {
            if i < j {
                assert(self.entries@[i].0 != self.entries@[j].0);
            } else {
                assert(self.entries@[j].0 != self.entries@[i].0);
            }
        }
        versions.unique_seq_to_set();
        vstd::seq_lib::seq_to_set_is_finite(versions);
    }

    /// A map that holds nothing.
    pub fn new() -> (found: Executables)
        ensures
            found@ == Map::<ExactVersion, Seq<char>>::empty(),
    {
        let found = Executables { entries: Vec::new() };
        assert(found@ =~= Map::<ExactVersion, Seq<char>>::empty());
        found
    }

    /// The number of versions that have a path.
    pub fn len(&self) -> (count: usize)
        ensures
            self@.dom().finite(),
            count == self@.len(),
    {
        proof {
            use_type_invariant(self);
            self.lemma_entries();
        }
        self.entries.len()
    }

    /// Where the entry for `version` stands, if there is one.
    fn position(&self, version: &ExactVersion) -> (place: Option<usize>)
        ensures
            place is Some <==> self@.contains_key(*version),
            place matches Some(i) ==> i < self.entries@.len() && self.entries@[i as int].0
                == *version && self@[*version] == self.entries@[i as int].1@,
    {
        let mut i: usize = 0;
        while i < self.entries.len()
            invariant
                i <= self.entries@.len(),
                forall|j: int| 0 <= j < i ==> self.entries@[j].0 != *version,
            decreases self.entries@.len() - i,
        {
            if self.entries[i].0 == *version {
                proof {
                    use_type_invariant(self);
                    self.lemma_entries();
                }
                return Some(i);
            }
            i = i + 1;
        }
        proof {
            use_type_invariant(self);
            self.lemma_entries();
        }
        None
    }

    /// Whether `version` has a path.
    pub fn contains_key(&self, version: &ExactVersion) -> (held: bool)
        ensures
            held == self@.contains_key(*version),
    {
        self.position(version).is_some()
    }

    /// The path that is held for `version`.
    pub fn get(&self, version: &ExactVersion) -> (path: Option<&String>)
        ensures
            path is Some <==> self@.contains_key(*version),
            path matches Some(text) ==> text@ == self@[*version],
    {
        match self.position(version) {
            Some(i) => Some(&self.entries[i].1),
            None => None,
        }
    }

    /// The versions that have a path, each once.
    pub fn versions(&self) -> (versions: Vec<ExactVersion>)
        ensures
            versions@.no_duplicates(),
            versions@.to_set() == self@.dom(),
    {
        proof {
            use_type_invariant(self);
            self.lemma_entries();
        }
        let mut versions: Vec<ExactVersion> = Vec::new();
        let mut i: usize = 0;
        while i < self.entries.len()
            invariant
                i <= self.entries@.len(),
                versions@ == self.versions_in_order().take(i as int),
            decreases self.entries@.len() - i,
        {
            versions.push(self.entries[i].0);
            assert(self.versions_in_order().take(i + 1) == self.versions_in_order().take(
                i as int,
            ).push(self.entries@[i as int].0));
            i = i + 1;
        }
        assert(versions@ == self.versions_in_order());
        versions
    }

    /// Adds an entry for a version that has none.
    fn push_new(&mut self, version: ExactVersion, path: String)
        requires
            !old(self)@.contains_key(version),
        ensures
            final(self)@ == old(self)@.insert(version, path@),
    {
        let ghost before = *self;
        proof {
            use_type_invariant(&*self);
            before.lemma_entries();
        }
        let mut entries: Vec<(ExactVersion, String)> = Vec::new();
        core::mem::swap(&mut self.entries, &mut entries);
        entries.push((version, path));
        proof {
            let longer = entries@;
            assert forall|i: int, j: int| 0 <= i < j < longer.len() implies longer[i].0
                != longer[j].0 by {
                if j < before.entries@.len() {
                    assert(before.entries@[i].0 != before.entries@[j].0);
                } else {
                    assert(before@.contains_key(before.entries@[i].0));
                }
            }
        }
        core::mem::swap(&mut self.entries, &mut entries);
        proof {
            let after = *self;
            assert(after.entries@ == before.entries@.push((version, path)));
            after.lemma_entries();
            assert forall|other: ExactVersion| after@.contains_key(other) <==> before@.insert(
                version,
                path@,
            ).contains_key(other) by {
                if after@.contains_key(other) {
                    let place = after.place_of(other);
                    if place < before.entries@.len() {
                        assert(before.entries@[place].0 == other);
                    }
                }
                if before@.contains_key(other) {
                    let place = before.place_of(other);
                    assert(after.entries@[place].0 == other);
                }
                if other == version {
                    assert(after.entries@[before.entries@.len() as int].0 == other);
                }
            }
            assert forall|other: ExactVersion| after@.contains_key(other) implies after@[other]
                == before@.insert(version, path@)[other] by {
                let place = after.place_of(other);
                if place < before.entries@.len() {
                    assert(before.entries@[place].0 == other);
                    assert(after.entries@[place] == before.entries@[place]);
                } else {
                    assert(after.entries@[place] == (version, path));
                }
            }
            assert(after@ =~= before@.insert(version, path@));
        }
    }

    /// Holds `path` for `version`, in place of the path that the version had,
    /// and hands that one back.
    pub fn insert(&mut self, version: ExactVersion, path: String) -> (previous: Option<String>)
        ensures
            final(self)@ == old(self)@.insert(version, path@),
            text_of(previous) == old(self)@.get(version),
    {
        match self.position(&version) {
            None => {
                self.push_new(version, path);
                None
            },
            Some(place) => {
                let ghost before = *self;
                proof {
                    use_type_invariant(&*self);
                    before.lemma_entries();
                }
                let mut entries: Vec<(ExactVersion, String)> = Vec::new();
                core::mem::swap(&mut self.entries, &mut entries);
                entries.push((version, path));
                let previous = entries.swap_remove(place);
                proof {
                    let changed = entries@;
                    assert(changed == before.entries@.update(place as int, (version, path)));
                    assert forall|i: int, j: int| 0 <= i < j < changed.len() implies changed[i].0
                        != changed[j].0 by {
                        assert(before.entries@[i].0 != before.entries@[j].0);
                    }
                }
                core::mem::swap(&mut self.entries, &mut entries);
                proof {
                    let after = *self;
                    after.lemma_entries();
                    assert forall|other: ExactVersion| after@.contains_key(other)
                        <==> before@.contains_key(other) by {
                        if after@.contains_key(other) {
                            assert(before.entries@[after.place_of(other)].0 == other);
                        }
                        if before@.contains_key(other) {
                            assert(after.entries@[before.place_of(other)].0 == other);
                        }
                    }
                    assert forall|other: ExactVersion| after@.contains_key(other) implies after@[other]
                        == before@.insert(version, path@)[other] by {
                        let at = after.place_of(other);
                        assert(before.entries@[at].0 == other);
                    }
                    assert(after@ =~= before@.insert(version, path@));
                }
                Some(previous.1)
            },
        }
    }

    /// Holds `path` for `version` unless the version has a path already: the
    /// path that came first stays.
    pub fn or_insert(&mut self, version: ExactVersion, path: String)
        ensures
            old(self)@.contains_key(version) ==> final(self)@ == old(self)@,
            !old(self)@.contains_key(version) ==> final(self)@ == old(self)@.insert(
                version,
                path@,
            ),
    {
        if self.position(&version).is_none() {
            self.push_new(version, path);
        }
    }
}

/// Whether `version` is the one that `requested` selects among the versions
/// in `found`: it is there, it supports the request, and no version there
/// that supports the request is higher.
pub open spec fn is_selected(
    found: Map<ExactVersion, Seq<char>>,
    requested: RequestedVersion,
    version: ExactVersion,
) -> bool {
    &&& found.contains_key(version)
    &&& version.supports(requested)
    &&& forall|other: ExactVersion| #[trigger]
        found.contains_key(other) && other.supports(requested) ==> other.is_at_most(version)
}

/// The version that `requested` selects among the versions in `found`, if one
/// of them supports the request.
pub open spec fn selected_version(
    found: Map<ExactVersion, Seq<char>>,
    requested: RequestedVersion,
) -> Option<ExactVersion> {
    if exists|version: ExactVersion| is_selected(found, requested, version) {
        Some(choose|version: ExactVersion| is_selected(found, requested, version))
    } else {
        None
    }
}

/// The path that `requested` resolves to: that of the highest version in
/// `found` that supports the request.
pub open spec fn resolution(
    found: Map<ExactVersion, Seq<char>>,
    requested: RequestedVersion,
) -> Option<Seq<char>> {
    match selected_version(found, requested) {
        Some(version) => Some(found[version]),
        None => None,
    }
}

/// At most one version is selected: a version that meets `is_selected` is the
/// selected one.
pub proof fn lemma_selected_version(
    found: Map<ExactVersion, Seq<char>>,
    requested: RequestedVersion,
    version: ExactVersion,
)
    requires
        is_selected(found, requested, version),
    ensures
        selected_version(found, requested) == Some(version),
{
    let chosen = choose|version: ExactVersion| is_selected(found, requested, version);
    assert(chosen.is_at_most(version));
    assert(version.is_at_most(chosen));
}

/// Where a version in `found` supports the request, one is selected.
pub proof fn lemma_selection_exists(
    found: Map<ExactVersion, Seq<char>>,
    requested: RequestedVersion,
    version: ExactVersion,
)
    requires
        found.contains_key(version),
        version.supports(requested),
    ensures
        selected_version(found, requested) is Some,
    decreases 0x1_0000_0000 - (version.major * 0x1_0000 + version.minor),
{
    if !is_selected(found, requested, version) {
        let higher = choose|other: ExactVersion| #[trigger]
            found.contains_key(other) && other.supports(requested) && !other.is_at_most(version);
        lemma_selection_exists(found, requested, higher);
    }
}

/// A request resolves to a path exactly when a version in `found` supports
/// it.
pub proof fn lemma_resolution_is_some(
    found: Map<ExactVersion, Seq<char>>,
    requested: RequestedVersion,
)
    ensures
        resolution(found, requested) is Some <==> exists|version: ExactVersion| #[trigger]
            found.contains_key(version) && version.supports(requested),
{
    if exists|version: ExactVersion| #[trigger]
        found.contains_key(version) && version.supports(requested) {
        let version = choose|version: ExactVersion| #[trigger]
            found.contains_key(version) && version.supports(requested);
        lemma_selection_exists(found, requested, version);
    }
    if resolution(found, requested) is Some {
        let chosen = choose|version: ExactVersion| is_selected(found, requested, version);
        assert(found.contains_key(chosen) && chosen.supports(requested));
    }
}

/// An exact request resolves to the path of that very version, where it was
/// found.
pub proof fn lemma_exact_resolution(found: Map<ExactVersion, Seq<char>>, version: ExactVersion)
    ensures
        resolution(found, RequestedVersion::Exact(version.major, version.minor)) == found.get(
            version,
        ),
{
    let requested = RequestedVersion::Exact(version.major, version.minor);
    if found.contains_key(version) {
        assert(is_selected(found, requested, version));
        lemma_selected_version(found, requested, version);
    } else {
        lemma_resolution_is_some(found, requested);
    }
}

/// Where nothing was found, no request resolves to a path.
pub proof fn lemma_nothing_found(requested: RequestedVersion)
    ensures
        resolution(Map::<ExactVersion, Seq<char>>::empty(), requested) is None,
{
    lemma_resolution_is_some(Map::<ExactVersion, Seq<char>>::empty(), requested);
}

/// Selects the path of the highest version that supports `requested`.
pub fn find_executable_in_hashmap(
    requested: RequestedVersion,
    found_executables: &Executables,
) -> (path: Option<String>)
    ensures
        text_of(path) == resolution(found_executables@, requested),
{
    let entries = &found_executables.entries;
    let mut best: Option<usize> = None;
    let mut i: usize = 0;
    while i < entries.len()
        invariant
            i <= entries@.len(),
            match best {
                Some(place) => {
                    &&& place < i
                    &&& entries@[place as int].0.supports(requested)
                    &&& forall|j: int|
                        0 <= j < i && (#[trigger] entries@[j]).0.supports(requested)
                            ==> entries@[j].0.is_at_most(entries@[place as int].0)
                },
                None => forall|j: int|
                    0 <= j < i ==> !(#[trigger] entries@[j]).0.supports(requested),
            },
        decreases entries@.len() - i,
    {
        let version = entries[i].0;
        if version.supports(requested) {
            let higher = match best {
                Some(place) => entries[place].0 < version,
                None => true,
            };
            if higher {
                best = Some(i);
            }
        }
        i = i + 1;
    }
    proof {
        use_type_invariant(found_executables);
        found_executables.lemma_entries();
        let found = found_executables@;
        match best {
            Some(place) => {
                let version = entries@[place as int].0;
                assert forall|other: ExactVersion| #[trigger]
                    found.contains_key(other) && other.supports(requested) implies other.is_at_most(
                    version,
                ) by {
                    let at = found_executables.place_of(other);
                    assert(entries@[at].0 == other);
                }
                lemma_selected_version(found, requested, version);
            },
            None => {
                assert forall|other: ExactVersion| #[trigger]
                    found.contains_key(other) implies !other.supports(requested) by {
                    let at = found_executables.place_of(other);
                    assert(entries@[at].0 == other);
                }
                lemma_resolution_is_some(found, requested);
            },
        }
    }
    match best {
        Some(place) => Some(entries[place].1.clone()),
        None => None,
    }
}

} // verus!
