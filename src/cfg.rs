//! The registry of tracked repositories and its persisted document.
use vstd::prelude::*;
use crate::batch::{target_records, Target};

verus! {

/// A persisted document: one record `(name, path)` per tracked repository.
pub open spec fn doc_view(doc: Seq<(String, String)>) -> Seq<(Seq<char>, Seq<char>)> {
    doc.map_values(|e: (String, String)| (e.0@, e.1@))
}

/// No two records share a name.
pub open spec fn names_unique(doc: Seq<(Seq<char>, Seq<char>)>) -> bool {
    forall|i: int, j: int|
        0 <= i < doc.len() && 0 <= j < doc.len() && i != j ==> #[trigger] doc[i].0 != #[trigger] doc[j].0
}

/// No two records share a path.
pub open spec fn paths_unique(doc: Seq<(Seq<char>, Seq<char>)>) -> bool {
    forall|i: int, j: int|
        0 <= i < doc.len() && 0 <= j < doc.len() && i != j ==> #[trigger] doc[i].1 != #[trigger] doc[j].1
}

/// A document that denotes a registry: names and paths are both unique.
pub open spec fn well_formed(doc: Seq<(Seq<char>, Seq<char>)>) -> bool {
    names_unique(doc) && paths_unique(doc)
}

/// Some record of `doc` is named `name`.
pub open spec fn has_name(doc: Seq<(Seq<char>, Seq<char>)>, name: Seq<char>) -> bool {
    exists|i: int| 0 <= i < doc.len() && #[trigger] doc[i].0 == name
}

/// The registry that a document denotes: each name mapped to its path.
pub open spec fn registry_of(doc: Seq<(Seq<char>, Seq<char>)>) -> Map<Seq<char>, Seq<char>> {
    Map::new(
        |k: Seq<char>| has_name(doc, k),
        |k: Seq<char>| doc[choose|i: int| 0 <= i < doc.len() && #[trigger] doc[i].0 == k].1,
    )
}

/// Some repository of the registry is cloned at `path`.
pub open spec fn path_taken(m: Map<Seq<char>, Seq<char>>, path: Seq<char>) -> bool {
    exists|k: Seq<char>| #[trigger] m.contains_key(k) && m[k] == path
}

/// The record at `i` is what the registry holds under its name.
pub proof fn lemma_registry_at(doc: Seq<(Seq<char>, Seq<char>)>, i: int)
    requires
        names_unique(doc),
        0 <= i < doc.len(),
    ensures
        registry_of(doc).contains_key(doc[i].0),
        registry_of(doc)[doc[i].0] == doc[i].1,
{
    let k = doc[i].0;
    assert(has_name(doc, k));
    let j = choose|j: int| 0 <= j < doc.len() && #[trigger] doc[j].0 == k;
    assert(doc[j].0 == doc[i].0);
}

/// A path is taken in the registry exactly when some record holds it.
pub proof fn lemma_path_taken(doc: Seq<(Seq<char>, Seq<char>)>, path: Seq<char>)
    requires
        names_unique(doc),
    ensures
        path_taken(registry_of(doc), path) <==> exists|i: int| 0 <= i < doc.len() && #[trigger] doc[i].1 == path,
{
    let m = registry_of(doc);
    if path_taken(m, path) {
        let k = choose|k: Seq<char>| #[trigger] m.contains_key(k) && m[k] == path;
        let i = choose|i: int| 0 <= i < doc.len() && #[trigger] doc[i].0 == k;
        lemma_registry_at(doc, i);
        assert(doc[i].1 == path);
    }
    if exists|i: int| 0 <= i < doc.len() && #[trigger] doc[i].1 == path {
        let i = choose|i: int| 0 <= i < doc.len() && #[trigger] doc[i].1 == path;
        lemma_registry_at(doc, i);
        assert(m.contains_key(doc[i].0));
    }
}

/// Appending a record under a new name adds that name to the registry.
pub proof fn lemma_registry_push(doc: Seq<(Seq<char>, Seq<char>)>, e: (Seq<char>, Seq<char>))
    requires
        names_unique(doc),
        !has_name(doc, e.0),
    ensures
        names_unique(doc.push(e)),
        registry_of(doc.push(e)) == registry_of(doc).insert(e.0, e.1),
{
    let d2 = doc.push(e);
    assert forall|i: int, j: int|
        0 <= i < d2.len() && 0 <= j < d2.len() && i != j implies #[trigger] d2[i].0 != #[trigger] d2[j].0 by {
        if i == doc.len() {
            assert(doc[j].0 == d2[j].0);
        } else if j == doc.len() {
            assert(doc[i].0 == d2[i].0);
        } else {
            assert(doc[i] == d2[i] && doc[j] == d2[j]);
        }
    }
    let m1 = registry_of(d2);
    let m2 = registry_of(doc).insert(e.0, e.1);
    assert forall|k: Seq<char>| m1.contains_key(k) <==> m2.contains_key(k) by {
        if m1.contains_key(k) && k != e.0 {
            let i = choose|i: int| 0 <= i < d2.len() && #[trigger] d2[i].0 == k;
            assert(doc[i] == d2[i]);
        }
        if m2.contains_key(k) {
            if k == e.0 {
                assert(d2[doc.len() as int].0 == k);
            } else {
                let i = choose|i: int| 0 <= i < doc.len() && #[trigger] doc[i].0 == k;
                assert(d2[i] == doc[i]);
            }
        }
    }
    assert forall|k: Seq<char>| #[trigger] m1.contains_key(k) implies m1[k] == m2[k] by {
        let i = choose|i: int| 0 <= i < d2.len() && #[trigger] d2[i].0 == k;
        lemma_registry_at(d2, i);
        if i < doc.len() {
            assert(d2[i] == doc[i]);
            lemma_registry_at(doc, i);
        }
    }
    assert(m1 =~= m2);
}

/// Taking out the record at `i` takes its name out of the registry.
pub proof fn lemma_registry_remove(doc: Seq<(Seq<char>, Seq<char>)>, i: int)
    requires
        well_formed(doc),
        0 <= i < doc.len(),
    ensures
        well_formed(doc.remove(i)),
        registry_of(doc.remove(i)) == registry_of(doc).remove(doc[i].0),
{
    let d2 = doc.remove(i);
    assert forall|a: int| 0 <= a < d2.len() implies #[trigger] d2[a] == doc[if a < i { a } else { a + 1 }] by {}
    assert forall|a: int, b: int|
        0 <= a < d2.len() && 0 <= b < d2.len() && a != b implies #[trigger] d2[a].0 != #[trigger] d2[b].0 by {
        assert(d2[a] == doc[if a < i { a } else { a + 1 }]);
        assert(d2[b] == doc[if b < i { b } else { b + 1 }]);
    }
    assert forall|a: int, b: int|
        0 <= a < d2.len() && 0 <= b < d2.len() && a != b implies #[trigger] d2[a].1 != #[trigger] d2[b].1 by {
        assert(d2[a] == doc[if a < i { a } else { a + 1 }]);
        assert(d2[b] == doc[if b < i { b } else { b + 1 }]);
    }
    let m1 = registry_of(d2);
    let m2 = registry_of(doc).remove(doc[i].0);
    assert forall|k: Seq<char>| m1.contains_key(k) <==> m2.contains_key(k) by {
        if m1.contains_key(k) {
            let a = choose|a: int| 0 <= a < d2.len() && #[trigger] d2[a].0 == k;
            let b = if a < i { a } else { a + 1 };
            assert(d2[a] == doc[b]);
            assert(doc[b].0 == k);
        }
        if m2.contains_key(k) {
            let b = choose|b: int| 0 <= b < doc.len() && #[trigger] doc[b].0 == k;
            let a = if b < i { b } else { b - 1 };
            assert(d2[a] == doc[b]);
        }
    }
    assert forall|k: Seq<char>| #[trigger] m1.contains_key(k) implies m1[k] == m2[k] by {
        let a = choose|a: int| 0 <= a < d2.len() && #[trigger] d2[a].0 == k;
        let b = if a < i { a } else { a + 1 };
        assert(d2[a] == doc[b]);
        lemma_registry_at(d2, a);
        lemma_registry_at(doc, b);
    }
    assert(m1 =~= m2);
}


/// The records that a list of tracked repositories holds.
pub open spec fn records_of(s: Seq<(String, Repository)>) -> Seq<(Seq<char>, Seq<char>)> {
    s.map_values(|e: (String, Repository)| (e.0@, e.1.path@))
}

/// Where one tracked clone lives.
#[derive(Debug)]
pub struct Repository {
    pub path: String,
}

/// Failures of loading, saving or changing the registry.
#[derive(Debug)]
pub enum ConfigurationError {
    /// The configuration could not be loaded.
    Load { message: String },
    /// A configuration file could not be read.
    ReadFile { path: String, message: String },
    /// The configuration does not have the registry's shape.
    Cast { message: String },
    /// Two records of a document share a name.
    DuplicateName { name: String },
    /// Two records of a document share a path.
    DuplicatePath { path: String },
    /// The directory of the configuration file could not be created.
    CreateDirectory { dir: String, message: String },
    /// The configuration file could not be written.
    CreateFile { path: String, message: String },
    /// The registry could not be serialized.
    Ser { message: String },
}

/// Why an insertion was refused.
#[derive(Debug)]
pub enum RegistryError {
    /// The name is already tracked.
    NameConflict { name: String },
    /// Another tracked repository already lives at the path.
    PathConflict { path: String },
}

/// The registry: tracked repositories by name, and the file it is saved to.
#[derive(Debug)]
pub struct Configuration {
    path: String,
    repositories: Vec<(String, Repository)>,
}

impl View for Configuration {
    type V = Map<Seq<char>, Seq<char>>;

    closed spec fn view(&self) -> Map<Seq<char>, Seq<char>> {
        registry_of(self.records())
    }
}

impl Configuration {
    /// The records held, in the order they are kept.
    pub closed spec fn records(&self) -> Seq<(Seq<char>, Seq<char>)> {
        records_of(self.repositories@)
    }

    /// Names and paths are unique.
    pub closed spec fn wf(&self) -> bool {
        well_formed(self.records())
    }

    /// The file the registry is saved to.
    pub closed spec fn location(&self) -> Seq<char> {
        self.path@
    }

    /// An empty registry saved to `path`.
    pub fn new(path: String) -> (r: Configuration)
        ensures
            r.wf(),
            r@ == Map::<Seq<char>, Seq<char>>::empty(),
            r.location() == path@,
    {
        let r = Configuration { path, repositories: Vec::new() };
        assert(r@ =~= Map::<Seq<char>, Seq<char>>::empty());
        r
    }

    /// The file the registry is saved to.
    pub fn config_path(&self) -> (r: &String)
        ensures
            r@ == self.location(),
    {
        &self.path
    }

    /// Index of the record named `name`, if any.
    fn find(&self, name: &str) -> (r: Option<usize>)
        requires
            self.wf(),
        ensures
            r is None ==> !self@.contains_key(name@),
            r matches Some(i) ==> i < self.records().len() && self.records()[i as int].0 == name@,
    {
        let wanted = name.to_owned();
        let mut i: usize = 0;
        while i < self.repositories.len()
            invariant
                i <= self.repositories.len(),
                wanted@ == name@,
                forall|j: int| 0 <= j < i ==> #[trigger] self.records()[j].0 != name@,
            decreases self.repositories.len() - i,
        {
            if self.repositories[i].0 == wanted {
                return Some(i);
            }
            i += 1;
        }
        None
    }

    /// Index of a record whose path is `path`, if any.
    fn find_path(&self, path: &String) -> (r: Option<usize>)
        requires
            self.wf(),
        ensures
            r is None <==> !path_taken(self@, path@),
            r matches Some(i) ==> i < self.records().len() && self.records()[i as int].1 == path@,
    {
        let mut i: usize = 0;
        while i < self.repositories.len()
            invariant
                i <= self.repositories.len(),
                self.wf(),
                forall|j: int| 0 <= j < i ==> #[trigger] self.records()[j].1 != path@,
            decreases self.repositories.len() - i,
        {
            if self.repositories[i].1.path == *path {
                assert(self.records()[i as int].1 == path@);
                proof {
                    lemma_path_taken(self.records(), path@);
                }
                return Some(i);
            }
            i += 1;
        }
        proof {
            lemma_path_taken(self.records(), path@);
        }
        None
    }

    /// Whether some tracked repository lives at `path`.
    pub fn holds_path(&self, path: &String) -> (r: bool)
        requires
            self.wf(),
        ensures
            r == path_taken(self@, path@),
    {
        self.find_path(path).is_some()
    }

    /// Every tracked repository as a batch target, in the order kept.
    pub fn targets(&self) -> (r: Vec<Target>)
        requires
            self.wf(),
        ensures
            target_records(r@) == self.records(),
            well_formed(target_records(r@)),
            registry_of(target_records(r@)) == self@,
    {
        let mut t: Vec<Target> = Vec::new();
        let mut i: usize = 0;
        while i < self.repositories.len()
            invariant
                i <= self.repositories.len(),
                t@.len() == i,
                self.records().len() == self.repositories@.len(),
                target_records(t@) =~= self.records().subrange(0, i as int),
            decreases self.repositories.len() - i,
        {
            let name = self.repositories[i].0.clone();
            let path = self.repositories[i].1.path.clone();
            assert(name@ == self.records()[i as int].0 && path@ == self.records()[i as int].1);
            t.push(Target { name, path });
            assert(target_records(t@)[i as int] == self.records()[i as int]);
            assert(target_records(t@) =~= self.records().subrange(0, i + 1));
            i += 1;
        }
        assert(self.records().subrange(0, i as int) =~= self.records());
        t
    }

    /// The repository tracked under `name`.
    pub fn get(&self, name: &str) -> (r: Option<&Repository>)
        requires
            self.wf(),
        ensures
            r is Some <==> self@.contains_key(name@),
            r matches Some(repo) ==> repo.path@ == self@[name@],
    {
        match self.find(name) {
            Some(i) => {
                proof {
                    lemma_registry_at(self.records(), i as int);
                }
                Some(&self.repositories[i].1)
            },
            None => None,
        }
    }

    /// Whether a repository is tracked under `name`.
    pub fn contains(&self, name: &str) -> (r: bool)
        requires
            self.wf(),
        ensures
            r == self@.contains_key(name@),
    {
        let found = self.find(name);
        proof {
            if let Some(i) = found {
                lemma_registry_at(self.records(), i as int);
            }
        }
        found.is_some()
    }

    /// Stops tracking `name`, handing back what was tracked under it.
    /// An absent name leaves the registry as it is.
    pub fn remove(&mut self, name: &str) -> (r: Option<Repository>)
        requires
            old(self).wf(),
        ensures
            final(self).wf(),
            final(self)@ == old(self)@.remove(name@),
            final(self).location() == old(self).location(),
            r is Some <==> old(self)@.contains_key(name@),
            r matches Some(repo) ==> repo.path@ == old(self)@[name@],
    {
        match self.find(name) {
            Some(i) => {
                proof {
                    lemma_registry_at(self.records(), i as int);
                    lemma_registry_remove(self.records(), i as int);
                }
                let ghost before = self.repositories@;
                let (_, repo) = self.repositories.remove(i);
                assert(self.records() =~= before.map_values(
                    |e: (String, Repository)| (e.0@, e.1.path@),
                ).remove(i as int));
                Some(repo)
            },
            None => {
                assert(self@ =~= self@.remove(name@));
                None
            },
        }
    }

    /// Tracks `repository` under `name`. A name already tracked is refused
    /// first, then a path already tracked; a refusal changes nothing.
    pub fn insert(&mut self, name: String, repository: Repository) -> (r: Result<(), RegistryError>)
        requires
            old(self).wf(),
        ensures
            final(self).wf(),
            final(self).location() == old(self).location(),
            old(self)@.contains_key(name@) ==> (r matches Err(RegistryError::NameConflict { name: n })
                && n@ == name@ && final(self)@ == old(self)@),
            !old(self)@.contains_key(name@) && path_taken(old(self)@, repository.path@) ==> (
            r matches Err(RegistryError::PathConflict { path: p }) && p@ == repository.path@
                && final(self)@ == old(self)@),
            !old(self)@.contains_key(name@) && !path_taken(old(self)@, repository.path@) ==> (r is Ok
                && final(self)@ == old(self)@.insert(name@, repository.path@)),
    {
        if self.find(name.as_str()).is_some() {
            proof {
                let i = choose|i: int| 0 <= i < self.records().len() && #[trigger] self.records()[i].0 == name@;
                lemma_registry_at(self.records(), i);
            }
            return Err(RegistryError::NameConflict { name });
        }
        if self.find_path(&repository.path).is_some() {
            return Err(RegistryError::PathConflict { path: repository.path });
        }
        proof {
            lemma_path_taken(self.records(), repository.path@);
            lemma_registry_push(self.records(), (name@, repository.path@));
        }
        let ghost before = self.records();
        let ghost entry = (name@, repository.path@);
        self.repositories.push((name, repository));
        assert(self.records() =~= before.push(entry));
        assert forall|a: int, b: int|
            0 <= a < self.records().len() && 0 <= b < self.records().len() && a != b
            implies #[trigger] self.records()[a].1 != #[trigger] self.records()[b].1 by {
            if a < before.len() && b < before.len() {
                assert(self.records()[a] == before[a] && self.records()[b] == before[b]);
            } else if a < before.len() {
                assert(self.records()[a] == before[a]);
            } else {
                assert(self.records()[b] == before[b]);
            }
        }
        Ok(())
    }

    /// The registry that `doc` denotes, saved to `path`. A document in which
    /// two records share a name, or else two share a path, is refused.
    pub fn from_document(path: String, doc: Vec<(String, String)>) -> (r: Result<Configuration, ConfigurationError>)
        ensures
            r is Ok <==> well_formed(doc_view(doc@)),
            r matches Ok(c) ==> c.wf() && c@ == registry_of(doc_view(doc@)) && c.location() == path@,
            !names_unique(doc_view(doc@)) ==> (r matches Err(ConfigurationError::DuplicateName { name: n })
                && exists|i: int, j: int|
                0 <= i < j < doc@.len() && #[trigger] doc_view(doc@)[i].0 == n@ && #[trigger] doc_view(doc@)[j].0
                    == n@),
            names_unique(doc_view(doc@)) && !paths_unique(doc_view(doc@)) ==> (r matches Err(
                ConfigurationError::DuplicatePath { path: p },
            ) && exists|i: int, j: int|
                0 <= i < j < doc@.len() && #[trigger] doc_view(doc@)[i].1 == p@ && #[trigger] doc_view(doc@)[j].1
                    == p@),
    {
        let ghost d = doc_view(doc@);
        let n = doc.len();
        let mut i: usize = 0;
        while i < n
            invariant
                n == doc.len(),
                d == doc_view(doc@),
                i <= n,
                forall|a: int, b: int| 0 <= a < i && 0 <= b < i && a != b ==> #[trigger] d[a].0 != #[trigger] d[b].0,
            decreases n - i,
        {
            let mut j: usize = 0;
            while j < i
                invariant
                    n == doc.len(),
                    d == doc_view(doc@),
                    j <= i < n,
                    forall|b: int| 0 <= b < j ==> #[trigger] d[b].0 != d[i as int].0,
                decreases i - j,
            {
                if doc[i].0 == doc[j].0 {
                    assert(d[i as int].0 == d[j as int].0);
                    return Err(ConfigurationError::DuplicateName { name: doc[i].0.clone() });
                }
                j += 1;
            }
            i += 1;
        }
        assert(names_unique(d));
        let mut i: usize = 0;
        while i < n
            invariant
                n == doc.len(),
                d == doc_view(doc@),
                names_unique(d),
                i <= n,
                forall|a: int, b: int| 0 <= a < i && 0 <= b < i && a != b ==> #[trigger] d[a].1 != #[trigger] d[b].1,
            decreases n - i,
        {
            let mut j: usize = 0;
            while j < i
                invariant
                    n == doc.len(),
                    d == doc_view(doc@),
                    names_unique(d),
                    j <= i < n,
                    forall|b: int| 0 <= b < j ==> #[trigger] d[b].1 != d[i as int].1,
                decreases i - j,
            {
                if doc[i].1 == doc[j].1 {
                    assert(d[i as int].1 == d[j as int].1);
                    return Err(ConfigurationError::DuplicatePath { path: doc[i].1.clone() });
                }
                j += 1;
            }
            i += 1;
        }
        let mut repositories: Vec<(String, Repository)> = Vec::new();
        let mut i: usize = 0;
        while i < n
            invariant
                n == doc.len(),
                i <= n,
                d == doc_view(doc@),
                repositories@.len() == i,
                records_of(repositories@) =~= d.subrange(0, i as int),
            decreases n - i,
        {
            let name = doc[i].0.clone();
            let path = doc[i].1.clone();
            assert(name@ == d[i as int].0 && path@ == d[i as int].1);
            repositories.push((name, Repository { path }));
            assert(records_of(repositories@)[i as int] == d[i as int]);
            assert(records_of(repositories@) =~= d.subrange(0, i + 1));
            i += 1;
        }
        let c = Configuration { path, repositories };
        assert(c.records() =~= d);
        Ok(c)
    }

    /// The document that denotes this registry, one record per repository.
    pub fn to_document(&self) -> (r: Vec<(String, String)>)
        requires
            self.wf(),
        ensures
            well_formed(doc_view(r@)),
            registry_of(doc_view(r@)) == self@,
    {
        let mut doc: Vec<(String, String)> = Vec::new();
        let mut i: usize = 0;
        while i < self.repositories.len()
            invariant
                i <= self.repositories.len(),
                doc@.len() == i,
                self.records().len() == self.repositories@.len(),
                doc_view(doc@) =~= self.records().subrange(0, i as int),
            decreases self.repositories.len() - i,
        {
            let name = self.repositories[i].0.clone();
            let path = self.repositories[i].1.path.clone();
            assert(name@ == self.records()[i as int].0 && path@ == self.records()[i as int].1);
            doc.push((name, path));
            assert(doc_view(doc@)[i as int] == self.records()[i as int]);
            assert(doc_view(doc@) =~= self.records().subrange(0, i + 1));
            i += 1;
        }
        assert(doc_view(doc@) =~= self.records());
        doc
    }
}

/// Loading a well-formed document and saving the registry it gives yields
/// the same records, in whatever order: every document that denotes the
/// registry of `doc` holds exactly the records of `doc`.
pub proof fn lemma_document_round_trip(doc: Seq<(Seq<char>, Seq<char>)>, saved: Seq<(Seq<char>, Seq<char>)>)
    requires
        well_formed(doc),
        well_formed(saved),
        registry_of(saved) == registry_of(doc),
    ensures
        saved.to_set() == doc.to_set(),
        saved.len() == doc.len(),
{
    assert forall|e: (Seq<char>, Seq<char>)| saved.contains(e) implies doc.contains(e) by {
        let i = choose|i: int| 0 <= i < saved.len() && saved[i] == e;
        lemma_registry_at(saved, i);
        let j = choose|j: int| 0 <= j < doc.len() && #[trigger] doc[j].0 == e.0;
        lemma_registry_at(doc, j);
        assert(doc[j] == e);
    }
    assert forall|e: (Seq<char>, Seq<char>)| doc.contains(e) implies saved.contains(e) by {
        let i = choose|i: int| 0 <= i < doc.len() && doc[i] == e;
        lemma_registry_at(doc, i);
        let j = choose|j: int| 0 <= j < saved.len() && #[trigger] saved[j].0 == e.0;
        lemma_registry_at(saved, j);
        assert(saved[j] == e);
    }
    assert(saved.to_set() =~= doc.to_set());
    lemma_records_distinct(doc);
    lemma_records_distinct(saved);
    doc.unique_seq_to_set();
    saved.unique_seq_to_set();
}

proof fn lemma_records_distinct(doc: Seq<(Seq<char>, Seq<char>)>)
    requires
        names_unique(doc),
    ensures
        doc.no_duplicates(),
{
    assert forall|i: int, j: int| 0 <= i < doc.len() && 0 <= j < doc.len() && i != j implies doc[i] != doc[j] by {
        assert(doc[i].0 != doc[j].0);
    }
}

/// After a successful insertion the name is tracked at the inserted path,
/// and a second insertion under the same name, or of the same path, is
/// refused.
pub proof fn lemma_insert_then_lookup(m: Map<Seq<char>, Seq<char>>, name: Seq<char>, path: Seq<char>)
    requires
        !m.contains_key(name),
        !path_taken(m, path),
    ensures
        m.insert(name, path).contains_key(name),
        m.insert(name, path)[name] == path,
        path_taken(m.insert(name, path), path),
        forall|k: Seq<char>| k != name ==> (#[trigger] m.insert(name, path).contains_key(k) == m.contains_key(k)),
{
    assert(m.insert(name, path).contains_key(name));
}

/// Once a new repository is registered, any well-formed document saved
/// from the registry holds its record, and the record of every repository
/// tracked before.
pub proof fn lemma_registered_then_saved(
    m: Map<Seq<char>, Seq<char>>,
    name: Seq<char>,
    path: Seq<char>,
    saved: Seq<(Seq<char>, Seq<char>)>,
)
    requires
        !m.contains_key(name),
        !path_taken(m, path),
        well_formed(saved),
        registry_of(saved) == m.insert(name, path),
    ensures
        saved.contains((name, path)),
        forall|k: Seq<char>| #[trigger] m.contains_key(k) ==> saved.contains((k, m[k])),
{
    let r = registry_of(saved);
    assert(r.contains_key(name));
    let i = choose|i: int| 0 <= i < saved.len() && #[trigger] saved[i].0 == name;
    lemma_registry_at(saved, i);
    assert(saved[i] == (name, path));
    assert forall|k: Seq<char>| #[trigger] m.contains_key(k) implies saved.contains((k, m[k])) by {
        assert(r.contains_key(k));
        let j = choose|j: int| 0 <= j < saved.len() && #[trigger] saved[j].0 == k;
        lemma_registry_at(saved, j);
        assert(saved[j] == (k, m[k]));
    }
}

} // verus!
