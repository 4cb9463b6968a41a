use vstd::prelude::*;
use crate::diff::{chunks_of, compute_diff, similar_line_changes, DiffChunk};
use crate::index::{listed, summary_of, PromptIndex, PromptIndexEntry, PromptSummary};
use crate::table::Table;
use crate::text::contains_char;
use crate::version::{decimal, triple_le, version_key, sort_versions, sorted_desc, VersionInfo, initial_version, next_triple, next_version, semver_triple, version_string, version_text};

verus! {

/// Why an operation on the store did not happen.
#[derive(PartialEq, Eq, Structural, Clone, Copy, Debug)]
pub enum PromptError {
    /// The document, or the version asked for, does not exist.
    NotFound,
    /// A document of that name exists already.
    AlreadyExists,
    /// The name is empty or holds a path separator.
    InvalidName,
    /// The content to save is the latest content already.
    NoChange,
    /// The latest version's patch number cannot be raised any further.
    VersionExhausted,
    /// A record that the store needs is missing or unreadable.
    IoFailure,
}

/// The metadata of a document. The temperature is kept as the bit pattern
/// of a 32-bit float.
pub struct PromptMeta {
    pub name: String,
    pub description: String,
    pub model: String,
    pub temperature_bits: u32,
    pub created_at: String,
}

/// The metadata that a caller gives when creating or saving a document.
pub struct PromptMetaInput {
    pub description: String,
    pub model: String,
    pub temperature_bits: u32,
}

/// One immutable version of a document, with when it was written.
pub struct VersionRecord {
    pub content: String,
    pub written_at: String,
}

/// The storage of one document: its metadata record and its versions.
pub struct PromptDir {
    pub meta: Option<PromptMeta>,
    pub versions: Table<VersionRecord>,
}

/// A document as read: content at a version, metadata, and that version.
pub struct PromptData {
    pub content: String,
    pub meta: PromptMeta,
    pub version: String,
}

/// The whole store: the index of documents and the storage of each.
pub struct PromptStore {
    pub index: PromptIndex,
    pub dirs: Table<PromptDir>,
}

/// The skeleton every new document starts with.
pub open spec fn template_text() -> Seq<char> {
    seq!['#', ' ', 'S', 'y', 's', 't', 'e', 'm', '\n', '\n', '#', ' ', 'U', 's', 'e', 'r', '\n', '\n', '#', ' ', 'R', 'u', 'l', 'e', 's', '\n']
}

/// A document name is non-empty and holds no slash or backslash.
pub open spec fn valid_name(n: Seq<char>) -> bool {
    n.len() > 0 && !n.contains('/') && !n.contains('\\')
}

/// Metadata built from a caller's input, for a name and a creation time.
pub open spec fn meta_from(m: PromptMeta, name: Seq<char>, input: PromptMetaInput, created_at: Seq<char>) -> bool {
    &&& m.name@ == name
    &&& m.description@ == input.description@
    &&& m.model@ == input.model@
    &&& m.temperature_bits == input.temperature_bits
    &&& m.created_at@ == created_at
}

/// Two metadata records with the same fields.
pub open spec fn same_meta(a: PromptMeta, b: PromptMeta) -> bool {
    &&& a.name@ == b.name@
    &&& a.description@ == b.description@
    &&& a.model@ == b.model@
    &&& a.temperature_bits == b.temperature_bits
    &&& a.created_at@ == b.created_at@
}

impl PromptStore {
    /// Every table of the store keeps its names distinct.
    pub open spec fn wf(&self) -> bool {
        &&& self.index.wf()
        &&& self.dirs.wf()
        &&& forall|n: Seq<char>| #[trigger] self.dirs.map().contains_key(n) ==> self.dirs.map()[n].versions.wf()
    }

    /// The versions stored for `name`, none where it has no storage.
    pub open spec fn versions_of(&self, name: Seq<char>) -> Map<Seq<char>, VersionRecord> {
        if self.dirs.map().contains_key(name) {
            self.dirs.map()[name].versions.map()
        } else {
            Map::empty()
        }
    }
}

/// What creating `name` does to the store, and what it returns.
pub open spec fn create_post(
    pre: PromptStore,
    post: PromptStore,
    name: Seq<char>,
    input: PromptMetaInput,
    now: Seq<char>,
    r: Result<(), PromptError>,
) -> bool {
    if pre.index.map().contains_key(name) {
        r == Err::<(), PromptError>(PromptError::AlreadyExists) && post == pre
    } else if !valid_name(name) {
        r == Err::<(), PromptError>(PromptError::InvalidName) && post == pre
    } else {
        let v0 = version_text(initial_version());
        &&& r is Ok
        &&& post.index.map().dom() == pre.index.map().dom().insert(name)
        &&& post.index.map().remove(name) == pre.index.map().remove(name)
        &&& post.index.map()[name].latest@ == v0
        &&& post.index.map()[name].created_at@ == now
        &&& post.index.map()[name].updated_at@ == now
        &&& post.index.map()[name].tags.map() == Map::<Seq<char>, String>::empty()
        &&& post.dirs.map().dom() == pre.dirs.map().dom().insert(name)
        &&& post.dirs.map().remove(name) == pre.dirs.map().remove(name)
        &&& post.dirs.map()[name].meta is Some
        &&& meta_from(post.dirs.map()[name].meta.unwrap(), name, input, now)
        &&& post.versions_of(name).remove(v0) == pre.versions_of(name).remove(v0)
        &&& post.versions_of(name).contains_key(v0)
        &&& post.versions_of(name)[v0].content@ == template_text()
        &&& post.versions_of(name)[v0].written_at@ == now
    }
}

/// What saving `content` under `name` does to the store, and what it returns.
pub open spec fn save_post(
    pre: PromptStore,
    post: PromptStore,
    name: Seq<char>,
    content: Seq<char>,
    input: PromptMetaInput,
    now: Seq<char>,
    r: Result<String, PromptError>,
) -> bool {
    if !pre.index.map().contains_key(name) {
        r == Err::<String, PromptError>(PromptError::NotFound) && post == pre
    } else {
        let e = pre.index.map()[name];
        let latest = e.latest@;
        if !pre.versions_of(name).contains_key(latest) {
            r == Err::<String, PromptError>(PromptError::IoFailure) && post == pre
        } else if pre.versions_of(name)[latest].content@ == content {
            r == Err::<String, PromptError>(PromptError::NoChange) && post == pre
        } else if pre.dirs.map()[name].meta is None {
            r == Err::<String, PromptError>(PromptError::IoFailure) && post == pre
        } else {
            match next_triple(semver_triple(latest)) {
                None => r == Err::<String, PromptError>(PromptError::VersionExhausted) && post == pre,
                Some(t) => {
                    let v = version_text(t);
                    let m = pre.dirs.map()[name].meta.unwrap();
                    let m2 = post.dirs.map()[name].meta.unwrap();
                    &&& r is Ok
                    &&& r.unwrap()@ == v
                    &&& post.index.map().dom() == pre.index.map().dom()
                    &&& post.index.map().remove(name) == pre.index.map().remove(name)
                    &&& post.index.map()[name].latest@ == v
                    &&& post.index.map()[name].created_at == e.created_at
                    &&& post.index.map()[name].updated_at@ == now
                    &&& post.index.map()[name].tags == e.tags
                    &&& post.dirs.map().dom() == pre.dirs.map().dom()
                    &&& post.dirs.map().remove(name) == pre.dirs.map().remove(name)
                    &&& post.dirs.map()[name].meta is Some
                    &&& m2.name == m.name
                    &&& m2.created_at == m.created_at
                    &&& m2.description@ == input.description@
                    &&& m2.model@ == input.model@
                    &&& m2.temperature_bits == input.temperature_bits
                    &&& post.versions_of(name) == pre.versions_of(name).insert(
                        v,
                        post.versions_of(name)[v],
                    )
                    &&& post.versions_of(name)[v].content@ == content
                    &&& post.versions_of(name)[v].written_at@ == now
                    &&& forall|t0: (u64, u64, u64)|
                        latest == version_text(t0) && t0.2 < u64::MAX ==> #[trigger] version_text(
                            (t0.0, t0.1, (t0.2 + 1) as u64),
                        ) == v
                },
            }
        }
    }
}

/// What deleting `name` does to the store, and what it returns.
pub open spec fn delete_post(pre: PromptStore, post: PromptStore, name: Seq<char>, r: Result<(), PromptError>) -> bool {
    if !pre.index.map().contains_key(name) {
        r == Err::<(), PromptError>(PromptError::NotFound) && post == pre
    } else {
        &&& r is Ok
        &&& post.index.map() == pre.index.map().remove(name)
        &&& post.dirs.map() == pre.dirs.map().remove(name)
    }
}

/// The version that reading `name` at `version` resolves to: the one given,
/// or else the latest one of the index entry.
pub open spec fn resolve(s: PromptStore, name: Seq<char>, version: Option<Seq<char>>) -> Option<Seq<char>> {
    match version {
        Some(v) => Some(v),
        None => if s.index.map().contains_key(name) {
            Some(s.index.map()[name].latest@)
        } else {
            None
        },
    }
}

/// What reading `name` at `version` returns.
pub open spec fn get_post(s: PromptStore, name: Seq<char>, version: Option<Seq<char>>, r: Result<PromptData, PromptError>) -> bool {
    match resolve(s, name, version) {
        None => r == Err::<PromptData, PromptError>(PromptError::NotFound),
        Some(v) => if s.dirs.map().contains_key(name) && s.dirs.map()[name].meta is Some
            && s.versions_of(name).contains_key(v) {
            &&& r is Ok
            &&& r.unwrap().content@ == s.versions_of(name)[v].content@
            &&& r.unwrap().version@ == v
            &&& same_meta(r.unwrap().meta, s.dirs.map()[name].meta.unwrap())
        } else {
            r == Err::<PromptData, PromptError>(PromptError::NotFound)
        },
    }
}

/// `v` lists a version stored for `name`, with the time it was written.
pub open spec fn info_of(s: PromptStore, name: Seq<char>, v: VersionInfo) -> bool {
    &&& s.versions_of(name).contains_key(v.version@)
    &&& v.created_at@ == s.versions_of(name)[v.version@].written_at@
}

/// Some entry of `vs` is for version `v`.
pub open spec fn lists_version(vs: Seq<VersionInfo>, v: Seq<char>) -> bool {
    exists|i: int| 0 <= i < vs.len() && (#[trigger] vs[i]).version@ == v
}

/// What listing the versions of `name` returns.
pub open spec fn list_versions_post(s: PromptStore, name: Seq<char>, r: Result<Vec<VersionInfo>, PromptError>) -> bool {
    if !s.dirs.map().contains_key(name) {
        r == Err::<Vec<VersionInfo>, PromptError>(PromptError::NotFound)
    } else {
        &&& r is Ok
        &&& r.unwrap()@.len() == s.versions_of(name).dom().len()
        &&& forall|i: int| 0 <= i < r.unwrap()@.len() ==> info_of(s, name, #[trigger] r.unwrap()@[i])
        &&& forall|v: Seq<char>| #[trigger] s.versions_of(name).contains_key(v) ==> lists_version(r.unwrap()@, v)
        &&& sorted_desc(r.unwrap()@)
    }
}

fn template() -> (r: String)
    ensures
        r@ == template_text(),
{
    let r = "# System\n\n# User\n\n# Rules\n".to_owned();
    proof {
        reveal_strlit("# System\n\n# User\n\n# Rules\n");
    }
    assert(r@ =~= template_text());
    r
}

impl PromptStore {
    /// A store with no document.
    pub fn new() -> (r: Self)
        ensures
            r.wf(),
            r.index.map() == Map::<Seq<char>, PromptIndexEntry>::empty(),
            r.dirs.map() == Map::<Seq<char>, PromptDir>::empty(),
    {
        PromptStore { index: Table::new(), dirs: Table::new() }
    }

    /// Creates document `name` at time `now`: its metadata, its first
    /// version `0.1.0` holding the template, then its index entry.
    pub fn create_prompt_at(&mut self, name: &str, meta: PromptMetaInput, now: String) -> (r: Result<(), PromptError>)
        requires
            old(self).wf(),
        ensures
            final(self).wf(),
            create_post(*old(self), *final(self), name@, meta, now@, r),
    {
        if self.index.contains(name) {
            return Err(PromptError::AlreadyExists);
        }
        if name.unicode_len() == 0 || contains_char(name, '/') || contains_char(name, '\\') {
            return Err(PromptError::InvalidName);
        }
        let ghost pre = *self;
        let v0 = version_string((0, 1, 0));
        let record = VersionRecord { content: template(), written_at: now.clone() };
        let m = PromptMeta {
            name: name.to_owned(),
            description: meta.description,
            model: meta.model,
            temperature_bits: meta.temperature_bits,
            created_at: now.clone(),
        };
        let mut dir = match self.dirs.take(name) {
            Some(d) => d,
            None => PromptDir { meta: None, versions: Table::new() },
        };
        dir.meta = Some(m);
        let ghost old_versions = dir.versions.map();
        dir.versions.insert(v0.clone(), record);
        self.dirs.insert(name.to_owned(), dir);
        let entry = PromptIndexEntry {
            latest: v0,
            created_at: now.clone(),
            updated_at: now,
            tags: Table::new(),
        };
        self.index.insert(name.to_owned(), entry);
        proof {
            assert(self.index.map().remove(name@) =~= pre.index.map().remove(name@));
            assert(self.dirs.map().remove(name@) =~= pre.dirs.map().remove(name@));
            assert(self.index.map().dom() =~= pre.index.map().dom().insert(name@));
            assert(self.dirs.map().dom() =~= pre.dirs.map().dom().insert(name@));
            assert(old_versions == pre.versions_of(name@));
            let v0s = version_text(initial_version());
            assert(self.versions_of(name@).remove(v0s) =~= pre.versions_of(name@).remove(v0s));
            assert forall|n: Seq<char>| #[trigger] self.dirs.map().contains_key(n) implies self.dirs.map()[n].versions.wf() by {
                if n != name@ {
                    assert(pre.dirs.map().contains_key(n));
                }
            }
        }
        Ok(())
    }

    /// Saves `content` as a new version of `name` at time `now`: the patch
    /// number of the latest version raised by one (or `0.1.0` where the
    /// latest does not parse), the metadata input merged in, the index entry
    /// moved on. Returns the new version.
    pub fn save_prompt_at(&mut self, name: &str, content: String, meta: PromptMetaInput, now: String) -> (r: Result<String, PromptError>)
        requires
            old(self).wf(),
        ensures
            final(self).wf(),
            save_post(*old(self), *final(self), name@, content@, meta, now@, r),
    {
        let ghost pre = *self;
        let entry = match self.index.get(name) {
            Some(e) => e,
            None => return Err(PromptError::NotFound),
        };
        let dir = match self.dirs.get(name) {
            Some(d) => d,
            None => return Err(PromptError::IoFailure),
        };
        let current = match dir.versions.get(entry.latest.as_str()) {
            Some(c) => c,
            None => return Err(PromptError::IoFailure),
        };
        if current.content == content {
            return Err(PromptError::NoChange);
        }
        if dir.meta.is_none() {
            return Err(PromptError::IoFailure);
        }
        let new_version = match next_version(Some(entry.latest.as_str())) {
            Some(v) => v,
            None => return Err(PromptError::VersionExhausted),
        };
        let mut dir = self.dirs.take(name).unwrap();
        let old_meta = dir.meta.unwrap();
        dir.meta = Some(PromptMeta {
            name: old_meta.name,
            description: meta.description,
            model: meta.model,
            temperature_bits: meta.temperature_bits,
            created_at: old_meta.created_at,
        });
        dir.versions.insert(new_version.clone(), VersionRecord { content, written_at: now.clone() });
        self.dirs.insert(name.to_owned(), dir);
        let old_entry = self.index.take(name).unwrap();
        self.index.insert(
            name.to_owned(),
            PromptIndexEntry {
                latest: new_version.clone(),
                created_at: old_entry.created_at,
                updated_at: now,
                tags: old_entry.tags,
            },
        );
        proof {
            assert(self.index.map().remove(name@) =~= pre.index.map().remove(name@));
            assert(self.dirs.map().remove(name@) =~= pre.dirs.map().remove(name@));
            assert(self.index.map().dom() =~= pre.index.map().dom());
            assert(self.dirs.map().dom() =~= pre.dirs.map().dom());
            assert forall|n: Seq<char>| #[trigger] self.dirs.map().contains_key(n) implies self.dirs.map()[n].versions.wf() by {
                if n != name@ {
                    assert(pre.dirs.map().contains_key(n));
                }
            }
        }
        Ok(new_version)
    }

    /// Deletes document `name`: its whole storage, then its index entry.
    pub fn delete_prompt(&mut self, name: &str) -> (r: Result<(), PromptError>)
        requires
            old(self).wf(),
        ensures
            final(self).wf(),
            delete_post(*old(self), *final(self), name@, r),
    {
        let ghost pre = *self;
        if !self.index.contains(name) {
            return Err(PromptError::NotFound);
        }
        self.dirs.remove(name);
        self.index.remove(name);
        proof {
            assert forall|n: Seq<char>| #[trigger] self.dirs.map().contains_key(n) implies self.dirs.map()[n].versions.wf() by {
                assert(pre.dirs.map().contains_key(n));
            }
        }
        Ok(())
    }

    /// Reads document `name` at `version`, or at its latest version where
    /// `version` is `None`.
    pub fn get_prompt(&self, name: &str, version: Option<&str>) -> (r: Result<PromptData, PromptError>)
        requires
            self.wf(),
        ensures
            get_post(*self, name@, match version { Some(v) => Some(v@), None => None }, r),
    {
        let target: &str = match version {
            Some(v) => v,
            None => match self.index.get(name) {
                Some(e) => e.latest.as_str(),
                None => return Err(PromptError::NotFound),
            },
        };
        let dir = match self.dirs.get(name) {
            Some(d) => d,
            None => return Err(PromptError::NotFound),
        };
        let m = match &dir.meta {
            Some(m) => m,
            None => return Err(PromptError::NotFound),
        };
        let record = match dir.versions.get(target) {
            Some(c) => c,
            None => return Err(PromptError::NotFound),
        };
        Ok(PromptData {
            content: record.content.clone(),
            meta: PromptMeta {
                name: m.name.clone(),
                description: m.description.clone(),
                model: m.model.clone(),
                temperature_bits: m.temperature_bits,
                created_at: m.created_at.clone(),
            },
            version: target.to_owned(),
        })
    }

    /// The versions stored for `name`, highest first, each with the time
    /// it was written.
    pub fn list_versions(&self, name: &str) -> (r: Result<Vec<VersionInfo>, PromptError>)
        requires
            self.wf(),
        ensures
            list_versions_post(*self, name@, r),
    {
        broadcast use vstd::seq_lib::group_to_multiset_ensures;

        let dir = match self.dirs.get(name) {
            Some(d) => d,
            None => return Err(PromptError::NotFound),
        };
        let n = dir.versions.len();
        let mut infos: Vec<VersionInfo> = Vec::new();
        let mut i: usize = 0;
        while i < n
            invariant
                self.wf(),
                self.dirs.map().contains_key(name@),
                *dir == self.dirs.map()[name@],
                dir.versions.wf(),
                n == dir.versions.map().dom().len(),
                i <= n,
                infos@.len() == i,
                forall|k: int| 0 <= k < i ==> info_of(*self, name@, #[trigger] infos@[k]),
                forall|k: int| 0 <= k < i ==> (#[trigger] infos@[k]).version@ == dir.versions.key_at(k),
            decreases n - i,
        {
            let (v, rec) = dir.versions.entry(i);
            infos.push(VersionInfo { version: v.clone(), created_at: rec.written_at.clone() });
            i = i + 1;
        }
        let ghost pre = infos@;
        let r = sort_versions(infos);
        proof {
            assert forall|k: int| 0 <= k < r@.len() implies info_of(*self, name@, #[trigger] r@[k]) by {
                assert(r@.contains(r@[k]));
                assert(r@.to_multiset().count(r@[k]) > 0);
                assert(pre.contains(r@[k]));
            }
            dir.versions.lemma_keys();
            assert forall|v: Seq<char>| #[trigger] self.versions_of(name@).contains_key(v) implies lists_version(r@, v) by {
                let j = choose|j: int| 0 <= j < dir.versions.map().dom().len() && #[trigger] dir.versions.key_at(j) == v;
                assert(pre.contains(pre[j]));
                assert(pre.to_multiset().count(pre[j]) > 0);
                assert(r@.contains(pre[j]));
                let i = choose|i: int| 0 <= i < r@.len() && r@[i] == pre[j];
                assert(r@[i].version@ == v);
            }
            assert(r@.len() == r@.to_multiset().len());
        }
        Ok(r)
    }

    /// The identifiers of the versions stored for `name`, highest first;
    /// none where `name` has no storage.
    pub fn list_prompt_versions(&self, name: &str) -> (r: Vec<String>)
        requires
            self.wf(),
        ensures
            r@.len() == self.versions_of(name@).dom().len(),
            forall|i: int| 0 <= i < r@.len() ==> self.versions_of(name@).contains_key(#[trigger] r@[i]@),
            forall|v: Seq<char>|
                #[trigger] self.versions_of(name@).contains_key(v) ==> exists|i: int|
                    0 <= i < r@.len() && (#[trigger] r@[i])@ == v,
            forall|i: int, j: int|
                0 <= i < j < r@.len() ==> triple_le(version_key(#[trigger] r@[j]@), version_key(#[trigger] r@[i]@)),
    {
        let infos = match self.list_versions(name) {
            Ok(v) => v,
            Err(_) => return Vec::new(),
        };
        let ghost lv = infos@;
        let mut r: Vec<String> = Vec::new();
        let mut i: usize = 0;
        while i < infos.len()
            invariant
                i <= infos@.len(),
                infos@ == lv,
                r@.len() == i,
                forall|k: int| 0 <= k < i ==> (#[trigger] r@[k])@ == lv[k].version@,
            decreases infos@.len() - i,
        {
            r.push(infos[i].version.clone());
            i = i + 1;
        }
        proof {
            assert forall|k: int| 0 <= k < r@.len() implies self.versions_of(name@).contains_key(#[trigger] r@[k]@) by {
                assert(info_of(*self, name@, lv[k]));
            }
            assert forall|v: Seq<char>| #[trigger] self.versions_of(name@).contains_key(v) implies exists|i: int|
                0 <= i < r@.len() && (#[trigger] r@[i])@ == v by {
                assert(lists_version(lv, v));
                let k = choose|k: int| 0 <= k < lv.len() && (#[trigger] lv[k]).version@ == v;
                assert(r@[k]@ == v);
            }
            assert forall|a: int, b: int| 0 <= a < b < r@.len() implies triple_le(version_key(#[trigger] r@[b]@), version_key(#[trigger] r@[a]@)) by {
                assert(triple_le(version_key(lv[b].version@), version_key(lv[a].version@)));
            }
        }
        r
    }

    /// Compares two versions of `name`, line by line.
    pub fn diff_prompt(&self, name: &str, from: &str, to: &str) -> (r: Result<DiffResult, PromptError>)
        requires
            self.wf(),
        ensures
            self.versions_of(name@).contains_key(from@) && self.versions_of(name@).contains_key(to@)
                <==> r is Ok,
            r is Err ==> r == Err::<DiffResult, PromptError>(PromptError::NotFound),
            r is Ok ==> {
                &&& r.unwrap().from_version@ == from@
                &&& r.unwrap().to_version@ == to@
                &&& chunks_of(r.unwrap().chunks@, similar_line_changes(
                    self.versions_of(name@)[from@].content@,
                    self.versions_of(name@)[to@].content@,
                ))
            },
    {
        let dir = match self.dirs.get(name) {
            Some(d) => d,
            None => return Err(PromptError::NotFound),
        };
        let old_rec = match dir.versions.get(from) {
            Some(c) => c,
            None => return Err(PromptError::NotFound),
        };
        let new_rec = match dir.versions.get(to) {
            Some(c) => c,
            None => return Err(PromptError::NotFound),
        };
        let chunks = compute_diff(old_rec.content.as_str(), new_rec.content.as_str());
        Ok(DiffResult { from_version: from.to_owned(), to_version: to.to_owned(), chunks })
    }

    /// Creates document `name` now; see `create_prompt_at`.
    pub fn create_prompt(&mut self, name: &str, meta: PromptMetaInput) -> (r: Result<(), PromptError>)
        requires
            old(self).wf(),
        ensures
            final(self).wf(),
            exists|now: Seq<char>| create_post(*old(self), *final(self), name@, meta, now, r),
    {
        let now = utc_now_rfc3339();
        self.create_prompt_at(name, meta, now)
    }

    /// Saves a new version of `name` now; see `save_prompt_at`.
    pub fn save_prompt(&mut self, name: &str, content: String, meta: PromptMetaInput) -> (r: Result<String, PromptError>)
        requires
            old(self).wf(),
        ensures
            final(self).wf(),
            exists|now: Seq<char>| save_post(*old(self), *final(self), name@, content@, meta, now, r),
    {
        let now = utc_now_rfc3339();
        self.save_prompt_at(name, content, meta, now)
    }
}

/// Relies on `chrono::Utc::now` and `DateTime::to_rfc3339`: the current
/// time, as text. Nothing is known of which time that is.
#[verifier::external_body]
fn utc_now_rfc3339() -> (r: String) {
    chrono::Utc::now().to_rfc3339()
}

/// The result of comparing two versions of a document.
pub struct DiffResult {
    pub from_version: String,
    pub to_version: String,
    pub chunks: Vec<DiffChunk>,
}

/// A document just created reads, at its latest version, as the template
/// at version `0.1.0`.
pub proof fn created_reads_as_template(
    s0: PromptStore,
    s1: PromptStore,
    name: Seq<char>,
    input: PromptMetaInput,
    now: Seq<char>,
    g: Result<PromptData, PromptError>,
)
    requires
        create_post(s0, s1, name, input, now, Ok(())),
        get_post(s1, name, None, g),
    ensures
        g is Ok,
        g.unwrap().content@ == template_text(),
        g.unwrap().version@ == seq!['0', '.', '1', '.', '0'],
{
    assert(decimal(0) == seq!['0']);
    assert(decimal(1) == seq!['1']);
    assert(version_text(initial_version()) =~= seq!['0', '.', '1', '.', '0']);
}

/// Creating a name a second time fails with `AlreadyExists` and leaves the
/// store as the first creation left it.
pub proof fn second_create_fails(
    s0: PromptStore,
    s1: PromptStore,
    s2: PromptStore,
    name: Seq<char>,
    input1: PromptMetaInput,
    now1: Seq<char>,
    input2: PromptMetaInput,
    now2: Seq<char>,
    r2: Result<(), PromptError>,
)
    requires
        create_post(s0, s1, name, input1, now1, Ok(())),
        create_post(s1, s2, name, input2, now2, r2),
    ensures
        r2 == Err::<(), PromptError>(PromptError::AlreadyExists),
        s2 == s1,
{
    if s0.index.map().contains_key(name) {
    } else {
        assert(s1.index.map().dom().contains(name));
    }
}

/// Saving the content that the latest version already holds fails with
/// `NoChange` and leaves the store as it was.
pub proof fn unchanged_save_rejected(
    s0: PromptStore,
    s1: PromptStore,
    name: Seq<char>,
    content: Seq<char>,
    input: PromptMetaInput,
    now: Seq<char>,
    r: Result<String, PromptError>,
)
    requires
        s0.index.map().contains_key(name),
        s0.versions_of(name).contains_key(s0.index.map()[name].latest@),
        s0.versions_of(name)[s0.index.map()[name].latest@].content@ == content,
        save_post(s0, s1, name, content, input, now, r),
    ensures
        r == Err::<String, PromptError>(PromptError::NoChange),
        s1 == s0,
{
}

/// A successful save moves the latest version from `major.minor.patch` to
/// `major.minor.(patch + 1)`, and every other version keeps its content.
pub proof fn save_raises_patch(
    s0: PromptStore,
    s1: PromptStore,
    name: Seq<char>,
    content: Seq<char>,
    input: PromptMetaInput,
    now: Seq<char>,
    r: Result<String, PromptError>,
    t: (u64, u64, u64),
    v: Seq<char>,
    g: Result<PromptData, PromptError>,
)
    requires
        s0.index.map().contains_key(name),
        s0.index.map()[name].latest@ == version_text(t),
        t.2 < u64::MAX,
        save_post(s0, s1, name, content, input, now, r),
        r is Ok,
        s0.versions_of(name).contains_key(v),
        v != r.unwrap()@,
        get_post(s1, name, Some(v), g),
    ensures
        r.unwrap()@ == version_text((t.0, t.1, (t.2 + 1) as u64)),
        s1.index.map()[name].latest@ == version_text((t.0, t.1, (t.2 + 1) as u64)),
        g is Ok,
        g.unwrap().content@ == s0.versions_of(name)[v].content@,
{
    let v1 = r.unwrap()@;
    assert(version_text((t.0, t.1, (t.2 + 1) as u64)) == v1);
    assert(s1.versions_of(name)[v] == s0.versions_of(name)[v]);
}

/// Over a run of successful saves on one document, the latest version
/// climbs by one patch number per save, major and minor held.
pub proof fn saves_climb_by_one(
    states: Seq<PromptStore>,
    name: Seq<char>,
    contents: Seq<Seq<char>>,
    inputs: Seq<PromptMetaInput>,
    times: Seq<Seq<char>>,
    results: Seq<Result<String, PromptError>>,
    t: (u64, u64, u64),
)
    requires
        states.len() == results.len() + 1,
        contents.len() == results.len(),
        inputs.len() == results.len(),
        times.len() == results.len(),
        forall|k: int|
            0 <= k < results.len() ==> save_post(
                states[k],
                states[k + 1],
                name,
                contents[k],
                inputs[k],
                times[k],
                #[trigger] results[k],
            ) && results[k] is Ok,
        states[0].index.map().contains_key(name),
        states[0].index.map()[name].latest@ == version_text(t),
        t.2 + results.len() <= u64::MAX,
    ensures
        forall|k: int|
            0 <= k < results.len() ==> (#[trigger] results[k]).unwrap()@ == version_text(
                (t.0, t.1, (t.2 + k + 1) as u64),
            ),
    decreases results.len(),
{
    let n = results.len() as int;
    if n > 0 {
        let m = n - 1;
        saves_climb_by_one(
            states.drop_last(),
            name,
            contents.drop_last(),
            inputs.drop_last(),
            times.drop_last(),
            results.drop_last(),
            t,
        );
        latest_after_saves(states, name, contents, inputs, times, results, t, m);
        assert forall|k: int| 0 <= k < n implies (#[trigger] results[k]).unwrap()@ == version_text(
            (t.0, t.1, (t.2 + k + 1) as u64),
        ) by {
            if k < m {
                assert(results.drop_last()[k] == results[k]);
            }
        }
    }
}

proof fn latest_after_saves(
    states: Seq<PromptStore>,
    name: Seq<char>,
    contents: Seq<Seq<char>>,
    inputs: Seq<PromptMetaInput>,
    times: Seq<Seq<char>>,
    results: Seq<Result<String, PromptError>>,
    t: (u64, u64, u64),
    m: int,
)
    requires
        states.len() == results.len() + 1,
        contents.len() == results.len(),
        inputs.len() == results.len(),
        times.len() == results.len(),
        forall|k: int|
            0 <= k < results.len() ==> save_post(
                states[k],
                states[k + 1],
                name,
                contents[k],
                inputs[k],
                times[k],
                #[trigger] results[k],
            ) && results[k] is Ok,
        states[0].index.map().contains_key(name),
        states[0].index.map()[name].latest@ == version_text(t),
        t.2 + results.len() <= u64::MAX,
        0 <= m < results.len(),
    ensures
        states[m].index.map().contains_key(name),
        states[m].index.map()[name].latest@ == version_text((t.0, t.1, (t.2 + m) as u64)),
        results[m].unwrap()@ == version_text((t.0, t.1, (t.2 + m + 1) as u64)),
    decreases m,
{
    if m > 0 {
        latest_after_saves(states, name, contents, inputs, times, results, t, m - 1);
        let _ = results[m - 1];
    }
    let _ = results[m];
    let tm = (t.0, t.1, (t.2 + m) as u64);
    assert(version_text((tm.0, tm.1, (tm.2 + 1) as u64)) == results[m].unwrap()@);
}

/// After a document is deleted, reading it at any version and listing its
/// versions fail with `NotFound`, and no listing of the index names it.
pub proof fn deleted_is_gone(
    s0: PromptStore,
    s1: PromptStore,
    name: Seq<char>,
    r: Result<(), PromptError>,
    version: Option<Seq<char>>,
    g: Result<PromptData, PromptError>,
    lv: Result<Vec<VersionInfo>, PromptError>,
    listing: Seq<PromptSummary>,
)
    requires
        delete_post(s0, s1, name, r),
        r is Ok,
        get_post(s1, name, version, g),
        list_versions_post(s1, name, lv),
        forall|i: int| 0 <= i < listing.len() ==> summary_of(s1.index.map(), #[trigger] listing[i]),
    ensures
        g == Err::<PromptData, PromptError>(PromptError::NotFound),
        lv == Err::<Vec<VersionInfo>, PromptError>(PromptError::NotFound),
        !s1.index.map().contains_key(name),
        !listed(listing, name),
{
    if listed(listing, name) {
        let i = choose|i: int| 0 <= i < listing.len() && (#[trigger] listing[i]).name@ == name;
        assert(summary_of(s1.index.map(), listing[i]));
    }
}

} // verus!
