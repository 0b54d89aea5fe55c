//! Content-addressed identities of modules, for change detection.
use vstd::prelude::*;
use crate::hex::{hex_fixed, write_hex_fixed};
use vstd::string::StringSliceAdditionalSpecFns;
use dashmap::{DashMap, DashSet};
use std::collections::HashSet;

verus! {

/// What `blake3::hash` gives for some bytes: their 32-byte BLAKE3 digest.
pub uninterp spec fn blake3_digest(data: Seq<u8>) -> Seq<u8>;

/// The BLAKE3 digest of some bytes, through `blake3::hash`; the contract names the result
/// as a function of the bytes alone, and states nothing else of it.
#[verifier::external_body]
fn blake3_hash(data: &[u8]) -> (r: [u8; 32])
    ensures
        r@ == blake3_digest(data@),
{
    *blake3::hash(data).as_bytes()
}

/// The value of the first eight bytes read as a little-endian number.
pub open spec fn le_u64(b: Seq<u8>) -> nat {
    b[0] as nat + 256 * (b[1] as nat + 256 * (b[2] as nat + 256 * (b[3] as nat + 256 * (b[4] as nat
        + 256 * (b[5] as nat + 256 * (b[6] as nat + 256 * (b[7] as nat)))))))
}

/// Identifier of a module.
#[derive(Debug, Clone, Copy, PartialEq, Eq, Hash, Structural)]
pub struct ModuleId(pub u64);

impl ModuleId {
    /// The identifier of the module at a path: the first eight bytes of the BLAKE3
    /// digest of the path, read as a little-endian number.
    pub fn from_path(path: &str) -> (r: Self)
        ensures
            r.0 == le_u64(blake3_digest(path.spec_bytes())),
    {
        let d = blake3_hash(path.as_bytes());
        let mut v: u64 = d[7] as u64;
        assert(v < 0x100);
        v = v * 256 + d[6] as u64;
        assert(v < 0x1_0000);
        v = v * 256 + d[5] as u64;
        assert(v < 0x100_0000);
        v = v * 256 + d[4] as u64;
        assert(v < 0x1_0000_0000);
        v = v * 256 + d[3] as u64;
        assert(v < 0x100_0000_0000);
        v = v * 256 + d[2] as u64;
        assert(v < 0x1_0000_0000_0000);
        v = v * 256 + d[1] as u64;
        assert(v < 0x100_0000_0000_0000);
        v = v * 256 + d[0] as u64;
        ModuleId(v)
    }

    pub fn as_u64(&self) -> (r: u64)
        ensures
            r == self.0,
    {
        self.0
    }

    /// The identifier as sixteen lowercase hexadecimal digits.
    pub fn as_str(&self) -> (r: String)
        ensures
            r@ == hex_fixed(self.0 as nat, 16),
    {
        let mut s = String::new();
        write_hex_fixed(&mut s, self.0, 16);
        s
    }
}

/// Digest of a module's content, for change detection.
#[derive(Debug, Clone, Copy, PartialEq, Eq, Hash)]
pub struct ContentHash(pub [u8; 32]);

impl ContentHash {
    /// The BLAKE3 digest of some content.
    pub fn from_content(content: &[u8]) -> (r: Self)
        ensures
            r.0@ == blake3_digest(content@),
    {
        ContentHash(blake3_hash(content))
    }

    /// The BLAKE3 digest of a text's bytes.
    pub fn from_str(content: &str) -> (r: Self)
        ensures
            r.0@ == blake3_digest(content.spec_bytes()),
    {
        Self::from_content(content.as_bytes())
    }

    pub fn as_bytes(&self) -> (r: &[u8; 32])
        ensures
            r@ == self.0@,
    {
        &self.0
    }
}

/// Model of a [`ModuleMetadata`]: identifier, path, content digest, time stamp and the
/// identifiers of the modules it imports.
pub struct SMeta {
    pub id: u64,
    pub path: Seq<char>,
    pub hash: Seq<u8>,
    pub timestamp: u64,
    pub imports: Seq<u64>,
}

/// The identifiers of a list of modules.
pub open spec fn id_values(v: Seq<ModuleId>) -> Seq<u64> {
    v.map_values(|m: ModuleId| m.0)
}

/// What is known of a module for incremental checking.
#[derive(Debug)]
pub struct ModuleMetadata {
    pub id: ModuleId,
    pub path: String,
    pub hash: ContentHash,
    pub timestamp: u64,
    pub imports: Vec<ModuleId>,
}

impl View for ModuleMetadata {
    type V = SMeta;

    open spec fn view(&self) -> SMeta {
        SMeta {
            id: self.id.0,
            path: self.path@,
            hash: self.hash.0@,
            timestamp: self.timestamp,
            imports: id_values(self.imports@),
        }
    }
}

impl Clone for ModuleMetadata {
    fn clone(&self) -> (r: Self)
        ensures
            r.id == self.id,
            r.path@ == self.path@,
            r.hash.0@ == self.hash.0@,
            r.timestamp == self.timestamp,
            r.imports@ == self.imports@,
            r@ == self@,
    {
        ModuleMetadata {
            id: self.id,
            path: self.path.clone(),
            hash: ContentHash(self.hash.0),
            timestamp: self.timestamp,
            imports: self.imports.clone(),
        }
    }
}

#[verifier::external_type_specification]
#[verifier::external_body]
#[verifier::reject_recursive_types(K)]
#[verifier::reject_recursive_types(S)]
pub struct ExDashSet<K, S>(DashSet<K, S>);

/// The edges of a module graph held in a `dashmap` table: each module's set of neighbours.
pub uninterp spec fn edge_entries(m: DashMap<u64, HashSet<u64>>) -> Map<u64, Set<u64>>;

/// The content digests held in a `dashmap` table, by module.
pub uninterp spec fn hash_entries(m: DashMap<u64, ContentHash>) -> Map<u64, Seq<u8>>;

/// The module metadata held in a `dashmap` table, by module.
pub uninterp spec fn meta_entries(m: DashMap<u64, ModuleMetadata>) -> Map<u64, SMeta>;

/// The modules held in a `dashmap` set.
pub uninterp spec fn id_entries(s: DashSet<u64>) -> Set<u64>;

/// `DashMap::new`: an empty edge table.
#[verifier::external_body]
fn new_edges() -> (r: DashMap<u64, HashSet<u64>>)
    ensures
        edge_entries(r).dom() == Set::<u64>::empty(),
{
    DashMap::new()
}

/// `DashMap::insert` on an edge table: the module now has the given neighbours.
#[verifier::external_body]
fn set_edges(m: &mut DashMap<u64, HashSet<u64>>, k: u64, v: HashSet<u64>)
    ensures
        edge_entries(*final(m)) == edge_entries(*old(m)).insert(k, v@),
{
    m.insert(k, v);
}

/// `DashMap::entry(k).or_default()` then `HashSet::insert`: `v` joins the neighbours of
/// `k`, which start empty.
#[verifier::external_body]
fn add_edge(m: &mut DashMap<u64, HashSet<u64>>, k: u64, v: u64)
    ensures
        edge_entries(*final(m)) == edge_entries(*old(m)).insert(
            k,
            if edge_entries(*old(m)).contains_key(k) {
                edge_entries(*old(m))[k]
            } else {
                Set::empty()
            }.insert(v),
        ),
{
    m.entry(k).or_default().insert(v);
}

/// `DashMap::get` on an edge table, with the neighbours listed through `HashSet::iter`:
/// each once, in an order that nothing here fixes.
#[verifier::external_body]
fn edges_of(m: &DashMap<u64, HashSet<u64>>, k: u64) -> (r: Option<Vec<u64>>)
    ensures
        r matches Some(v) ==> edge_entries(*m).contains_key(k) && v@.no_duplicates() && v@.to_set()
            == edge_entries(*m)[k],
        r is None ==> !edge_entries(*m).contains_key(k),
{
    m.get(&k).map(|e| e.value().iter().copied().collect())
}

/// `DashMap::new`: an empty digest table.
#[verifier::external_body]
fn new_hashes() -> (r: DashMap<u64, ContentHash>)
    ensures
        hash_entries(r).dom() == Set::<u64>::empty(),
{
    DashMap::new()
}

/// `DashMap::insert` on a digest table.
#[verifier::external_body]
fn set_hash(m: &mut DashMap<u64, ContentHash>, k: u64, v: ContentHash)
    ensures
        hash_entries(*final(m)) == hash_entries(*old(m)).insert(k, v.0@),
{
    m.insert(k, v);
}

/// `DashMap::get` on a digest table, the digest copied out.
#[verifier::external_body]
fn hash_of(m: &DashMap<u64, ContentHash>, k: u64) -> (r: Option<ContentHash>)
    ensures
        r matches Some(h) ==> hash_entries(*m).contains_key(k) && h.0@ == hash_entries(*m)[k],
        r is None ==> !hash_entries(*m).contains_key(k),
{
    m.get(&k).map(|e| *e.value())
}

/// `DashMap::new`: an empty metadata table.
#[verifier::external_body]
fn new_metas() -> (r: DashMap<u64, ModuleMetadata>)
    ensures
        meta_entries(r).dom() == Set::<u64>::empty(),
{
    DashMap::new()
}

/// `DashMap::insert` on a metadata table.
#[verifier::external_body]
fn set_meta(m: &mut DashMap<u64, ModuleMetadata>, k: u64, v: ModuleMetadata)
    ensures
        meta_entries(*final(m)) == meta_entries(*old(m)).insert(k, v@),
{
    m.insert(k, v);
}

/// `DashMap::get` on a metadata table, the metadata cloned out.
#[verifier::external_body]
fn meta_of(m: &DashMap<u64, ModuleMetadata>, k: u64) -> (r: Option<ModuleMetadata>)
    ensures
        r matches Some(x) ==> meta_entries(*m).contains_key(k) && x@ == meta_entries(*m)[k],
        r is None ==> !meta_entries(*m).contains_key(k),
{
    m.get(&k).map(|e| e.value().clone())
}

/// The modules of a metadata table, through `DashMap::iter`: each once, in the map's own
/// order, which nothing here fixes.
#[verifier::external_body]
fn meta_ids(m: &DashMap<u64, ModuleMetadata>) -> (r: Vec<u64>)
    ensures
        r@.no_duplicates(),
        r@.to_set() == meta_entries(*m).dom(),
{
    m.iter().map(|e| *e.key()).collect()
}

/// `DashSet::new`: an empty set of modules.
#[verifier::external_body]
fn new_id_set() -> (r: DashSet<u64>)
    ensures
        id_entries(r) == Set::<u64>::empty(),
{
    DashSet::new()
}

/// `DashSet::insert`: the module joins the set.
#[verifier::external_body]
fn add_id(s: &mut DashSet<u64>, k: u64)
    ensures
        id_entries(*final(s)) == id_entries(*old(s)).insert(k),
{
    s.insert(k);
}

/// The modules of a set, through `DashSet::iter`: each once, in an order that nothing
/// here fixes.
#[verifier::external_body]
fn id_list(s: &DashSet<u64>) -> (r: Vec<u64>)
    ensures
        r@.no_duplicates(),
        r@.to_set() == id_entries(*s),
{
    s.iter().map(|e| *e.key()).collect()
}

/// `DashSet::clear`: the set is emptied.
#[verifier::external_body]
fn clear_ids(s: &mut DashSet<u64>)
    ensures
        id_entries(*final(s)) == Set::<u64>::empty(),
{
    s.clear();
}

/// Every neighbour set of the table is finite, and so is the table.
pub open spec fn finite_edges(e: Map<u64, Set<u64>>) -> bool {
    e.dom().finite() && forall|k: u64| #[trigger] e.contains_key(k) ==> e[k].finite()
}

/// The model of a dependency graph: what each module imports, which modules import each
/// module, the content digests, and the metadata, by module.
pub struct SGraph {
    pub dependencies: Map<u64, Set<u64>>,
    pub dependents: Map<u64, Set<u64>>,
    pub hashes: Map<u64, Seq<u8>>,
    pub metadata: Map<u64, SMeta>,
}

/// Adding a module: what it imports is recorded when it imports anything, it becomes a
/// dependent of each import, and its digest and metadata are recorded.
pub open spec fn graph_add(g: SGraph, m: SMeta) -> SGraph {
    SGraph {
        dependencies: if m.imports.len() > 0 {
            g.dependencies.insert(m.id, m.imports.to_set())
        } else {
            g.dependencies
        },
        dependents: add_dependent(g.dependents, m.imports, m.id),
        hashes: g.hashes.insert(m.id, m.hash),
        metadata: g.metadata.insert(m.id, m),
    }
}

/// `id` recorded as a dependent of each of `deps`, in order.
pub open spec fn add_dependent(e: Map<u64, Set<u64>>, deps: Seq<u64>, id: u64) -> Map<u64, Set<u64>>
    decreases deps.len(),
{
    if deps.len() == 0 {
        e
    } else {
        let e0 = add_dependent(e, deps.drop_last(), id);
        let d = deps.last();
        e0.insert(d, if e0.contains_key(d) { e0[d] } else { Set::empty() }.insert(id))
    }
}

/// Tracks the imports between modules, their digests and metadata.
pub struct DependencyGraph {
    dependencies: DashMap<u64, HashSet<u64>>,
    dependents: DashMap<u64, HashSet<u64>>,
    hashes: DashMap<u64, ContentHash>,
    metadata: DashMap<u64, ModuleMetadata>,
}

impl View for DependencyGraph {
    type V = SGraph;

    closed spec fn view(&self) -> SGraph {
        SGraph {
            dependencies: edge_entries(self.dependencies),
            dependents: edge_entries(self.dependents),
            hashes: hash_entries(self.hashes),
            metadata: meta_entries(self.metadata),
        }
    }
}

impl DependencyGraph {
    /// The tables are finite.
    pub closed spec fn wf(&self) -> bool {
        &&& finite_edges(self@.dependencies)
        &&& finite_edges(self@.dependents)
        &&& self@.metadata.dom().finite()
    }

    /// A graph with no modules.
    pub fn new() -> (r: Self)
        ensures
            r.wf(),
            r@ == (SGraph {
                dependencies: Map::empty(),
                dependents: Map::empty(),
                hashes: Map::empty(),
                metadata: Map::empty(),
            }),
    {
        let r = DependencyGraph {
            dependencies: new_edges(),
            dependents: new_edges(),
            hashes: new_hashes(),
            metadata: new_metas(),
        };
        assert(r@.dependencies =~= Map::<u64, Set<u64>>::empty());
        assert(r@.dependents =~= Map::<u64, Set<u64>>::empty());
        assert(r@.hashes =~= Map::<u64, Seq<u8>>::empty());
        assert(r@.metadata =~= Map::<u64, SMeta>::empty());
        r
    }

    /// Adds a module with what it imports.
    pub fn add_module(&mut self, meta: ModuleMetadata)
        requires
            old(self).wf(),
        ensures
            final(self).wf(),
            final(self)@ == graph_add(old(self)@, meta@),
    {
        broadcast use vstd::std_specs::hash::group_hash_axioms;
        let id = meta.id.0;
        let hash = meta.hash;
        let ghost m = meta@;
        if meta.imports.len() > 0 {
            let mut set: HashSet<u64> = HashSet::new();
            let mut i: usize = 0;
            while i < meta.imports.len()
                invariant
                    0 <= i <= meta.imports.len(),
                    m == meta@,
                    set@ == m.imports.take(i as int).to_set(),
                    set@.finite(),
                decreases meta.imports.len() - i,
            {
                proof {
                    assert(m.imports.take(i + 1) =~= m.imports.take(i as int).push(m.imports[i as int]));
                    m.imports.take(i as int).lemma_push_to_set_commute(m.imports[i as int]);
                }
                set.insert(meta.imports[i].0);
                i += 1;
            }
            assert(m.imports.take(meta.imports.len() as int) =~= m.imports);
            set_edges(&mut self.dependencies, id, set);
        }
        let ghost e0 = edge_entries(self.dependents);
        let ghost d1 = edge_entries(self.dependencies);
        proof {
            if m.imports.len() > 0 {
                assert(d1 == old(self)@.dependencies.insert(id, m.imports.to_set()));
            } else {
                assert(d1 == old(self)@.dependencies);
            }
            assert forall|k: u64| #[trigger] d1.contains_key(k) implies d1[k].finite() by {
                if k != id || m.imports.len() == 0 {
                    assert(old(self)@.dependencies.contains_key(k));
                }
            }
        }
        let mut j: usize = 0;
        while j < meta.imports.len()
            invariant
                0 <= j <= meta.imports.len(),
                m == meta@,
                id == m.id,
                edge_entries(self.dependents) == add_dependent(e0, m.imports.take(j as int), id),
                finite_edges(edge_entries(self.dependents)),
                edge_entries(self.dependencies) == d1,
                hash_entries(self.hashes) == old(self)@.hashes,
                meta_entries(self.metadata) == old(self)@.metadata,
            decreases meta.imports.len() - j,
        {
            assert(m.imports.take(j + 1).drop_last() =~= m.imports.take(j as int));
            add_edge(&mut self.dependents, meta.imports[j].0, id);
            proof {
                let e = edge_entries(self.dependents);
                assert forall|k: u64| #[trigger] e.contains_key(k) implies e[k].finite() by {}
            }
            j += 1;
        }
        assert(m.imports.take(meta.imports.len() as int) =~= m.imports);
        set_hash(&mut self.hashes, id, hash);
        set_meta(&mut self.metadata, id, meta);
    }

    /// Whether a module's content changed: it has no digest, or another one.
    pub fn has_changed(&self, id: ModuleId, new_hash: ContentHash) -> (r: bool)
        ensures
            r == !(self@.hashes.contains_key(id.0) && self@.hashes[id.0] == new_hash.0@),
    {
        match hash_of(&self.hashes, id.0) {
            Some(h) => {
                let mut same = true;
                let mut i: usize = 0;
                while i < 32
                    invariant
                        0 <= i <= 32,
                        h.0@.len() == 32,
                        new_hash.0@.len() == 32,
                        same == (forall|j: int| 0 <= j < i ==> h.0@[j] == new_hash.0@[j]),
                    decreases 32 - i,
                {
                    if h.0[i] != new_hash.0[i] {
                        same = false;
                    }
                    i += 1;
                }
                proof {
                    if same {
                        assert(h.0@ =~= new_hash.0@);
                    }
                }
                !same
            },
            None => true,
        }
    }

    /// The modules to check again when `changed` changed: those and every module that
    /// depends on one of them, directly or through others; each once.
    #[verifier::spinoff_prover]
    #[verifier::rlimit(40)]
    pub fn invalidate(&self, changed: &[ModuleId]) -> (r: Vec<ModuleId>)
        requires
            self.wf(),
        ensures
            id_values(r@).no_duplicates(),
            id_values(r@).to_set() == reachable(self@.dependents, id_values(changed@).to_set()),
    {
        broadcast use vstd::std_specs::hash::group_hash_axioms;
        let ghost e = self@.dependents;
        let ghost start = id_values(changed@).to_set();
        let ghost reach = reachable(e, start);
        let ghost universe = start.union(targets(e));
        proof {
            lemma_targets_finite(e);
            lemma_reachable_within(e, start);
        }
        let mut worklist: Vec<u64> = Vec::new();
        let mut k: usize = 0;
        while k < changed.len()
            invariant
                0 <= k <= changed.len(),
                start == id_values(changed@).to_set(),
                worklist@ == id_values(changed@).take(k as int),
            decreases changed.len() - k,
        {
            assert(id_values(changed@).take(k + 1) =~= id_values(changed@).take(k as int).push(changed@[k as int].0));
            worklist.push(changed[k].0);
            k += 1;
        }
        assert(id_values(changed@).take(changed.len() as int) =~= id_values(changed@));
        proof {
            assert forall|x: u64| start.contains(x) implies worklist@.to_set().contains(x) by {
                let j = choose|j: int| 0 <= j < worklist@.len() && worklist@[j] == x;
                assert(worklist@.contains(x));
            }
            assert forall|j: int| 0 <= j < worklist@.len() implies reach.contains(#[trigger] worklist@[j]) by {
                assert(start.contains(worklist@[j]));
                lemma_reachable_start(e, start, worklist@[j]);
            }
        }
        let mut invalid: HashSet<u64> = HashSet::new();
        let mut out: Vec<ModuleId> = Vec::new();
        while worklist.len() > 0
            invariant
                e == self@.dependents,
                finite_edges(e),
                start == id_values(changed@).to_set(),
                reach == reachable(e, start),
                universe == start.union(targets(e)),
                universe.finite(),
                reach.subset_of(universe),
                invalid@.finite(),
                invalid@.subset_of(reach),
                forall|j: int| 0 <= j < worklist@.len() ==> reach.contains(#[trigger] worklist@[j]),
                start.subset_of(invalid@.union(worklist@.to_set())),
                closed_into(e, invalid@, invalid@.union(worklist@.to_set())),
                id_values(out@).no_duplicates(),
                id_values(out@).to_set() == invalid@,
            decreases universe.difference(invalid@).len(), worklist.len(),
        {
            let ghost wl0 = worklist@;
            let ghost inv0 = invalid@;
            let ghost m0 = universe.difference(inv0).len();
            let id = worklist.pop().unwrap();
            assert(wl0 == worklist@.push(id));
            assert(wl0.to_set() == worklist@.to_set().insert(id)) by {
                worklist@.lemma_push_to_set_commute(id);
            }
            if invalid.insert(id) {
                let ghost ov = id_values(out@);
                out.push(ModuleId(id));
                assert(id_values(out@) =~= ov.push(id));
                proof {
                    ov.lemma_push_to_set_commute(id);
                    assert(!ov.contains(id));
                    assert(reach.contains(wl0[wl0.len() - 1]));
                    assert(universe.contains(id));
                    assert(universe.difference(inv0).contains(id));
                    assert(universe.difference(inv0).finite());
                    assert(universe.difference(invalid@) =~= universe.difference(inv0).remove(id));
                    assert(universe.difference(invalid@).len() < m0);
                }
                let ghost wl1 = worklist@;
                match edges_of(&self.dependents, id) {
                    Some(deps) => {
                        assert(wl1 + deps@.take(0) =~= wl1);
                        let mut t: usize = 0;
                        while t < deps.len()
                            invariant
                                0 <= t <= deps.len(),
                                worklist@ == wl1 + deps@.take(t as int),
                            decreases deps.len() - t,
                        {
                            assert(deps@.take(t + 1) =~= deps@.take(t as int).push(deps@[t as int]));
                            worklist.push(deps[t]);
                            t += 1;
                        }
                        assert(deps@.take(deps.len() as int) =~= deps@);
                        proof {
                            assert(reach.contains(id));
                            assert forall|j: int| 0 <= j < worklist@.len() implies reach.contains(#[trigger] worklist@[j]) by {
                                if j >= wl1.len() {
                                    let y = deps@[j - wl1.len()];
                                    assert(worklist@[j] == y);
                                    assert(deps@.to_set().contains(y));
                                    lemma_reachable_step(e, start, id, y);
                                } else {
                                    assert(worklist@[j] == wl1[j]);
                                    assert(wl0[j] == wl1[j]);
                                }
                            }
                            lemma_to_set_concat(wl1, deps@);
                            assert(worklist@.to_set() == wl1.to_set().union(deps@.to_set()));
                        }
                    },
                    None => {
                        proof {
                            assert forall|j: int| 0 <= j < worklist@.len() implies reach.contains(#[trigger] worklist@[j]) by {
                                assert(wl0[j] == worklist@[j]);
                            }
                        }
                    },
                }
            } else {
                proof {
                    assert forall|j: int| 0 <= j < worklist@.len() implies reach.contains(#[trigger] worklist@[j]) by {
                        assert(wl0[j] == worklist@[j]);
                    }
                    assert(invalid@ == inv0);
                    assert(worklist@.len() < wl0.len());
                }
            }
            assert(universe.difference(invalid@).len() < m0 || (invalid@ == inv0 && worklist@.len() < wl0.len()));
        }
        proof {
            assert(worklist@.to_set() =~= Set::<u64>::empty());
            assert(invalid@.union(worklist@.to_set()) =~= invalid@);
            assert forall|x: u64| reach.contains(x) implies invalid@.contains(x) by {
                let p = choose|p: Seq<u64>| #[trigger] is_path(e, p) && start.contains(p[0]) && p.last() == x;
                lemma_closed_holds_path(e, start, invalid@, p);
            }
            assert(invalid@ =~= reach);
        }
        out
    }

    /// The modules that the metadata table lists and that `keep` accepts, given the
    /// processed modules; each once.
    fn layer_after(&self, processed: &HashSet<u64>, first: bool) -> (r: Vec<u64>)
        requires
            self.wf(),
        ensures
            r@.no_duplicates(),
            r@.to_set() == if first {
                first_layer(self@)
            } else {
                next_layer(self@, processed@)
            },
    {
        broadcast use vstd::std_specs::hash::group_hash_axioms;
        let ghost g = self@;
        let ghost want = if first {
            first_layer(g)
        } else {
            next_layer(g, processed@)
        };
        let ids = meta_ids(&self.metadata);
        let mut out: Vec<u64> = Vec::new();
        let mut i: usize = 0;
        while i < ids.len()
            invariant
                0 <= i <= ids.len(),
                g == self@,
                ids@.no_duplicates(),
                ids@.to_set() == g.metadata.dom(),
                want == if first {
                    first_layer(g)
                } else {
                    next_layer(g, processed@)
                },
                out@.no_duplicates(),
                forall|x: u64| #[trigger] out@.contains(x) <==> (ids@.take(i as int).contains(x) && want.contains(x)),
            decreases ids.len() - i,
        {
            let id = ids[i];
            let ghost before = out@;
            proof {
                assert(ids@.take(i + 1) =~= ids@.take(i as int).push(id));
                assert(!ids@.take(i as int).contains(id)) by {
                    if ids@.take(i as int).contains(id) {
                        let j = choose|j: int| 0 <= j < i && ids@.take(i as int)[j] == id;
                        assert(ids@[j] == ids@[i as int]);
                    }
                }
                assert(ids@.to_set().contains(id)) by {
                    assert(ids@.contains(id));
                }
            }
            let keep = if !first && processed.contains(&id) {
                false
            } else {
                match edges_of(&self.dependencies, id) {
                    None => first,
                    Some(deps) => {
                        if first {
                            proof {
                                if deps.len() > 0 {
                                    assert(deps@.to_set().contains(deps@[0]));
                                } else {
                                    assert(deps@.to_set() =~= Set::<u64>::empty());
                                }
                            }
                            deps.len() == 0
                        } else {
                            let mut all = true;
                            let mut t: usize = 0;
                            while t < deps.len()
                                invariant
                                    0 <= t <= deps.len(),
                                    all == forall|j: int| 0 <= j < t ==> processed@.contains(#[trigger] deps@[j]),
                                decreases deps.len() - t,
                            {
                                if !processed.contains(&deps[t]) {
                                    all = false;
                                }
                                t += 1;
                            }
                            proof {
                                if all {
                                    assert forall|x: u64| deps@.to_set().contains(x) implies processed@.contains(x) by {
                                        let j = choose|j: int| 0 <= j < deps@.len() && deps@[j] == x;
                                    }
                                } else {
                                    let j = choose|j: int| 0 <= j < deps@.len() && !processed@.contains(#[trigger] deps@[j]);
                                    assert(deps@.to_set().contains(deps@[j]));
                                }
                            }
                            all
                        }
                    },
                }
            };
            assert(keep == want.contains(id));
            if keep {
                out.push(id);
                proof {
                    assert forall|a: int, b: int| 0 <= a < b < out@.len() implies out@[a] != out@[b] by {
                        if b == out@.len() - 1 {
                            assert(before.contains(out@[a]));
                        }
                    }
                }
            }
            proof {
                let t0 = ids@.take(i as int);
                let t1 = ids@.take(i + 1);
                assert(t1 == t0.push(id));
                assert forall|x: u64| #[trigger] out@.contains(x) <==> (t1.contains(x) && want.contains(x)) by {
                    t0.lemma_push_to_set_commute(id);
                    assert(t1.contains(x) <==> (t0.contains(x) || x == id)) by {
                        assert(t1.to_set().contains(x) <==> t0.to_set().insert(id).contains(x));
                    }
                    if keep {
                        assert(out@ == before.push(id));
                        before.lemma_push_to_set_commute(id);
                        assert(out@.contains(x) <==> (before.contains(x) || x == id)) by {
                            assert(out@.to_set().contains(x) <==> before.to_set().insert(id).contains(x));
                        }
                    } else {
                        assert(out@ == before);
                    }
                }
            }
            i += 1;
        }
        proof {
            assert(ids@.take(ids.len() as int) =~= ids@);
            assert forall|x: u64| out@.to_set().contains(x) <==> want.contains(x) by {
                if want.contains(x) {
                    assert(g.metadata.dom().contains(x));
                    assert(ids@.to_set().contains(x));
                }
            }
            assert(out@.to_set() =~= want);
        }
        out
    }

    /// The modules in layers for processing in parallel: first those that import
    /// nothing, then, while a layer is found, those not yet placed whose imports are all
    /// placed. Each layer lists its modules once each.
    pub fn dependency_layers(&self) -> (r: Vec<Vec<ModuleId>>)
        requires
            self.wf(),
        ensures
            layer_sets(r@) == dependency_layers_of(self@),
            forall|i: int| 0 <= i < r@.len() ==> id_values((#[trigger] r@[i])@).no_duplicates(),
    {
        broadcast use vstd::std_specs::hash::group_hash_axioms;
        let ghost g = self@;
        let ghost meta = g.metadata.dom();
        let mut layers: Vec<Vec<ModuleId>> = Vec::new();
        let mut processed: HashSet<u64> = HashSet::new();
        let mut current = self.layer_after(&processed, true);
        assert(layer_sets(layers@) =~= Seq::<Set<u64>>::empty());
        assert(processed@.union(current@.to_set()) == current@.to_set());
        while current.len() > 0
            invariant
                g == self@,
                self.wf(),
                meta == g.metadata.dom(),
                meta.finite(),
                processed@.finite(),
                processed@.subset_of(meta),
                current@.no_duplicates(),
                current@.to_set().subset_of(meta.difference(processed@)),
                dependency_layers_of(g) == layer_sets(layers@) + layers_from(g, processed@, current@.to_set()),
                forall|i: int| 0 <= i < layers@.len() ==> id_values((#[trigger] layers@[i])@).no_duplicates(),
            decreases meta.difference(processed@).len(),
        {
            let ghost p0 = processed@;
            let ghost c0 = current@.to_set();
            proof {
                assert(c0.contains(current@[0]));
                lemma_layer_shrinks(meta, p0, c0);
            }
            let mut layer: Vec<ModuleId> = Vec::new();
            let mut k: usize = 0;
            while k < current.len()
                invariant
                    0 <= k <= current.len(),
                    processed@ == p0.union(current@.take(k as int).to_set()),
                    id_values(layer@) == current@.take(k as int),
                decreases current.len() - k,
            {
                proof {
                    assert(current@.take(k + 1) =~= current@.take(k as int).push(current@[k as int]));
                    current@.take(k as int).lemma_push_to_set_commute(current@[k as int]);
                }
                processed.insert(current[k]);
                layer.push(ModuleId(current[k]));
                assert(id_values(layer@) =~= current@.take(k + 1));
                k += 1;
            }
            assert(current@.take(current.len() as int) =~= current@);
            let ghost lv = layer@;
            layers.push(layer);
            proof {
                assert(layer_sets(layers@) =~= layer_sets(layers@.drop_last()).push(c0));
                assert(id_values(lv) == current@);
                assert forall|i: int| 0 <= i < layers@.len() implies id_values((#[trigger] layers@[i])@).no_duplicates() by {
                    if i == layers@.len() - 1 {
                        assert(layers@[i]@ == lv);
                    }
                }
            }
            let next = self.layer_after(&processed, false);
            proof {
                assert(layers_from(g, p0, c0) == seq![c0] + layers_from(g, p0.union(c0), next_layer(g, p0.union(c0))));
                assert(next@.to_set().subset_of(meta.difference(processed@))) by {
                    assert forall|x: u64| next@.to_set().contains(x) implies meta.difference(processed@).contains(x) by {
                        assert(next_layer(g, processed@).contains(x));
                    }
                }
                assert(layer_sets(layers@) + layers_from(g, processed@, next@.to_set()) =~= layer_sets(
                    layers@.drop_last(),
                ) + layers_from(g, p0, c0));
            }
            current = next;
        }
        proof {
            assert(current@.to_set() =~= Set::<u64>::empty());
            assert(layer_sets(layers@) + layers_from(g, processed@, current@.to_set()) =~= layer_sets(layers@));
        }
        layers
    }

    /// The metadata of a module, if it was added.
    pub fn get_metadata(&self, id: ModuleId) -> (r: Option<ModuleMetadata>)
        ensures
            r matches Some(x) ==> self@.metadata.contains_key(id.0) && x@ == self@.metadata[id.0],
            r is None ==> !self@.metadata.contains_key(id.0),
    {
        meta_of(&self.metadata, id.0)
    }

    /// Records a new digest for a module.
    pub fn update_hash(&mut self, id: ModuleId, hash: ContentHash)
        ensures
            final(self)@ == (SGraph { hashes: old(self)@.hashes.insert(id.0, hash.0@), ..old(self)@ }),
            final(self).wf() == old(self).wf(),
    {
        set_hash(&mut self.hashes, id.0, hash);
    }
}

/// A path along the edges of `e`: each node after the first is a neighbour of the one
/// before.
pub open spec fn is_path(e: Map<u64, Set<u64>>, p: Seq<u64>) -> bool {
    &&& p.len() > 0
    &&& forall|i: int| 0 <= i < p.len() - 1 ==> e.contains_key(#[trigger] p[i]) && e[p[i]].contains(p[i + 1])
}

/// The nodes reachable from `start` along the edges of `e`, `start` included.
pub open spec fn reachable(e: Map<u64, Set<u64>>, start: Set<u64>) -> Set<u64> {
    Set::new(|x: u64| exists|p: Seq<u64>| #[trigger] is_path(e, p) && start.contains(p[0]) && p.last() == x)
}

/// Every neighbour of a node of `a` is in `b`.
pub open spec fn closed_into(e: Map<u64, Set<u64>>, a: Set<u64>, b: Set<u64>) -> bool {
    forall|x: u64, y: u64| #[trigger] a.contains(x) && e.contains_key(x) && #[trigger] e[x].contains(y) ==> b.contains(y)
}

/// The nodes that are a neighbour of some node.
pub open spec fn targets(e: Map<u64, Set<u64>>) -> Set<u64> {
    Set::new(|y: u64| exists|x: u64| e.contains_key(x) && #[trigger] e[x].contains(y))
}

proof fn lemma_targets_finite(e: Map<u64, Set<u64>>)
    requires
        finite_edges(e),
    ensures
        targets(e).finite(),
    decreases e.dom().len(),
{
    if e.dom().len() == 0 {
        assert(targets(e) =~= Set::<u64>::empty()) by {
            assert forall|y: u64| !targets(e).contains(y) by {
                assert forall|x: u64| !(e.contains_key(x) && #[trigger] e[x].contains(y)) by {
                    if e.contains_key(x) {
                        assert(e.dom().contains(x));
                    }
                }
            }
        }
    } else {
        let k = e.dom().choose();
        let e1 = e.remove(k);
        assert(e1.dom() =~= e.dom().remove(k));
        assert(finite_edges(e1));
        lemma_targets_finite(e1);
        assert(targets(e) =~= targets(e1).union(e[k])) by {
            assert forall|y: u64| targets(e).contains(y) implies targets(e1).union(e[k]).contains(y) by {
                let x = choose|x: u64| e.contains_key(x) && #[trigger] e[x].contains(y);
                if x != k {
                    assert(e1.contains_key(x) && e1[x].contains(y));
                }
            }
            assert forall|y: u64| targets(e1).union(e[k]).contains(y) implies targets(e).contains(y) by {
                if targets(e1).contains(y) {
                    let x = choose|x: u64| e1.contains_key(x) && #[trigger] e1[x].contains(y);
                    assert(e.contains_key(x) && e[x].contains(y));
                } else {
                    assert(e.contains_key(k) && e[k].contains(y));
                }
            }
        }
    }
}

proof fn lemma_reachable_start(e: Map<u64, Set<u64>>, start: Set<u64>, x: u64)
    requires
        start.contains(x),
    ensures
        reachable(e, start).contains(x),
{
    let p = seq![x];
    assert(is_path(e, p));
}

proof fn lemma_reachable_step(e: Map<u64, Set<u64>>, start: Set<u64>, x: u64, y: u64)
    requires
        reachable(e, start).contains(x),
        e.contains_key(x),
        e[x].contains(y),
    ensures
        reachable(e, start).contains(y),
{
    let p = choose|p: Seq<u64>| #[trigger] is_path(e, p) && start.contains(p[0]) && p.last() == x;
    let q = p.push(y);
    assert forall|i: int| 0 <= i < q.len() - 1 implies e.contains_key(#[trigger] q[i]) && e[q[i]].contains(q[i + 1]) by {
        if i < p.len() - 1 {
            assert(q[i] == p[i] && q[i + 1] == p[i + 1]);
        } else {
            assert(q[i] == x);
        }
    }
    assert(is_path(e, q));
    assert(q[0] == p[0]);
}

proof fn lemma_reachable_within(e: Map<u64, Set<u64>>, start: Set<u64>)
    ensures
        reachable(e, start).subset_of(start.union(targets(e))),
{
    assert forall|x: u64| reachable(e, start).contains(x) implies start.union(targets(e)).contains(x) by {
        let p = choose|p: Seq<u64>| #[trigger] is_path(e, p) && start.contains(p[0]) && p.last() == x;
        if p.len() > 1 {
            let i = p.len() - 2;
            assert(e.contains_key(p[i]) && e[p[i]].contains(p[i + 1]));
            assert(targets(e).contains(x));
        }
    }
}

proof fn lemma_closed_holds_path(e: Map<u64, Set<u64>>, start: Set<u64>, inv: Set<u64>, p: Seq<u64>)
    requires
        is_path(e, p),
        start.contains(p[0]),
        start.subset_of(inv),
        closed_into(e, inv, inv),
    ensures
        inv.contains(p.last()),
    decreases p.len(),
{
    if p.len() > 1 {
        let q = p.drop_last();
        assert forall|i: int| 0 <= i < q.len() - 1 implies e.contains_key(#[trigger] q[i]) && e[q[i]].contains(q[i + 1]) by {
            assert(q[i] == p[i] && q[i + 1] == p[i + 1]);
        }
        lemma_closed_holds_path(e, start, inv, q);
        let i = p.len() - 2;
        assert(e.contains_key(p[i]) && e[p[i]].contains(p[i + 1]));
        assert(q.last() == p[i]);
    }
}

/// What `invalidate` gives is the least set that holds the changed modules and every
/// module that depends on one in it: it is closed under dependents, and it lies inside
/// every closed set that holds the changed modules.
pub proof fn lemma_reachable_least(e: Map<u64, Set<u64>>, start: Set<u64>, other: Set<u64>)
    ensures
        start.subset_of(reachable(e, start)),
        closed_into(e, reachable(e, start), reachable(e, start)),
        start.subset_of(other) && closed_into(e, other, other) ==> reachable(e, start).subset_of(other),
{
    assert forall|x: u64| start.contains(x) implies reachable(e, start).contains(x) by {
        lemma_reachable_start(e, start, x);
    }
    assert forall|x: u64, y: u64|
        #[trigger] reachable(e, start).contains(x) && e.contains_key(x) && #[trigger] e[x].contains(y) implies reachable(
        e,
        start,
    ).contains(y) by {
        lemma_reachable_step(e, start, x, y);
    }
    if start.subset_of(other) && closed_into(e, other, other) {
        assert forall|x: u64| reachable(e, start).contains(x) implies other.contains(x) by {
            let p = choose|p: Seq<u64>| #[trigger] is_path(e, p) && start.contains(p[0]) && p.last() == x;
            lemma_closed_holds_path(e, start, other, p);
        }
    }
}

proof fn lemma_to_set_concat(a: Seq<u64>, b: Seq<u64>)
    ensures
        (a + b).to_set() == a.to_set().union(b.to_set()),
{
    assert forall|x: u64| (a + b).to_set().contains(x) <==> a.to_set().union(b.to_set()).contains(x) by {
        if (a + b).contains(x) {
            let j = choose|j: int| 0 <= j < (a + b).len() && (a + b)[j] == x;
            if j < a.len() {
                assert(a[j] == x);
            } else {
                assert(b[j - a.len()] == x);
            }
        }
        if a.contains(x) {
            let j = choose|j: int| 0 <= j < a.len() && a[j] == x;
            assert((a + b)[j] == x);
        }
        if b.contains(x) {
            let j = choose|j: int| 0 <= j < b.len() && b[j] == x;
            assert((a + b)[a.len() + j] == x);
        }
    }
    assert((a + b).to_set() =~= a.to_set().union(b.to_set()));
}

/// No imports are recorded for the module, or an empty set of them.
pub open spec fn no_imports(d: Map<u64, Set<u64>>, id: u64) -> bool {
    !d.contains_key(id) || d[id].is_empty()
}

/// The modules with no imports.
pub open spec fn first_layer(g: SGraph) -> Set<u64> {
    g.metadata.dom().filter(|id: u64| no_imports(g.dependencies, id))
}

/// The modules not yet placed whose recorded imports are all placed.
pub open spec fn next_layer(g: SGraph, done: Set<u64>) -> Set<u64> {
    g.metadata.dom().filter(
        |id: u64| !done.contains(id) && g.dependencies.contains_key(id) && g.dependencies[id].subset_of(done),
    )
}

/// Placing a nonempty layer of modules not yet placed leaves fewer to place.
pub proof fn lemma_layer_shrinks(meta: Set<u64>, done: Set<u64>, cur: Set<u64>)
    requires
        meta.finite(),
        cur.subset_of(meta.difference(done)),
        !cur.is_empty(),
    ensures
        meta.difference(done.union(cur)).len() < meta.difference(done).len(),
{
    let x = cur.choose();
    assert(cur.contains(x));
    assert(meta.difference(done.union(cur)).subset_of(meta.difference(done).remove(x)));
    vstd::set_lib::lemma_len_subset(meta.difference(done.union(cur)), meta.difference(done).remove(x));
}

/// The layers from the placed modules `done` and the layer `cur` on.
pub open spec fn layers_from(g: SGraph, done: Set<u64>, cur: Set<u64>) -> Seq<Set<u64>>
    decreases g.metadata.dom().difference(done).len(),
{
    if !g.metadata.dom().finite() || cur.is_empty() || !cur.subset_of(g.metadata.dom().difference(done)) {
        Seq::empty()
    } else {
        proof {
            lemma_layer_shrinks(g.metadata.dom(), done, cur);
        }
        let placed = done.union(cur);
        seq![cur] + layers_from(g, placed, next_layer(g, placed))
    }
}

/// The dependency layers of a graph.
pub open spec fn dependency_layers_of(g: SGraph) -> Seq<Set<u64>> {
    layers_from(g, Set::empty(), first_layer(g))
}

/// The modules of each layer.
pub open spec fn layer_sets(v: Seq<Vec<ModuleId>>) -> Seq<Set<u64>> {
    v.map_values(|l: Vec<ModuleId>| id_values(l@).to_set())
}

/// The union of a list of sets.
pub open spec fn union_all(s: Seq<Set<u64>>) -> Set<u64>
    decreases s.len(),
{
    if s.len() == 0 {
        Set::empty()
    } else {
        s[0].union(union_all(s.drop_first()))
    }
}

/// The layers from `done` and `cur` on: each is disjoint from `done` and the layers
/// before it, and each after the first holds only modules whose imports are recorded and
/// lie in `done` or the layers before it.
proof fn lemma_layers_from(g: SGraph, done: Set<u64>, cur: Set<u64>)
    ensures
        ({
            let ls = layers_from(g, done, cur);
            &&& forall|i: int| 0 <= i < ls.len() ==> (#[trigger] ls[i]).disjoint(done.union(union_all(ls.take(i))))
            &&& forall|i: int, x: u64| 1 <= i < ls.len() && #[trigger] ls[i].contains(x) ==> g.dependencies.contains_key(x)
                && g.dependencies[x].subset_of(done.union(union_all(ls.take(i))))
        }),
    decreases g.metadata.dom().difference(done).len(),
{
    let ls = layers_from(g, done, cur);
    if !g.metadata.dom().finite() || cur.is_empty() || !cur.subset_of(g.metadata.dom().difference(done)) {
        assert(ls.len() == 0);
    } else {
        lemma_layer_shrinks(g.metadata.dom(), done, cur);
        let d2 = done.union(cur);
        let rest = layers_from(g, d2, next_layer(g, d2));
        lemma_layers_from(g, d2, next_layer(g, d2));
        assert(ls == seq![cur] + rest);
        assert forall|i: int| 1 <= i < ls.len() implies done.union(union_all(ls.take(i))) == d2.union(
            union_all(rest.take(i - 1)),
        ) by {
            assert(ls.take(i).drop_first() =~= rest.take(i - 1));
            assert(ls.take(i)[0] == cur);
            assert(done.union(union_all(ls.take(i))) =~= d2.union(union_all(rest.take(i - 1))));
        }
        assert forall|i: int| 0 <= i < ls.len() implies (#[trigger] ls[i]).disjoint(done.union(union_all(ls.take(i)))) by {
            if i == 0 {
                assert(ls.take(0) =~= Seq::<Set<u64>>::empty());
                assert(done.union(union_all(ls.take(0))) =~= done);
            } else {
                assert(ls[i] == rest[i - 1]);
            }
        }
        assert forall|i: int, x: u64| 1 <= i < ls.len() && #[trigger] ls[i].contains(x) implies g.dependencies.contains_key(x)
            && g.dependencies[x].subset_of(done.union(union_all(ls.take(i)))) by {
            assert(ls[i] == rest[i - 1]);
            if i == 1 {
                assert(rest[0] == next_layer(g, d2));
                assert(rest.take(0) =~= Seq::<Set<u64>>::empty());
                assert(d2.union(union_all(rest.take(0))) =~= d2);
            }
        }
    }
}

/// Dependency layers place each module at most once, the first layer holds modules that
/// import nothing, and a later layer holds only modules whose imports all lie in earlier
/// layers.
pub proof fn lemma_layers_respect_imports(g: SGraph)
    ensures
        ({
            let ls = dependency_layers_of(g);
            &&& forall|i: int| 0 <= i < ls.len() ==> (#[trigger] ls[i]).disjoint(union_all(ls.take(i)))
            &&& forall|x: u64| ls.len() > 0 && #[trigger] ls[0].contains(x) ==> no_imports(g.dependencies, x)
            &&& forall|i: int, x: u64| 1 <= i < ls.len() && #[trigger] ls[i].contains(x) ==> g.dependencies.contains_key(x)
                && g.dependencies[x].subset_of(union_all(ls.take(i)))
        }),
{
    let ls = dependency_layers_of(g);
    lemma_layers_from(g, Set::empty(), first_layer(g));
    assert forall|i: int| 0 <= i < ls.len() implies Set::<u64>::empty().union(union_all(ls.take(i))) == union_all(ls.take(i)) by {
        assert(Set::<u64>::empty().union(union_all(ls.take(i))) =~= union_all(ls.take(i)));
    }
    assert forall|x: u64| ls.len() > 0 && #[trigger] ls[0].contains(x) implies no_imports(g.dependencies, x) by {
        assert(ls[0] == first_layer(g));
    }
}

/// The identifier of the module at a path given as text.
pub open spec fn path_id(p: Seq<char>) -> u64 {
    le_u64(blake3_digest(vstd::utf8::encode_utf8(p))) as u64
}

/// The identifiers of the modules at some paths.
pub open spec fn path_ids(ps: Seq<String>) -> Seq<u64> {
    ps.map_values(|p: String| path_id(p@))
}

/// The model of an incremental engine: its graph, the modules marked changed, and
/// whether incremental checking is on.
pub struct SEngine {
    pub graph: SGraph,
    pub changed: Set<u64>,
    pub enabled: bool,
}

/// Coordinates incremental checking over a dependency graph.
pub struct IncrementalEngine {
    graph: DependencyGraph,
    changed: DashSet<u64>,
    enabled: bool,
}

impl View for IncrementalEngine {
    type V = SEngine;

    closed spec fn view(&self) -> SEngine {
        SEngine { graph: self.graph@, changed: id_entries(self.changed), enabled: self.enabled }
    }
}

impl IncrementalEngine {
    pub closed spec fn wf(&self) -> bool {
        self.graph.wf()
    }

    /// An engine over a graph, with nothing marked changed and incremental checking on.
    pub fn new(graph: DependencyGraph) -> (r: Self)
        requires
            graph.wf(),
        ensures
            r.wf(),
            r@ == (SEngine { graph: graph@, changed: Set::empty(), enabled: true }),
    {
        IncrementalEngine { graph, changed: new_id_set(), enabled: true }
    }

    /// Marks a module as changed.
    pub fn mark_changed(&mut self, id: ModuleId)
        ensures
            final(self)@ == (SEngine { changed: old(self)@.changed.insert(id.0), ..old(self)@ }),
            final(self).wf() == old(self).wf(),
    {
        add_id(&mut self.changed, id.0);
    }

    /// The modules to check again: with incremental checking on, the changed modules and
    /// all that depend on them; with it off, every module. Each once.
    pub fn get_invalid_modules(&self) -> (r: Vec<ModuleId>)
        requires
            self.wf(),
        ensures
            id_values(r@).no_duplicates(),
            id_values(r@).to_set() == if self@.enabled {
                reachable(self@.graph.dependents, self@.changed)
            } else {
                self@.graph.metadata.dom()
            },
    {
        if !self.enabled {
            let ids = meta_ids(&self.graph.metadata);
            let mut out: Vec<ModuleId> = Vec::new();
            let mut i: usize = 0;
            while i < ids.len()
                invariant
                    0 <= i <= ids.len(),
                    out@.len() == i,
                    id_values(out@) == ids@.take(i as int),
                decreases ids.len() - i,
            {
                let ghost before = out@;
                out.push(ModuleId(ids[i]));
                assert(out@ == before.push(ModuleId(ids@[i as int])));
                assert(id_values(out@) =~= ids@.take(i + 1)) by {
                        assert forall|j: int| 0 <= j < i implies id_values(out@)[j] == ids@.take(i + 1)[j] by {
                        assert(out@[j] == before[j]);
                    }
                }
                i += 1;
            }
            assert(ids@.take(ids.len() as int) =~= ids@);
            out
        } else {
            let ids = id_list(&self.changed);
            let mut changed: Vec<ModuleId> = Vec::new();
            let mut i: usize = 0;
            while i < ids.len()
                invariant
                    0 <= i <= ids.len(),
                    changed@.len() == i,
                    id_values(changed@) == ids@.take(i as int),
                decreases ids.len() - i,
            {
                let ghost before = changed@;
                changed.push(ModuleId(ids[i]));
                assert(changed@ == before.push(ModuleId(ids@[i as int])));
                assert(id_values(changed@) =~= ids@.take(i + 1)) by {
                    assert forall|j: int| 0 <= j < i implies changed@[j] == before[j] by {}
                }
                i += 1;
            }
            assert(ids@.take(ids.len() as int) =~= ids@);
            self.graph.invalidate(changed.as_slice())
        }
    }

    /// Forgets the modules marked changed.
    pub fn clear_changed(&mut self)
        ensures
            final(self)@ == (SEngine { changed: Set::empty(), ..old(self)@ }),
            final(self).wf() == old(self).wf(),
    {
        clear_ids(&mut self.changed);
    }

    /// Whether the file at `path` must be analyzed again, given its content as read, or
    /// `None` when it could not be read: always with incremental checking off or an
    /// unreadable file, else when the content's digest is not the one recorded.
    pub fn needs_recheck(&self, path: &str, content: Option<&str>) -> (r: bool)
        ensures
            r == match content {
                None => true,
                Some(c) => !self@.enabled || !(self@.graph.hashes.contains_key(path_id(path@))
                    && self@.graph.hashes[path_id(path@)] == blake3_digest(c.spec_bytes())),
            },
    {
        if !self.enabled {
            return true;
        }
        let id = ModuleId::from_path(path);
        match content {
            None => true,
            Some(c) => {
                let new_hash = ContentHash::from_str(c);
                self.graph.has_changed(id, new_hash)
            },
        }
    }

    /// Registers the module at `path` with its content, the paths it imports and a time
    /// stamp.
    pub fn register_module(&mut self, path: String, content: &str, imports: Vec<String>, timestamp: u64)
        requires
            old(self).wf(),
        ensures
            final(self).wf(),
            final(self)@ == (SEngine {
                graph: graph_add(
                    old(self)@.graph,
                    SMeta {
                        id: path_id(path@),
                        path: path@,
                        hash: blake3_digest(content.spec_bytes()),
                        timestamp,
                        imports: path_ids(imports@),
                    },
                ),
                ..old(self)@
            }),
    {
        let id = ModuleId::from_path(path.as_str());
        let hash = ContentHash::from_str(content);
        let mut import_ids: Vec<ModuleId> = Vec::new();
        let mut i: usize = 0;
        while i < imports.len()
            invariant
                0 <= i <= imports.len(),
                import_ids@.len() == i,
                id_values(import_ids@) == path_ids(imports@).take(i as int),
            decreases imports.len() - i,
        {
            let m = ModuleId::from_path(imports[i].as_str());
            let ghost before = import_ids@;
            import_ids.push(m);
            assert(import_ids@ == before.push(m));
            assert(m.0 == path_id(imports@[i as int]@));
            assert(id_values(import_ids@) =~= path_ids(imports@).take(i + 1)) by {
                assert forall|j: int| 0 <= j < i implies import_ids@[j] == before[j] by {}
            }
            i += 1;
        }
        assert(path_ids(imports@).take(imports.len() as int) =~= path_ids(imports@));
        let meta = ModuleMetadata { id, path, hash, timestamp, imports: import_ids };
        self.graph.add_module(meta);
    }

    /// The dependency layers of the graph.
    pub fn get_layers(&self) -> (r: Vec<Vec<ModuleId>>)
        requires
            self.wf(),
        ensures
            layer_sets(r@) == dependency_layers_of(self@.graph),
            forall|i: int| 0 <= i < r@.len() ==> id_values((#[trigger] r@[i])@).no_duplicates(),
    {
        self.graph.dependency_layers()
    }

    /// Turns incremental checking on or off.
    pub fn set_enabled(&mut self, enabled: bool)
        ensures
            final(self)@ == (SEngine { enabled, ..old(self)@ }),
            final(self).wf() == old(self).wf(),
    {
        self.enabled = enabled;
    }
}

/// Whether `e` records `n` as a neighbour of `m`.
pub open spec fn has_edge(e: Map<u64, Set<u64>>, m: u64, n: u64) -> bool {
    e.contains_key(m) && e[m].contains(n)
}

/// The graph after adding the modules `ms`, in order, to an empty one.
pub open spec fn graph_after(ms: Seq<SMeta>) -> SGraph
    decreases ms.len(),
{
    if ms.len() == 0 {
        SGraph { dependencies: Map::empty(), dependents: Map::empty(), hashes: Map::empty(), metadata: Map::empty() }
    } else {
        graph_add(graph_after(ms.drop_last()), ms.last())
    }
}

proof fn lemma_add_dependent_edges(e: Map<u64, Set<u64>>, deps: Seq<u64>, id: u64, m: u64, n: u64)
    ensures
        has_edge(add_dependent(e, deps, id), m, n) <==> has_edge(e, m, n) || (n == id && deps.contains(m)),
    decreases deps.len(),
{
    if deps.len() > 0 {
        let d = deps.drop_last();
        lemma_add_dependent_edges(e, d, id, m, n);
        if d.contains(m) {
            let k = choose|k: int| 0 <= k < d.len() && d[k] == m;
            assert(deps[k] == m);
        }
        if deps.contains(m) && m != deps.last() {
            let k = choose|k: int| 0 <= k < deps.len() && deps[k] == m;
            assert(k < deps.len() - 1);
            assert(d[k] == m);
        }
        if m == deps.last() {
            assert(deps[deps.len() - 1] == m);
        }
    }
}

/// After adding modules to an empty graph, `n` is recorded as a dependent of `m` exactly
/// when some module added with identifier `n` imports `m`; so invalidating a set of
/// modules gives the least set that holds them and every module importing one of its
/// members (`lemma_reachable_least`).
pub proof fn lemma_dependents_from_history(ms: Seq<SMeta>, m: u64, n: u64)
    ensures
        has_edge(graph_after(ms).dependents, m, n) <==> exists|k: int|
            0 <= k < ms.len() && (#[trigger] ms[k]).id == n && ms[k].imports.contains(m),
    decreases ms.len(),
{
    if ms.len() > 0 {
        let d = ms.drop_last();
        let last = ms.last();
        lemma_dependents_from_history(d, m, n);
        lemma_add_dependent_edges(graph_after(d).dependents, last.imports, last.id, m, n);
        if exists|k: int| 0 <= k < d.len() && (#[trigger] d[k]).id == n && d[k].imports.contains(m) {
            let k = choose|k: int| 0 <= k < d.len() && (#[trigger] d[k]).id == n && d[k].imports.contains(m);
            assert(ms[k] == d[k]);
        }
        if exists|k: int| 0 <= k < ms.len() && (#[trigger] ms[k]).id == n && ms[k].imports.contains(m) {
            let k = choose|k: int| 0 <= k < ms.len() && (#[trigger] ms[k]).id == n && ms[k].imports.contains(m);
            if k < d.len() {
                assert(d[k] == ms[k]);
            } else {
                assert(ms[k] == last);
            }
        }
        if last.id == n && last.imports.contains(m) {
            assert(ms[ms.len() - 1] == last);
        }
    }
}

} // verus!

