//! Targets, shell blocks, and pipelines — kiln's structural primitives.
//!
//! A [`Target`] is the unit of execution: an interpreter and a script to
//! run, plus what it depends on, conflicts with, and which shared
//! resources it uses. A [`Pipeline`] is the collection of targets the
//! executor schedules together, keyed by [`TargetId`] in sorted order.

use std::collections::HashMap;
use std::path::PathBuf;
use vstd::prelude::*;
use crate::json::JsonValue;
use crate::resource::{Resource, ResourceRef};
use crate::text::{dec_digits, usize_to_string, utf8_len, str_lt, str_less, lemma_str_lt_irreflexive, lemma_str_lt_transitive, lemma_str_lt_total};

verus! {

/// Schema version of a serialized [`Pipeline`] manifest (wire form `"1"`).
#[derive(Debug, Clone, Copy, PartialEq, Eq, Hash, Structural)]
pub enum PipelineVersion {
    /// Pipeline schema version 1.
    V1,
}

impl PipelineVersion {
    /// Renders the version number.
    pub fn to_string(&self) -> (r: String)
        ensures
            r@ == "1"@,
    {
        String::from_str("1")
    }
}

impl Default for PipelineVersion {
    fn default() -> (r: Self)
        ensures
            r == PipelineVersion::V1,
    {
        PipelineVersion::V1
    }
}

/// A globally-unique identifier for a [`Target`] within a [`Pipeline`].
#[derive(Debug, PartialEq, Eq, Hash, PartialOrd, Ord)]
pub struct TargetId(pub String);

impl View for TargetId {
    type V = Seq<char>;

    open spec fn view(&self) -> Seq<char> {
        self.0@
    }
}

impl Clone for TargetId {
    fn clone(&self) -> (r: Self)
        ensures
            r == *self,
    {
        TargetId(self.0.clone())
    }
}

impl TargetId {
    /// Constructs a `TargetId` from a string.
    pub fn new(id: &str) -> (r: Self)
        ensures
            r@ == id@,
    {
        TargetId(id.to_owned())
    }

    /// Borrows the identifier as a string slice.
    pub fn as_str(&self) -> (r: &str)
        ensures
            r@ == self@,
    {
        self.0.as_str()
    }

    /// Renders the identifier.
    pub fn to_string(&self) -> (r: String)
        ensures
            r@ == self@,
    {
        self.0.clone()
    }
}

impl AsRef<str> for TargetId {
    fn as_ref(&self) -> (r: &str)
        ensures
            r@ == self@,
    {
        self.0.as_str()
    }
}

impl From<String> for TargetId {
    fn from(value: String) -> (r: Self) {
        TargetId(value)
    }
}

impl vstd::std_specs::convert::FromSpecImpl<String> for TargetId {
    open spec fn obeys_from_spec() -> bool {
        true
    }

    open spec fn from_spec(v: String) -> Self {
        TargetId(v)
    }
}

impl<'a> From<&'a str> for TargetId {
    fn from(value: &'a str) -> (r: Self)
        ensures
            r@ == value@,
    {
        TargetId(value.to_owned())
    }
}

impl<'a> vstd::std_specs::convert::FromSpecImpl<&'a str> for TargetId {
    open spec fn obeys_from_spec() -> bool {
        false
    }

    open spec fn from_spec(v: &'a str) -> Self {
        TargetId(arbitrary())
    }
}

/// The views of a sequence of target ids.
pub open spec fn ids_view(ids: Seq<TargetId>) -> Seq<Seq<char>> {
    ids.map_values(|id: TargetId| id@)
}

/// One declared resource a target needs fetched before its run block,
/// optionally verified against a lowercase-hex BLAKE3 digest.
#[derive(Debug, Clone, PartialEq, Eq)]
pub struct FetchSpec {
    /// URL of the resource to fetch.
    pub url: String,
    /// Path inside the sandbox workspace where the fetched bytes are
    /// written. Relative paths are resolved against the workspace root.
    pub destination: PathBuf,
    /// Optional lowercase-hex BLAKE3 digest of the response body.
    pub blake3_hex: Option<String>,
}

impl FetchSpec {
    /// Constructs a `FetchSpec` from a URL and destination, with no digest.
    pub fn new(url: &str, destination: PathBuf) -> (r: Self)
        ensures
            r.url@ == url@,
            r.destination == destination,
            r.blake3_hex is None,
    {
        FetchSpec { url: url.to_owned(), destination, blake3_hex: None }
    }

    /// Returns this `FetchSpec` with the supplied BLAKE3 hex digest attached.
    pub fn with_blake3(self, hex: &str) -> (r: Self)
        ensures
            r.url == self.url,
            r.destination == self.destination,
            r.blake3_hex matches Some(h) && h@ == hex@,
    {
        FetchSpec { url: self.url, destination: self.destination, blake3_hex: Some(hex.to_owned()) }
    }
}

/// An interpreter name plus the script source the interpreter executes.
#[derive(Debug, PartialEq, Eq)]
pub struct ShellBlock {
    /// Interpreter name, e.g. `bash`, `zsh`, `python3`, `pwsh`.
    pub interpreter: String,
    /// Script source the interpreter executes.
    pub code: String,
}

impl Clone for ShellBlock {
    fn clone(&self) -> (r: Self)
        ensures
            r == *self,
    {
        ShellBlock { interpreter: self.interpreter.clone(), code: self.code.clone() }
    }
}

impl ShellBlock {
    /// Constructs a new `ShellBlock`.
    pub fn new(interpreter: &str, code: &str) -> (r: Self)
        ensures
            r.interpreter@ == interpreter@,
            r.code@ == code@,
    {
        ShellBlock { interpreter: interpreter.to_owned(), code: code.to_owned() }
    }

    /// Renders `shell:<interpreter> (<n> bytes)`, where `n` is the UTF-8
    /// length of the script.
    pub fn to_string(&self) -> (r: String)
        ensures
            r@ == "shell:"@ + self.interpreter@ + " ("@ + dec_digits(
                utf8_len(self.code@) as nat,
            ) + " bytes)"@,
    {
        let mut s = String::from_str("shell:");
        s.append(self.interpreter.as_str());
        s.append(" (");
        let n = usize_to_string(self.code.as_str().len());
        s.append(n.as_str());
        s.append(" bytes)");
        s
    }
}

/// One unit of execution in a [`Pipeline`].
///
/// `requires` and `conflicts` reference other targets by id within the
/// same pipeline; `resources` declares which shared resources this target
/// needs and how. `inputs` and `outputs` are name lists used for
/// documentation and cache keys.
#[derive(Debug, Clone, PartialEq, Eq)]
pub struct Target {
    /// The main execution block.
    pub run: ShellBlock,
    /// Optional cleanup block, run on target failure.
    pub cleanup: Option<ShellBlock>,
    /// Other target ids that must complete successfully before this one.
    pub requires: Vec<TargetId>,
    /// Other target ids that must not co-execute with this one.
    pub conflicts: Vec<TargetId>,
    /// Shared resources this target uses, with access modes.
    pub resources: Vec<ResourceRef>,
    /// Named inputs (for documentation and cache keys).
    pub inputs: Vec<String>,
    /// Named outputs (for documentation and cache keys).
    pub outputs: Vec<String>,
    /// Resources to fetch into the sandbox before the network is sealed.
    pub fetches: Vec<FetchSpec>,
    /// Arbitrary metadata for downstream tooling.
    pub metadata: HashMap<String, JsonValue>,
}

impl Target {
    /// Constructs a target with only the `run` block populated; every
    /// other field starts empty.
    pub fn new(run: ShellBlock) -> (r: Self)
        ensures
            r.run == run,
            r.cleanup is None,
            r.requires@.len() == 0,
            r.conflicts@.len() == 0,
            r.resources@.len() == 0,
            r.inputs@.len() == 0,
            r.outputs@.len() == 0,
            r.fetches@.len() == 0,
            r.metadata@ == Map::<String, JsonValue>::empty(),
    {
        Target {
            run,
            cleanup: None,
            requires: Vec::new(),
            conflicts: Vec::new(),
            resources: Vec::new(),
            inputs: Vec::new(),
            outputs: Vec::new(),
            fetches: Vec::new(),
            metadata: HashMap::new(),
        }
    }
}

} // verus!

verus! {

/// The entries of a target map are sorted strictly by id.
pub open spec fn keys_sorted<T>(s: Seq<(TargetId, T)>) -> bool {
    forall|i: int, j: int| 0 <= i < j < s.len() ==> str_lt(#[trigger] s[i].0@, #[trigger] s[j].0@)
}

/// The position of the first entry with id `k`, or `-1`.
pub open spec fn key_index<T>(s: Seq<(TargetId, T)>, k: Seq<char>) -> int
    decreases s.len(),
{
    if s.len() == 0 {
        -1
    } else if s[0].0@ == k {
        0
    } else {
        let r = key_index(s.drop_first(), k);
        if r < 0 {
            -1
        } else {
            r + 1
        }
    }
}

/// Whether some entry has id `k`.
pub open spec fn has_key<T>(s: Seq<(TargetId, T)>, k: Seq<char>) -> bool {
    key_index(s, k) >= 0
}

/// The target stored under id `k`, if any.
pub open spec fn lookup<T>(s: Seq<(TargetId, T)>, k: Seq<char>) -> Option<T> {
    if has_key(s, k) {
        Some(s[key_index(s, k)].1)
    } else {
        None
    }
}

/// What `key_index` finds: the first entry with the id, or none at all.
pub proof fn lemma_key_index<T>(s: Seq<(TargetId, T)>, k: Seq<char>)
    ensures
        -1 <= key_index(s, k) < s.len(),
        key_index(s, k) >= 0 ==> s[key_index(s, k)].0@ == k,
        forall|j: int| 0 <= j < s.len() && (key_index(s, k) < 0 || j < key_index(s, k)) ==> s[j].0@ != k,
    decreases s.len(),
{
    if s.len() > 0 && s[0].0@ != k {
        lemma_key_index(s.drop_first(), k);
        assert forall|j: int| 0 < j < s.len() implies s[j] == s.drop_first()[j - 1] by {}
    }
}

/// In a sorted map an id occurs at most once, so any entry carrying it is
/// the one `key_index` finds.
pub proof fn lemma_sorted_key_index<T>(s: Seq<(TargetId, T)>, i: int)
    requires
        keys_sorted(s),
        0 <= i < s.len(),
    ensures
        key_index(s, s[i].0@) == i,
{
    lemma_key_index(s, s[i].0@);
    let ki = key_index(s, s[i].0@);
    if ki != i {
        assert(ki >= 0);
        lemma_str_lt_irreflexive(s[i].0@);
        if ki < i {
            assert(str_lt(s[ki].0@, s[i].0@));
        }
    }
}

/// Values keyed by target id, kept sorted by id (the order of `String`).
#[derive(Debug, PartialEq, Eq)]
pub struct IdMap<T> {
    entries: Vec<(TargetId, T)>,
}

impl<T> IdMap<T> {
    #[verifier::type_invariant]
    spec fn sorted(self) -> bool {
        keys_sorted(self.entries@)
    }
}

impl<T: Clone> Clone for IdMap<T> {
    /// Copies the map entry by entry; ids are copied exactly and keep
    /// their order.
    fn clone(&self) -> (r: Self)
        ensures
            r@.len() == self@.len(),
            forall|i: int| 0 <= i < self@.len() ==> (#[trigger] r@[i]).0 == self@[i].0,
    {
        proof { use_type_invariant(self); }
        let mut v: Vec<(TargetId, T)> = Vec::new();
        let mut i: usize = 0;
        while i < self.entries.len()
            invariant
                i <= self.entries@.len(),
                v@.len() == i,
                keys_sorted(self.entries@),
                forall|j: int| 0 <= j < i ==> (#[trigger] v@[j]).0 == self.entries@[j].0,
            decreases self.entries@.len() - i,
        {
            let e = &self.entries[i];
            v.push((e.0.clone(), e.1.clone()));
            i = i + 1;
        }
        proof {
            assert forall|j: int, l: int| 0 <= j < l < v@.len() implies str_lt(
                #[trigger] v@[j].0@,
                #[trigger] v@[l].0@,
            ) by {
                assert(v@[j].0 == self.entries@[j].0);
                assert(v@[l].0 == self.entries@[l].0);
            }
        }
        IdMap { entries: v }
    }
}

impl<T> View for IdMap<T> {
    type V = Seq<(TargetId, T)>;

    closed spec fn view(&self) -> Seq<(TargetId, T)> {
        self.entries@
    }
}

impl<T> IdMap<T> {
    /// An empty map.
    pub fn new() -> (r: Self)
        ensures
            r@ == Seq::<(TargetId, T)>::empty(),
    {
        IdMap { entries: Vec::new() }
    }

    /// The entries in id order.
    pub fn as_slice(&self) -> (r: &[(TargetId, T)])
        ensures
            r@ == self@,
            keys_sorted(self@),
    {
        proof { use_type_invariant(self); }
        self.entries.as_slice()
    }

    /// The number of targets.
    pub fn len(&self) -> (r: usize)
        ensures
            r == self@.len(),
    {
        self.entries.len()
    }

    /// Whether the map holds no target.
    pub fn is_empty(&self) -> (r: bool)
        ensures
            r == (self@.len() == 0),
    {
        self.entries.len() == 0
    }

    /// The position of `id` in id order, if present.
    pub fn position(&self, id: &TargetId) -> (r: Option<usize>)
        ensures
            r matches Some(i) ==> i == key_index(self@, id@),
            r is None ==> key_index(self@, id@) == -1,
    {
        let mut i: usize = 0;
        while i < self.entries.len()
            invariant
                i <= self.entries@.len(),
                forall|j: int| 0 <= j < i ==> self.entries@[j].0@ != id@,
            decreases self.entries@.len() - i,
        {
            if self.entries[i].0.0 == id.0 {
                proof {
                    lemma_key_index(self.entries@, id@);
                    let ki = key_index(self.entries@, id@);
                    assert(ki >= 0) by {
                        if ki < 0 {
                            assert(self.entries@[i as int].0@ != id@);
                        }
                    }
                    if ki > i {
                        assert(self.entries@[i as int].0@ != id@);
                    }
                }
                return Some(i);
            }
            i = i + 1;
        }
        proof {
            lemma_key_index(self.entries@, id@);
            let ki = key_index(self.entries@, id@);
            if ki >= 0 {
                assert(self.entries@[ki].0@ == id@);
            }
        }
        None
    }

    /// Whether `id` is present.
    pub fn contains(&self, id: &TargetId) -> (r: bool)
        ensures
            r == has_key(self@, id@),
    {
        self.position(id).is_some()
    }

    /// The target stored under `id`, if any.
    pub fn get(&self, id: &TargetId) -> (r: Option<&T>)
        ensures
            r matches Some(t) ==> lookup(self@, id@) == Some(*t),
            r is None ==> lookup(self@, id@) is None,
    {
        proof { lemma_key_index(self@, id@); }
        match self.position(id) {
            Some(i) => Some(&self.entries[i].1),
            None => None,
        }
    }

    /// Inserts `target` under `id`, replacing and returning any previous
    /// target stored under that id.
    pub fn insert(&mut self, id: TargetId, target: T) -> (r: Option<T>)
        ensures
            r == lookup(old(self)@, id@),
            forall|k: Seq<char>|
                #![trigger lookup(final(self)@, k)]
                lookup(final(self)@, k) == (if k == id@ {
                    Some(target)
                } else {
                    lookup(old(self)@, k)
                }),
            final(self)@.len() == old(self)@.len() + (if has_key(old(self)@, id@) {
                0int
            } else {
                1int
            }),
    {
        proof { use_type_invariant(&*self); }
        let mut v: Vec<(TargetId, T)> = Vec::new();
        std::mem::swap(&mut v, &mut self.entries);
        let ghost s = v@;
        let mut i: usize = 0;
        while i < v.len() && str_less(v[i].0.as_str(), id.as_str())
            invariant
                v@ == s,
                keys_sorted(s),
                i <= s.len(),
                forall|j: int| 0 <= j < i ==> str_lt(#[trigger] s[j].0@, id@),
            decreases s.len() - i,
        {
            i = i + 1;
        }
        proof {
            lemma_key_index(s, id@);
            assert forall|j: int| 0 <= j < i implies s[j].0@ != id@ by {
                lemma_str_lt_irreflexive(id@);
            }
        }
        if i < v.len() && v[i].0.0 == id.0 {
            let old_entry = v.remove(i);
            v.insert(i, (id, target));
            proof {
                lemma_sorted_key_index(s, i as int);
                assert forall|j: int, l: int| 0 <= j < l < v@.len() implies str_lt(
                    #[trigger] v@[j].0@,
                    #[trigger] v@[l].0@,
                ) by {
                    assert(s[j].0@ == v@[j].0@ && s[l].0@ == v@[l].0@);
                }
                assert forall|k: Seq<char>| #[trigger]
                    lookup(v@, k) == (if k == id@ {
                        Some(target)
                    } else {
                        lookup(s, k)
                    }) by {
                    lemma_key_index(v@, k);
                    lemma_key_index(s, k);
                    let a = key_index(v@, k);
                    let b = key_index(s, k);
                    if a >= 0 {
                        lemma_sorted_key_index(v@, a);
                        lemma_sorted_key_index(s, a);
                    }
                    if b >= 0 {
                        lemma_sorted_key_index(v@, b);
                        lemma_sorted_key_index(s, b);
                    }
                }
            }
            self.entries = v;
            Some(old_entry.1)
        } else {
            proof {
                // every entry from position i on sorts after the new id
                assert forall|j: int| i <= j < s.len() implies str_lt(id@, #[trigger] s[j].0@) by {
                    let e = s[i as int].0@;
                    assert(!str_lt(e, id@));
                    assert(e != id@);
                    lemma_str_lt_total(e, id@);
                    if j > i {
                        lemma_str_lt_transitive(id@, e, s[j].0@);
                    }
                }
                assert(key_index(s, id@) == -1) by {
                    if key_index(s, id@) >= 0 {
                        let ki = key_index(s, id@);
                        if ki >= i {
                            lemma_str_lt_irreflexive(id@);
                        }
                    }
                }
            }
            v.insert(i, (id, target));
            proof {
                assert forall|j: int, l: int| 0 <= j < l < v@.len() implies str_lt(
                    #[trigger] v@[j].0@,
                    #[trigger] v@[l].0@,
                ) by {
                    if l < i {
                    } else if l == i {
                    } else if j < i {
                        lemma_str_lt_transitive(s[j].0@, id@, s[l - 1].0@);
                    } else if j == i {
                    } else {
                    }
                }
                assert forall|k: Seq<char>| #[trigger]
                    lookup(v@, k) == (if k == id@ {
                        Some(target)
                    } else {
                        lookup(s, k)
                    }) by {
                    lemma_key_index(v@, k);
                    lemma_key_index(s, k);
                    let a = key_index(v@, k);
                    let b = key_index(s, k);
                    lemma_sorted_key_index(v@, i as int);
                    if a >= 0 {
                        lemma_sorted_key_index(v@, a);
                        if a < i {
                            lemma_sorted_key_index(s, a);
                        } else if a > i {
                            lemma_sorted_key_index(s, a - 1);
                        }
                    }
                    if b >= 0 {
                        lemma_sorted_key_index(s, b);
                        if b < i {
                            lemma_sorted_key_index(v@, b);
                        } else {
                            lemma_sorted_key_index(v@, b + 1);
                        }
                    }
                }
            }
            self.entries = v;
            None
        }
    }
}

} // verus!

verus! {

/// Targets keyed by id, in id order.
pub type TargetMap = IdMap<Target>;

/// A complete kiln pipeline — the unit the planner and executor consume:
/// a versioned map of targets keyed by id, plus shared resource
/// declarations and arbitrary metadata.
#[derive(Debug, Clone, PartialEq, Eq)]
pub struct Pipeline {
    /// Schema version of this pipeline.
    pub version: PipelineVersion,
    /// Targets keyed by id, in id order.
    pub targets: TargetMap,
    /// Shared resources declared at pipeline scope.
    pub resources: Vec<Resource>,
    /// Arbitrary metadata for downstream tooling.
    pub metadata: HashMap<String, JsonValue>,
}

impl Default for Pipeline {
    fn default() -> (r: Self)
        ensures
            r.version == PipelineVersion::V1,
            r.targets@.len() == 0,
            r.resources@.len() == 0,
            r.metadata@ == Map::<String, JsonValue>::empty(),
    {
        Pipeline {
            version: PipelineVersion::V1,
            targets: TargetMap::new(),
            resources: Vec::new(),
            metadata: HashMap::new(),
        }
    }
}

impl Pipeline {
    /// Constructs an empty pipeline at the current schema version.
    pub fn new() -> (r: Self)
        ensures
            r.version == PipelineVersion::V1,
            r.targets@.len() == 0,
            r.resources@.len() == 0,
            r.metadata@ == Map::<String, JsonValue>::empty(),
    {
        Pipeline::default()
    }

    /// Inserts a target under `id`, replacing and returning any existing
    /// target with the same id.
    pub fn add(&mut self, id: TargetId, target: Target) -> (r: Option<Target>)
        ensures
            r == lookup(old(self).targets@, id@),
            forall|k: Seq<char>|
                #![trigger lookup(final(self).targets@, k)]
                lookup(final(self).targets@, k) == (if k == id@ {
                    Some(target)
                } else {
                    lookup(old(self).targets@, k)
                }),
            final(self).targets@.len() == old(self).targets@.len() + (if has_key(
                old(self).targets@,
                id@,
            ) {
                0int
            } else {
                1int
            }),
            final(self).version == old(self).version,
            final(self).resources == old(self).resources,
            final(self).metadata == old(self).metadata,
    {
        self.targets.insert(id, target)
    }

    /// Returns the target registered under `id`, if any.
    pub fn target(&self, id: &TargetId) -> (r: Option<&Target>)
        ensures
            r matches Some(t) ==> lookup(self.targets@, id@) == Some(*t),
            r is None ==> lookup(self.targets@, id@) is None,
    {
        self.targets.get(id)
    }

    /// Returns `true` if `id` refers to a target in the pipeline.
    pub fn contains(&self, id: &TargetId) -> (r: bool)
        ensures
            r == has_key(self.targets@, id@),
    {
        self.targets.contains(id)
    }

    /// Returns the number of targets in the pipeline.
    pub fn len(&self) -> (r: usize)
        ensures
            r == self.targets@.len(),
    {
        self.targets.len()
    }

    /// Returns `true` if the pipeline has no targets.
    pub fn is_empty(&self) -> (r: bool)
        ensures
            r == (self.targets@.len() == 0),
    {
        self.targets.is_empty()
    }
}

} // verus!
