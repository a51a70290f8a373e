//! Fluent builders for [`Pipeline`] and [`Target`].
//!
//! Builders are chainable: each setter consumes the builder and returns
//! it with one field changed. [`TargetBuilder::build`] fails when the
//! interpreter or the script is missing; [`PipelineBuilder::build`]
//! validates the pipeline it assembled.

use std::collections::HashMap;
use std::collections::hash_map::RandomState;
use std::path::PathBuf;
use vstd::prelude::*;
use vstd::std_specs::hash::{obeys_key_model, builds_valid_hashers};
use crate::error::{KilnError, KilnErrorKind};
use crate::json::JsonValue;
use crate::resource::{Resource, ResourceRef};
use crate::target::{FetchSpec, Pipeline, PipelineVersion, ShellBlock, Target, TargetId, lookup, has_key};
use crate::validator::{first_duplicate, is_unknown_reference_error, unknown_reference};

verus! {

/// Whether string maps behave as maps (vstd's key model for `String`
/// with the default hasher), under which metadata inserts are specified.
pub open spec fn string_maps_are_maps() -> bool {
    obeys_key_model::<String>() && builds_valid_hashers::<RandomState>()
}

/// The views of a sequence of string slices as target ids.
pub open spec fn strs_view(xs: Seq<&str>) -> Seq<Seq<char>> {
    xs.map_values(|s: &str| s@)
}

/// Turns string slices into target ids, in order.
fn ids_from(items: Vec<&str>) -> (r: Vec<TargetId>)
    ensures
        r@.len() == items@.len(),
        forall|i: int| 0 <= i < items@.len() ==> (#[trigger] r@[i])@ == items@[i]@,
{
    let mut out: Vec<TargetId> = Vec::new();
    let mut i: usize = 0;
    while i < items.len()
        invariant
            i <= items@.len(),
            out@.len() == i,
            forall|j: int| 0 <= j < i ==> (#[trigger] out@[j])@ == items@[j]@,
        decreases items@.len() - i,
    {
        out.push(TargetId::new(items[i]));
        i = i + 1;
    }
    out
}

/// Turns string slices into owned strings, in order.
fn strings_from(items: Vec<&str>) -> (r: Vec<String>)
    ensures
        r@.len() == items@.len(),
        forall|i: int| 0 <= i < items@.len() ==> (#[trigger] r@[i])@ == items@[i]@,
{
    let mut out: Vec<String> = Vec::new();
    let mut i: usize = 0;
    while i < items.len()
        invariant
            i <= items@.len(),
            out@.len() == i,
            forall|j: int| 0 <= j < i ==> (#[trigger] out@[j])@ == items@[j]@,
        decreases items@.len() - i,
    {
        out.push(items[i].to_owned());
        i = i + 1;
    }
    out
}

/// Chainable construction of a [`Target`].
#[derive(Debug, Clone)]
pub struct TargetBuilder {
    interpreter: Option<String>,
    code: Option<String>,
    cleanup: Option<ShellBlock>,
    requires: Vec<TargetId>,
    conflicts: Vec<TargetId>,
    resources: Vec<ResourceRef>,
    inputs: Vec<String>,
    outputs: Vec<String>,
    fetches: Vec<FetchSpec>,
    metadata: HashMap<String, JsonValue>,
}

impl TargetBuilder {
    /// The interpreter set so far.
    pub closed spec fn interpreter_of(&self) -> Option<String> {
        self.interpreter
    }

    /// The script set so far.
    pub closed spec fn code_of(&self) -> Option<String> {
        self.code
    }

    /// The cleanup block set so far.
    pub closed spec fn cleanup_of(&self) -> Option<ShellBlock> {
        self.cleanup
    }

    /// The required targets so far.
    pub closed spec fn requires_of(&self) -> Seq<TargetId> {
        self.requires@
    }

    /// The conflicting targets so far.
    pub closed spec fn conflicts_of(&self) -> Seq<TargetId> {
        self.conflicts@
    }

    /// The resource references so far.
    pub closed spec fn resources_of(&self) -> Seq<ResourceRef> {
        self.resources@
    }

    /// The inputs so far.
    pub closed spec fn inputs_of(&self) -> Seq<String> {
        self.inputs@
    }

    /// The outputs so far.
    pub closed spec fn outputs_of(&self) -> Seq<String> {
        self.outputs@
    }

    /// The fetches so far.
    pub closed spec fn fetches_of(&self) -> Seq<FetchSpec> {
        self.fetches@
    }

    /// The metadata so far.
    pub closed spec fn metadata_of(&self) -> Map<String, JsonValue> {
        self.metadata@
    }

}

/// Whether `a` and `b` agree on every field except those named in `changed`.
pub open spec fn agree_except(a: TargetBuilder, b: TargetBuilder, changed: Seq<char>) -> bool {
    &&& (changed != "interpreter"@ ==> a.interpreter_of() == b.interpreter_of())
    &&& (changed != "code"@ ==> a.code_of() == b.code_of())
    &&& (changed != "cleanup"@ ==> a.cleanup_of() == b.cleanup_of())
    &&& (changed != "requires"@ ==> a.requires_of() == b.requires_of())
    &&& (changed != "conflicts"@ ==> a.conflicts_of() == b.conflicts_of())
    &&& (changed != "resources"@ ==> a.resources_of() == b.resources_of())
    &&& (changed != "inputs"@ ==> a.inputs_of() == b.inputs_of())
    &&& (changed != "outputs"@ ==> a.outputs_of() == b.outputs_of())
    &&& (changed != "fetches"@ ==> a.fetches_of() == b.fetches_of())
    &&& (changed != "metadata"@ ==> a.metadata_of() == b.metadata_of())
}

impl Default for TargetBuilder {
    /// A builder with nothing set.
    fn default() -> (r: Self)
        ensures
            r.interpreter_of() is None,
            r.code_of() is None,
            r.cleanup_of() is None,
            r.requires_of().len() == 0,
            r.conflicts_of().len() == 0,
            r.resources_of().len() == 0,
            r.inputs_of().len() == 0,
            r.outputs_of().len() == 0,
            r.fetches_of().len() == 0,
            r.metadata_of() == Map::<String, JsonValue>::empty(),
    {
        TargetBuilder {
            interpreter: None,
            code: None,
            cleanup: None,
            requires: Vec::new(),
            conflicts: Vec::new(),
            resources: Vec::new(),
            inputs: Vec::new(),
            outputs: Vec::new(),
            fetches: Vec::new(),
            metadata: HashMap::new(),
        }
    }
}

impl TargetBuilder {
    /// A builder with nothing set.
    pub fn new() -> (r: Self)
        ensures
            r.interpreter_of() is None,
            r.code_of() is None,
            r.cleanup_of() is None,
            r.requires_of().len() == 0,
            r.conflicts_of().len() == 0,
            r.resources_of().len() == 0,
            r.inputs_of().len() == 0,
            r.outputs_of().len() == 0,
            r.fetches_of().len() == 0,
            r.metadata_of() == Map::<String, JsonValue>::empty(),
    {
        TargetBuilder::default()
    }

    /// Sets the interpreter.
    pub fn shell(self, interpreter: &str) -> (r: Self)
        ensures
            r.interpreter_of() matches Some(s) && s@ == interpreter@,
            agree_except(r, self, "interpreter"@),
    {
        let mut b = self;
        b.interpreter = Some(interpreter.to_owned());
        b
    }

    /// Sets the script.
    pub fn run(self, code: &str) -> (r: Self)
        ensures
            r.code_of() matches Some(s) && s@ == code@,
            agree_except(r, self, "code"@),
    {
        let mut b = self;
        b.code = Some(code.to_owned());
        b
    }

    /// Sets the block run when the target fails.
    pub fn cleanup(self, cleanup: ShellBlock) -> (r: Self)
        ensures
            r.cleanup_of() == Some(cleanup),
            agree_except(r, self, "cleanup"@),
    {
        let mut b = self;
        b.cleanup = Some(cleanup);
        b
    }

    /// Replaces the required targets.
    pub fn requirements(self, items: Vec<&str>) -> (r: Self)
        ensures
            r.requires_of().len() == items@.len() && forall|i: int| 0 <= i < items@.len() ==> (#[trigger] r.requires_of()[i])@ == items@[i]@,
            agree_except(r, self, "requires"@),
    {
        let mut b = self;
        b.requires = ids_from(items);
        b
    }

    /// Appends a required target.
    pub fn require(self, id: &str) -> (r: Self)
        ensures
            r.requires_of().len() == self.requires_of().len() + 1 && r.requires_of().drop_last() == self.requires_of() && r.requires_of().last()@ == id@,
            agree_except(r, self, "requires"@),
    {
        let mut b = self;
        b.requires.push(TargetId::new(id));
        b
    }

    /// Replaces the conflicting targets.
    pub fn conflicts(self, items: Vec<&str>) -> (r: Self)
        ensures
            r.conflicts_of().len() == items@.len() && forall|i: int| 0 <= i < items@.len() ==> (#[trigger] r.conflicts_of()[i])@ == items@[i]@,
            agree_except(r, self, "conflicts"@),
    {
        let mut b = self;
        b.conflicts = ids_from(items);
        b
    }

    /// Appends a conflicting target.
    pub fn conflict(self, id: &str) -> (r: Self)
        ensures
            r.conflicts_of().len() == self.conflicts_of().len() + 1 && r.conflicts_of().drop_last() == self.conflicts_of() && r.conflicts_of().last()@ == id@,
            agree_except(r, self, "conflicts"@),
    {
        let mut b = self;
        b.conflicts.push(TargetId::new(id));
        b
    }

    /// Replaces the resource references.
    pub fn resources(self, items: Vec<ResourceRef>) -> (r: Self)
        ensures
            r.resources_of() == items@,
            agree_except(r, self, "resources"@),
    {
        let mut b = self;
        b.resources = items;
        b
    }

    /// Appends a resource reference.
    pub fn resource(self, resource: ResourceRef) -> (r: Self)
        ensures
            r.resources_of() == self.resources_of().push(resource),
            agree_except(r, self, "resources"@),
    {
        let mut b = self;
        b.resources.push(resource);
        b
    }

    /// Replaces the inputs.
    pub fn inputs(self, items: Vec<&str>) -> (r: Self)
        ensures
            r.inputs_of().len() == items@.len() && forall|i: int| 0 <= i < items@.len() ==> (#[trigger] r.inputs_of()[i])@ == items@[i]@,
            agree_except(r, self, "inputs"@),
    {
        let mut b = self;
        b.inputs = strings_from(items);
        b
    }

    /// Appends an input.
    pub fn input(self, name: &str) -> (r: Self)
        ensures
            r.inputs_of().len() == self.inputs_of().len() + 1 && r.inputs_of().drop_last() == self.inputs_of() && r.inputs_of().last()@ == name@,
            agree_except(r, self, "inputs"@),
    {
        let mut b = self;
        b.inputs.push(name.to_owned());
        b
    }

    /// Replaces the outputs.
    pub fn outputs(self, items: Vec<&str>) -> (r: Self)
        ensures
            r.outputs_of().len() == items@.len() && forall|i: int| 0 <= i < items@.len() ==> (#[trigger] r.outputs_of()[i])@ == items@[i]@,
            agree_except(r, self, "outputs"@),
    {
        let mut b = self;
        b.outputs = strings_from(items);
        b
    }

    /// Appends an output.
    pub fn output(self, name: &str) -> (r: Self)
        ensures
            r.outputs_of().len() == self.outputs_of().len() + 1 && r.outputs_of().drop_last() == self.outputs_of() && r.outputs_of().last()@ == name@,
            agree_except(r, self, "outputs"@),
    {
        let mut b = self;
        b.outputs.push(name.to_owned());
        b
    }

    /// Replaces the fetches.
    pub fn fetches(self, items: Vec<FetchSpec>) -> (r: Self)
        ensures
            r.fetches_of() == items@,
            agree_except(r, self, "fetches"@),
    {
        let mut b = self;
        b.fetches = items;
        b
    }

    /// Appends a fetch without a digest.
    pub fn fetch(self, url: &str, destination: PathBuf) -> (r: Self)
        ensures
            r.fetches_of().len() == self.fetches_of().len() + 1 && r.fetches_of().drop_last() == self.fetches_of() && r.fetches_of().last().url@ == url@ && r.fetches_of().last().destination == destination && r.fetches_of().last().blake3_hex is None,
            agree_except(r, self, "fetches"@),
    {
        let mut b = self;
        b.fetches.push(FetchSpec::new(url, destination));
        b
    }

    /// Appends a fetch checked against a BLAKE3 digest.
    pub fn fetch_with_blake3(self, url: &str, destination: PathBuf, blake3_hex: &str) -> (r: Self)
        ensures
            r.fetches_of().len() == self.fetches_of().len() + 1 && r.fetches_of().drop_last() == self.fetches_of() && r.fetches_of().last().url@ == url@ && r.fetches_of().last().destination == destination && (r.fetches_of().last().blake3_hex matches Some(h) && h@ == blake3_hex@),
            agree_except(r, self, "fetches"@),
    {
        let mut b = self;
        b.fetches.push(FetchSpec::new(url, destination).with_blake3(blake3_hex));
        b
    }

    /// Sets a metadata entry.
    pub fn metadata(self, key: &str, value: JsonValue) -> (r: Self)
        ensures
            string_maps_are_maps() ==> exists|k: String| k@ == key@ && r.metadata_of() == self.metadata_of().insert(k, value),
            agree_except(r, self, "metadata"@),
    {
        let mut b = self;
        b.metadata.insert(key.to_owned(), value);
        b
    }

    /// Builds the target: fails with a missing-field error naming `shell`
    /// when no interpreter was set, else `run` when no script was set.
    pub fn build(self) -> (r: Result<Target, KilnError>)
        ensures
            r is Ok <==> (self.interpreter_of() is Some && self.code_of() is Some),
            self.interpreter_of() is None ==> (r matches Err(e) && e.kind() matches KilnErrorKind::MissingRequired {
                field,
            } && field@ == "shell"@),
            self.interpreter_of() is Some && self.code_of() is None ==> (r matches Err(e) && e.kind() matches KilnErrorKind::MissingRequired {
                field,
            } && field@ == "run"@),
            r matches Ok(t) ==> {
                &&& Some(t.run.interpreter) == self.interpreter_of()
                &&& Some(t.run.code) == self.code_of()
                &&& t.cleanup == self.cleanup_of()
                &&& t.requires@ == self.requires_of()
                &&& t.conflicts@ == self.conflicts_of()
                &&& t.resources@ == self.resources_of()
                &&& t.inputs@ == self.inputs_of()
                &&& t.outputs@ == self.outputs_of()
                &&& t.fetches@ == self.fetches_of()
                &&& t.metadata@ == self.metadata_of()
            },
    {
        let interpreter = match self.interpreter {
            Some(i) => i,
            None => return Err(KilnError::missing_required("shell")),
        };
        let code = match self.code {
            Some(c) => c,
            None => return Err(KilnError::missing_required("run")),
        };
        Ok(
            Target {
                run: ShellBlock { interpreter, code },
                cleanup: self.cleanup,
                requires: self.requires,
                conflicts: self.conflicts,
                resources: self.resources,
                inputs: self.inputs,
                outputs: self.outputs,
                fetches: self.fetches,
                metadata: self.metadata,
            },
        )
    }
}

/// Chainable construction of a [`Pipeline`].
#[derive(Debug, Clone)]
pub struct PipelineBuilder {
    pipeline: Pipeline,
}

impl PipelineBuilder {
    /// The pipeline assembled so far.
    pub closed spec fn draft(&self) -> Pipeline {
        self.pipeline
    }
}

impl Default for PipelineBuilder {
    /// A builder holding an empty pipeline.
    fn default() -> (r: Self)
        ensures
            r.draft().version == PipelineVersion::V1,
            r.draft().targets@.len() == 0,
            r.draft().resources@.len() == 0,
            r.draft().metadata@ == Map::<String, JsonValue>::empty(),
    {
        PipelineBuilder { pipeline: Pipeline::new() }
    }
}

impl PipelineBuilder {
    /// A builder holding an empty pipeline.
    pub fn new() -> (r: Self)
        ensures
            r.draft().version == PipelineVersion::V1,
            r.draft().targets@.len() == 0,
            r.draft().resources@.len() == 0,
            r.draft().metadata@ == Map::<String, JsonValue>::empty(),
    {
        PipelineBuilder::default()
    }

    /// Sets the schema version.
    pub fn version(self, version: PipelineVersion) -> (r: Self)
        ensures
            r.draft().version == version,
            r.draft().targets == self.draft().targets,
            r.draft().resources == self.draft().resources,
            r.draft().metadata == self.draft().metadata,
    {
        let mut b = self;
        b.pipeline.version = version;
        b
    }

    /// Adds `target` under `id`, replacing any target with that id.
    pub fn target(self, id: &str, target: Target) -> (r: Self)
        ensures
            forall|k: Seq<char>|
                #![trigger lookup(r.draft().targets@, k)]
                lookup(r.draft().targets@, k) == (if k == id@ {
                    Some(target)
                } else {
                    lookup(self.draft().targets@, k)
                }),
            r.draft().targets@.len() == self.draft().targets@.len() + (if has_key(self.draft().targets@, id@) {
                0int
            } else {
                1int
            }),
            r.draft().version == self.draft().version,
            r.draft().resources == self.draft().resources,
            r.draft().metadata == self.draft().metadata,
    {
        let mut b = self;
        b.pipeline.add(TargetId::new(id), target);
        b
    }

    /// Declares a shared resource.
    pub fn resource(self, resource: Resource) -> (r: Self)
        ensures
            r.draft().resources@ == self.draft().resources@.push(resource),
            r.draft().version == self.draft().version,
            r.draft().targets == self.draft().targets,
            r.draft().metadata == self.draft().metadata,
    {
        let mut b = self;
        b.pipeline.resources.push(resource);
        b
    }

    /// Sets a metadata entry.
    pub fn metadata(self, key: &str, value: JsonValue) -> (r: Self)
        ensures
            string_maps_are_maps() ==> exists|k: String| k@ == key@ && r.draft().metadata@ == self.draft().metadata@.insert(k, value),
            r.draft().version == self.draft().version,
            r.draft().targets == self.draft().targets,
            r.draft().resources == self.draft().resources,
    {
        let mut b = self;
        b.pipeline.metadata.insert(key.to_owned(), value);
        b
    }

    /// Validates the assembled pipeline and returns it.
    pub fn build(self) -> (r: Result<Pipeline, KilnError>)
        ensures
            r is Ok <==> (unknown_reference(self.draft().targets@) is None && first_duplicate(
                self.draft().resources@,
            ) < 0),
            r matches Ok(p) ==> p == self.draft(),
            unknown_reference(self.draft().targets@) is Some ==> (r matches Err(e)
                && is_unknown_reference_error(e, unknown_reference(self.draft().targets@)->0)),
            unknown_reference(self.draft().targets@) is None && first_duplicate(self.draft().resources@) >= 0
                ==> (r matches Err(e) && e.kind() matches KilnErrorKind::DuplicateTarget { target }
                && target@ == self.draft().resources@[first_duplicate(self.draft().resources@)].id@),
    {
        match self.pipeline.validate() {
            Err(e) => Err(e),
            Ok(()) => Ok(self.pipeline),
        }
    }
}

impl Target {
    /// A fresh [`TargetBuilder`].
    pub fn builder() -> (r: TargetBuilder)
        ensures
            r.interpreter_of() is None,
            r.code_of() is None,
            r.cleanup_of() is None,
            r.requires_of().len() == 0,
            r.conflicts_of().len() == 0,
            r.resources_of().len() == 0,
            r.inputs_of().len() == 0,
            r.outputs_of().len() == 0,
            r.fetches_of().len() == 0,
            r.metadata_of() == Map::<String, JsonValue>::empty(),
    {
        TargetBuilder::new()
    }
}

impl Pipeline {
    /// A fresh [`PipelineBuilder`].
    pub fn builder() -> (r: PipelineBuilder)
        ensures
            r.draft().version == PipelineVersion::V1,
            r.draft().targets@.len() == 0,
            r.draft().resources@.len() == 0,
            r.draft().metadata@ == Map::<String, JsonValue>::empty(),
    {
        PipelineBuilder::new()
    }
}

} // verus!
