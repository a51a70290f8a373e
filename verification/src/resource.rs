//! Shared mutable resources that targets can declare.
//!
//! A [`Resource`] models a piece of state shared between targets — a GPU,
//! a network port, a tool with global state. Targets reference resources
//! through [`ResourceRef`], declaring whether they need exclusive ownership
//! ([`AccessMode::Exclusive`]) or can share the resource
//! ([`AccessMode::Shared`]). The planner keeps targets with overlapping
//! exclusive holds in separate waves.

use std::collections::HashMap;
use vstd::prelude::*;
use crate::json::JsonValue;

verus! {

/// How a target intends to use a [`Resource`].
#[derive(Debug, Clone, Copy, PartialEq, Eq, Hash, Structural)]
pub enum AccessMode {
    /// At most one target may hold this resource at a time.
    Exclusive,
    /// Multiple targets may hold this resource concurrently.
    Shared,
}

/// The lowercase name of an access mode.
pub open spec fn access_mode_name(mode: AccessMode) -> Seq<char> {
    match mode {
        AccessMode::Exclusive => "exclusive"@,
        AccessMode::Shared => "shared"@,
    }
}

impl AccessMode {
    /// Renders the access mode as `exclusive` or `shared`.
    pub fn to_string(&self) -> (r: String)
        ensures
            r@ == access_mode_name(*self),
    {
        match self {
            AccessMode::Exclusive => String::from_str("exclusive"),
            AccessMode::Shared => String::from_str("shared"),
        }
    }
}

/// A globally-unique identifier for a [`Resource`].
#[derive(Debug, PartialEq, Eq, Hash)]
pub struct ResourceId(pub String);

impl View for ResourceId {
    type V = Seq<char>;

    open spec fn view(&self) -> Seq<char> {
        self.0@
    }
}

impl Clone for ResourceId {
    fn clone(&self) -> (r: Self)
        ensures
            r == *self,
    {
        ResourceId(self.0.clone())
    }
}

impl ResourceId {
    /// Constructs a `ResourceId` from a string.
    pub fn new(id: &str) -> (r: Self)
        ensures
            r@ == id@,
    {
        ResourceId(id.to_owned())
    }

    /// Borrows the identifier as a string slice.
    pub fn as_str(&self) -> (r: &str)
        ensures
            r@ == self@,
    {
        self.0.as_str()
    }

    /// Renders the identifier.
    pub fn to_string(&self) -> (r: String)
        ensures
            r@ == self@,
    {
        self.0.clone()
    }
}

impl AsRef<str> for ResourceId {
    fn as_ref(&self) -> (r: &str)
        ensures
            r@ == self@,
    {
        self.0.as_str()
    }
}

impl From<String> for ResourceId {
    fn from(value: String) -> (r: Self) {
        ResourceId(value)
    }
}

impl vstd::std_specs::convert::FromSpecImpl<String> for ResourceId {
    open spec fn obeys_from_spec() -> bool {
        true
    }

    open spec fn from_spec(v: String) -> Self {
        ResourceId(v)
    }
}

impl<'a> From<&'a str> for ResourceId {
    fn from(value: &'a str) -> (r: Self)
        ensures
            r@ == value@,
    {
        ResourceId(value.to_owned())
    }
}

impl<'a> vstd::std_specs::convert::FromSpecImpl<&'a str> for ResourceId {
    open spec fn obeys_from_spec() -> bool {
        false
    }

    open spec fn from_spec(v: &'a str) -> Self {
        ResourceId(arbitrary())
    }
}

/// A target's declared usage of a [`Resource`], pairing the id with an [`AccessMode`].
#[derive(Debug, PartialEq, Eq)]
pub struct ResourceRef {
    /// The resource being referenced.
    pub resource_id: ResourceId,
    /// How this target accesses the resource.
    pub access: AccessMode,
}

impl Clone for ResourceRef {
    fn clone(&self) -> (r: Self)
        ensures
            r == *self,
    {
        ResourceRef { resource_id: self.resource_id.clone(), access: self.access }
    }
}

impl ResourceRef {
    /// Constructs a new `ResourceRef`.
    pub fn new(resource_id: ResourceId, access: AccessMode) -> (r: Self)
        ensures
            r.resource_id == resource_id,
            r.access == access,
    {
        ResourceRef { resource_id, access }
    }
}

/// A shared mutable resource that targets can acquire.
#[derive(Debug, Clone, PartialEq, Eq)]
pub struct Resource {
    /// Unique identifier.
    pub id: ResourceId,
    /// Default access mode when a [`ResourceRef`] does not specify one.
    pub default_access: AccessMode,
    /// Optional capacity (e.g. max concurrent shared users).
    pub capacity: Option<u32>,
    /// Human-readable description.
    pub description: Option<String>,
    /// Arbitrary metadata for downstream tooling.
    pub metadata: HashMap<String, JsonValue>,
}

impl Resource {
    /// Constructs a resource with the given id and default access mode;
    /// `capacity`, `description` and `metadata` start empty.
    pub fn new(id: ResourceId, default_access: AccessMode) -> (r: Self)
        ensures
            r.id == id,
            r.default_access == default_access,
            r.capacity is None,
            r.description is None,
            r.metadata@ == Map::<String, JsonValue>::empty(),
    {
        Resource { id, default_access, capacity: None, description: None, metadata: HashMap::new() }
    }

    /// Renders `resource <id> (<default access>)`.
    pub fn to_string(&self) -> (r: String)
        ensures
            r@ == "resource "@ + self.id@ + " ("@ + access_mode_name(self.default_access) + ")"@,
    {
        let mut s = String::from_str("resource ");
        s.append(self.id.as_str());
        s.append(" (");
        let m = self.default_access.to_string();
        s.append(m.as_str());
        s.append(")");
        s
    }
}

} // verus!
