//! Create-or-reuse of the cluster's namespace, and the check of what the
//! platform answers to a create.
//!
//! The caller looks the namespace up, hands the reply to
//! [`after_namespace_lookup`], creates [`namespace_request`] when told to,
//! and hands the create's reply to [`after_create`].

use vstd::prelude::*;
use vstd::string::*;
use crate::deployment::pairs_view;
use crate::error::{BootstrapError, MissingField};

verus! {

/// The platform's answer to a lookup by name.
pub enum LookupReply {
    /// No object of that name.
    Absent,
    /// The object, with its `.metadata.name` if the platform gave one.
    Found { name: Option<String> },
    /// The platform could not be asked.
    Failed(String),
}

/// The platform's answer to a create.
pub enum CreateReply {
    /// The created object, with its `.metadata.name` if the platform gave one.
    Created { name: Option<String> },
    Failed(String),
}

/// What follows a namespace lookup.
#[derive(Clone, Copy, Debug, PartialEq, Eq, Structural)]
pub enum NamespaceStep {
    /// The namespace is absent: create it.
    Create,
    /// The namespace exists: nothing to do.
    Done,
}

/// A namespace to create: its name and labels.
pub struct NamespaceRequest {
    pub name: String,
    pub labels: Vec<(String, String)>,
}

pub open spec fn lookup_decision(reply: LookupReply) -> Result<NamespaceStep, BootstrapError> {
    match reply {
        LookupReply::Absent => Ok(NamespaceStep::Create),
        LookupReply::Found { name: Some(_) } => Ok(NamespaceStep::Done),
        LookupReply::Found { name: None } => Err(BootstrapError::MalformedResponse(MissingField::Name)),
        LookupReply::Failed(m) => Err(BootstrapError::Infrastructure(m)),
    }
}

pub open spec fn create_decision(reply: CreateReply) -> Result<(), BootstrapError> {
    match reply {
        CreateReply::Created { name: Some(_) } => Ok(()),
        CreateReply::Created { name: None } => Err(BootstrapError::MalformedResponse(MissingField::Name)),
        CreateReply::Failed(m) => Err(BootstrapError::Infrastructure(m)),
    }
}

/// How many creates a call makes after this lookup reply.
pub open spec fn creates_after(reply: LookupReply) -> nat {
    if lookup_decision(reply) == Ok::<NamespaceStep, BootstrapError>(NamespaceStep::Create) {
        1
    } else {
        0
    }
}

/// Decides on a namespace lookup: create it when absent, reuse it when
/// present; a platform failure or a nameless object is an error.
pub fn after_namespace_lookup(reply: LookupReply) -> (r: Result<NamespaceStep, BootstrapError>)
    ensures
        r == lookup_decision(reply),
{
    match reply {
        LookupReply::Absent => Ok(NamespaceStep::Create),
        LookupReply::Found { name: Some(_) } => Ok(NamespaceStep::Done),
        LookupReply::Found { name: None } => Err(BootstrapError::MalformedResponse(MissingField::Name)),
        LookupReply::Failed(m) => Err(BootstrapError::Infrastructure(m)),
    }
}

/// Checks the platform's reply to a create: the created object must carry
/// its name.
pub fn after_create(reply: CreateReply) -> (r: Result<(), BootstrapError>)
    ensures
        r == create_decision(reply),
{
    match reply {
        CreateReply::Created { name: Some(_) } => Ok(()),
        CreateReply::Created { name: None } => Err(BootstrapError::MalformedResponse(MissingField::Name)),
        CreateReply::Failed(m) => Err(BootstrapError::Infrastructure(m)),
    }
}

/// The namespace to create: named `name`, with a `name` label recording it.
pub fn namespace_request(name: &str) -> (r: NamespaceRequest)
    ensures
        r.name@ == name@,
        pairs_view(r.labels@) == seq![("name"@, name@)],
{
    let labels = vec![(String::from_str("name"), String::from_str(name))];
    let r = NamespaceRequest { name: String::from_str(name), labels };
    assert(pairs_view(r.labels@) =~= seq![("name"@, name@)]);
    r
}

/// `reply` is what a platform holding the namespaces `existing` answers to a
/// lookup of `name`.
pub open spec fn answers_lookup(existing: Set<Seq<char>>, name: Seq<char>, reply: LookupReply) -> bool {
    if existing.contains(name) {
        reply matches LookupReply::Found { name: Some(n) } && n@ == name
    } else {
        reply is Absent
    }
}

/// Ensuring the same namespace twice in a row makes exactly one create, and
/// both calls succeed: on a platform without it, the first lookup leads to a
/// create that succeeds; the platform then holds it, and the second lookup
/// finishes without creating.
pub proof fn lemma_ensure_twice_creates_once(
    existing: Set<Seq<char>>,
    name: Seq<char>,
    first: LookupReply,
    created: CreateReply,
    second: LookupReply,
)
    requires
        !existing.contains(name),
        answers_lookup(existing, name, first),
        created matches CreateReply::Created { name: Some(n) } && n@ == name,
        answers_lookup(existing.insert(name), name, second),
    ensures
        lookup_decision(first) == Ok::<NamespaceStep, BootstrapError>(NamespaceStep::Create),
        create_decision(created) == Ok::<(), BootstrapError>(()),
        lookup_decision(second) == Ok::<NamespaceStep, BootstrapError>(NamespaceStep::Done),
        creates_after(first) + creates_after(second) == 1,
{
}

/// Ensuring a namespace that the platform already holds makes no create
/// and succeeds.
pub proof fn lemma_ensure_existing_creates_none(
    existing: Set<Seq<char>>,
    name: Seq<char>,
    reply: LookupReply,
)
    requires
        existing.contains(name),
        answers_lookup(existing, name, reply),
    ensures
        lookup_decision(reply) == Ok::<NamespaceStep, BootstrapError>(NamespaceStep::Done),
        creates_after(reply) == 0,
{
}

} // verus!
