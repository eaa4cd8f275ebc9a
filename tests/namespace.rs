use consensus_k8s::error::{BootstrapError, MissingField};
use consensus_k8s::namespace::{
    after_create, after_namespace_lookup, namespace_request, CreateReply, LookupReply,
    NamespaceStep,
};

/// A platform that holds namespaces by name and counts creates.
struct Platform {
    namespaces: Vec<String>,
    creates: usize,
}

impl Platform {
    fn lookup(&self, name: &str) -> LookupReply {
        if self.namespaces.iter().any(|n| n == name) {
            LookupReply::Found { name: Some(name.to_string()) }
        } else {
            LookupReply::Absent
        }
    }

    fn ensure(&mut self, name: &str) -> Result<(), BootstrapError> {
        match after_namespace_lookup(self.lookup(name))? {
            NamespaceStep::Done => Ok(()),
            NamespaceStep::Create => {
                let req = namespace_request(name);
                self.creates += 1;
                self.namespaces.push(req.name.clone());
                after_create(CreateReply::Created { name: Some(req.name) })
            }
        }
    }
}

#[test]
fn ensuring_twice_creates_once() {
    let mut p = Platform { namespaces: vec![], creates: 0 };
    assert_eq!(p.ensure("ns1"), Ok(()));
    assert_eq!(p.ensure("ns1"), Ok(()));
    assert_eq!(p.creates, 1);
}

#[test]
fn existing_namespace_is_reused() {
    let mut p = Platform { namespaces: vec!["ns1".to_string()], creates: 0 };
    assert_eq!(p.ensure("ns1"), Ok(()));
    assert_eq!(p.creates, 0);
}

#[test]
fn lookup_decisions() {
    assert_eq!(after_namespace_lookup(LookupReply::Absent), Ok(NamespaceStep::Create));
    assert_eq!(
        after_namespace_lookup(LookupReply::Found { name: Some("x".to_string()) }),
        Ok(NamespaceStep::Done)
    );
    assert_eq!(
        after_namespace_lookup(LookupReply::Found { name: None }),
        Err(BootstrapError::MalformedResponse(MissingField::Name))
    );
    assert_eq!(
        after_namespace_lookup(LookupReply::Failed("unreachable".to_string())),
        Err(BootstrapError::Infrastructure("unreachable".to_string()))
    );
}

#[test]
fn create_replies() {
    assert_eq!(after_create(CreateReply::Created { name: Some("x".to_string()) }), Ok(()));
    assert_eq!(
        after_create(CreateReply::Created { name: None }),
        Err(BootstrapError::MalformedResponse(MissingField::Name))
    );
    assert_eq!(
        after_create(CreateReply::Failed("forbidden".to_string())),
        Err(BootstrapError::Infrastructure("forbidden".to_string()))
    );
}

#[test]
fn request_is_labelled_with_its_name() {
    let r = namespace_request("consensus");
    assert_eq!(r.name, "consensus");
    assert_eq!(r.labels, vec![("name".to_string(), "consensus".to_string())]);
}
