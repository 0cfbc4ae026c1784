use vstd::prelude::*;

use crate::config::ForwardSpec;
use crate::text::{join_path, path_join};

verus! {

/// Why a namespace cannot be entered.
#[derive(Clone, Copy, Debug, PartialEq, Eq, Structural)]
pub enum NetnsError {
    /// The platform has no network namespaces.
    Unsupported,
}

/// The namespace file that a specification names: its explicit namespace
/// file, else the file of its named namespace under `/var/run/netns`.
pub open spec fn spec_netns_path(spec: &ForwardSpec) -> Option<Seq<char>> {
    match spec.setns_path {
        Some(p) => Some(p@),
        None => match spec.namespace {
            Some(ns) => Some(path_join("/var/run/netns"@, ns@)),
            None => None,
        },
    }
}

/// The namespace file to enter for `spec`, if it names a namespace.
pub fn desired_netns_path(spec: &ForwardSpec) -> (r: Option<String>)
    ensures
        match r {
            Some(p) => spec_netns_path(spec) == Some(p@),
            None => spec_netns_path(spec).is_none(),
        },
{
    match &spec.setns_path {
        Some(p) => Some(String::from_str(p.as_str())),
        None => match &spec.namespace {
            Some(ns) => Some(join_path("/var/run/netns", ns.as_str())),
            None => None,
        },
    }
}

/// Decides how the thread dedicated to `spec` enters its namespace: not at
/// all when none is named, through the returned namespace file when the
/// platform has namespaces, and never on a platform without them.
pub fn maybe_enter(spec: &ForwardSpec, namespaces_supported: bool) -> (r: Result<
    Option<String>,
    NetnsError,
>)
    ensures
        !spec.names_namespace() ==> r == Ok::<Option<String>, NetnsError>(None),
        spec.names_namespace() && !namespaces_supported ==> r == Err::<Option<String>, NetnsError>(
            NetnsError::Unsupported,
        ),
        spec.names_namespace() && namespaces_supported ==> r is Ok && r->Ok_0 is Some
            && spec_netns_path(spec) == Some(r->Ok_0->Some_0@),
{
    if spec.namespace.is_none() && spec.setns_path.is_none() {
        return Ok(None);
    }
    if !namespaces_supported {
        return Err(NetnsError::Unsupported);
    }
    Ok(desired_netns_path(spec))
}

} // verus!
