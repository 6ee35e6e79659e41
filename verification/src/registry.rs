use vstd::prelude::*;

use crate::errors::EvalError;

verus! {

/// A named dispatch target: the registered component name together with the
/// global script-function name that invoking the component calls.
pub struct ComponentReference {
    pub name: String,
    pub global_fn_name: String,
}

/// The name-to-dispatch-target mapping that the registry holds: each
/// registered component name mapped to its global script-function name.
pub uninterp spec fn registry_view(r: ComponentRegistry) -> Map<Seq<char>, Seq<char>>;

/// The mapping of a registry with nothing registered.
pub open spec fn empty_registry_view() -> Map<Seq<char>, Seq<char>> {
    Map::empty()
}

/// The component registry: a concurrent-read name-keyed mapping from component
/// names to dispatch targets, written during setup and read while documents
/// are evaluated in parallel.  The map itself is an outside concurrent
/// collection and is held opaquely; its contents are spoken of through
/// `registry_view`.
#[verifier::external_body]
pub struct ComponentRegistry {
    components: dashmap::DashMap<String, ComponentReference>,
}

impl ComponentRegistry {
    /// Relies on dashmap::DashMap::insert: afterwards the key holds the new
    /// value and every other key is unchanged; the last registration for a
    /// name wins.
    #[verifier::external_body]
    pub fn register_component(&mut self, component_reference: ComponentReference)
        ensures
            registry_view(*final(self)) == registry_view(*old(self)).insert(
                component_reference.name@,
                component_reference.global_fn_name@,
            ),
    {
        self.components.insert(component_reference.name.clone(), component_reference);
    }

    /// Relies on dashmap::DashMap::get: returns the stored entry for the key
    /// exactly when the key is present.
    #[verifier::external_body]
    fn lookup_global_fn_name(&self, component_name: &str) -> (r: Option<String>)
        ensures
            r is Some <==> registry_view(*self).contains_key(component_name@),
            r is Some ==> r->0@ == registry_view(*self)[component_name@],
    {
        self.components.get(component_name).map(|entry| entry.global_fn_name.clone())
    }

    /// Resolves a component name to the global script-function name it was
    /// registered under, or fails naming the unresolved component.
    pub fn get_global_fn_name(&self, component_name: &str) -> (r: Result<String, EvalError>)
        ensures
            registry_view(*self).contains_key(component_name@) ==> (r matches Ok(g) && g@
                == registry_view(*self)[component_name@]),
            !registry_view(*self).contains_key(component_name@) ==> (r matches Err(
                EvalError::ComponentNotFound(m),
            ) && m@ == component_name@),
    {
        match self.lookup_global_fn_name(component_name) {
            Some(global_fn_name) => Ok(global_fn_name),
            None => Err(EvalError::ComponentNotFound(component_name.to_owned())),
        }
    }

    /// Relies on dashmap::DashMap::new: a freshly created map holds no entries.
    #[verifier::external_body]
    fn empty_registry() -> (r: ComponentRegistry)
        ensures
            registry_view(r) == empty_registry_view(),
    {
        ComponentRegistry { components: dashmap::DashMap::new() }
    }
}

impl Default for ComponentRegistry {
    /// An empty registry: no component name resolves.
    fn default() -> (r: Self)
        ensures
            registry_view(r) == empty_registry_view(),
    {
        ComponentRegistry::empty_registry()
    }
}

} // verus!
