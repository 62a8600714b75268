//! Names of dynamically keyed components and resources, and the numbers
//! issued for them.

use vstd::hash_map::StringHashMap;
use vstd::prelude::*;

verus! {

/// The number issued for a dynamically keyed component kind.
#[derive(Clone, Copy, Debug, PartialEq, Eq, Hash, Structural)]
pub struct ComponentId(pub u64);

impl View for ComponentId {
    type V = u64;

    open spec fn view(&self) -> u64 {
        self.0
    }
}

/// The number issued for a dynamically keyed resource.
#[derive(Clone, Copy, Debug, PartialEq, Eq, Hash, Structural)]
pub struct ResourceId(pub u64);

impl View for ResourceId {
    type V = u64;

    open spec fn view(&self) -> u64 {
        self.0
    }
}

/// What a registry knows: for each kind of name, which names have a number and
/// how many numbers were issued so far.
pub ghost struct Names {
    pub components: Map<Seq<char>, u64>,
    pub component_count: u64,
    pub resources: Map<Seq<char>, u64>,
    pub resource_count: u64,
}

impl Names {
    /// Every issued number lies below the count, and no number was issued for
    /// two names.
    pub open spec fn consistent(self) -> bool {
        &&& forall|n: Seq<char>| #[trigger]
            self.components.contains_key(n) ==> self.components[n] < self.component_count
        &&& forall|n: Seq<char>, m: Seq<char>|
            #[trigger] self.components.contains_key(n) && #[trigger] self.components.contains_key(m)
                && self.components[n] == self.components[m] ==> n == m
        &&& forall|n: Seq<char>| #[trigger]
            self.resources.contains_key(n) ==> self.resources[n] < self.resource_count
        &&& forall|n: Seq<char>, m: Seq<char>|
            #[trigger] self.resources.contains_key(n) && #[trigger] self.resources.contains_key(m)
                && self.resources[n] == self.resources[m] ==> n == m
    }
}

/// Allocator of numbers for names. A name keeps the number it was first given;
/// numbers count up from zero and are never given twice.
pub struct Registry {
    next_component: u64,
    next_resource: u64,
    components_by_name: StringHashMap<ComponentId>,
    resources_by_name: StringHashMap<ResourceId>,
}

impl View for Registry {
    type V = Names;

    closed spec fn view(&self) -> Names {
        Names {
            components: self.components_by_name@.map_values(|c: ComponentId| c@),
            component_count: self.next_component,
            resources: self.resources_by_name@.map_values(|r: ResourceId| r@),
            resource_count: self.next_resource,
        }
    }
}

impl Registry {
    #[verifier::type_invariant]
    spec fn inv(self) -> bool {
        self@.consistent()
    }

    /// A registry that knows no name.
    pub fn new() -> (r: Registry)
        ensures
            r@.components == Map::<Seq<char>, u64>::empty(),
            r@.component_count == 0,
            r@.resources == Map::<Seq<char>, u64>::empty(),
            r@.resource_count == 0,
            r@.consistent(),
    {
        let r = Registry {
            next_component: 0,
            next_resource: 0,
            components_by_name: StringHashMap::new(),
            resources_by_name: StringHashMap::new(),
        };
        r
    }

    /// How many component numbers were issued.
    pub fn component_count(&self) -> (n: u64)
        ensures
            n == self@.component_count,
    {
        self.next_component
    }

    /// How many resource numbers were issued.
    pub fn resource_count(&self) -> (n: u64)
        ensures
            n == self@.resource_count,
    {
        self.next_resource
    }

    /// The number of the component `name`, issuing the next free one if the
    /// name is new.
    pub fn register_component(&mut self, name: &str) -> (id: ComponentId)
        requires
            !old(self)@.components.contains_key(name@) ==> old(self)@.component_count < u64::MAX,
        ensures
            old(self)@.consistent(),
            final(self)@.consistent(),
            old(self)@.components.contains_key(name@) ==> id@ == old(self)@.components[name@]
                && final(self)@ == old(self)@,
            !old(self)@.components.contains_key(name@) ==> id@ == old(self)@.component_count
                && final(self)@ == (Names {
                components: old(self)@.components.insert(name@, id@),
                component_count: (old(self)@.component_count + 1) as u64,
                ..old(self)@
            }),
    {
        proof {
            use_type_invariant(&*self);
        }
        match self.components_by_name.get(name) {
            Some(id) => {
                return *id;
            },
            None => {},
        }
        let id = ComponentId(self.next_component);
        self.next_component = self.next_component + 1;
        let mut names: StringHashMap<ComponentId> = StringHashMap::new();
        std::mem::swap(&mut self.components_by_name, &mut names);
        names.insert(name.to_owned(), id);
        proof {
            let before = old(self)@.components;
            let after = names@.map_values(|c: ComponentId| c@);
            assert(after =~= before.insert(name@, id@));
        }
        std::mem::swap(&mut self.components_by_name, &mut names);
        id
    }

    /// The number of the component `name`, if it has one.
    pub fn get_component(&self, name: &str) -> (id: Option<ComponentId>)
        ensures
            self@.consistent(),
            id == (if self@.components.contains_key(name@) {
                Some(ComponentId(self@.components[name@]))
            } else {
                None
            }),
    {
        proof {
            use_type_invariant(self);
        }
        match self.components_by_name.get(name) {
            Some(id) => Some(*id),
            None => None,
        }
    }

    /// The number of the resource `name`, issuing the next free one if the
    /// name is new.
    pub fn register_resource(&mut self, name: &str) -> (id: ResourceId)
        requires
            !old(self)@.resources.contains_key(name@) ==> old(self)@.resource_count < u64::MAX,
        ensures
            old(self)@.consistent(),
            final(self)@.consistent(),
            old(self)@.resources.contains_key(name@) ==> id@ == old(self)@.resources[name@]
                && final(self)@ == old(self)@,
            !old(self)@.resources.contains_key(name@) ==> id@ == old(self)@.resource_count
                && final(self)@ == (Names {
                resources: old(self)@.resources.insert(name@, id@),
                resource_count: (old(self)@.resource_count + 1) as u64,
                ..old(self)@
            }),
    {
        proof {
            use_type_invariant(&*self);
        }
        match self.resources_by_name.get(name) {
            Some(id) => {
                return *id;
            },
            None => {},
        }
        let id = ResourceId(self.next_resource);
        self.next_resource = self.next_resource + 1;
        let mut names: StringHashMap<ResourceId> = StringHashMap::new();
        std::mem::swap(&mut self.resources_by_name, &mut names);
        names.insert(name.to_owned(), id);
        proof {
            let before = old(self)@.resources;
            let after = names@.map_values(|r: ResourceId| r@);
            assert(after =~= before.insert(name@, id@));
        }
        std::mem::swap(&mut self.resources_by_name, &mut names);
        id
    }

    /// The number of the resource `name`, if it has one.
    pub fn get_resource(&self, name: &str) -> (id: Option<ResourceId>)
        ensures
            self@.consistent(),
            id == (if self@.resources.contains_key(name@) {
                Some(ResourceId(self@.resources[name@]))
            } else {
                None
            }),
    {
        proof {
            use_type_invariant(self);
        }
        match self.resources_by_name.get(name) {
            Some(id) => Some(*id),
            None => None,
        }
    }
}

impl Default for Registry {
    fn default() -> (r: Self)
        ensures
            r@.components == Map::<Seq<char>, u64>::empty(),
            r@.component_count == 0,
            r@.resources == Map::<Seq<char>, u64>::empty(),
            r@.resource_count == 0,
    {
        Registry::new()
    }
}

} // verus!
