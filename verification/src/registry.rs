//! The versioned types that one encode or decode call knows, each under an
//! index and a unique name.

use vstd::prelude::*;
use crate::schema::{FieldKind, SchemaView, VersionSchema};

verus! {

/// Every versioned type that `kind` mentions has an index below `n`.
pub open spec fn kind_valid(kind: FieldKind, n: nat) -> bool
    decreases kind,
{
    match kind {
        FieldKind::Plain => true,
        FieldKind::Optional(inner) => kind_valid(*inner, n),
        FieldKind::List(inner) => kind_valid(*inner, n),
        FieldKind::Versioned(t) => t < n,
    }
}

/// The name of type `t` was already used by a type before it.
pub open spec fn type_repeated(types: Seq<SchemaView>, t: int) -> bool {
    exists|s: int| 0 <= s < t && #[trigger] types[s].name == types[t].name
}

/// Field `i` of type `t` mentions a type that is not in the list.
pub open spec fn field_dangles(types: Seq<SchemaView>, t: int, i: int) -> bool {
    !kind_valid(types[t].fields[i].kind, types.len())
}

/// Why a list of schemas is not a registry.
#[derive(Debug, PartialEq, Eq, Clone, Copy)]
pub enum RegistryError {
    /// The type with this index has the name of an earlier one.
    DuplicateType { index: usize },
    /// This field of the type with this index mentions a type that is not in
    /// the list.
    UnknownType { index: usize, field: usize },
}

/// The fault of type `t`, if it has one: a repeated name first, then its
/// first field that mentions a missing type.
pub open spec fn type_fault(types: Seq<SchemaView>, t: int) -> Option<RegistryError> {
    if type_repeated(types, t) {
        Some(RegistryError::DuplicateType { index: t as usize })
    } else if exists|i: int| 0 <= i < types[t].fields.len() && field_dangles(types, t, i) {
        let i = choose|i: int|
            0 <= i < types[t].fields.len() && field_dangles(types, t, i) && forall|j: int|
                0 <= j < i ==> !field_dangles(types, t, j);
        Some(RegistryError::UnknownType { index: t as usize, field: i as usize })
    } else {
        None
    }
}

/// The list is a registry: every schema is well formed, no name occurs twice,
/// and every type that a field mentions is in the list.
pub open spec fn registry_wf(types: Seq<SchemaView>) -> bool {
    &&& forall|t: int| 0 <= t < types.len() ==> (#[trigger] types[t]).wf()
    &&& forall|s: int, t: int|
        0 <= s < t < types.len() ==> (#[trigger] types[s]).name != (#[trigger] types[t]).name
    &&& forall|t: int, i: int|
        0 <= t < types.len() && 0 <= i < types[t].fields.len() ==> kind_valid(
            #[trigger] types[t].fields[i].kind,
            types.len(),
        )
}

/// The views of a list of schemas.
pub open spec fn schemas_view(types: Seq<VersionSchema>) -> Seq<SchemaView> {
    Seq::new(types.len(), |t: int| types[t]@)
}

/// The versioned types of one call, found by index.
#[derive(Debug, PartialEq, Eq)]
pub struct Registry {
    types: Vec<VersionSchema>,
}

impl View for Registry {
    type V = Seq<SchemaView>;

    closed spec fn view(&self) -> Seq<SchemaView> {
        schemas_view(self.types@)
    }
}

/// Whether every versioned type that `kind` mentions has an index below `n`.
pub fn check_kind(kind: &FieldKind, n: usize) -> (valid: bool)
    ensures
        valid == kind_valid(*kind, n as nat),
    decreases kind,
{
    match kind {
        FieldKind::Plain => true,
        FieldKind::Optional(inner) => check_kind(inner, n),
        FieldKind::List(inner) => check_kind(inner, n),
        FieldKind::Versioned(t) => *t < n,
    }
}

/// Whether a type before `t` has the name of type `t`.
fn name_taken(types: &Vec<VersionSchema>, t: usize) -> (taken: bool)
    requires
        t < types.len(),
    ensures
        taken == type_repeated(schemas_view(types@), t as int),
{
    let ghost tv = schemas_view(types@);
    let name = types[t].name();
    let mut s: usize = 0;
    while s < t
        invariant
            s <= t < types.len(),
            tv == schemas_view(types@),
            name@ == tv[t as int].name,
            forall|k: int| 0 <= k < s ==> (#[trigger] tv[k]).name != tv[t as int].name,
        decreases t - s,
    {
        if *types[s].name() == *name {
            assert(tv[s as int].name == tv[t as int].name);
            return true;
        }
        s += 1;
    }
    false
}

/// The first field of type `t` that mentions a type that is not in the list.
fn dangling_field(types: &Vec<VersionSchema>, t: usize) -> (found: Option<usize>)
    requires
        t < types.len(),
    ensures
        match found {
            Some(i) => {
                &&& i < schemas_view(types@)[t as int].fields.len()
                &&& field_dangles(schemas_view(types@), t as int, i as int)
                &&& forall|j: int| 0 <= j < i ==> !field_dangles(schemas_view(types@), t as int, j)
            },
            None => forall|j: int|
                0 <= j < schemas_view(types@)[t as int].fields.len() ==> !field_dangles(
                    schemas_view(types@),
                    t as int,
                    j,
                ),
        },
{
    let ghost tv = schemas_view(types@);
    let schema = &types[t];
    let mut i: usize = 0;
    while i < schema.field_count()
        invariant
            t < types.len(),
            tv == schemas_view(types@),
            schema@ == tv[t as int],
            i <= schema@.fields.len(),
            forall|j: int| 0 <= j < i ==> !field_dangles(tv, t as int, j),
        decreases schema@.fields.len() - i,
    {
        if !check_kind(&schema.field(i).kind, types.len()) {
            return Some(i);
        }
        i += 1;
    }
    None
}

impl Registry {
    #[verifier::type_invariant]
    spec fn inv(self) -> bool {
        registry_wf(self@)
    }

    /// Makes a registry of the given schemas; a type's index is its place in
    /// the list.
    ///
    /// The list is refused if two types share a name or a field mentions a
    /// type that is not in it. The error is that of the first type at fault.
    pub fn new(types: Vec<VersionSchema>) -> (r: Result<Registry, RegistryError>)
        ensures
            match r {
                Ok(registry) => registry@ == schemas_view(types@) && registry_wf(registry@),
                Err(e) => exists|t: int|
                    {
                        &&& 0 <= t < types.len()
                        &&& #[trigger] type_fault(schemas_view(types@), t) == Some(e)
                        &&& forall|s: int| 0 <= s < t ==> type_fault(schemas_view(types@), s) is None
                    },
            },
    {
        let ghost tv = schemas_view(types@);
        let mut t: usize = 0;
        while t < types.len()
            invariant
                t <= types.len(),
                tv == schemas_view(types@),
                forall|s: int| 0 <= s < t ==> type_fault(tv, s) is None,
                forall|s: int| 0 <= s < t ==> (#[trigger] tv[s]).wf(),
            decreases types.len() - t,
        {
            let _ = types[t].max_version();
            if name_taken(&types, t) {
                assert(type_fault(tv, t as int) == Some(RegistryError::DuplicateType { index: t }));
                return Err(RegistryError::DuplicateType { index: t });
            }
            match dangling_field(&types, t) {
                Some(i) => {
                    proof {
                        let c = choose|i: int|
                            0 <= i < tv[t as int].fields.len() && field_dangles(tv, t as int, i)
                                && forall|j: int| 0 <= j < i ==> !field_dangles(tv, t as int, j);
                        assert(c == i) by {
                            if c < i {
                                assert(!field_dangles(tv, t as int, c));
                            } else if i < c {
                                assert(!field_dangles(tv, t as int, i as int));
                            }
                        }
                    }
                    return Err(RegistryError::UnknownType { index: t, field: i });
                },
                None => {},
            }
            t += 1;
        }
        proof {
            assert forall|s: int, u: int| 0 <= s < u < tv.len() implies (#[trigger] tv[s]).name != (
            #[trigger] tv[u]).name by {
                assert(type_fault(tv, u) is None);
                if tv[s].name == tv[u].name {
                    assert(type_repeated(tv, u));
                }
            }
            assert forall|u: int, i: int| 0 <= u < tv.len() && 0 <= i < tv[u].fields.len() implies kind_valid(
                #[trigger] tv[u].fields[i].kind,
                tv.len(),
            ) by {
                assert(type_fault(tv, u) is None);
                assert(!field_dangles(tv, u, i));
            }
        }
        Ok(Registry { types })
    }

    /// The number of types.
    pub fn len(&self) -> (n: usize)
        ensures
            n == self@.len(),
            registry_wf(self@),
    {
        proof {
            use_type_invariant(self);
        }
        self.types.len()
    }

    /// The schema of the type with index `t`.
    pub fn schema(&self, t: usize) -> (schema: &VersionSchema)
        requires
            t < self@.len(),
        ensures
            schema@ == self@[t as int],
    {
        &self.types[t]
    }

    /// The index of the type called `name`, if the registry has it.
    pub fn find(&self, name: &String) -> (found: Option<usize>)
        ensures
            match found {
                Some(t) => t < self@.len() && self@[t as int].name == name@,
                None => forall|t: int| 0 <= t < self@.len() ==> (#[trigger] self@[t]).name != name@,
            },
    {
        let mut t: usize = 0;
        while t < self.types.len()
            invariant
                t <= self.types.len(),
                forall|s: int| 0 <= s < t ==> (#[trigger] self@[s]).name != name@,
            decreases self.types.len() - t,
        {
            if *self.types[t].name() == *name {
                return Some(t);
            }
            t += 1;
        }
        None
    }
}

} // verus!
