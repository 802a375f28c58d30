//! The version schema of one type: which of its fields exist in which version.

use vstd::prelude::*;

verus! {

/// What a field holds, as far as versioning is concerned.
#[derive(Debug, PartialEq, Eq)]
pub enum FieldKind {
    /// A value without versioned parts. It is carried through untouched.
    Plain,
    /// Either nothing or a value of the inner kind.
    Optional(Box<FieldKind>),
    /// A sequence of values of the inner kind.
    List(Box<FieldKind>),
    /// A value of the versioned type with this index in the registry.
    Versioned(usize),
}

/// One declared field: its name, what it holds, and the versions `[start, end)`
/// in which it exists. Without an `end` the field is never removed.
#[derive(Debug, PartialEq, Eq)]
pub struct FieldSpec {
    pub name: String,
    pub kind: FieldKind,
    pub start: u32,
    pub end: Option<u32>,
}

/// The mathematical content of a [`FieldSpec`].
pub ghost struct FieldSpecView {
    pub name: Seq<char>,
    pub kind: FieldKind,
    pub start: u32,
    pub end: Option<u32>,
}

impl View for FieldSpec {
    type V = FieldSpecView;

    open spec fn view(&self) -> FieldSpecView {
        FieldSpecView { name: self.name@, kind: self.kind, start: self.start, end: self.end }
    }
}

/// Why a list of fields is not a schema. Each fault names the index of the
/// field that has it.
#[derive(Debug, PartialEq, Eq, Clone, Copy)]
pub enum SchemaError {
    /// A `start` or `end` of 0: versions are counted from 1.
    ZeroVersion { field: usize },
    /// An `end` of 1: the first version is the baseline, and nothing is
    /// removed in it.
    RemovedInFirstVersion { field: usize },
    /// `end == start`: the field would be removed in the version that adds it.
    EmptyInterval { field: usize },
    /// The field has the name of an earlier field, and the two exist
    /// together in some version.
    DuplicateField { field: usize },
}

impl SchemaError {
    /// The index of the field at fault.
    pub open spec fn field_index(self) -> usize {
        match self {
            SchemaError::ZeroVersion { field } => field,
            SchemaError::RemovedInFirstVersion { field } => field,
            SchemaError::EmptyInterval { field } => field,
            SchemaError::DuplicateField { field } => field,
        }
    }

    /// The words in which the fault is reported.
    pub open spec fn message_text(self) -> Seq<char> {
        match self {
            SchemaError::ZeroVersion { .. } => "Version numbers start at 1"@,
            SchemaError::RemovedInFirstVersion { .. } => "Cannot remove fields in the first version"@,
            SchemaError::EmptyInterval { .. } => "Cannot remove field in the same version it was added"@,
            SchemaError::DuplicateField { .. } => "Cannot declare two fields of the same name in one version"@,
        }
    }

    /// The index of the field at fault.
    pub fn field(&self) -> (i: usize)
        ensures
            i == self.field_index(),
    {
        match self {
            SchemaError::ZeroVersion { field } => *field,
            SchemaError::RemovedInFirstVersion { field } => *field,
            SchemaError::EmptyInterval { field } => *field,
            SchemaError::DuplicateField { field } => *field,
        }
    }

    /// The words in which the fault is reported.
    pub fn message(&self) -> (text: String)
        ensures
            text@ == self.message_text(),
    {
        match self {
            SchemaError::ZeroVersion { .. } => "Version numbers start at 1".to_owned(),
            SchemaError::RemovedInFirstVersion { .. } => "Cannot remove fields in the first version".to_owned(),
            SchemaError::EmptyInterval { .. } => "Cannot remove field in the same version it was added".to_owned(),
            SchemaError::DuplicateField { .. } => "Cannot declare two fields of the same name in one version".to_owned(),
        }
    }
}

impl FieldSpecView {
    /// The field exists in version `v`.
    pub open spec fn present_at(self, v: u32) -> bool {
        self.start <= v && match self.end {
            Some(e) => v < e,
            None => true,
        }
    }

    /// The two fields exist together in some version.
    pub open spec fn overlaps(self, other: FieldSpecView) -> bool {
        exists|v: u32| #[trigger] self.present_at(v) && other.present_at(v)
    }

    /// The greatest version number that the field mentions, and 1 if it
    /// mentions none.
    pub open spec fn highest(self) -> u32 {
        let s = if self.start >= 1 { self.start } else { 1 };
        match self.end {
            Some(e) => if e > s { e } else { s },
            None => s,
        }
    }
}

/// Field `i` has the name of a field before it that exists in a version in
/// which field `i` exists too. A name may be used again once its earlier
/// field has ended: that is how a field changes what it holds.
pub open spec fn name_clash(fields: Seq<FieldSpecView>, i: int) -> bool {
    exists|j: int| 0 <= j < i && (#[trigger] fields[j]).name == fields[i].name && fields[j].overlaps(fields[i])
}

/// The fault of field `i`, if it has one. The rules are tried in a fixed
/// order: version 0, removal in version 1, `end == start`, clash of names.
pub open spec fn field_fault(fields: Seq<FieldSpecView>, i: int) -> Option<SchemaError> {
    let f = fields[i];
    if f.start == 0 || f.end == Some(0u32) {
        Some(SchemaError::ZeroVersion { field: i as usize })
    } else if f.end == Some(1u32) {
        Some(SchemaError::RemovedInFirstVersion { field: i as usize })
    } else if f.end == Some(f.start) {
        Some(SchemaError::EmptyInterval { field: i as usize })
    } else if name_clash(fields, i) {
        Some(SchemaError::DuplicateField { field: i as usize })
    } else {
        None
    }
}

/// The greatest version number that any of the fields mentions, and 1 if
/// there is none.
pub open spec fn highest_version(fields: Seq<FieldSpecView>) -> u32
    decreases fields.len(),
{
    if fields.len() == 0 {
        1
    } else {
        let rest = highest_version(fields.drop_last());
        let h = fields.last().highest();
        if h > rest {
            h
        } else {
            rest
        }
    }
}

/// The newest version is at least 1 and at least every version number that a
/// field mentions, and it is 1 or a number that some field mentions.
pub proof fn lemma_highest_version(fields: Seq<FieldSpecView>)
    ensures
        highest_version(fields) >= 1,
        forall|i: int| 0 <= i < fields.len() ==> (#[trigger] fields[i]).highest() <= highest_version(fields),
        highest_version(fields) == 1 || exists|i: int|
            0 <= i < fields.len() && (#[trigger] fields[i]).highest() == highest_version(fields),
    decreases fields.len(),
{
    if fields.len() > 0 {
        let rest = fields.drop_last();
        lemma_highest_version(rest);
        assert forall|i: int| 0 <= i < fields.len() implies (#[trigger] fields[i]).highest() <= highest_version(
            fields,
        ) by {
            if i < rest.len() {
                assert(rest[i] == fields[i]);
            }
        }
        if highest_version(fields) != 1 {
            if highest_version(fields) == fields.last().highest() {
                assert(fields[fields.len() - 1].highest() == highest_version(fields));
            } else {
                let i = choose|i: int| 0 <= i < rest.len() && (#[trigger] rest[i]).highest() == highest_version(rest);
                assert(fields[i] == rest[i]);
            }
        }
    }
}

/// The indices below `n` of the fields that exist in version `v`, ascending.
pub open spec fn present_below(fields: Seq<FieldSpecView>, v: u32, n: nat) -> Seq<int>
    decreases n,
{
    if n == 0 {
        Seq::empty()
    } else {
        let rest = present_below(fields, v, (n - 1) as nat);
        if fields[n - 1].present_at(v) {
            rest.push(n - 1)
        } else {
            rest
        }
    }
}

/// The mathematical content of a [`VersionSchema`].
pub ghost struct SchemaView {
    pub name: Seq<char>,
    pub fields: Seq<FieldSpecView>,
}

impl SchemaView {
    /// Every interval is acceptable and no version has two fields of one
    /// name.
    pub open spec fn wf(self) -> bool {
        forall|i: int| 0 <= i < self.fields.len() ==> field_fault(self.fields, i) is None
    }

    /// The newest version of the type.
    pub open spec fn max_version(self) -> u32 {
        highest_version(self.fields)
    }

    /// `v` is the number of a version of the type.
    pub open spec fn has_version(self, v: u32) -> bool {
        1 <= v <= self.max_version()
    }

    /// The snapshot of version `v`: the indices of its fields, ascending.
    pub open spec fn snapshot(self, v: u32) -> Seq<int> {
        present_below(self.fields, v, self.fields.len())
    }
}

impl FieldSpec {
    /// A field that exists in every version.
    pub fn new(name: String, kind: FieldKind) -> (field: FieldSpec)
        ensures
            field@ == (FieldSpecView { name: name@, kind: kind, start: 1, end: None }),
    {
        FieldSpec { name, kind, start: 1, end: None }
    }

    /// The same field, first present in version `start`.
    pub fn since(self, start: u32) -> (field: FieldSpec)
        ensures
            field@ == (FieldSpecView { start: start, ..self@ }),
    {
        FieldSpec { name: self.name, kind: self.kind, start, end: self.end }
    }

    /// The same field, last present in the version before `end`.
    pub fn until(self, end: u32) -> (field: FieldSpec)
        ensures
            field@ == (FieldSpecView { end: Some(end), ..self@ }),
    {
        FieldSpec { name: self.name, kind: self.kind, start: self.start, end: Some(end) }
    }

    /// Whether the field exists in version `v`.
    pub fn present_at(&self, v: u32) -> (present: bool)
        ensures
            present == self@.present_at(v),
    {
        self.start <= v && match self.end {
            Some(e) => v < e,
            None => true,
        }
    }

    /// Whether the two fields exist together in some version.
    pub fn overlaps(&self, other: &FieldSpec) -> (together: bool)
        ensures
            together == self@.overlaps(other@),
    {
        let later: u32 = if self.start >= other.start { self.start } else { other.start };
        let together = self.present_at(later) && other.present_at(later);
        proof {
            if together {
                assert(self@.present_at(later) && other@.present_at(later));
            }
            if self@.overlaps(other@) {
                let v = choose|v: u32| #[trigger] self@.present_at(v) && other@.present_at(v);
                assert(later <= v);
            }
        }
        together
    }

    /// The greatest version number that the field mentions, and 1 if it
    /// mentions none.
    pub fn highest(&self) -> (h: u32)
        ensures
            h == self@.highest(),
    {
        let s: u32 = if self.start >= 1 { self.start } else { 1 };
        match self.end {
            Some(e) => if e > s { e } else { s },
            None => s,
        }
    }
}

/// The schema of one versioned type: its name and its fields, each with the
/// versions in which it exists. A schema is made by [`versioned`] and never
/// changes.
#[derive(Debug, PartialEq, Eq)]
pub struct VersionSchema {
    name: String,
    fields: Vec<FieldSpec>,
    max_version: u32,
}

impl View for VersionSchema {
    type V = SchemaView;

    closed spec fn view(&self) -> SchemaView {
        SchemaView { name: self.name@, fields: fields_view(self.fields@) }
    }
}

/// The views of a list of fields.
pub open spec fn fields_view(fields: Seq<FieldSpec>) -> Seq<FieldSpecView> {
    Seq::new(fields.len(), |i: int| fields[i]@)
}

/// Whether field `i` has the name of a field before it that exists in a
/// version in which field `i` exists too.
fn find_clash(fields: &Vec<FieldSpec>, i: usize) -> (found: bool)
    requires
        i < fields.len(),
    ensures
        found == name_clash(fields_view(fields@), i as int),
{
    let ghost fv = fields_view(fields@);
    let mut j: usize = 0;
    while j < i
        invariant
            j <= i < fields.len(),
            fv == fields_view(fields@),
            forall|k: int| 0 <= k < j ==> !((#[trigger] fv[k]).name == fv[i as int].name && fv[k].overlaps(fv[i as int])),
        decreases i - j,
    {
        assert(fv[j as int] == fields[j as int]@);
        assert(fv[i as int] == fields[i as int]@);
        if fields[j].name == fields[i].name && fields[j].overlaps(&fields[i]) {
            return true;
        }
        j += 1;
    }
    false
}

/// The fault of field `i`, if it has one.
fn check_field(fields: &Vec<FieldSpec>, i: usize) -> (fault: Option<SchemaError>)
    requires
        i < fields.len(),
    ensures
        fault == field_fault(fields_view(fields@), i as int),
{
    let f = &fields[i];
    let ghost fv = fields_view(fields@);
    assert(fv[i as int] == f@);
    if f.start == 0 {
        return Some(SchemaError::ZeroVersion { field: i });
    }
    match f.end {
        Some(e) => {
            if e == 0 {
                return Some(SchemaError::ZeroVersion { field: i });
            }
            if e == 1 {
                return Some(SchemaError::RemovedInFirstVersion { field: i });
            }
            if e == f.start {
                return Some(SchemaError::EmptyInterval { field: i });
            }
        },
        None => {},
    }
    if find_clash(fields, i) {
        Some(SchemaError::DuplicateField { field: i })
    } else {
        None
    }
}

/// Builds the schema of the type `name` from its declared fields.
///
/// The list is refused if a field mentions version 0, is removed in version
/// 1, has `end == start`, or has the name of an earlier field with which it
/// exists together in some version. The error is that of the first field at
/// fault. A name may be used again by a field that starts when the earlier
/// one has ended. An `end` below `start` is accepted: such a field exists in
/// no version.
pub fn versioned(name: String, fields: Vec<FieldSpec>) -> (r: Result<VersionSchema, SchemaError>)
    ensures
        match r {
            Ok(schema) => {
                &&& schema@.name == name@
                &&& schema@.fields == fields_view(fields@)
                &&& schema@.wf()
            },
            Err(e) => exists|i: int|
                {
                    &&& 0 <= i < fields.len()
                    &&& #[trigger] field_fault(fields_view(fields@), i) == Some(e)
                    &&& forall|j: int| 0 <= j < i ==> field_fault(fields_view(fields@), j) is None
                },
        },
{
    let ghost fv = fields_view(fields@);
    let mut max_version: u32 = 1;
    let mut i: usize = 0;
    while i < fields.len()
        invariant
            i <= fields.len(),
            fv == fields_view(fields@),
            forall|j: int| 0 <= j < i ==> field_fault(fv, j) is None,
            max_version == highest_version(fv.take(i as int)),
        decreases fields.len() - i,
    {
        match check_field(&fields, i) {
            Some(e) => {
                return Err(e);
            },
            None => {},
        }
        let h = fields[i].highest();
        proof {
            assert(fv.take(i + 1).drop_last() =~= fv.take(i as int));
            assert(fv.take(i + 1).last() == fields[i as int]@);
        }
        if h > max_version {
            max_version = h;
        }
        i += 1;
    }
    assert(fv.take(i as int) =~= fv);
    Ok(VersionSchema { name, fields, max_version })
}

impl VersionSchema {
    #[verifier::type_invariant]
    spec fn inv(self) -> bool {
        self@.wf() && self.max_version == self@.max_version()
    }

    /// The name of the type.
    pub fn name(&self) -> (name: &String)
        ensures
            name@ == self@.name,
    {
        &self.name
    }

    /// The newest version of the type.
    pub fn max_version(&self) -> (max: u32)
        ensures
            max == self@.max_version(),
            self@.wf(),
    {
        proof {
            use_type_invariant(self);
        }
        self.max_version
    }

    /// The number of declared fields, over all versions.
    pub fn field_count(&self) -> (n: usize)
        ensures
            n == self@.fields.len(),
    {
        self.fields.len()
    }

    /// The declared field with index `i`.
    pub fn field(&self, i: usize) -> (field: &FieldSpec)
        requires
            i < self@.fields.len(),
        ensures
            field@ == self@.fields[i as int],
    {
        &self.fields[i]
    }

    /// Whether `v` is the number of a version of the type.
    pub fn has_version(&self, v: u32) -> (known: bool)
        ensures
            known == self@.has_version(v),
    {
        proof {
            use_type_invariant(self);
        }
        1 <= v && v <= self.max_version
    }

    /// The snapshot of version `v`: the indices of the fields that exist in
    /// it, ascending.
    pub fn snapshot(&self, v: u32) -> (indices: Vec<usize>)
        ensures
            indices@.len() == self@.snapshot(v).len(),
            forall|k: int| 0 <= k < indices@.len() ==> indices@[k] == self@.snapshot(v)[k],
    {
        let mut indices: Vec<usize> = Vec::new();
        let mut i: usize = 0;
        while i < self.fields.len()
            invariant
                i <= self.fields.len(),
                indices@.len() == present_below(self@.fields, v, i as nat).len(),
                forall|k: int|
                    0 <= k < indices@.len() ==> indices@[k] == present_below(self@.fields, v, i as nat)[k],
            decreases self.fields.len() - i,
        {
            if self.fields[i].present_at(v) {
                indices.push(i);
            }
            i += 1;
        }
        indices
    }
}

} // verus!
