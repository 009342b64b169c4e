//! The typed slot system: runtime-tagged values, requirement schemas, and the
//! validation of provided values against a schema.

use vstd::prelude::*;

verus! {

/// Relies on str's `PartialEq`: two string slices are equal exactly when
/// their character sequences are equal.
pub assume_specification[ <str as PartialEq>::eq ](s: &str, other: &str) -> (res: bool)
    ensures
        res == (s@ == other@),
;

/// An opaque reference to an object in the application's data store.
#[derive(Debug, Clone, Copy, PartialEq, Eq, Hash, Structural)]
pub struct Entity {
    pub id: u64,
}

/// An opaque handle to a GPU buffer owned by the GPU collaborator.
#[derive(Debug, Clone, Copy, PartialEq, Eq, Hash, Structural)]
pub struct BufferId {
    pub id: u64,
}

/// An opaque handle to a GPU texture view owned by the GPU collaborator.
#[derive(Debug, Clone, Copy, PartialEq, Eq, Hash, Structural)]
pub struct TextureViewId {
    pub id: u64,
}

/// An opaque handle to a GPU sampler owned by the GPU collaborator.
#[derive(Debug, Clone, Copy, PartialEq, Eq, Hash, Structural)]
pub struct SamplerId {
    pub id: u64,
}

/// A runtime-typed value that can flow through a graph invocation's slots.
#[derive(Debug, Clone, Copy, PartialEq, Eq, Structural)]
pub enum SlotValue {
    Buffer(BufferId),
    TextureView(TextureViewId),
    Sampler(SamplerId),
    Entity(Entity),
}

/// The kind of value a slot may carry.
#[derive(Debug, Clone, Copy, PartialEq, Eq, Hash, Structural)]
pub enum SlotType {
    Buffer,
    TextureView,
    Sampler,
    Entity,
}

impl SlotValue {
    /// The runtime type tag of this value.
    pub fn slot_type(&self) -> (t: SlotType)
        ensures
            t == self.spec_slot_type(),
    {
        match self {
            SlotValue::Buffer(_) => SlotType::Buffer,
            SlotValue::TextureView(_) => SlotType::TextureView,
            SlotValue::Sampler(_) => SlotType::Sampler,
            SlotValue::Entity(_) => SlotType::Entity,
        }
    }

    /// The type tag of a value, at the specification level.
    pub open spec fn spec_slot_type(self) -> SlotType {
        match self {
            SlotValue::Buffer(_) => SlotType::Buffer,
            SlotValue::TextureView(_) => SlotType::TextureView,
            SlotValue::Sampler(_) => SlotType::Sampler,
            SlotValue::Entity(_) => SlotType::Entity,
        }
    }
}

impl SlotType {
    /// A human-readable name for the slot type.
    pub fn as_string(&self) -> (s: String)
        ensures
            self == SlotType::Buffer ==> s@ == "Buffer"@,
            self == SlotType::Entity ==> s@ == "Entity"@,
            self == SlotType::Sampler ==> s@ == "Sampler"@,
            self == SlotType::TextureView ==> s@ == "TextureView"@,
    {
        match self {
            SlotType::Buffer => "Buffer",
            SlotType::Entity => "Entity",
            SlotType::Sampler => "Sampler",
            SlotType::TextureView => "TextureView",
        }.to_owned()
    }
}

/// An error raised when reading a single slot out of a [`SlotValues`] store.
#[derive(Debug, Clone, PartialEq, Eq)]
pub enum SlotError {
    /// No slot with this name is present.
    SlotNameError(String),
    /// The slot is present, but carries a value of a different kind than the
    /// one requested.
    SlotTypeError { slot_name: String, expected_type: SlotType, actual_type: SlotType },
}

/// One named entry of a [`SlotValues`] store.
#[derive(Debug, Clone)]
pub struct SlotValueDescriptor {
    pub name: String,
    pub value: SlotValue,
}

/// A named, runtime-typed parameter set handed to one graph invocation.
///
/// Names are unique within one store; storing a value under an existing name
/// replaces the previous value.
#[derive(Debug)]
pub struct SlotValues {
    values: Vec<SlotValueDescriptor>,
}

impl SlotValues {
    /// How many slots are filled.
    pub closed spec fn num_entries(self) -> int {
        self.values@.len() as int
    }

    /// The name of the entry at position `i`, in insertion order.
    pub closed spec fn entry_name(self, i: int) -> Seq<char> {
        self.values@[i].name@
    }

    /// The value of the entry at position `i`, in insertion order.
    pub closed spec fn entry_value(self, i: int) -> SlotValue {
        self.values@[i].value
    }

    /// Whether a slot named `n` is filled.
    pub open spec fn contains_name(self, n: Seq<char>) -> bool {
        exists|i: int| 0 <= i < self.num_entries() && self.entry_name(i) == n
    }

    /// The position of the slot named `n`.
    pub open spec fn name_index(self, n: Seq<char>) -> int {
        choose|i: int| 0 <= i < self.num_entries() && self.entry_name(i) == n
    }

    /// The value stored under the name `n`.
    pub open spec fn spec_get(self, n: Seq<char>) -> SlotValue {
        self.entry_value(self.name_index(n))
    }

    /// The store seen as a map from slot names to values.
    pub open spec fn as_map(self) -> Map<Seq<char>, SlotValue> {
        Map::new(|n: Seq<char>| self.contains_name(n), |n: Seq<char>| self.spec_get(n))
    }

    #[verifier::type_invariant]
    spec fn inv(self) -> bool {
        forall|i: int, j: int|
            0 <= i < j < self.num_entries() ==> self.entry_name(i) != self.entry_name(j)
    }

    proof fn lemma_distinct_names(self, i: int, j: int)
        requires
            self.inv(),
            0 <= i < self.num_entries(),
            0 <= j < self.num_entries(),
            i != j,
        ensures
            self.entry_name(i) != self.entry_name(j),
    {
        if i < j {
            assert(self.entry_name(i) != self.entry_name(j));
        } else {
            assert(self.entry_name(j) != self.entry_name(i));
        }
    }

    proof fn lemma_name_index(self, i: int)
        requires
            self.inv(),
            0 <= i < self.num_entries(),
        ensures
            self.name_index(self.entry_name(i)) == i,
            self.contains_name(self.entry_name(i)),
            self.spec_get(self.entry_name(i)) == self.entry_value(i),
    {
        let n = self.entry_name(i);
        assert(0 <= i < self.num_entries() && self.entry_name(i) == n);
        let j = self.name_index(n);
        assert(0 <= j < self.num_entries() && self.entry_name(j) == n);
        if i != j {
            assert(self.entry_name(i) != self.entry_name(j));
        }
    }

    /// An empty store.
    pub fn new() -> (r: Self)
        ensures
            r.num_entries() == 0,
            r.as_map() == Map::<Seq<char>, SlotValue>::empty(),
    {
        let r = SlotValues { values: Vec::new() };
        proof {
            assert(r.as_map() =~= Map::<Seq<char>, SlotValue>::empty());
        }
        r
    }

    /// The position of the entry named `slot_label`, if one is present.
    fn index_of_name(&self, slot_label: &str) -> (r: Option<usize>)
        ensures
            match r {
                Some(i) => i < self.num_entries() && self.entry_name(i as int) == slot_label@
                    && self.name_index(slot_label@) == i && self.contains_name(slot_label@),
                None => !self.contains_name(slot_label@),
            },
    {
        proof {
            use_type_invariant(&*self);
        }
        let n = self.values.len();
        let mut i: usize = 0;
        while i < n
            invariant
                self.inv(),
                n == self.num_entries(),
                i <= n,
                forall|k: int| 0 <= k < i ==> self.entry_name(k) != slot_label@,
            decreases n - i,
        {
            if self.values[i].name.as_str().eq(slot_label) {
                proof {
                    self.lemma_name_index(i as int);
                }
                return Some(i);
            }
            i = i + 1;
        }
        None
    }

    /// Stores `value` under `slot_label`, replacing any previous value held
    /// under that name and keeping every other slot unchanged.
    pub fn with(self, slot_label: String, value: SlotValue) -> (r: Self)
        ensures
            r.contains_name(slot_label@),
            r.spec_get(slot_label@) == value,
            forall|n: Seq<char>|
                n != slot_label@ ==> (r.contains_name(n) <==> self.contains_name(n)),
            forall|n: Seq<char>|
                n != slot_label@ && self.contains_name(n) ==> r.spec_get(n) == self.spec_get(n),
            r.as_map() == self.as_map().insert(slot_label@, value),
            self.contains_name(slot_label@) ==> r.num_entries() == self.num_entries(),
            !self.contains_name(slot_label@) ==> r.num_entries() == self.num_entries() + 1,
    {
        proof {
            use_type_invariant(&self);
        }
        let ghost old_self = self;
        let found = self.index_of_name(slot_label.as_str());
        let ghost label_view = slot_label@;
        let SlotValues { values: mut entries } = self;
        match found {
            Some(i) => {
                entries[i] = SlotValueDescriptor { name: slot_label, value };
            }
            None => {
                entries.push(SlotValueDescriptor { name: slot_label, value });
            }
        }
        proof {
            assert forall|i: int, j: int|
                0 <= i < j < entries@.len() implies entries@[i].name@ != entries@[j].name@ by {
                match found {
                    Some(idx) => {
                        let idxi = idx as int;
                        assert(old_self.entry_name(idxi) == label_view);
                        if i == idxi {
                            assert(entries@[i].name@ == label_view);
                            assert(entries@[j].name@ == old_self.entry_name(j));
                            old_self.lemma_distinct_names(idxi, j);
                        } else if j == idxi {
                            assert(entries@[j].name@ == label_view);
                            assert(entries@[i].name@ == old_self.entry_name(i));
                            old_self.lemma_distinct_names(i, idxi);
                        } else {
                            assert(entries@[i].name@ == old_self.entry_name(i));
                            assert(entries@[j].name@ == old_self.entry_name(j));
                            old_self.lemma_distinct_names(i, j);
                        }
                    }
                    None => {
                        if j == entries@.len() - 1 {
                            assert(entries@[i].name@ == old_self.entry_name(i));
                            assert(entries@[j].name@ == label_view);
                            assert(old_self.entry_name(i) != label_view) by {
                                if old_self.entry_name(i) == label_view {
                                    assert(old_self.contains_name(label_view));
                                }
                            }
                        } else {
                            assert(entries@[i].name@ == old_self.entry_name(i));
                            assert(entries@[j].name@ == old_self.entry_name(j));
                            old_self.lemma_distinct_names(i, j);
                        }
                    }
                }
            }
        }
        let s = SlotValues { values: entries };
        proof {
            use_type_invariant(&s);
            assert forall|n: Seq<char>| n != label_view implies (s.contains_name(n)
                <==> old_self.contains_name(n)) by {
                if old_self.contains_name(n) {
                    let i = choose|i: int|
                        0 <= i < old_self.num_entries() && old_self.entry_name(i) == n;
                    assert(s.entry_name(i) == n);
                }
                if s.contains_name(n) {
                    let i = choose|i: int| 0 <= i < s.num_entries() && s.entry_name(i) == n;
                    assert(old_self.entry_name(i) == n);
                }
            }
            assert(s.contains_name(label_view)) by {
                if old_self.contains_name(label_view) {
                    let i = old_self.name_index(label_view);
                    assert(s.entry_name(i) == label_view);
                } else {
                    assert(s.entry_name(s.num_entries() - 1) == label_view);
                }
            }
            assert(s.spec_get(label_view) == value) by {
                if old_self.contains_name(label_view) {
                    let i = old_self.name_index(label_view);
                    assert(s.entry_name(i) == label_view);
                    assert(s.entry_value(i) == value);
                    s.lemma_name_index(i);
                } else {
                    assert(s.entry_value(s.num_entries() - 1) == value);
                    s.lemma_name_index(s.num_entries() - 1);
                }
            }
            assert forall|n: Seq<char>|
                n != label_view && old_self.contains_name(n) implies s.spec_get(n)
                == old_self.spec_get(n) by {
                let i = old_self.name_index(n);
                old_self.lemma_name_index(i);
                assert(s.entry_name(i) == n);
                assert(s.entry_value(i) == old_self.entry_value(i));
                s.lemma_name_index(i);
            }
            assert(s.as_map() =~= old_self.as_map().insert(label_view, value));
        }
        s
    }

    /// Reads the value stored under `slot_label`, whatever its kind.
    pub fn get(&self, slot_label: &str) -> (r: Result<SlotValue, SlotError>)
        ensures
            match r {
                Ok(v) => self.contains_name(slot_label@) && v == self.spec_get(slot_label@),
                Err(e) => !self.contains_name(slot_label@) && (e matches SlotError::SlotNameError(
                    n,
                ) && n@ == slot_label@),
            },
    {
        match self.index_of_name(slot_label) {
            Some(i) => Ok(self.values[i].value),
            None => Err(SlotError::SlotNameError(slot_label.to_owned())),
        }
    }

    /// Reads the slot named `slot_label` as an entity reference.
    pub fn get_entity(&self, slot_label: &str) -> (r: Result<Entity, SlotError>)
        ensures
            match r {
                Ok(e) => self.contains_name(slot_label@) && self.spec_get(slot_label@)
                    == SlotValue::Entity(e),
                Err(SlotError::SlotNameError(n)) => !self.contains_name(slot_label@) && n@
                    == slot_label@,
                Err(SlotError::SlotTypeError { slot_name, expected_type, actual_type }) => self
                    .contains_name(slot_label@) && !(self.spec_get(slot_label@) matches
                SlotValue::Entity(_)) && slot_name@ == slot_label@ && expected_type
                    == SlotType::Entity && actual_type == self.spec_get(
                    slot_label@,
                ).spec_slot_type(),
            },
    {
        match self.index_of_name(slot_label) {
            None => Err(SlotError::SlotNameError(slot_label.to_owned())),
            Some(i) => {
                let v = self.values[i].value;
                match v {
                    SlotValue::Entity(e) => Ok(e),
                    _ => Err(
                        SlotError::SlotTypeError {
                            slot_name: slot_label.to_owned(),
                            expected_type: SlotType::Entity,
                            actual_type: v.slot_type(),
                        },
                    ),
                }
            }
        }
    }

    /// Reads the slot named `slot_label` as a texture view handle.
    pub fn get_texture_view(&self, slot_label: &str) -> (r: Result<TextureViewId, SlotError>)
        ensures
            match r {
                Ok(t) => self.contains_name(slot_label@) && self.spec_get(slot_label@)
                    == SlotValue::TextureView(t),
                Err(SlotError::SlotNameError(n)) => !self.contains_name(slot_label@) && n@
                    == slot_label@,
                Err(SlotError::SlotTypeError { slot_name, expected_type, actual_type }) => self
                    .contains_name(slot_label@) && !(self.spec_get(slot_label@) matches
                SlotValue::TextureView(_)) && slot_name@ == slot_label@ && expected_type
                    == SlotType::TextureView && actual_type == self.spec_get(
                    slot_label@,
                ).spec_slot_type(),
            },
    {
        match self.index_of_name(slot_label) {
            None => Err(SlotError::SlotNameError(slot_label.to_owned())),
            Some(i) => {
                let v = self.values[i].value;
                match v {
                    SlotValue::TextureView(t) => Ok(t),
                    _ => Err(
                        SlotError::SlotTypeError {
                            slot_name: slot_label.to_owned(),
                            expected_type: SlotType::TextureView,
                            actual_type: v.slot_type(),
                        },
                    ),
                }
            }
        }
    }

    /// Reads the slot named `slot_label` as a buffer handle.
    pub fn get_buffer(&self, slot_label: &str) -> (r: Result<BufferId, SlotError>)
        ensures
            match r {
                Ok(b) => self.contains_name(slot_label@) && self.spec_get(slot_label@)
                    == SlotValue::Buffer(b),
                Err(SlotError::SlotNameError(n)) => !self.contains_name(slot_label@) && n@
                    == slot_label@,
                Err(SlotError::SlotTypeError { slot_name, expected_type, actual_type }) => self
                    .contains_name(slot_label@) && !(self.spec_get(slot_label@) matches
                SlotValue::Buffer(_)) && slot_name@ == slot_label@ && expected_type
                    == SlotType::Buffer && actual_type == self.spec_get(
                    slot_label@,
                ).spec_slot_type(),
            },
    {
        match self.index_of_name(slot_label) {
            None => Err(SlotError::SlotNameError(slot_label.to_owned())),
            Some(i) => {
                let v = self.values[i].value;
                match v {
                    SlotValue::Buffer(b) => Ok(b),
                    _ => Err(
                        SlotError::SlotTypeError {
                            slot_name: slot_label.to_owned(),
                            expected_type: SlotType::Buffer,
                            actual_type: v.slot_type(),
                        },
                    ),
                }
            }
        }
    }

    /// Reads the slot named `slot_label` as a sampler handle.
    pub fn get_sampler(&self, slot_label: &str) -> (r: Result<SamplerId, SlotError>)
        ensures
            match r {
                Ok(s) => self.contains_name(slot_label@) && self.spec_get(slot_label@)
                    == SlotValue::Sampler(s),
                Err(SlotError::SlotNameError(n)) => !self.contains_name(slot_label@) && n@
                    == slot_label@,
                Err(SlotError::SlotTypeError { slot_name, expected_type, actual_type }) => self
                    .contains_name(slot_label@) && !(self.spec_get(slot_label@) matches
                SlotValue::Sampler(_)) && slot_name@ == slot_label@ && expected_type
                    == SlotType::Sampler && actual_type == self.spec_get(
                    slot_label@,
                ).spec_slot_type(),
            },
    {
        match self.index_of_name(slot_label) {
            None => Err(SlotError::SlotNameError(slot_label.to_owned())),
            Some(i) => {
                let v = self.values[i].value;
                match v {
                    SlotValue::Sampler(s) => Ok(s),
                    _ => Err(
                        SlotError::SlotTypeError {
                            slot_name: slot_label.to_owned(),
                            expected_type: SlotType::Sampler,
                            actual_type: v.slot_type(),
                        },
                    ),
                }
            }
        }
    }
}

impl Default for SlotValues {
    /// An empty store.
    fn default() -> (r: Self)
        ensures
            r.num_entries() == 0,
            r.as_map() == Map::<Seq<char>, SlotValue>::empty(),
    {
        SlotValues::new()
    }
}

/// An error raised when a whole [`SlotValues`] store is validated against a
/// [`SlotRequirements`] schema.
#[derive(Debug, Clone, PartialEq, Eq)]
pub enum SlotValueError {
    /// A provided name is not part of the schema at all.
    SlotDoesntExist { name: String },
    /// A provided value's kind differs from the kind the schema declares.
    /// `actual` is the declared kind, `provided` the kind that arrived.
    SlotProvidedTypeError { name: String, actual: SlotType, provided: SlotType },
    /// A required, default-less slot was not provided.
    SlotNotProvided { name: String },
}

/// An error raised when one requirement schema is held against another, as
/// when a node's requirements are checked against its host graph's schema.
#[derive(Debug, Clone, PartialEq, Eq)]
pub enum SlotRequirementError {
    /// The inner schema requires a name the outer schema does not know.
    SlotRequirementDoesntExist { name: String },
    /// Both schemas know the name, but at different kinds. `actual` is the
    /// outer schema's kind, `provided` the inner schema's.
    SlotRequirementTypeError { name: String, actual: SlotType, provided: SlotType },
}

/// One named requirement of a schema.
#[derive(Debug, Clone)]
struct SlotRequirement {
    name: String,
    slot_type: SlotType,
    default: Option<SlotValue>,
}

/// A requirement schema: which named, typed slots a graph invocation must
/// supply, each optionally carrying a default value of the declared kind.
#[derive(Debug)]
pub struct SlotRequirements {
    values: Vec<SlotRequirement>,
}

impl SlotRequirements {
    /// How many requirements are declared.
    pub closed spec fn num_entries(self) -> int {
        self.values@.len() as int
    }

    /// The name of the requirement at position `i`, in declaration order.
    pub closed spec fn entry_name(self, i: int) -> Seq<char> {
        self.values@[i].name@
    }

    /// The declared kind of the requirement at position `i`.
    pub closed spec fn entry_type(self, i: int) -> SlotType {
        self.values@[i].slot_type
    }

    /// Whether the requirement at position `i` carries a default value.
    pub closed spec fn entry_has_default(self, i: int) -> bool {
        self.values@[i].default is Some
    }

    /// The default value of the requirement at position `i`.
    pub closed spec fn entry_default(self, i: int) -> SlotValue {
        self.values@[i].default->0
    }

    /// Whether a requirement named `n` is declared.
    pub open spec fn contains_name(self, n: Seq<char>) -> bool {
        exists|i: int| 0 <= i < self.num_entries() && self.entry_name(i) == n
    }

    /// The position of the requirement named `n`.
    pub open spec fn name_index(self, n: Seq<char>) -> int {
        choose|i: int| 0 <= i < self.num_entries() && self.entry_name(i) == n
    }

    /// The declared kind of the requirement named `n`.
    pub open spec fn req_type(self, n: Seq<char>) -> SlotType {
        self.entry_type(self.name_index(n))
    }

    /// Whether the requirement named `n` carries a default value.
    pub open spec fn has_default(self, n: Seq<char>) -> bool {
        self.entry_has_default(self.name_index(n))
    }

    #[verifier::type_invariant]
    spec fn inv(self) -> bool {
        &&& forall|i: int, j: int|
            0 <= i < j < self.num_entries() ==> self.entry_name(i) != self.entry_name(j)
        &&& forall|i: int|
            0 <= i < self.num_entries() && #[trigger] self.entry_has_default(i)
                ==> self.entry_default(i).spec_slot_type() == self.entry_type(i)
    }

    proof fn lemma_distinct_names(self, i: int, j: int)
        requires
            self.inv(),
            0 <= i < self.num_entries(),
            0 <= j < self.num_entries(),
            i != j,
        ensures
            self.entry_name(i) != self.entry_name(j),
    {
        if i < j {
            assert(self.entry_name(i) != self.entry_name(j));
        } else {
            assert(self.entry_name(j) != self.entry_name(i));
        }
    }

    proof fn lemma_name_index(self, i: int)
        requires
            self.inv(),
            0 <= i < self.num_entries(),
        ensures
            self.name_index(self.entry_name(i)) == i,
            self.contains_name(self.entry_name(i)),
            self.req_type(self.entry_name(i)) == self.entry_type(i),
            self.has_default(self.entry_name(i)) == self.entry_has_default(i),
    {
        let n = self.entry_name(i);
        assert(0 <= i < self.num_entries() && self.entry_name(i) == n);
        let j = self.name_index(n);
        assert(0 <= j < self.num_entries() && self.entry_name(j) == n);
        if i != j {
            assert(self.entry_name(i) != self.entry_name(j));
        }
    }

    /// An empty schema.
    pub fn new() -> (r: Self)
        ensures
            r.num_entries() == 0,
    {
        SlotRequirements { values: Vec::new() }
    }

    /// The position of the requirement named `slot_label`, if one is present.
    fn index_of_name(&self, slot_label: &str) -> (r: Option<usize>)
        ensures
            match r {
                Some(i) => i < self.num_entries() && self.entry_name(i as int) == slot_label@
                    && self.name_index(slot_label@) == i && self.contains_name(slot_label@),
                None => !self.contains_name(slot_label@),
            },
    {
        proof {
            use_type_invariant(&*self);
        }
        let n = self.values.len();
        let mut i: usize = 0;
        while i < n
            invariant
                self.inv(),
                n == self.num_entries(),
                i <= n,
                forall|k: int| 0 <= k < i ==> self.entry_name(k) != slot_label@,
            decreases n - i,
        {
            if self.values[i].name.as_str().eq(slot_label) {
                proof {
                    self.lemma_name_index(i as int);
                }
                return Some(i);
            }
            i = i + 1;
        }
        None
    }

    /// How many requirements are declared.
    pub fn len(&self) -> (n: usize)
        ensures
            n == self.num_entries(),
    {
        self.values.len()
    }

    /// Whether the schema declares no requirement at all.
    pub fn is_empty(&self) -> (b: bool)
        ensures
            b == (self.num_entries() == 0),
    {
        self.values.is_empty()
    }

    /// The declared kind of the requirement named `slot_label`, if any.
    pub fn get_slot_type(&self, slot_label: &str) -> (r: Option<SlotType>)
        ensures
            match r {
                Some(t) => self.contains_name(slot_label@) && t == self.req_type(slot_label@),
                None => !self.contains_name(slot_label@),
            },
    {
        match self.index_of_name(slot_label) {
            Some(i) => Some(self.values[i].slot_type),
            None => None,
        }
    }

    /// Declares (or redeclares) the requirement `slot_label` at `slot_type`,
    /// without a default value. Redeclaring a name replaces its kind and
    /// drops any default it carried.
    pub fn add_slot(&mut self, slot_label: String, slot_type: SlotType)
        ensures
            final(self).entry_updated(*old(self), slot_label@, slot_type, None),
    {
        let req = SlotRequirement { name: slot_label, slot_type, default: None };
        self.insert_requirement(req);
    }

    /// Declares (or redeclares) the requirement `slot_label` at `slot_type`,
    /// builder-style.
    pub fn with(self, slot_label: String, slot_type: SlotType) -> (r: Self)
        ensures
            r.entry_updated(self, slot_label@, slot_type, None),
    {
        let mut s = self;
        s.add_slot(slot_label, slot_type);
        s
    }

    /// Declares (or redeclares) the requirement `slot_label` at the kind of
    /// `value`, with `value` as its default, builder-style.
    pub fn with_default(self, slot_label: String, value: SlotValue) -> (r: Self)
        ensures
            r.entry_updated(self, slot_label@, value.spec_slot_type(), Some(value)),
    {
        let slot_type = value.slot_type();
        let req = SlotRequirement { name: slot_label, slot_type, default: Some(value) };
        let mut s = self;
        s.insert_requirement(req);
        s
    }

    /// What declaring one requirement does to a schema: the named slot now
    /// has the given kind and default, and every other declaration is kept.
    pub open spec fn entry_updated(
        self,
        prev: Self,
        n: Seq<char>,
        slot_type: SlotType,
        default: Option<SlotValue>,
    ) -> bool {
        &&& self.contains_name(n)
        &&& self.req_type(n) == slot_type
        &&& self.has_default(n) == (default is Some)
        &&& (default matches Some(v) ==> self.entry_default(self.name_index(n)) == v)
        &&& forall|m: Seq<char>| m != n ==> (self.contains_name(m) <==> prev.contains_name(m))
        &&& forall|m: Seq<char>|
            m != n && prev.contains_name(m) ==> self.req_type(m) == prev.req_type(m)
                && self.has_default(m) == prev.has_default(m)
        &&& (prev.contains_name(n) ==> self.num_entries() == prev.num_entries())
        &&& (!prev.contains_name(n) ==> self.num_entries() == prev.num_entries() + 1)
    }

    fn insert_requirement(&mut self, req: SlotRequirement)
        requires
            req.default matches Some(v) ==> v.spec_slot_type() == req.slot_type,
        ensures
            final(self).entry_updated(*old(self), req.name@, req.slot_type, req.default),
    {
        proof {
            use_type_invariant(&*self);
        }
        let ghost prev = *self;
        let ghost label_view = req.name@;
        let ghost def = req.default;
        let found = self.index_of_name(req.name.as_str());
        let mut entries = Vec::new();
        core::mem::swap(&mut entries, &mut self.values);
        match found {
            Some(i) => {
                entries[i] = req;
            }
            None => {
                entries.push(req);
            }
        }
        proof {
            assert forall|i: int, j: int|
                0 <= i < j < entries@.len() implies entries@[i].name@ != entries@[j].name@ by {
                match found {
                    Some(idx) => {
                        let idxi = idx as int;
                        assert(prev.entry_name(idxi) == label_view);
                        if i == idxi {
                            assert(entries@[i].name@ == label_view);
                            assert(entries@[j].name@ == prev.entry_name(j));
                            prev.lemma_distinct_names(idxi, j);
                        } else if j == idxi {
                            assert(entries@[j].name@ == label_view);
                            assert(entries@[i].name@ == prev.entry_name(i));
                            prev.lemma_distinct_names(i, idxi);
                        } else {
                            assert(entries@[i].name@ == prev.entry_name(i));
                            assert(entries@[j].name@ == prev.entry_name(j));
                            prev.lemma_distinct_names(i, j);
                        }
                    }
                    None => {
                        if j == entries@.len() - 1 {
                            assert(entries@[i].name@ == prev.entry_name(i));
                            assert(entries@[j].name@ == label_view);
                            assert(prev.entry_name(i) != label_view) by {
                                if prev.entry_name(i) == label_view {
                                    assert(prev.contains_name(label_view));
                                }
                            }
                        } else {
                            assert(entries@[i].name@ == prev.entry_name(i));
                            assert(entries@[j].name@ == prev.entry_name(j));
                            prev.lemma_distinct_names(i, j);
                        }
                    }
                }
            }
            assert forall|i: int|
                0 <= i < entries@.len() && #[trigger] (entries@[i].default is Some)
                    implies entries@[i].default->0.spec_slot_type() == entries@[i].slot_type by {
                match found {
                    Some(idx) => {
                        if i != idx as int {
                            assert(entries@[i] == prev.values@[i]);
                            assert(prev.entry_has_default(i) ==> prev.entry_default(
                                i,
                            ).spec_slot_type() == prev.entry_type(i));
                        }
                    }
                    None => {
                        if i < entries@.len() - 1 {
                            assert(entries@[i] == prev.values@[i]);
                            assert(prev.entry_has_default(i) ==> prev.entry_default(
                                i,
                            ).spec_slot_type() == prev.entry_type(i));
                        }
                    }
                }
            }
        }
        self.values = entries;
        proof {
            use_type_invariant(&*self);
            let s = *self;
            assert forall|m: Seq<char>| m != label_view implies (s.contains_name(m)
                <==> prev.contains_name(m)) by {
                if prev.contains_name(m) {
                    let i = choose|i: int|
                        0 <= i < prev.num_entries() && prev.entry_name(i) == m;
                    assert(s.entry_name(i) == m);
                }
                if s.contains_name(m) {
                    let i = choose|i: int| 0 <= i < s.num_entries() && s.entry_name(i) == m;
                    assert(prev.entry_name(i) == m);
                }
            }
            assert(s.contains_name(label_view) && s.values@[s.name_index(label_view)] == req) by {
                if prev.contains_name(label_view) {
                    let i = prev.name_index(label_view);
                    assert(s.entry_name(i) == label_view);
                    assert(s.values@[i] == req);
                    s.lemma_name_index(i);
                } else {
                    assert(s.entry_name(s.num_entries() - 1) == label_view);
                    assert(s.values@[s.num_entries() - 1] == req);
                    s.lemma_name_index(s.num_entries() - 1);
                }
            }
            assert(s.req_type(label_view) == req.slot_type);
            assert(s.has_default(label_view) == (req.default is Some));
            assert(req.default matches Some(v) ==> s.entry_default(s.name_index(label_view))
                == v);
            assert forall|m: Seq<char>|
                m != label_view && prev.contains_name(m) implies s.req_type(m) == prev.req_type(m)
                && s.has_default(m) == prev.has_default(m) by {
                let i = prev.name_index(m);
                prev.lemma_name_index(i);
                assert(s.entry_name(i) == m);
                s.lemma_name_index(i);
            }
        }
    }
}

impl SlotRequirements {
    /// Whether the provided entry at position `i` names a slot this schema
    /// does not declare at all.
    pub open spec fn provided_unknown(self, vals: SlotValues, i: int) -> bool {
        0 <= i < vals.num_entries() && !self.contains_name(vals.entry_name(i))
    }

    /// Whether the provided entry at position `i` is declared by this schema,
    /// but at a different kind than the provided value carries.
    pub open spec fn provided_mismatch(self, vals: SlotValues, i: int) -> bool {
        0 <= i < vals.num_entries() && self.contains_name(vals.entry_name(i)) && self.req_type(
            vals.entry_name(i),
        ) != vals.entry_value(i).spec_slot_type()
    }

    /// Whether the requirement at position `j` is left unmet by the provided
    /// store: it has no default value and no value was provided for it.
    pub open spec fn requirement_unmet(self, vals: SlotValues, j: int) -> bool {
        0 <= j < self.num_entries() && !self.entry_has_default(j) && !vals.contains_name(
            self.entry_name(j),
        )
    }

    /// Whether a provided store satisfies this schema: every provided name is
    /// declared, every provided value has its declared kind, and every
    /// default-less requirement is provided.
    pub open spec fn spec_satisfied_by(self, vals: SlotValues) -> bool {
        &&& forall|i: int| !(#[trigger] self.provided_unknown(vals, i))
        &&& forall|i: int| !(#[trigger] self.provided_mismatch(vals, i))
        &&& forall|j: int| !(#[trigger] self.requirement_unmet(vals, j))
    }

    /// Whether every declared requirement carries a default value, so that
    /// an invocation providing nothing at all still satisfies the schema.
    pub open spec fn spec_all_defaulted(self) -> bool {
        forall|j: int| 0 <= j < self.num_entries() ==> #[trigger] self.entry_has_default(j)
    }

    /// Returns the first error, if any, in validating `provided_values`
    /// against this schema.
    ///
    /// The check runs in three phases with a fixed precedence: first every
    /// provided name must be declared, then every provided value must carry
    /// its declared kind, and last every default-less requirement must be
    /// provided — so a required name that is missing always surfaces as
    /// `SlotNotProvided` when the entries that were provided are themselves
    /// valid, no matter how many of them there are.
    /// Whether `e` is the first error raised in validating `vals` against
    /// this schema, under the three-phase precedence.
    pub open spec fn spec_value_error_matches(self, vals: SlotValues, e: SlotValueError) -> bool {
        match e {
            SlotValueError::SlotDoesntExist { name } => exists|i: int|
                #[trigger] self.provided_unknown(vals, i) && name@ == vals.entry_name(i) && (forall|
                    k: int,
                |
                    0 <= k < i ==> !(#[trigger] self.provided_unknown(vals, k))),
            SlotValueError::SlotProvidedTypeError { name, actual, provided } => (forall|i: int|
                !(#[trigger] self.provided_unknown(vals, i))) && exists|i: int|
                #[trigger] self.provided_mismatch(vals, i) && name@ == vals.entry_name(i) && actual
                    == self.req_type(vals.entry_name(i)) && provided == vals.entry_value(
                    i,
                ).spec_slot_type() && (forall|k: int|
                    0 <= k < i ==> !(#[trigger] self.provided_mismatch(vals, k))),
            SlotValueError::SlotNotProvided { name } => (forall|i: int|
                !(#[trigger] self.provided_unknown(vals, i))) && (forall|i: int|
                !(#[trigger] self.provided_mismatch(vals, i))) && exists|j: int|
                #[trigger] self.requirement_unmet(vals, j) && name@ == self.entry_name(j) && (
                forall|k: int|
                    0 <= k < j ==> !(#[trigger] self.requirement_unmet(vals, k))),
        }
    }

    pub fn get_slot_value_error(&self, provided_values: &SlotValues) -> (r: Option<
        SlotValueError,
    >)
        ensures
            r is None <==> self.spec_satisfied_by(*provided_values),
            r matches Some(e) ==> self.spec_value_error_matches(*provided_values, e),
    {
        let vals_len = provided_values.values.len();
        let mut i: usize = 0;
        while i < vals_len
            invariant
                vals_len == provided_values.num_entries(),
                i <= vals_len,
                forall|k: int|
                    0 <= k < i ==> !(#[trigger] self.provided_unknown(*provided_values, k)),
            decreases vals_len - i,
        {
            let nm = &provided_values.values[i].name;
            if self.index_of_name(nm.as_str()).is_none() {
                proof {
                    assert(self.provided_unknown(*provided_values, i as int));
                }
                return Some(SlotValueError::SlotDoesntExist { name: nm.clone() });
            }
            i = i + 1;
        }
        let mut i: usize = 0;
        while i < vals_len
            invariant
                vals_len == provided_values.num_entries(),
                i <= vals_len,
                forall|k: int| !(#[trigger] self.provided_unknown(*provided_values, k)),
                forall|k: int|
                    0 <= k < i ==> !(#[trigger] self.provided_mismatch(*provided_values, k)),
            decreases vals_len - i,
        {
            let d = &provided_values.values[i];
            match self.index_of_name(d.name.as_str()) {
                Some(j) => {
                    let provided_type = d.value.slot_type();
                    let declared_type = self.values[j].slot_type;
                    if declared_type != provided_type {
                        proof {
                            assert(self.req_type(provided_values.entry_name(i as int))
                                == declared_type);
                            assert(self.provided_mismatch(*provided_values, i as int));
                        }
                        return Some(
                            SlotValueError::SlotProvidedTypeError {
                                name: d.name.clone(),
                                actual: declared_type,
                                provided: provided_type,
                            },
                        );
                    }
                }
                None => {
                    proof {
                        assert(!self.provided_unknown(*provided_values, i as int));
                        assert(false);
                    }
                }
            }
            i = i + 1;
        }
        let reqs_len = self.values.len();
        let mut j: usize = 0;
        while j < reqs_len
            invariant
                reqs_len == self.num_entries(),
                j <= reqs_len,
                forall|k: int| !(#[trigger] self.provided_unknown(*provided_values, k)),
                forall|k: int| !(#[trigger] self.provided_mismatch(*provided_values, k)),
                forall|k: int|
                    0 <= k < j ==> !(#[trigger] self.requirement_unmet(*provided_values, k)),
            decreases reqs_len - j,
        {
            let req = &self.values[j];
            if req.default.is_none() {
                if provided_values.index_of_name(req.name.as_str()).is_none() {
                    proof {
                        assert(self.requirement_unmet(*provided_values, j as int));
                    }
                    return Some(SlotValueError::SlotNotProvided { name: req.name.clone() });
                }
            }
            j = j + 1;
        }
        None
    }

    /// Whether this schema (a node's requirements) names a slot the outer
    /// schema (its host graph's input contract) does not declare.
    pub open spec fn requirement_unknown_in(self, graph: SlotRequirements, i: int) -> bool {
        0 <= i < self.num_entries() && !graph.contains_name(self.entry_name(i))
    }

    /// Whether this schema declares a slot at a different kind than the
    /// outer schema does.
    pub open spec fn requirement_conflict_in(self, graph: SlotRequirements, i: int) -> bool {
        0 <= i < self.num_entries() && graph.contains_name(self.entry_name(i)) && graph.req_type(
            self.entry_name(i),
        ) != self.entry_type(i)
    }

    /// Whether every requirement of this schema is declared by the outer
    /// schema, at the same kind.
    pub open spec fn spec_compatible_with(self, graph: SlotRequirements) -> bool {
        &&& forall|i: int| !(#[trigger] self.requirement_unknown_in(graph, i))
        &&& forall|i: int| !(#[trigger] self.requirement_conflict_in(graph, i))
    }

    /// Whether `e` is the first error raised in holding this schema against
    /// the outer schema `graph`, in declaration order.
    pub open spec fn spec_requirement_error_matches(
        self,
        graph: SlotRequirements,
        e: SlotRequirementError,
    ) -> bool {
        match e {
            SlotRequirementError::SlotRequirementDoesntExist { name } => exists|i: int|
                #[trigger] self.requirement_unknown_in(graph, i) && name@ == self.entry_name(i) && (
                forall|k: int|
                    0 <= k < i ==> !(#[trigger] self.requirement_unknown_in(graph, k))) && (forall|
                    k: int,
                |
                    0 <= k < i ==> !(#[trigger] self.requirement_conflict_in(graph, k))),
            SlotRequirementError::SlotRequirementTypeError { name, actual, provided } => exists|
                i: int,
            |
                #[trigger] self.requirement_conflict_in(graph, i) && name@ == self.entry_name(i)
                    && actual == graph.req_type(self.entry_name(i)) && provided == self.entry_type(
                    i,
                ) && (forall|k: int|
                    0 <= k < i ==> !(#[trigger] self.requirement_unknown_in(graph, k))) && (forall|
                    k: int,
                |
                    0 <= k < i ==> !(#[trigger] self.requirement_conflict_in(graph, k))),
        }
    }

    /// Returns the first error, if any, in holding this schema (a node's
    /// requirements) against `graph_requirements` (the host graph's declared
    /// input contract): every requirement here must be declared there, at
    /// the same kind.
    pub fn get_slot_requirement_error(&self, graph_requirements: &SlotRequirements) -> (r: Option<
        SlotRequirementError,
    >)
        ensures
            r is None <==> self.spec_compatible_with(*graph_requirements),
            r matches Some(e) ==> self.spec_requirement_error_matches(*graph_requirements, e),
    {
        let n = self.values.len();
        let mut i: usize = 0;
        while i < n
            invariant
                n == self.num_entries(),
                i <= n,
                forall|k: int|
                    0 <= k < i ==> !(#[trigger] self.requirement_unknown_in(
                        *graph_requirements,
                        k,
                    )),
                forall|k: int|
                    0 <= k < i ==> !(#[trigger] self.requirement_conflict_in(
                        *graph_requirements,
                        k,
                    )),
            decreases n - i,
        {
            let req = &self.values[i];
            match graph_requirements.index_of_name(req.name.as_str()) {
                None => {
                    proof {
                        assert(self.requirement_unknown_in(*graph_requirements, i as int));
                    }
                    return Some(
                        SlotRequirementError::SlotRequirementDoesntExist { name: req.name.clone() },
                    );
                }
                Some(j) => {
                    let declared = graph_requirements.values[j].slot_type;
                    if declared != req.slot_type {
                        proof {
                            assert(graph_requirements.req_type(self.entry_name(i as int))
                                == declared);
                            assert(self.requirement_conflict_in(*graph_requirements, i as int));
                        }
                        return Some(
                            SlotRequirementError::SlotRequirementTypeError {
                                name: req.name.clone(),
                                actual: declared,
                                provided: req.slot_type,
                            },
                        );
                    }
                    proof {
                        assert(graph_requirements.req_type(self.entry_name(i as int))
                            == declared);
                        assert(!self.requirement_unknown_in(*graph_requirements, i as int));
                        assert(!self.requirement_conflict_in(*graph_requirements, i as int));
                    }
                }
            }
            i = i + 1;
        }
        None
    }
}

impl Default for SlotRequirements {
    /// An empty schema.
    fn default() -> (r: Self)
        ensures
            r.num_entries() == 0,
    {
        SlotRequirements::new()
    }
}

/// A store with no entries satisfies a schema exactly when every declared
/// requirement carries a default value: nothing unknown or mismatched can
/// be provided, so only a default-less requirement can be left unmet.
pub proof fn lemma_empty_store_satisfaction(schema: SlotRequirements, vals: SlotValues)
    requires
        vals.num_entries() == 0,
    ensures
        schema.spec_satisfied_by(vals) <==> schema.spec_all_defaulted(),
{
    assert(forall|i: int| !(#[trigger] schema.provided_unknown(vals, i)));
    assert(forall|i: int| !(#[trigger] schema.provided_mismatch(vals, i)));
    if schema.spec_all_defaulted() {
        assert forall|j: int| !(#[trigger] schema.requirement_unmet(vals, j)) by {
            if 0 <= j < schema.num_entries() {
                assert(schema.entry_has_default(j));
            }
        }
    }
    if schema.spec_satisfied_by(vals) {
        assert forall|j: int| 0 <= j < schema.num_entries() implies #[trigger] schema
            .entry_has_default(j) by {
            assert(!schema.requirement_unmet(vals, j));
        }
    }
}

/// Round trip: after an update whose effect on the store's map view is
/// `insert(slot_label, value)`, reading `slot_label` back yields exactly
/// `value`, whatever else the store holds.
pub proof fn lemma_slot_values_round_trip(
    vals: SlotValues,
    slot_label: Seq<char>,
    value: SlotValue,
    updated: SlotValues,
)
    requires
        updated.as_map() == vals.as_map().insert(slot_label, value),
    ensures
        updated.contains_name(slot_label),
        updated.spec_get(slot_label) == value,
{
    assert(updated.as_map().dom().contains(slot_label));
    assert(updated.as_map()[slot_label] == value);
}

} // verus!
