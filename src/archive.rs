use vstd::prelude::*;

verus! {

/// One primitive of the flat format.
///
/// Floating-point values are carried as their IEEE-754 bit patterns.
#[derive(Clone, Debug)]
pub enum Variant {
    Int8(i8),
    Int16(i16),
    Int32(i32),
    Int64(i64),
    Bool(bool),
    Float(u32),
    Double(u64),
    Data(Vec<u8>),
    Nil,
    ObjectRef(u32),
}

/// One key/value pair of the shared value pool.
#[derive(Clone, Debug)]
pub struct Value {
    /// Index into the key-name pool.
    pub key_index: usize,
    pub variant: Variant,
}

/// One flat object: its class and the span of the value pool it owns.
#[derive(Clone, Copy, Debug)]
pub struct Object {
    /// Index into the class-name table.
    pub class_name_index: usize,
    /// First value of the object in the value pool.
    pub values_index: usize,
    /// Number of values of the object.
    pub value_count: usize,
}

/// One entry of the class-name table.
#[derive(Clone, Debug)]
pub struct ClassName {
    pub name: String,
    /// Names of the classes to use where this one is unavailable.
    pub fallback_names: Vec<String>,
}

/// A decoded flat archive. Object 0 is the top object.
#[derive(Clone, Debug)]
pub struct Archive {
    pub objects: Vec<Object>,
    pub keys: Vec<String>,
    pub values: Vec<Value>,
    pub class_names: Vec<ClassName>,
}

impl Object {
    pub open spec fn well_formed(&self, n_values: nat, n_classes: nat) -> bool {
        &&& self.class_name_index < n_classes
        &&& self.values_index + self.value_count <= n_values
    }
}

impl Archive {
    /// Every index resolves, there is a top object, and every class
    /// reference fits in a `u64`.
    pub open spec fn well_formed(&self) -> bool {
        &&& self.objects@.len() >= 1
        &&& self.objects@.len() + self.class_names@.len() <= u64::MAX
        &&& forall|i: int|
            0 <= i < self.objects@.len() ==> #[trigger] self.objects@[i].well_formed(
                self.values@.len(),
                self.class_names@.len(),
            )
        &&& forall|i: int| 0 <= i < self.values@.len() ==> #[trigger] self.values@[i].key_index < self.keys@.len()
    }

    /// The values of `obj`, in order.
    pub open spec fn values_of(&self, obj: Object) -> Seq<Value> {
        self.values@.subrange(obj.values_index as int, obj.values_index + obj.value_count)
    }

    /// The key name of `v`.
    pub open spec fn key_of(&self, v: Value) -> Seq<char> {
        self.keys@[v.key_index as int]@
    }

    /// Tells whether every index of the archive resolves.
    pub fn is_well_formed(&self) -> (r: bool)
        ensures
            r == self.well_formed(),
    {
        let n_objects = self.objects.len();
        let n_values = self.values.len();
        let n_classes = self.class_names.len();
        if n_objects == 0 || n_classes as u128 + n_objects as u128 > u64::MAX as u128 {
            return false;
        }
        let mut i: usize = 0;
        while i < n_objects
            invariant
                i <= n_objects == self.objects@.len(),
                n_values == self.values@.len(),
                n_classes == self.class_names@.len(),
                forall|k: int| 0 <= k < i ==> #[trigger] self.objects@[k].well_formed(
                    n_values as nat,
                    n_classes as nat,
                ),
            decreases n_objects - i,
        {
            let o = self.objects[i];
            if o.class_name_index >= n_classes || o.value_count > n_values
                || o.values_index > n_values - o.value_count {
                assert(!self.objects@[i as int].well_formed(n_values as nat, n_classes as nat));
                return false;
            }
            i = i + 1;
        }
        let mut j: usize = 0;
        while j < n_values
            invariant
                j <= n_values == self.values@.len(),
                forall|k: int| 0 <= k < j ==> #[trigger] self.values@[k].key_index < self.keys@.len(),
            decreases n_values - j,
        {
            if self.values[j].key_index >= self.keys.len() {
                assert(!(self.values@[j as int].key_index < self.keys@.len()));
                return false;
            }
            j = j + 1;
        }
        true
    }
}

} // verus!
