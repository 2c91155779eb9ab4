use vstd::prelude::*;
use crate::archive::{Archive, Object, Value, Variant};
use crate::document::{dict_insert, insert_all, keys_distinct, lemma_insert_all_keeps_distinct, Dict, Plist};
use crate::scalar::{translate, translates};

verus! {

/// Key of the first value of an object that stands for an inlined collection.
pub const INLINE_MARKER_KEY: &'static str = "NSInlinedValue";
/// Key under which an object refers to its class descriptor.
pub const OBJECT_CLASS_KEY: &'static str = "$class";
/// Key of the elements of an ordered or unordered collection.
pub const ELEMENTS_KEY: &'static str = "NS.objects";
/// Key of the keys of an associative collection.
pub const MAPPING_KEYS_KEY: &'static str = "NS.keys";
/// Key of the values of an associative collection.
pub const MAPPING_VALUES_KEY: &'static str = "NS.values";

/// An inline-marked object whose class is not a known collection class.
#[derive(Clone, Debug)]
pub struct Diagnostic {
    /// Index of the object in the archive.
    pub object_index: usize,
    /// Name of its class.
    pub class_name: String,
}

pub open spec fn is_sequence_class(name: Seq<char>) -> bool {
    name == "NSArray"@ || name == "NSMutableArray"@ || name == "NSSet"@ || name == "NSMutableSet"@
}

pub open spec fn is_mapping_class(name: Seq<char>) -> bool {
    name == "NSDictionary"@ || name == "NSMutableDictionary"@
}

/// The first of `vals` marks an inlined collection.
pub open spec fn is_inline(a: Archive, vals: Seq<Value>) -> bool {
    &&& vals.len() > 0
    &&& a.key_of(vals[0]) == INLINE_MARKER_KEY@
    &&& vals[0].variant == Variant::Bool(true)
}

pub open spec fn class_name_of(a: Archive, obj: Object) -> Seq<char> {
    a.class_names@[obj.class_name_index as int].name@
}

/// `obj` is inline-marked but its class is no known collection class.
pub open spec fn is_unknown_inline(a: Archive, obj: Object) -> bool {
    &&& is_inline(a, a.values_of(obj))
    &&& !is_sequence_class(class_name_of(a, obj))
    &&& !is_mapping_class(class_name_of(a, obj))
}

/// The UID of the class descriptor of `obj`.
pub open spec fn class_uid(a: Archive, obj: Object) -> u64 {
    (obj.class_name_index + a.objects@.len()) as u64
}

/// `ps` translates `vals`, one for one and in order.
pub open spec fn translates_all(vals: Seq<Value>, ps: Seq<Plist>) -> bool {
    &&& ps.len() == vals.len()
    &&& forall|i: int| 0 <= i < vals.len() ==> translates(#[trigger] vals[i].variant, ps[i])
}

/// The values at even positions of `tail`: the keys of a mapping.
pub open spec fn even_positions(tail: Seq<Value>) -> Seq<Value> {
    Seq::new(((tail.len() + 1) / 2) as nat, |i: int| tail[2 * i])
}

/// The values at odd positions of `tail`: the values of a mapping.
pub open spec fn odd_positions(tail: Seq<Value>) -> Seq<Value> {
    Seq::new((tail.len() / 2) as nat, |i: int| tail[2 * i + 1])
}

/// `ins` inserts each of `vals`, translated, under its own key.
pub open spec fn plain_insertions(a: Archive, vals: Seq<Value>, ins: Seq<(Seq<char>, Plist)>) -> bool {
    &&& ins.len() == vals.len()
    &&& forall|i: int| #![trigger ins[i]] 0 <= i < vals.len() ==> {
        &&& ins[i].0 == a.key_of(vals[i])
        &&& translates(vals[i].variant, ins[i].1)
    }
}

/// `ins` inserts one array, the translation of `tail`, under the elements key.
pub open spec fn sequence_insertions(tail: Seq<Value>, ins: Seq<(Seq<char>, Plist)>) -> bool {
    &&& ins.len() == 1
    &&& ins[0].0 == ELEMENTS_KEY@
    &&& ins[0].1 is Array
    &&& translates_all(tail, ins[0].1->Array_0@)
}

/// `ins` inserts the translated even positions of `tail` under the keys key,
/// then its translated odd positions under the values key.
pub open spec fn mapping_insertions(tail: Seq<Value>, ins: Seq<(Seq<char>, Plist)>) -> bool {
    &&& ins.len() == 2
    &&& ins[0].0 == MAPPING_KEYS_KEY@
    &&& ins[0].1 is Array
    &&& translates_all(even_positions(tail), ins[0].1->Array_0@)
    &&& ins[1].0 == MAPPING_VALUES_KEY@
    &&& ins[1].1 is Array
    &&& translates_all(odd_positions(tail), ins[1].1->Array_0@)
}

/// The insertions that reconstructing `obj` makes after its class key.
pub open spec fn object_insertions(a: Archive, obj: Object, ins: Seq<(Seq<char>, Plist)>) -> bool {
    let vals = a.values_of(obj);
    let name = class_name_of(a, obj);
    if is_inline(a, vals) && is_sequence_class(name) {
        sequence_insertions(vals.drop_first(), ins)
    } else if is_inline(a, vals) && is_mapping_class(name) {
        mapping_insertions(vals.drop_first(), ins)
    } else {
        plain_insertions(a, vals, ins)
    }
}

/// The mapping before the values of `obj` go in: its class key, if asked for.
pub open spec fn class_start(a: Archive, obj: Object, add_class: bool) -> Seq<(Seq<char>, Plist)> {
    if add_class {
        seq![(OBJECT_CLASS_KEY@, Plist::Uid(class_uid(a, obj)))]
    } else {
        seq![]
    }
}

/// `d` is `start` after the insertions of `obj`.
pub open spec fn expands(a: Archive, obj: Object, start: Seq<(Seq<char>, Plist)>, d: Seq<(Seq<char>, Plist)>) -> bool {
    exists|ins: Seq<(Seq<char>, Plist)>| object_insertions(a, obj, ins) && d == insert_all(start, ins)
}

/// `d` is the reconstruction of `obj`, with a class key where `add_class` holds.
pub open spec fn reconstructs(a: Archive, obj: Object, add_class: bool, d: Seq<(Seq<char>, Plist)>) -> bool {
    expands(a, obj, class_start(a, obj, add_class), d)
}

/// The diagnostics as object indices and class names.
pub open spec fn diagnostics_view(d: Seq<Diagnostic>) -> Seq<(nat, Seq<char>)> {
    d.map_values(|x: Diagnostic| (x.object_index as nat, x.class_name@))
}

/// The diagnostic that reconstructing object `index` reports, if any.
pub open spec fn report_of(a: Archive, index: int) -> Seq<(nat, Seq<char>)> {
    let obj = a.objects@[index];
    if is_unknown_inline(a, obj) {
        seq![(index as nat, class_name_of(a, obj))]
    } else {
        seq![]
    }
}

proof fn lemma_insert_all_push(d: Seq<(Seq<char>, Plist)>, ins: Seq<(Seq<char>, Plist)>, k: Seq<char>, v: Plist)
    ensures
        insert_all(d, ins.push((k, v))) == dict_insert(insert_all(d, ins), k, v),
{
    assert(ins.push((k, v)).drop_last() =~= ins);
}

/// Inserts each value of object `index`, translated, under its key.
fn insert_plain(archive: &Archive, index: usize, dict: &mut Dict)
    requires
        archive.well_formed(),
        index < archive.objects@.len(),
    ensures
        exists|ins: Seq<(Seq<char>, Plist)>|
            plain_insertions(*archive, archive.values_of(archive.objects@[index as int]), ins)
            && final(dict)@ == insert_all(old(dict)@, ins),
{
    let obj = archive.objects[index];
    assert(obj.well_formed(archive.values@.len(), archive.class_names@.len()));
    let n_values = archive.values.len();
    let ghost vals = archive.values_of(obj);
    let ghost mut ins: Seq<(Seq<char>, Plist)> = seq![];
    let mut k: usize = 0;
    while k < obj.value_count
        invariant
            archive.well_formed(),
            obj == archive.objects@[index as int],
            obj.values_index + obj.value_count <= n_values == archive.values@.len(),
            vals == archive.values_of(obj),
            k <= obj.value_count,
            ins.len() == k,
            plain_insertions(*archive, vals.subrange(0, k as int), ins),
            dict@ == insert_all(old(dict)@, ins),
        decreases obj.value_count - k,
    {
        let value = &archive.values[obj.values_index + k];
        assert(value == vals[k as int]);
        let key = archive.keys[value.key_index].clone();
        let inner = translate(&value.variant);
        proof {
            lemma_insert_all_push(old(dict)@, ins, key@, inner);
        }
        dict.insert(key, inner);
        proof {
            ins = ins.push((key@, inner));
            assert forall|i: int| #![trigger ins[i]] 0 <= i < k + 1 implies {
                &&& ins[i].0 == archive.key_of(vals.subrange(0, k + 1)[i])
                &&& translates(vals.subrange(0, k + 1)[i].variant, ins[i].1)
            } by {
                if i < k {
                    assert(vals.subrange(0, k as int)[i] == vals.subrange(0, k + 1)[i]);
                }
            }
        }
        k = k + 1;
    }
    assert(vals.subrange(0, k as int) =~= vals);
}

/// Tells whether `s` reads `lit`.
fn is_named(s: &String, lit: &'static str) -> (r: bool)
    ensures
        r == (s@ == lit@),
{
    *s == String::from_str(lit)
}

proof fn lemma_insert_one(d: Seq<(Seq<char>, Plist)>, k: Seq<char>, v: Plist)
    ensures
        insert_all(d, seq![(k, v)]) == dict_insert(d, k, v),
{
    lemma_insert_all_push(d, seq![], k, v);
    assert(Seq::<(Seq<char>, Plist)>::empty().push((k, v)) =~= seq![(k, v)]);
}

/// Expands the inline-marked object `index` into `dict`, which already holds
/// its class key.
///
/// An ordered or unordered collection class gets its elements under the
/// elements key; an associative class gets the values at even positions after
/// the marker under the keys key and those at odd positions under the values
/// key. Any other class is reported in `diagnostics`, and the object's values,
/// marker included, go in as plain keyed entries.
pub fn reconstruct_inlined_object(
    archive: &Archive,
    index: usize,
    dict: Dict,
    diagnostics: &mut Vec<Diagnostic>,
) -> (r: Dict)
    requires
        archive.well_formed(),
        index < archive.objects@.len(),
        is_inline(*archive, archive.values_of(archive.objects@[index as int])),
    ensures
        expands(*archive, archive.objects@[index as int], dict@, r@),
        diagnostics_view(final(diagnostics)@) == diagnostics_view(old(diagnostics)@) + report_of(*archive, index as int),
{
    let obj = archive.objects[index];
    assert(obj.well_formed(archive.values@.len(), archive.class_names@.len()));
    let n_values = archive.values.len();
    let ghost vals = archive.values_of(obj);
    let ghost tail = vals.drop_first();
    let ghost start = dict@;
    let class_name = &archive.class_names[obj.class_name_index].name;
    let mut dict = dict;
    if is_named(class_name, "NSArray") || is_named(class_name, "NSMutableArray")
        || is_named(class_name, "NSSet") || is_named(class_name, "NSMutableSet") {
        let mut array: Vec<Plist> = Vec::new();
        let mut k: usize = 1;
        while k < obj.value_count
            invariant
                obj.values_index + obj.value_count <= n_values == archive.values@.len(),
                vals == archive.values_of(obj),
                tail == vals.drop_first(),
                1 <= k <= obj.value_count,
                translates_all(tail.subrange(0, k - 1), array@),
            decreases obj.value_count - k,
        {
            let value = &archive.values[obj.values_index + k];
            assert(value == tail[k - 1]);
            let inner = translate(&value.variant);
            array.push(inner);
            assert(tail.subrange(0, k as int)[k - 1] == tail[k - 1]);
            assert forall|i: int| 0 <= i < k - 1 implies tail.subrange(0, k as int)[i] == tail.subrange(0, k - 1)[i] by {}
            k = k + 1;
        }
        assert(tail.subrange(0, k - 1) =~= tail);
        let p = Plist::Array(array);
        let ghost ins = seq![(ELEMENTS_KEY@, p)];
        let key = String::from_str(ELEMENTS_KEY);
        proof {
            lemma_insert_one(start, key@, p);
        }
        dict.insert(key, p);
        assert(object_insertions(*archive, obj, ins));
        assert(dict@ == insert_all(start, ins));
        dict
    } else if is_named(class_name, "NSDictionary") || is_named(class_name, "NSMutableDictionary") {
        let mut dict_keys: Vec<Plist> = Vec::new();
        let mut dict_values: Vec<Plist> = Vec::new();
        let mut is_key = true;
        let mut k: usize = 1;
        while k < obj.value_count
            invariant
                obj.values_index + obj.value_count <= n_values == archive.values@.len(),
                vals == archive.values_of(obj),
                tail == vals.drop_first(),
                1 <= k <= obj.value_count,
                is_key == ((k - 1) % 2 == 0),
                dict_keys@.len() == k / 2,
                dict_values@.len() == (k - 1) / 2,
                forall|j: int| 0 <= j < dict_keys@.len() ==> translates(#[trigger] tail[2 * j].variant, dict_keys@[j]),
                forall|j: int| 0 <= j < dict_values@.len() ==> translates(#[trigger] tail[2 * j + 1].variant, dict_values@[j]),
            decreases obj.value_count - k,
        {
            let value = &archive.values[obj.values_index + k];
            assert(value == tail[k - 1]);
            let inner = translate(&value.variant);
            if is_key {
                dict_keys.push(inner);
            } else {
                dict_values.push(inner);
            }
            is_key = !is_key;
            k = k + 1;
        }
        let ghost evens = even_positions(tail);
        let ghost odds = odd_positions(tail);
        assert(translates_all(evens, dict_keys@)) by {
            assert forall|j: int| 0 <= j < evens.len() implies translates(#[trigger] evens[j].variant, dict_keys@[j]) by {
                assert(evens[j] == tail[2 * j]);
            }
        }
        assert(translates_all(odds, dict_values@)) by {
            assert forall|j: int| 0 <= j < odds.len() implies translates(#[trigger] odds[j].variant, dict_values@[j]) by {
                assert(odds[j] == tail[2 * j + 1]);
            }
        }
        let pk = Plist::Array(dict_keys);
        let pv = Plist::Array(dict_values);
        let kk = String::from_str(MAPPING_KEYS_KEY);
        let kv = String::from_str(MAPPING_VALUES_KEY);
        let ghost ins = seq![(MAPPING_KEYS_KEY@, pk), (MAPPING_VALUES_KEY@, pv)];
        proof {
            lemma_insert_one(start, kk@, pk);
            lemma_insert_all_push(start, seq![(kk@, pk)], kv@, pv);
            assert(seq![(kk@, pk)].push((kv@, pv)) =~= ins);
        }
        dict.insert(kk, pk);
        dict.insert(kv, pv);
        assert(object_insertions(*archive, obj, ins));
        assert(dict@ == insert_all(start, ins));
        dict
    } else {
        diagnostics.push(Diagnostic { object_index: index, class_name: class_name.clone() });
        insert_plain(archive, index, &mut dict);
        assert(diagnostics_view(diagnostics@) =~= diagnostics_view(old(diagnostics)@) + report_of(*archive, index as int));
        dict
    }
}

/// Reconstructs object `index` as a keyed mapping, with a class key first
/// where `add_class` holds. Inline-marked objects are expanded.
pub fn reconstruct_object(
    archive: &Archive,
    index: usize,
    add_class: bool,
    diagnostics: &mut Vec<Diagnostic>,
) -> (r: Dict)
    requires
        archive.well_formed(),
        index < archive.objects@.len(),
    ensures
        reconstructs(*archive, archive.objects@[index as int], add_class, r@),
        r.well_formed(),
        diagnostics_view(final(diagnostics)@) == diagnostics_view(old(diagnostics)@) + report_of(*archive, index as int),
{
    let obj = archive.objects[index];
    assert(obj.well_formed(archive.values@.len(), archive.class_names@.len()));
    let mut dict = Dict::new();
    if add_class {
        // Class descriptors follow the regular objects in the objects array.
        let uid = obj.class_name_index as u64 + archive.objects.len() as u64;
        dict.insert(String::from_str(OBJECT_CLASS_KEY), Plist::Uid(uid));
    }
    assert(dict@ =~= class_start(*archive, obj, add_class));
    proof {
        let start = class_start(*archive, obj, add_class);
        assert forall|ins: Seq<(Seq<char>, Plist)>| keys_distinct(#[trigger] insert_all(start, ins)) by {
            lemma_insert_all_keeps_distinct(start, ins);
        }
    }
    if obj.value_count == 0 {
        let ghost ins: Seq<(Seq<char>, Plist)> = seq![];
        assert(archive.values_of(obj) =~= Seq::<Value>::empty());
        assert(object_insertions(*archive, obj, ins));
        assert(dict@ == insert_all(dict@, ins));
        return dict;
    }
    assert(diagnostics_view(diagnostics@) =~= diagnostics_view(old(diagnostics)@) + seq![]);
    let first = &archive.values[obj.values_index];
    assert(*first == archive.values_of(obj)[0]);
    let marked = match first.variant {
        Variant::Bool(b) => b,
        _ => false,
    };
    let is_inlined = marked && is_named(&archive.keys[first.key_index], INLINE_MARKER_KEY);
    if is_inlined {
        return reconstruct_inlined_object(archive, index, dict, diagnostics);
    }
    insert_plain(archive, index, &mut dict);
    dict
}

} // verus!
