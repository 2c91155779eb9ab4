use vstd::prelude::*;
use crate::archive::{Archive, ClassName, Value, Variant};
use crate::class_table::{describes, describes_all, descriptor_content, listed_names, CLASSES_KEY, CLASSNAME_KEY};
use crate::document::{insert_all, Plist};
use crate::object::{
    class_name_of, class_start, class_uid, even_positions, is_inline, is_mapping_class, is_sequence_class,
    mapping_insertions, object_insertions, odd_positions, reconstructs, translates_all, OBJECT_CLASS_KEY,
};
use crate::scalar::{translates, NULL_OBJECT_REFERENCE};
use crate::upgrade::is_upgrade_of;

verus! {

/// How many insertions reconstructing `i` makes after its class key.
pub open spec fn insertion_count(a: Archive, i: int) -> int {
    let obj = a.objects@[i];
    let vals = a.values_of(obj);
    if is_inline(a, vals) && is_sequence_class(class_name_of(a, obj)) {
        1
    } else if is_inline(a, vals) && is_mapping_class(class_name_of(a, obj)) {
        2
    } else {
        vals.len() as int
    }
}

/// A reconstructed object is its class key, if any, followed by one
/// insertion per flat value; a recognised inline collection makes one
/// insertion (ordered or unordered) or two (associative) whatever its size.
pub proof fn lemma_insertion_count(a: Archive, i: int, add_class: bool, d: Seq<(Seq<char>, Plist)>)
    requires
        a.well_formed(),
        0 <= i < a.objects@.len(),
        reconstructs(a, a.objects@[i], add_class, d),
    ensures
        exists|ins: Seq<(Seq<char>, Plist)>|
            ins.len() == insertion_count(a, i) && d == insert_all(class_start(a, a.objects@[i], add_class), ins),
{
    let obj = a.objects@[i];
    let ins = choose|ins: Seq<(Seq<char>, Plist)>|
        object_insertions(a, obj, ins) && d == insert_all(class_start(a, obj, add_class), ins);
    assert(ins.len() == insertion_count(a, i));
}

/// An associative collection whose tail holds `2k` values gets `k` keys and
/// `k` values; key `i` is tail value `2i` and value `i` is tail value `2i + 1`.
pub proof fn lemma_mapping_pairs(tail: Seq<Value>, ins: Seq<(Seq<char>, Plist)>, k: nat)
    requires
        mapping_insertions(tail, ins),
        tail.len() == 2 * k,
    ensures
        ins[0].1->Array_0@.len() == k,
        ins[1].1->Array_0@.len() == k,
        forall|i: int| 0 <= i < k ==> translates(#[trigger] tail[2 * i].variant, ins[0].1->Array_0@[i]),
        forall|i: int| 0 <= i < k ==> translates(#[trigger] tail[2 * i + 1].variant, ins[1].1->Array_0@[i]),
{
    let keys = ins[0].1->Array_0@;
    let values = ins[1].1->Array_0@;
    assert forall|i: int| 0 <= i < k implies translates(#[trigger] tail[2 * i].variant, keys[i]) by {
        assert(even_positions(tail)[i] == tail[2 * i]);
    }
    assert forall|i: int| 0 <= i < k implies translates(#[trigger] tail[2 * i + 1].variant, values[i]) by {
        assert(odd_positions(tail)[i] == tail[2 * i + 1]);
    }
}

/// In a document, the class key of regular object `i` holds the UID
/// `objects count + class index`, and that slot of the objects array holds
/// the descriptor of the object's own class.
pub proof fn lemma_class_reference(a: Archive, include_fallback: bool, r: Plist, i: int)
    requires
        a.well_formed(),
        is_upgrade_of(a, include_fallback, r),
        1 <= i < a.objects@.len(),
    ensures
        ({
            let obj = a.objects@[i];
            let c = obj.class_name_index as int;
            let objs = r->Dict_0@[1].1->Array_0@;
            &&& class_uid(a, obj) == a.objects@.len() + c
            &&& class_start(a, obj, true) == seq![(OBJECT_CLASS_KEY@, Plist::Uid(class_uid(a, obj)))]
            &&& describes(a.class_names@[c], include_fallback, objs[class_uid(a, obj) as int])
        }),
{
    let obj = a.objects@[i];
    assert(obj.well_formed(a.values@.len(), a.class_names@.len()));
    let c = obj.class_name_index as int;
    let objs = r->Dict_0@[1].1->Array_0@;
    assert(describes(a.class_names@[c], include_fallback, objs[a.objects@.len() + c]));
}

/// The null primitive becomes the null-reference string wherever it is
/// translated.
pub proof fn lemma_null_translation(v: Variant, p: Plist)
    requires
        translates(v, p),
        v is Nil,
    ensures
        p is Str,
        p->Str_0@ == NULL_OBJECT_REFERENCE@,
{
}

/// A null element of a translated sequence becomes the null-reference
/// string at its own position: it is never left out.
pub proof fn lemma_null_element(vals: Seq<Value>, ps: Seq<Plist>, i: int)
    requires
        translates_all(vals, ps),
        0 <= i < vals.len(),
        vals[i].variant is Nil,
    ensures
        ps.len() == vals.len(),
        ps[i] is Str,
        ps[i]->Str_0@ == NULL_OBJECT_REFERENCE@,
{
    assert(translates(vals[i].variant, ps[i]));
}

/// Two class tables built from the same class names show the same
/// descriptors, entry for entry.
pub proof fn lemma_class_table_deterministic(
    class_names: Seq<ClassName>,
    include_fallback: bool,
    t1: Seq<Plist>,
    t2: Seq<Plist>,
)
    requires
        describes_all(class_names, include_fallback, t1),
        describes_all(class_names, include_fallback, t2),
    ensures
        t1.len() == t2.len(),
        forall|j: int| 0 <= j < t1.len() ==> descriptor_content(#[trigger] t1[j]) == descriptor_content(t2[j]),
{
    assert forall|j: int| 0 <= j < t1.len() implies descriptor_content(#[trigger] t1[j]) == descriptor_content(t2[j]) by {
        lemma_descriptor_content(class_names[j], include_fallback, t1[j]);
        lemma_descriptor_content(class_names[j], include_fallback, t2[j]);
    }
}

/// What a descriptor shows is fixed by its class.
pub proof fn lemma_descriptor_content(c: ClassName, include_fallback: bool, p: Plist)
    requires
        describes(c, include_fallback, p),
    ensures
        descriptor_content(p) == (seq![CLASSES_KEY@, CLASSNAME_KEY@], listed_names(c, include_fallback), c.name@),
{
    let names = p->Dict_0@[0].1->Array_0@.map_values(|q: Plist| q->Str_0@);
    assert(names =~= listed_names(c, include_fallback));
}

} // verus!
