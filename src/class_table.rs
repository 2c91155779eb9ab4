use vstd::prelude::*;
use crate::archive::ClassName;
use crate::document::{Dict, Plist};

verus! {

/// Key of the list of class names of a class descriptor.
pub const CLASSES_KEY: &'static str = "$classes";
/// Key of the class's own name in a class descriptor.
pub const CLASSNAME_KEY: &'static str = "$classname";

/// The names that the descriptor of `c` lists: its own name, then, where
/// `include_fallback` holds, its fallback names in order.
pub open spec fn listed_names(c: ClassName, include_fallback: bool) -> Seq<Seq<char>> {
    if include_fallback {
        seq![c.name@] + c.fallback_names@.map_values(|s: String| s@)
    } else {
        seq![c.name@]
    }
}

/// `ps` are strings that read `names`, in order.
pub open spec fn strings_read(ps: Seq<Plist>, names: Seq<Seq<char>>) -> bool {
    &&& ps.len() == names.len()
    &&& forall|i: int| 0 <= i < ps.len() ==> (#[trigger] ps[i] is Str && ps[i]->Str_0@ == names[i])
}

/// `p` is the class descriptor of `c`: the list of names under the classes
/// key, then the class's own name under the class-name key.
pub open spec fn describes(c: ClassName, include_fallback: bool, p: Plist) -> bool {
    &&& p is Dict
    &&& p->Dict_0@.len() == 2
    &&& p->Dict_0@[0].0 == CLASSES_KEY@
    &&& p->Dict_0@[0].1 is Array
    &&& strings_read(p->Dict_0@[0].1->Array_0@, listed_names(c, include_fallback))
    &&& p->Dict_0@[1].0 == CLASSNAME_KEY@
    &&& p->Dict_0@[1].1 is Str
    &&& p->Dict_0@[1].1->Str_0@ == c.name@
}

/// `table` holds the descriptor of each class of `class_names`, in order.
pub open spec fn describes_all(class_names: Seq<ClassName>, include_fallback: bool, table: Seq<Plist>) -> bool {
    &&& table.len() == class_names.len()
    &&& forall|j: int| 0 <= j < table.len() ==> describes(class_names[j], include_fallback, #[trigger] table[j])
}

/// The names and keys that a descriptor shows, read back from it.
pub open spec fn descriptor_content(p: Plist) -> (Seq<Seq<char>>, Seq<Seq<char>>, Seq<char>) {
    let d = p->Dict_0@;
    (
        seq![d[0].0, d[1].0],
        d[0].1->Array_0@.map_values(|q: Plist| q->Str_0@),
        d[1].1->Str_0@,
    )
}

/// The descriptor of one class.
pub fn class_descriptor(class_name: &ClassName, include_fallback: bool) -> (r: Plist)
    ensures
        describes(*class_name, include_fallback, r),
{
    let mut classes: Vec<Plist> = Vec::new();
    classes.push(Plist::Str(class_name.name.clone()));
    if include_fallback {
        let n = class_name.fallback_names.len();
        let ghost fallback = class_name.fallback_names@.map_values(|s: String| s@);
        let mut k: usize = 0;
        while k < n
            invariant
                n == class_name.fallback_names@.len(),
                fallback == class_name.fallback_names@.map_values(|s: String| s@),
                k <= n,
                strings_read(classes@, seq![class_name.name@] + fallback.subrange(0, k as int)),
            decreases n - k,
        {
            classes.push(Plist::Str(class_name.fallback_names[k].clone()));
            assert(seq![class_name.name@] + fallback.subrange(0, k + 1) =~= (seq![class_name.name@]
                + fallback.subrange(0, k as int)).push(fallback[k as int]));
            k = k + 1;
        }
        assert(fallback.subrange(0, k as int) =~= fallback);
    }
    let classes_key = String::from_str(CLASSES_KEY);
    let classname_key = String::from_str(CLASSNAME_KEY);
    let name = class_name.name.clone();
    let d = Dict { entries: vec![(classes_key, Plist::Array(classes)), (classname_key, Plist::Str(name))] };
    assert(d@[0].0 == d.entries@[0].0@ && d@[1].0 == d.entries@[1].0@);
    Plist::Dict(d)
}

/// The descriptors of every class of `class_names`, in table order.
pub fn build_class_table(class_names: &Vec<ClassName>, include_fallback: bool) -> (r: Vec<Plist>)
    ensures
        describes_all(class_names@, include_fallback, r@),
{
    let mut table: Vec<Plist> = Vec::new();
    let mut j: usize = 0;
    while j < class_names.len()
        invariant
            j <= class_names@.len(),
            describes_all(class_names@.subrange(0, j as int), include_fallback, table@),
        decreases class_names@.len() - j,
    {
        table.push(class_descriptor(&class_names[j], include_fallback));
        assert forall|i: int| 0 <= i < j implies class_names@.subrange(0, j + 1)[i] == class_names@.subrange(0, j as int)[i] by {}
        assert(class_names@.subrange(0, j + 1)[j as int] == class_names@[j as int]);
        j = j + 1;
    }
    assert(class_names@.subrange(0, j as int) =~= class_names@);
    table
}

} // verus!
