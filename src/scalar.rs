use vstd::prelude::*;
use crate::archive::Variant;
use crate::document::Plist;

verus! {

/// The string that stands for a null reference.
pub const NULL_OBJECT_REFERENCE: &'static str = "$null";

/// `p` is the document value of the flat primitive `v`.
pub open spec fn translates(v: Variant, p: Plist) -> bool {
    match v {
        Variant::Int8(x) => p == Plist::Integer(x as i64),
        Variant::Int16(x) => p == Plist::Integer(x as i64),
        Variant::Int32(x) => p == Plist::Integer(x as i64),
        Variant::Int64(x) => p == Plist::Integer(x),
        Variant::Bool(b) => p == Plist::Boolean(b),
        Variant::Float(bits) => p == Plist::SingleReal(bits),
        Variant::Double(bits) => p == Plist::Real(bits),
        Variant::Data(d) => p is Data && p->Data_0@ == d@,
        Variant::Nil => p is Str && p->Str_0@ == NULL_OBJECT_REFERENCE@,
        Variant::ObjectRef(i) => p == Plist::Uid(i as u64),
    }
}

/// Translates one flat primitive into a document value.
pub fn translate(v: &Variant) -> (r: Plist)
    ensures
        translates(*v, r),
{
    match v {
        Variant::Int8(x) => Plist::Integer(*x as i64),
        Variant::Int16(x) => Plist::Integer(*x as i64),
        Variant::Int32(x) => Plist::Integer(*x as i64),
        Variant::Int64(x) => Plist::Integer(*x),
        Variant::Bool(b) => Plist::Boolean(*b),
        Variant::Float(bits) => Plist::SingleReal(*bits),
        Variant::Double(bits) => Plist::Real(*bits),
        Variant::Data(d) => Plist::Data(d.clone()),
        Variant::Nil => Plist::Str(String::from_str(NULL_OBJECT_REFERENCE)),
        Variant::ObjectRef(i) => Plist::Uid(*i as u64),
    }
}

} // verus!
