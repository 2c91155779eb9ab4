use vstd::prelude::*;
use crate::archive::Archive;
use crate::class_table::{build_class_table, describes};
use crate::document::{Dict, Plist};
use crate::object::{diagnostics_view, reconstruct_object, reconstructs, report_of, Diagnostic};
use crate::scalar::NULL_OBJECT_REFERENCE;

verus! {

/// Name of the archiver that the document claims.
pub const ARCHIVER: &'static str = "NSKeyedArchiver";
/// Archive format version that the document claims.
pub const ARCHIVER_VERSION: i64 = 100000;

/// Key of the archiver name in the document.
pub const ARCHIVER_KEY_NAME: &'static str = "$archiver";
/// Key of the top object in the document.
pub const TOP_KEY_NAME: &'static str = "$top";
/// Key of the objects array in the document.
pub const OBJECTS_KEY_NAME: &'static str = "$objects";
/// Key of the format version in the document.
pub const VERSION_KEY_NAME: &'static str = "$version";

/// Choices that the conversion leaves to its caller.
#[derive(Clone, Copy, Debug)]
pub struct UpgradeOptions {
    /// List each class's fallback names after its own name in its class
    /// descriptor. Off by default: fallback classes are substitutes, not
    /// ancestors, and the descriptor list reads as an ancestry chain.
    pub include_fallback_classes: bool,
}

impl Default for UpgradeOptions {
    fn default() -> (r: Self)
        ensures
            !r.include_fallback_classes,
    {
        UpgradeOptions { include_fallback_classes: false }
    }
}

/// `objs` is the objects array of the document of `a`: the null sentinel,
/// each regular object at its own index, then the class descriptors, the one
/// of class `j` at index `objects count + j`.
pub open spec fn objects_laid_out(a: Archive, include_fallback: bool, objs: Seq<Plist>) -> bool {
    let n = a.objects@.len();
    &&& objs.len() == n + a.class_names@.len()
    &&& objs[0] is Str
    &&& objs[0]->Str_0@ == NULL_OBJECT_REFERENCE@
    &&& forall|i: int|
        1 <= i < n ==> (#[trigger] objs[i] is Dict && reconstructs(a, a.objects@[i], true, objs[i]->Dict_0@))
    &&& forall|j: int|
        0 <= j < a.class_names@.len() ==> describes(a.class_names@[j], include_fallback, #[trigger] objs[n + j])
}

/// `r` is the keyed-archive document of `a`: archiver, objects array, top
/// object without class key, and version, in that order.
pub open spec fn is_upgrade_of(a: Archive, include_fallback: bool, r: Plist) -> bool {
    &&& r is Dict
    &&& r->Dict_0@.len() == 4
    &&& r->Dict_0@[0].0 == ARCHIVER_KEY_NAME@
    &&& r->Dict_0@[0].1 is Str
    &&& r->Dict_0@[0].1->Str_0@ == ARCHIVER@
    &&& r->Dict_0@[1].0 == OBJECTS_KEY_NAME@
    &&& r->Dict_0@[1].1 is Array
    &&& objects_laid_out(a, include_fallback, r->Dict_0@[1].1->Array_0@)
    &&& r->Dict_0@[2].0 == TOP_KEY_NAME@
    &&& r->Dict_0@[2].1 is Dict
    &&& reconstructs(a, a.objects@[0], false, r->Dict_0@[2].1->Dict_0@)
    &&& r->Dict_0@[3].0 == VERSION_KEY_NAME@
    &&& r->Dict_0@[3].1 == Plist::Integer(ARCHIVER_VERSION)
}

/// The diagnostics of objects `lo` up to `hi`, in order.
pub open spec fn reports_between(a: Archive, lo: int, hi: int) -> Seq<(nat, Seq<char>)>
    decreases hi - lo,
{
    if hi <= lo {
        seq![]
    } else {
        reports_between(a, lo, hi - 1) + report_of(a, hi - 1)
    }
}

/// The diagnostics of a whole conversion: the regular objects in order, then
/// the top object.
pub open spec fn upgrade_reports(a: Archive) -> Seq<(nat, Seq<char>)> {
    reports_between(a, 1, a.objects@.len() as int) + report_of(a, 0)
}

/// Converts a flat archive into a keyed-archive document.
///
/// Inline-marked objects of unknown class are reported in `diagnostics`.
pub fn upgrade(archive: &Archive, options: &UpgradeOptions, diagnostics: &mut Vec<Diagnostic>) -> (r: Plist)
    requires
        archive.well_formed(),
    ensures
        is_upgrade_of(*archive, options.include_fallback_classes, r),
        diagnostics_view(final(diagnostics)@) == diagnostics_view(old(diagnostics)@) + upgrade_reports(*archive),
{
    let n = archive.objects.len();
    let mut plist_objects: Vec<Plist> = Vec::new();
    plist_objects.push(Plist::Str(String::from_str(NULL_OBJECT_REFERENCE)));
    assert(diagnostics_view(diagnostics@) =~= diagnostics_view(old(diagnostics)@) + reports_between(*archive, 1, 1));
    let mut i: usize = 1;
    while i < n
        invariant
            archive.well_formed(),
            n == archive.objects@.len(),
            1 <= i <= n,
            plist_objects@.len() == i,
            plist_objects@[0] is Str,
            plist_objects@[0]->Str_0@ == NULL_OBJECT_REFERENCE@,
            forall|k: int|
                1 <= k < i ==> (#[trigger] plist_objects@[k] is Dict && reconstructs(
                    *archive,
                    archive.objects@[k],
                    true,
                    plist_objects@[k]->Dict_0@,
                )),
            diagnostics_view(diagnostics@) == diagnostics_view(old(diagnostics)@) + reports_between(*archive, 1, i as int),
        decreases n - i,
    {
        let d = reconstruct_object(archive, i, true, diagnostics);
        plist_objects.push(Plist::Dict(d));
        assert(diagnostics_view(diagnostics@) =~= diagnostics_view(old(diagnostics)@) + reports_between(*archive, 1, i + 1));
        i = i + 1;
    }
    let mut table = build_class_table(&archive.class_names, options.include_fallback_classes);
    let ghost regular = plist_objects@;
    let ghost descriptors = table@;
    plist_objects.append(&mut table);
    assert(plist_objects@ == regular + descriptors);
    assert forall|j: int| 0 <= j < archive.class_names@.len() implies describes(
        archive.class_names@[j],
        options.include_fallback_classes,
        #[trigger] plist_objects@[n + j],
    ) by {
        assert(plist_objects@[n + j] == descriptors[j]);
    }
    assert forall|k: int| 1 <= k < n implies #[trigger] plist_objects@[k] == regular[k] by {}
    let top = reconstruct_object(archive, 0, false, diagnostics);
    assert(diagnostics_view(diagnostics@) =~= diagnostics_view(old(diagnostics)@) + upgrade_reports(*archive));
    let root = Dict {
        entries: vec![
            (String::from_str(ARCHIVER_KEY_NAME), Plist::Str(String::from_str(ARCHIVER))),
            (String::from_str(OBJECTS_KEY_NAME), Plist::Array(plist_objects)),
            (String::from_str(TOP_KEY_NAME), Plist::Dict(top)),
            (String::from_str(VERSION_KEY_NAME), Plist::Integer(ARCHIVER_VERSION)),
        ],
    };
    Plist::Dict(root)
}

} // verus!
