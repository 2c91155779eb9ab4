use nibarchive_upgrade::archive::{Archive, ClassName, Object, Value, Variant};
use nibarchive_upgrade::class_table::{build_class_table, class_descriptor};
use nibarchive_upgrade::document::{Dict, Plist};
use nibarchive_upgrade::object::{reconstruct_object, Diagnostic};
use nibarchive_upgrade::scalar::translate;
use nibarchive_upgrade::upgrade::{upgrade, UpgradeOptions};

fn class(name: &str) -> ClassName {
    ClassName { name: name.to_string(), fallback_names: Vec::new() }
}

fn val(key_index: usize, variant: Variant) -> Value {
    Value { key_index, variant }
}

fn obj(class_name_index: usize, values_index: usize, value_count: usize) -> Object {
    Object { class_name_index, values_index, value_count }
}

fn keys(names: &[&str]) -> Vec<String> {
    names.iter().map(|s| s.to_string()).collect()
}

fn dict(p: &Plist) -> &Dict {
    match p {
        Plist::Dict(d) => d,
        other => panic!("not a mapping: {:?}", other),
    }
}

fn array(p: &Plist) -> &Vec<Plist> {
    match p {
        Plist::Array(a) => a,
        other => panic!("not an array: {:?}", other),
    }
}

fn key_names(d: &Dict) -> Vec<&str> {
    d.entries.iter().map(|(k, _)| k.as_str()).collect()
}

fn get<'a>(d: &'a Dict, key: &str) -> &'a Plist {
    &d.entries.iter().find(|(k, _)| k == key).expect("missing key").1
}

fn is_uid(p: &Plist, expected: u64) -> bool {
    matches!(p, Plist::Uid(u) if *u == expected)
}

fn is_str(p: &Plist, expected: &str) -> bool {
    matches!(p, Plist::Str(s) if s == expected)
}

fn uids(p: &Plist) -> Vec<u64> {
    array(p)
        .iter()
        .map(|e| match e {
            Plist::Uid(u) => *u,
            other => panic!("not a uid: {:?}", other),
        })
        .collect()
}

fn objects_of(doc: &Plist) -> &Vec<Plist> {
    array(get(dict(doc), "$objects"))
}

/// Root `{view: ref 2}` and an inlined `NSArray` of refs 5 and 6.
fn array_archive() -> Archive {
    Archive {
        objects: vec![obj(1, 0, 1), obj(0, 1, 3)],
        keys: keys(&["view", "NSInlinedValue", "UINibEncoderEmptyKey"]),
        values: vec![
            val(0, Variant::ObjectRef(2)),
            val(1, Variant::Bool(true)),
            val(2, Variant::ObjectRef(5)),
            val(2, Variant::ObjectRef(6)),
        ],
        class_names: vec![class("NSArray"), class("UIView")],
    }
}

#[test]
fn inlined_array_expands_to_elements() {
    let archive = array_archive();
    assert!(archive.is_well_formed());
    let mut diagnostics = Vec::new();
    let doc = upgrade(&archive, &UpgradeOptions::default(), &mut diagnostics);
    assert!(diagnostics.is_empty());
    let objects = objects_of(&doc);
    assert_eq!(objects.len(), 4);
    assert!(is_str(&objects[0], "$null"));
    let slot1 = dict(&objects[1]);
    assert_eq!(key_names(slot1), vec!["$class", "NS.objects"]);
    assert!(is_uid(get(slot1, "$class"), 2));
    assert_eq!(uids(get(slot1, "NS.objects")), vec![5, 6]);
    let top = dict(get(dict(&doc), "$top"));
    assert_eq!(key_names(top), vec!["view"]);
    assert!(is_uid(get(top, "view"), 2));
}

fn dictionary_archive(tail: Vec<Variant>, class_name: &str) -> Archive {
    let mut values = vec![val(0, Variant::Bool(true))];
    for v in tail {
        values.push(val(1, v));
    }
    let n = values.len();
    Archive {
        objects: vec![obj(0, 0, 0), obj(0, 0, n)],
        keys: keys(&["NSInlinedValue", "UINibEncoderEmptyKey"]),
        values,
        class_names: vec![class(class_name)],
    }
}

#[test]
fn inlined_dictionary_splits_keys_and_values() {
    let archive = dictionary_archive(
        vec![Variant::ObjectRef(11), Variant::ObjectRef(21), Variant::ObjectRef(12), Variant::ObjectRef(22)],
        "NSDictionary",
    );
    let mut diagnostics = Vec::new();
    let d = reconstruct_object(&archive, 1, true, &mut diagnostics);
    assert!(diagnostics.is_empty());
    assert_eq!(key_names(&d), vec!["$class", "NS.keys", "NS.values"]);
    assert!(is_uid(get(&d, "$class"), 2));
    assert_eq!(uids(get(&d, "NS.keys")), vec![11, 12]);
    assert_eq!(uids(get(&d, "NS.values")), vec![21, 22]);
}

#[test]
fn inlined_dictionary_odd_tail_keeps_trailing_key() {
    let archive = dictionary_archive(
        vec![Variant::ObjectRef(11), Variant::ObjectRef(21), Variant::ObjectRef(12)],
        "NSMutableDictionary",
    );
    let mut diagnostics = Vec::new();
    let d = reconstruct_object(&archive, 1, false, &mut diagnostics);
    assert_eq!(key_names(&d), vec!["NS.keys", "NS.values"]);
    assert_eq!(uids(get(&d, "NS.keys")), vec![11, 12]);
    assert_eq!(uids(get(&d, "NS.values")), vec![21]);
}

#[test]
fn empty_inlined_set_has_empty_elements() {
    let archive = dictionary_archive(vec![], "NSMutableSet");
    let mut diagnostics = Vec::new();
    let d = reconstruct_object(&archive, 1, true, &mut diagnostics);
    assert_eq!(key_names(&d), vec!["$class", "NS.objects"]);
    assert!(array(get(&d, "NS.objects")).is_empty());
}

#[test]
fn null_becomes_null_string_everywhere() {
    assert!(is_str(&translate(&Variant::Nil), "$null"));
    let archive = dictionary_archive(vec![Variant::Nil, Variant::ObjectRef(3)], "NSSet");
    let mut diagnostics = Vec::new();
    let d = reconstruct_object(&archive, 1, true, &mut diagnostics);
    let elements = array(get(&d, "NS.objects"));
    assert_eq!(elements.len(), 2);
    assert!(is_str(&elements[0], "$null"));
    assert!(is_uid(&elements[1], 3));

    let archive = dictionary_archive(vec![Variant::ObjectRef(4), Variant::Nil], "NSDictionary");
    let d = reconstruct_object(&archive, 1, true, &mut diagnostics);
    let values = array(get(&d, "NS.values"));
    assert_eq!(values.len(), 1);
    assert!(is_str(&values[0], "$null"));

    let archive = Archive {
        objects: vec![obj(0, 0, 1)],
        keys: keys(&["delegate"]),
        values: vec![val(0, Variant::Nil)],
        class_names: vec![class("NSObject")],
    };
    let top = reconstruct_object(&archive, 0, false, &mut diagnostics);
    assert_eq!(key_names(&top), vec!["delegate"]);
    assert!(is_str(get(&top, "delegate"), "$null"));
    assert!(diagnostics.is_empty());
}

#[test]
fn unknown_inlined_class_passes_values_through() {
    let archive = dictionary_archive(vec![Variant::Int8(7)], "NSOrderedSet");
    let mut diagnostics: Vec<Diagnostic> = Vec::new();
    let doc = upgrade(&archive, &UpgradeOptions::default(), &mut diagnostics);
    assert_eq!(diagnostics.len(), 1);
    assert_eq!(diagnostics[0].object_index, 1);
    assert_eq!(diagnostics[0].class_name, "NSOrderedSet");
    let d = dict(&objects_of(&doc)[1]);
    assert_eq!(key_names(d), vec!["$class", "NSInlinedValue", "UINibEncoderEmptyKey"]);
    assert!(matches!(get(d, "NSInlinedValue"), Plist::Boolean(true)));
    assert!(matches!(get(d, "UINibEncoderEmptyKey"), Plist::Integer(7)));
}

#[test]
fn false_marker_is_not_inline() {
    let mut archive = dictionary_archive(vec![Variant::ObjectRef(1)], "NSArray");
    archive.values[0].variant = Variant::Bool(false);
    let mut diagnostics = Vec::new();
    let d = reconstruct_object(&archive, 1, false, &mut diagnostics);
    assert_eq!(key_names(&d), vec!["NSInlinedValue", "UINibEncoderEmptyKey"]);
    assert!(matches!(get(&d, "NSInlinedValue"), Plist::Boolean(false)));
    assert!(diagnostics.is_empty());
}

#[test]
fn class_uid_points_at_own_descriptor() {
    let archive = Archive {
        objects: vec![obj(0, 0, 0), obj(2, 0, 0), obj(1, 0, 0)],
        keys: vec![],
        values: vec![],
        class_names: vec![class("NSObject"), class("UIView"), class("UILabel")],
    };
    let mut diagnostics = Vec::new();
    let doc = upgrade(&archive, &UpgradeOptions::default(), &mut diagnostics);
    let objects = objects_of(&doc);
    assert_eq!(objects.len(), 6);
    for (index, name) in [(1usize, "UILabel"), (2, "UIView")] {
        let d = dict(&objects[index]);
        assert_eq!(key_names(d), vec!["$class"]);
        let uid = match get(d, "$class") {
            Plist::Uid(u) => *u as usize,
            other => panic!("not a uid: {:?}", other),
        };
        assert_eq!(uid, 3 + archive.objects[index].class_name_index);
        assert!(is_str(get(dict(&objects[uid]), "$classname"), name));
    }
}

#[test]
fn class_table_is_repeatable() {
    let names = vec![class("UIView"), class("UILabel")];
    let first = build_class_table(&names, false);
    let second = build_class_table(&names, false);
    assert_eq!(format!("{:?}", first), format!("{:?}", second));
    assert_eq!(first.len(), 2);
    let d = dict(&first[1]);
    assert_eq!(key_names(d), vec!["$classes", "$classname"]);
    let classes = array(get(d, "$classes"));
    assert_eq!(classes.len(), 1);
    assert!(is_str(&classes[0], "UILabel"));
    assert!(is_str(get(d, "$classname"), "UILabel"));
}

#[test]
fn fallback_names_only_when_asked() {
    let c = ClassName { name: "UIColor".to_string(), fallback_names: vec!["NSColor".to_string()] };
    let without = class_descriptor(&c, false);
    assert_eq!(array(get(dict(&without), "$classes")).len(), 1);
    let with = class_descriptor(&c, true);
    let classes = array(get(dict(&with), "$classes"));
    assert_eq!(classes.len(), 2);
    assert!(is_str(&classes[0], "UIColor"));
    assert!(is_str(&classes[1], "NSColor"));
    assert!(is_str(get(dict(&with), "$classname"), "UIColor"));
    assert!(!UpgradeOptions::default().include_fallback_classes);
}

#[test]
fn plain_object_keeps_value_order_and_count() {
    let archive = Archive {
        objects: vec![obj(0, 0, 0), obj(0, 0, 3)],
        keys: keys(&["b", "a", "c"]),
        values: vec![val(0, Variant::Int16(-2)), val(1, Variant::Int32(70000)), val(2, Variant::Int64(-9))],
        class_names: vec![class("UIView")],
    };
    let mut diagnostics = Vec::new();
    let d = reconstruct_object(&archive, 1, true, &mut diagnostics);
    assert_eq!(key_names(&d), vec!["$class", "b", "a", "c"]);
    assert!(matches!(get(&d, "b"), Plist::Integer(-2)));
    assert!(matches!(get(&d, "a"), Plist::Integer(70000)));
    assert!(matches!(get(&d, "c"), Plist::Integer(-9)));
}

#[test]
fn repeated_key_keeps_place_last_value_wins() {
    let archive = Archive {
        objects: vec![obj(0, 0, 3)],
        keys: keys(&["x", "y"]),
        values: vec![val(0, Variant::Int8(1)), val(1, Variant::Int8(2)), val(0, Variant::Int8(3))],
        class_names: vec![class("UIView")],
    };
    let mut diagnostics = Vec::new();
    let d = reconstruct_object(&archive, 0, false, &mut diagnostics);
    assert_eq!(key_names(&d), vec!["x", "y"]);
    assert!(matches!(get(&d, "x"), Plist::Integer(3)));
    assert!(matches!(get(&d, "y"), Plist::Integer(2)));
}

#[test]
fn dict_insert_replaces_in_place() {
    let mut d = Dict::new();
    d.insert("a".to_string(), Plist::Integer(1));
    d.insert("b".to_string(), Plist::Integer(2));
    d.insert("a".to_string(), Plist::Boolean(false));
    assert_eq!(key_names(&d), vec!["a", "b"]);
    assert!(matches!(get(&d, "a"), Plist::Boolean(false)));
}

#[test]
fn scalars_translate_exactly() {
    assert!(matches!(translate(&Variant::Int8(-128)), Plist::Integer(-128)));
    assert!(matches!(translate(&Variant::Int16(-300)), Plist::Integer(-300)));
    assert!(matches!(translate(&Variant::Int32(i32::MIN)), Plist::Integer(v) if v == i32::MIN as i64));
    assert!(matches!(translate(&Variant::Int64(i64::MAX)), Plist::Integer(i64::MAX)));
    assert!(matches!(translate(&Variant::Bool(true)), Plist::Boolean(true)));
    let f = 1.5f32.to_bits();
    assert!(matches!(translate(&Variant::Float(f)), Plist::SingleReal(b) if b == f));
    let g = (-0.25f64).to_bits();
    assert!(matches!(translate(&Variant::Double(g)), Plist::Real(b) if b == g));
    assert!(matches!(translate(&Variant::Data(vec![1, 2, 3])), Plist::Data(d) if d == vec![1, 2, 3]));
    assert!(matches!(translate(&Variant::ObjectRef(u32::MAX)), Plist::Uid(u) if u == u32::MAX as u64));
}

#[test]
fn document_has_fixed_header() {
    let archive = array_archive();
    let mut diagnostics = Vec::new();
    let doc = upgrade(&archive, &UpgradeOptions::default(), &mut diagnostics);
    let root = dict(&doc);
    assert_eq!(key_names(root), vec!["$archiver", "$objects", "$top", "$version"]);
    assert!(is_str(get(root, "$archiver"), "NSKeyedArchiver"));
    assert!(matches!(get(root, "$version"), Plist::Integer(100000)));
    let objects = objects_of(&doc);
    let descriptor = dict(&objects[2]);
    assert!(is_str(get(descriptor, "$classname"), "NSArray"));
    assert!(is_str(get(dict(&objects[3]), "$classname"), "UIView"));
}

#[test]
fn top_object_unknown_inline_reported_last() {
    let archive = Archive {
        objects: vec![obj(0, 0, 1), obj(0, 0, 1)],
        keys: keys(&["NSInlinedValue"]),
        values: vec![val(0, Variant::Bool(true))],
        class_names: vec![class("Custom")],
    };
    let mut diagnostics = Vec::new();
    let doc = upgrade(&archive, &UpgradeOptions::default(), &mut diagnostics);
    let indices: Vec<usize> = diagnostics.iter().map(|d| d.object_index).collect();
    assert_eq!(indices, vec![1, 0]);
    let top = dict(get(dict(&doc), "$top"));
    assert_eq!(key_names(top), vec!["NSInlinedValue"]);
}

#[test]
fn well_formedness_rejects_bad_indices() {
    assert!(array_archive().is_well_formed());
    let mut a = array_archive();
    a.objects.clear();
    assert!(!a.is_well_formed());
    let mut a = array_archive();
    a.objects[1].class_name_index = 2;
    assert!(!a.is_well_formed());
    let mut a = array_archive();
    a.objects[1].value_count = 4;
    assert!(!a.is_well_formed());
    let mut a = array_archive();
    a.values[3].key_index = 3;
    assert!(!a.is_well_formed());
}
