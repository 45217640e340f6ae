use self_type_binder::binder::{
    first_bad_expr, foreign_names_of, register_rust_ty_conversation_rules,
    register_typemap_for_self_type, BindError, ClassInfo, SourceLocation,
};
use self_type_binder::templates::OwnershipPolicy;
use self_type_binder::type_expr::parses_as_type;
use self_type_binder::typemap::{AllocError, ForeignType, TypeMap};

fn loc() -> SourceLocation {
    SourceLocation { file_id: 3, line: 10, column: 4 }
}

fn class(name: &str, native: &str, self_ty: &str, policy: OwnershipPolicy) -> ClassInfo {
    ClassInfo {
        name: name.to_string(),
        location: loc(),
        native_type: native.to_string(),
        self_type: self_ty.to_string(),
        constructor_ret_type: native.to_string(),
        policy,
    }
}

fn index_of(m: &TypeMap, expr: &str, suffix: &str) -> usize {
    m.types
        .iter()
        .position(|k| k.expr == expr && k.suffix == suffix)
        .expect("type registered")
}

fn foreign<'a>(m: &'a TypeMap, name: &str) -> &'a ForeignType {
    m.foreign_types.iter().find(|f| f.name == name).expect("descriptor registered")
}

#[test]
fn type_expressions_are_parsed() {
    assert!(parses_as_type("Vec<u8>"));
    assert!(parses_as_type("&mut Point"));
    assert!(!parses_as_type("& dyn Foo + Send"));
    assert!(!parses_as_type("Vec<"));
}

#[test]
fn each_policy_gives_one_out_and_one_in_edge() {
    for policy in [OwnershipPolicy::Unique, OwnershipPolicy::CopyValue, OwnershipPolicy::SharedCount] {
        let mut m = TypeMap::new();
        register_typemap_for_self_type(&mut m, &class("Point", "Point", "Point", policy)).unwrap();
        let t = index_of(&m, "Point", "");
        let out = index_of(&m, "jlong", "PointOutVal");
        let inv = index_of(&m, "jlong", "PointInVal");
        let outs: Vec<_> = m.rules.iter().filter(|r| r.from == t && r.to == out).collect();
        let ins: Vec<_> = m.rules.iter().filter(|r| r.from == inv && r.to == t).collect();
        assert_eq!(outs.len(), 1);
        assert_eq!(ins.len(), 1);
        assert!(outs[0].code.contains("<Point>::box_object({from_var})"));
        assert_eq!(m.rules.len(), 4);
    }
}

#[test]
fn in_code_follows_the_policy() {
    let code = |policy| {
        let mut m = TypeMap::new();
        register_typemap_for_self_type(&mut m, &class("Point", "Point", "Point", policy)).unwrap();
        let t = index_of(&m, "Point", "");
        let inv = index_of(&m, "jlong", "PointInVal");
        m.rules.iter().find(|r| r.from == inv && r.to == t).unwrap().code.clone()
    };
    let unique = code(OwnershipPolicy::Unique);
    assert!(unique.contains("Box::from_raw({to_var})"));
    assert!(unique.contains("let {to_var}: Point = *{to_var};"));
    let copy = code(OwnershipPolicy::CopyValue);
    assert!(copy.contains("let {to_var}: &Point = unsafe"));
    assert!(copy.contains("let {to_var}: Point = {to_var}.clone();"));
    assert!(!copy.contains("from_raw"));
    let shared = code(OwnershipPolicy::SharedCount);
    assert!(shared.contains("ManuallyDrop::new"));
    assert!(shared.contains("(**tmp).clone()"));
}

#[test]
fn same_self_type_gives_five_descriptors() {
    let mut m = TypeMap::new();
    register_typemap_for_self_type(&mut m, &class("Point", "Point", "Point", OwnershipPolicy::Unique)).unwrap();
    let names: Vec<&str> = m.foreign_types.iter().map(|f| f.name.as_str()).collect();
    assert_eq!(
        names,
        vec!["/*PointOutVal*/long", "/*PointInVal*/long", "Point", "/*ref*/Point", "/*mut ref*/Point"]
    );
}

#[test]
fn divergent_self_type_gives_seven_descriptors() {
    let mut m = TypeMap::new();
    let c = class("Widget", "BoxedWidget", "WidgetHandle", OwnershipPolicy::Unique);
    register_typemap_for_self_type(&mut m, &c).unwrap();
    assert_eq!(m.foreign_types.len(), 7);
    assert_eq!(foreign_names_of(&c).len(), 7);
}

#[test]
fn rebinding_a_class_collides() {
    let mut m = TypeMap::new();
    let c = class("Vec3", "Vec3", "Vec3", OwnershipPolicy::CopyValue);
    register_typemap_for_self_type(&mut m, &c).unwrap();
    let before_types = m.types.len();
    let before_rules = m.rules.len();
    let before_foreign = m.foreign_types.len();
    match register_typemap_for_self_type(&mut m, &c) {
        Err(BindError::NameCollision { location, name }) => {
            assert_eq!(location, loc());
            assert_eq!(name, "/*Vec3OutVal*/long");
        }
        _ => panic!("expected a name collision"),
    }
    assert_eq!(m.types.len(), before_types);
    assert_eq!(m.rules.len(), before_rules);
    assert_eq!(m.foreign_types.len(), before_foreign);
}

#[test]
fn a_taken_class_name_collides() {
    let mut m = TypeMap::new();
    register_typemap_for_self_type(&mut m, &class("Point", "Point", "Point", OwnershipPolicy::Unique)).unwrap();
    let other = class("Point", "OtherPoint", "OtherPoint", OwnershipPolicy::Unique);
    assert!(matches!(
        register_typemap_for_self_type(&mut m, &other),
        Err(BindError::NameCollision { .. })
    ));
}

#[test]
fn two_classes_share_one_native_type() {
    let mut m = TypeMap::new();
    register_typemap_for_self_type(&mut m, &class("A", "Shared", "Shared", OwnershipPolicy::Unique)).unwrap();
    let n = m.types.len();
    register_typemap_for_self_type(&mut m, &class("B", "Shared", "Shared", OwnershipPolicy::Unique)).unwrap();
    assert_eq!(m.foreign_types.len(), 10);
    // only the two suffixed handle types of the second class are new
    assert_eq!(m.types.len(), n + 2);
}

#[test]
fn unparsable_type_is_reported() {
    let mut m = TypeMap::new();
    let c = class("Dyn", "dyn Foo + Send", "dyn Foo + Send", OwnershipPolicy::Unique);
    match register_typemap_for_self_type(&mut m, &c) {
        Err(BindError::TypeExpression { location, expr }) => {
            assert_eq!(location, loc());
            assert_eq!(expr, "& dyn Foo + Send");
        }
        _ => panic!("expected a type expression error"),
    }
    assert!(m.types.is_empty());
    assert!(m.foreign_types.is_empty());
    assert_eq!(first_bad_expr(&c), Some("& dyn Foo + Send".to_string()));
    let bad = class("Bad", "Vec<", "Vec<", OwnershipPolicy::Unique);
    assert_eq!(first_bad_expr(&bad), Some("Vec<".to_string()));
    assert_eq!(first_bad_expr(&class("P", "Point", "Point", OwnershipPolicy::Unique)), None);
}

#[test]
fn handle_deref_rules() {
    let mut m = TypeMap::new();
    register_rust_ty_conversation_rules(&mut m, &"Point".to_string(), loc()).unwrap();
    let h = index_of(&m, "jlong", "");
    let r = index_of(&m, "& Point", "");
    let mr = index_of(&m, "&mut Point", "");
    assert_eq!(m.rules.len(), 2);
    let to_ref = m.rules.iter().find(|e| e.from == h && e.to == r).unwrap();
    assert!(to_ref.code.contains("let {to_var}: &Point = unsafe {"));
    assert!(to_ref.code.contains("jlong_to_pointer::<Point>({from_var})"));
    let to_mut = m.rules.iter().find(|e| e.from == h && e.to == mr).unwrap();
    assert!(to_mut.code.contains("let {to_var}: &mut Point = unsafe {"));
    // a second call replaces the edges instead of adding more
    register_rust_ty_conversation_rules(&mut m, &"Point".to_string(), loc()).unwrap();
    assert_eq!(m.rules.len(), 2);
    assert!(register_rust_ty_conversation_rules(&mut m, &"dyn A + B".to_string(), loc()).is_err());
}

#[test]
fn unique_class_zeroes_stored_handle() {
    let mut m = TypeMap::new();
    register_typemap_for_self_type(&mut m, &class("Point", "Point", "Point", OwnershipPolicy::Unique)).unwrap();
    let primary = foreign(&m, "Point");
    let import = primary.import_rule.as_ref().unwrap();
    let code = &import.intermediate.as_ref().unwrap().code;
    assert!(code.contains("long {to_var} = {from_var}.mNativeObj;"));
    assert!(code.contains("{from_var}.mNativeObj = 0;"));
    let export = primary.export_rule.as_ref().unwrap();
    assert_eq!(
        export.intermediate.as_ref().unwrap().code,
        "        Point {to_var} = new Point(InternalPointerMarker.RAW_PTR, {from_var});"
    );
    assert!(primary.name_prefix.is_none());
}

#[test]
fn copy_value_class_keeps_stored_handle() {
    let mut m = TypeMap::new();
    register_typemap_for_self_type(&mut m, &class("Vec3", "Vec3", "Vec3", OwnershipPolicy::CopyValue)).unwrap();
    let import = foreign(&m, "Vec3").import_rule.as_ref().unwrap();
    let code = &import.intermediate.as_ref().unwrap().code;
    assert!(code.contains("long {to_var} = {from_var}.mNativeObj;"));
    assert!(!code.contains("= 0;"));
}

#[test]
fn out_val_and_in_val_descriptors() {
    let mut m = TypeMap::new();
    register_typemap_for_self_type(&mut m, &class("Point", "Point", "Point", OwnershipPolicy::Unique)).unwrap();
    let out = foreign(&m, "/*PointOutVal*/long");
    assert!(out.import_rule.is_none());
    assert_eq!(out.export_rule.as_ref().unwrap().rust_ty, index_of(&m, "jlong", "PointOutVal"));
    assert_eq!(out.name_prefix.as_deref(), Some("/*PointOutVal*/"));
    let inv = foreign(&m, "/*PointInVal*/long");
    assert!(inv.export_rule.is_none());
    assert_eq!(inv.import_rule.as_ref().unwrap().rust_ty, index_of(&m, "jlong", "PointInVal"));
    assert_eq!(inv.name_prefix.as_deref(), Some("/*PointInVal*/"));
}

#[test]
fn divergent_self_type_reference_descriptors() {
    let mut m = TypeMap::new();
    let c = class("Widget", "BoxedWidget", "WidgetHandle", OwnershipPolicy::Unique);
    register_typemap_for_self_type(&mut m, &c).unwrap();
    let primary_ref = foreign(&m, "/*ref*/Widget");
    let primary_code = &primary_ref.import_rule.as_ref().unwrap().intermediate.as_ref().unwrap().code;
    let handle = index_of(&m, "jlong", "");
    for (name, expr) in [("/*ref 2*/Widget", "& WidgetHandle"), ("/*mut ref 2*/Widget", "&mut WidgetHandle")] {
        let d = foreign(&m, name);
        assert!(d.export_rule.is_none());
        let import = d.import_rule.as_ref().unwrap();
        assert_eq!(import.rust_ty, index_of(&m, expr, ""));
        let inter = import.intermediate.as_ref().unwrap();
        assert_eq!(inter.intermediate_ty, handle);
        assert_eq!(&inter.code, primary_code);
    }
    assert_eq!(primary_code, "        long {to_var} = {from_var}.mNativeObj;");
}

#[test]
fn types_exist_before_use() {
    let mut m = TypeMap::new();
    let c = class("Widget", "BoxedWidget", "WidgetHandle", OwnershipPolicy::SharedCount);
    register_typemap_for_self_type(&mut m, &c).unwrap();
    let n = m.types.len();
    // the constructor returns the native type itself, so it adds no entry
    assert_eq!(n, 10);
    for r in &m.rules {
        assert!(r.from < n && r.to < n);
    }
    index_of(&m, "jobject", "BoxedWidget");
}

#[test]
fn foreign_registry_refuses_a_taken_name() {
    let mut m = TypeMap::new();
    let f = || ForeignType { name: "X".to_string(), import_rule: None, export_rule: None, name_prefix: None };
    assert_eq!(m.alloc_foreign_type(f()), Ok(0));
    assert_eq!(m.alloc_foreign_type(f()), Err(AllocError::NameTaken));
    assert!(m.has_foreign_name(&"X".to_string()));
}

#[test]
fn find_or_alloc_reuses_an_index() {
    let mut m = TypeMap::new();
    let a = m.find_or_alloc("Point", "");
    let b = m.find_or_alloc("jlong", "Point");
    let c = m.find_or_alloc("Point", "");
    assert_eq!(a, 0);
    assert_eq!(b, 1);
    assert_eq!(c, 0);
    assert_eq!(m.position(&"jlong".to_string(), &"Point".to_string()), Some(1));
    assert_eq!(m.position(&"jlong".to_string(), &"".to_string()), None);
}
