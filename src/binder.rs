use vstd::prelude::*;

use crate::templates::{
    box_code, deref_code, in_code, make_box_code, make_deref_code, make_in_code,
    make_mut_ref_expr, make_read_field_code, make_ref_expr, make_take_field_code, make_wrap_code,
    mut_ref_expr, read_field_code, ref_expr, take_field_code, wrap_code, OwnershipPolicy,
};
use crate::type_expr::{is_type_expr, parses_as_type};
use crate::typemap::{
    refs_in_range, foreign_names, key_index, lemma_key_index, put_rule, unique, ForeignRule, ForeignRuleModel,
    ForeignType, ForeignTypeModel, Intermediate, KeyModel, RuleModel, TypeMap, TypeMapModel,
};

verus! {

/// Where a class was declared.
#[derive(PartialEq, Eq, Structural, Clone, Copy, Debug)]
pub struct SourceLocation {
    pub file_id: u32,
    pub line: u32,
    pub column: u32,
}

/// One exposed class: its foreign name, the concrete native type that is
/// boxed behind each handle, the type exposed as `self` (the same type, or an
/// opaque handle type of the same representation), the type its constructors
/// return, and how a handle is consumed.
pub struct ClassInfo {
    pub name: String,
    pub location: SourceLocation,
    pub native_type: String,
    pub self_type: String,
    pub constructor_ret_type: String,
    pub policy: OwnershipPolicy,
}

pub struct ClassModel {
    pub name: Seq<char>,
    pub location: SourceLocation,
    pub native_type: Seq<char>,
    pub self_type: Seq<char>,
    pub constructor_ret_type: Seq<char>,
    pub policy: OwnershipPolicy,
}

impl View for ClassInfo {
    type V = ClassModel;

    open spec fn view(&self) -> ClassModel {
        ClassModel {
            name: self.name@,
            location: self.location,
            native_type: self.native_type@,
            self_type: self.self_type@,
            constructor_ret_type: self.constructor_ret_type@,
            policy: self.policy,
        }
    }
}

/// Why a class could not be bound. Either aborts the whole pass.
#[derive(Debug)]
pub enum BindError {
    /// A type expression, given or synthesized, does not parse.
    TypeExpression { location: SourceLocation, expr: String },
    /// A foreign name of the class is taken, or two of them coincide.
    NameCollision { location: SourceLocation, name: String },
}

pub open spec fn divergent(c: ClassModel) -> bool {
    c.self_type != c.native_type
}

/// The type expressions that binding `c` reads or synthesizes.
pub open spec fn checked_exprs(c: ClassModel) -> Seq<Seq<char>> {
    seq![
        c.native_type,
        c.constructor_ret_type,
        c.self_type,
        ref_expr(c.native_type),
        mut_ref_expr(c.native_type),
        ref_expr(c.self_type),
        mut_ref_expr(c.self_type),
    ]
}

pub open spec fn all_parse(exprs: Seq<Seq<char>>) -> bool {
    forall|i: int| 0 <= i < exprs.len() ==> is_type_expr(#[trigger] exprs[i])
}

pub open spec fn out_val_suffix(name: Seq<char>) -> Seq<char> {
    name + "OutVal"@
}

pub open spec fn in_val_suffix(name: Seq<char>) -> Seq<char> {
    name + "InVal"@
}

pub open spec fn out_val_prefix(name: Seq<char>) -> Seq<char> {
    "/*"@ + name + "OutVal*/"@
}

pub open spec fn in_val_prefix(name: Seq<char>) -> Seq<char> {
    "/*"@ + name + "InVal*/"@
}

pub open spec fn handle_key() -> KeyModel {
    ("jlong"@, ""@)
}

pub open spec fn plain(t: Seq<char>) -> KeyModel {
    (t, ""@)
}

/// The native types that binding `c` registers.
pub open spec fn type_keys(c: ClassModel) -> Seq<KeyModel> {
    let base = seq![
        plain(c.native_type),
        ("jobject"@, c.native_type),
        plain(c.constructor_ret_type),
        plain(ref_expr(c.native_type)),
        plain(mut_ref_expr(c.native_type)),
        handle_key(),
        plain(c.self_type),
        ("jlong"@, out_val_suffix(c.name)),
        ("jlong"@, in_val_suffix(c.name)),
    ];
    if divergent(c) {
        base + seq![plain(ref_expr(c.self_type)), plain(mut_ref_expr(c.self_type))]
    } else {
        base
    }
}

/// `new` keeps `old` as its prefix, and adds only keys of `keys`.
pub open spec fn grows_within(old: Seq<KeyModel>, new: Seq<KeyModel>, keys: Seq<KeyModel>) -> bool {
    &&& old.len() <= new.len()
    &&& forall|i: int| 0 <= i < old.len() ==> new[i] == old[i]
    &&& forall|i: int| old.len() <= i < new.len() ==> keys.contains(#[trigger] new[i])
}

/// `old` grown by registering each of `keys` that is missing.
pub open spec fn types_after(old: Seq<KeyModel>, new: Seq<KeyModel>, keys: Seq<KeyModel>) -> bool {
    &&& grows_within(old, new, keys)
    &&& forall|i: int| 0 <= i < keys.len() ==> new.contains(#[trigger] keys[i])
}

/// A descriptor for a reference form of the class, import only, that reads
/// the stored handle.
pub open spec fn ref_descriptor(prefix: Seq<char>, name: Seq<char>, ty: nat, handle: nat) -> ForeignTypeModel {
    ForeignTypeModel {
        name: prefix + name,
        import_rule: Some(ForeignRuleModel { rust_ty: ty, intermediate: Some((handle, read_field_code())) }),
        export_rule: None,
        name_prefix: Some(prefix),
    }
}

/// The foreign names that binding `c` registers, in order.
pub open spec fn class_foreign_names(c: ClassModel) -> Seq<Seq<char>> {
    let base = seq![
        out_val_prefix(c.name) + "long"@,
        in_val_prefix(c.name) + "long"@,
        c.name,
        "/*ref*/"@ + c.name,
        "/*mut ref*/"@ + c.name,
    ];
    if divergent(c) {
        base + seq!["/*ref 2*/"@ + c.name, "/*mut ref 2*/"@ + c.name]
    } else {
        base
    }
}

/// None of `new` is in `existing`, and none occurs twice.
pub open spec fn fresh(existing: Seq<Seq<char>>, new: Seq<Seq<char>>) -> bool {
    &&& unique(new)
    &&& forall|i: int| 0 <= i < new.len() ==> !existing.contains(#[trigger] new[i])
}

/// The foreign descriptors that binding `c` registers, over the final types.
pub open spec fn class_descriptors(c: ClassModel, types: Seq<KeyModel>) -> Seq<ForeignTypeModel> {
    let t = key_index(types, plain(c.native_type)) as nat;
    let handle = key_index(types, handle_key()) as nat;
    let out_val = key_index(types, ("jlong"@, out_val_suffix(c.name))) as nat;
    let in_val = key_index(types, ("jlong"@, in_val_suffix(c.name))) as nat;
    let base = seq![
        ForeignTypeModel {
            name: out_val_prefix(c.name) + "long"@,
            import_rule: None,
            export_rule: Some(ForeignRuleModel { rust_ty: out_val, intermediate: None }),
            name_prefix: Some(out_val_prefix(c.name)),
        },
        ForeignTypeModel {
            name: in_val_prefix(c.name) + "long"@,
            import_rule: Some(ForeignRuleModel { rust_ty: in_val, intermediate: None }),
            export_rule: None,
            name_prefix: Some(in_val_prefix(c.name)),
        },
        ForeignTypeModel {
            name: c.name,
            import_rule: Some(ForeignRuleModel {
                rust_ty: t,
                intermediate: Some((in_val, take_field_code(c.policy))),
            }),
            export_rule: Some(ForeignRuleModel {
                rust_ty: t,
                intermediate: Some((out_val, wrap_code(c.name))),
            }),
            name_prefix: None,
        },
        ref_descriptor("/*ref*/"@, c.name, key_index(types, plain(ref_expr(c.native_type))) as nat, handle),
        ref_descriptor("/*mut ref*/"@, c.name, key_index(types, plain(mut_ref_expr(c.native_type))) as nat, handle),
    ];
    if divergent(c) {
        base + seq![
            ref_descriptor("/*ref 2*/"@, c.name, key_index(types, plain(ref_expr(c.self_type))) as nat, handle),
            ref_descriptor("/*mut ref 2*/"@, c.name, key_index(types, plain(mut_ref_expr(c.self_type))) as nat, handle),
        ]
    } else {
        base
    }
}

/// The two edges from a handle to borrowed forms of the boxed type `t`.
pub open spec fn handle_rules(t: Seq<char>, types: Seq<KeyModel>, rules: Seq<RuleModel>) -> Seq<RuleModel> {
    let handle = key_index(types, handle_key()) as nat;
    let r = put_rule(rules, handle, key_index(types, plain(ref_expr(t))) as nat, deref_code("&"@, t));
    put_rule(r, handle, key_index(types, plain(mut_ref_expr(t))) as nat, deref_code("&mut "@, t))
}

/// The OUT edge (value to handle) and the IN edge (handle to value) of `c`.
pub open spec fn value_rules(c: ClassModel, types: Seq<KeyModel>, rules: Seq<RuleModel>) -> Seq<RuleModel> {
    let t = key_index(types, plain(c.native_type)) as nat;
    let out_val = key_index(types, ("jlong"@, out_val_suffix(c.name))) as nat;
    let in_val = key_index(types, ("jlong"@, in_val_suffix(c.name))) as nat;
    let r = put_rule(rules, t, out_val, box_code(c.native_type));
    put_rule(r, in_val, t, in_code(c.policy, c.native_type))
}

/// The registries after binding `c` into `old` succeeded.
pub open spec fn bound(old: TypeMapModel, c: ClassModel, new: TypeMapModel) -> bool {
    &&& types_after(old.types, new.types, type_keys(c))
    &&& new.rules == value_rules(c, new.types, handle_rules(c.native_type, new.types, old.rules))
    &&& new.foreign_types == old.foreign_types + class_descriptors(c, new.types)
}

/// What binding `c` into `old` gives: `new` and the result `r`.
pub open spec fn register_outcome(
    old: TypeMapModel,
    c: ClassModel,
    new: TypeMapModel,
    r: Result<(), BindError>,
) -> bool {
    if !all_parse(checked_exprs(c)) {
        &&& new == old
        &&& r matches Err(BindError::TypeExpression { location, expr })
        &&& location == c.location
        &&& checked_exprs(c).contains(expr@)
        &&& !is_type_expr(expr@)
    } else if !fresh(foreign_names(old.foreign_types), class_foreign_names(c)) {
        &&& new == old
        &&& r matches Err(BindError::NameCollision { location, name })
        &&& location == c.location
        &&& class_foreign_names(c).contains(name@)
    } else {
        &&& r is Ok
        &&& new.wf()
        &&& bound(old, c, new)
    }
}


pub proof fn lemma_grows_trans(
    a: Seq<KeyModel>,
    b: Seq<KeyModel>,
    c: Seq<KeyModel>,
    k1: Seq<KeyModel>,
    k2: Seq<KeyModel>,
    keys: Seq<KeyModel>,
)
    requires
        grows_within(a, b, k1),
        grows_within(b, c, k2),
        forall|i: int| 0 <= i < k1.len() ==> keys.contains(#[trigger] k1[i]),
        forall|i: int| 0 <= i < k2.len() ==> keys.contains(#[trigger] k2[i]),
    ensures
        grows_within(a, c, keys),
{
    assert forall|i: int| a.len() <= i < c.len() implies keys.contains(#[trigger] c[i]) by {
        if i < b.len() {
            assert(k1.contains(b[i]));
            let j = choose|j: int| 0 <= j < k1.len() && k1[j] == b[i];
            assert(keys.contains(k1[j]));
        } else {
            assert(k2.contains(c[i]));
            let j = choose|j: int| 0 <= j < k2.len() && k2[j] == c[i];
            assert(keys.contains(k2[j]));
        }
    }
}

/// The `k`-th new name is missing from the names registered before it.
pub proof fn lemma_fresh_step(existing: Seq<Seq<char>>, new: Seq<Seq<char>>, k: int)
    requires
        fresh(existing, new),
        0 <= k < new.len(),
    ensures
        !(existing + new.take(k)).contains(new[k]),
{
    let all = existing + new.take(k);
    if all.contains(new[k]) {
        let i = choose|i: int| 0 <= i < all.len() && all[i] == new[k];
        if i < existing.len() {
            assert(existing[i] == new[k]);
            assert(existing.contains(new[k]));
        } else {
            assert(new[i - existing.len()] == new[k]);
        }
    }
}

fn push_foreign(conv_map: &mut TypeMap, ft: ForeignType)
    requires
        old(conv_map)@.wf(),
        refs_in_range(ft@.import_rule, old(conv_map)@.types.len()),
        refs_in_range(ft@.export_rule, old(conv_map)@.types.len()),
        !foreign_names(old(conv_map)@.foreign_types).contains(ft@.name),
    ensures
        final(conv_map)@.wf(),
        final(conv_map)@.types == old(conv_map)@.types,
        final(conv_map)@.rules == old(conv_map)@.rules,
        final(conv_map)@.foreign_types == old(conv_map)@.foreign_types.push(ft@),
{
    let _ = conv_map.alloc_foreign_type(ft);
}

/// Installs the two edges that turn a handle into a shared or a mutable
/// borrow of the boxed `this_type`. The generated code reads the handle as
/// the address of a live object boxed by the OUT edge of the same class:
/// that is the one place where the generated code trusts a raw address.
pub fn register_rust_ty_conversation_rules(
    conv_map: &mut TypeMap,
    this_type: &String,
    location: SourceLocation,
) -> (r: Result<(), BindError>)
    requires
        old(conv_map)@.wf(),
        old(conv_map)@.types.len() + 3 <= usize::MAX,
    ensures
        final(conv_map)@.wf(),
        final(conv_map)@.types.len() <= old(conv_map)@.types.len() + 3,
        !(is_type_expr(ref_expr(this_type@)) && is_type_expr(mut_ref_expr(this_type@))) ==> {
            &&& final(conv_map)@ == old(conv_map)@
            &&& r matches Err(BindError::TypeExpression { location: l, expr })
            &&& l == location
            &&& !is_type_expr(expr@)
            &&& (expr@ == ref_expr(this_type@) || expr@ == mut_ref_expr(this_type@))
        },
        is_type_expr(ref_expr(this_type@)) && is_type_expr(mut_ref_expr(this_type@)) ==> {
            &&& r is Ok
            &&& types_after(
                old(conv_map)@.types,
                final(conv_map)@.types,
                handle_keys(this_type@),
            )
            &&& final(conv_map)@.rules == handle_rules(this_type@, final(conv_map)@.types, old(conv_map)@.rules)
            &&& final(conv_map)@.foreign_types == old(conv_map)@.foreign_types
        },
{
    let ref_ty = make_ref_expr(this_type);
    if !parses_as_type(ref_ty.as_str()) {
        return Err(BindError::TypeExpression { location, expr: ref_ty });
    }
    let mut_ty = make_mut_ref_expr(this_type);
    if !parses_as_type(mut_ty.as_str()) {
        return Err(BindError::TypeExpression { location, expr: mut_ty });
    }
    let ghost types0 = conv_map@.types;
    let handle = conv_map.find_or_alloc("jlong", "");
    let ref_idx = conv_map.find_or_alloc(ref_ty.as_str(), "");
    let ghost types2 = conv_map@.types;
    conv_map.add_conversion_rule(handle, ref_idx, make_deref_code("&", this_type));
    let mut_idx = conv_map.find_or_alloc(mut_ty.as_str(), "");
    conv_map.add_conversion_rule(handle, mut_idx, make_deref_code("&mut ", this_type));
    proof {
        let fin = conv_map@.types;
        let keys = handle_keys(this_type@);
        assert(fin[handle as int] == handle_key());
        assert(fin[ref_idx as int] == plain(ref_expr(this_type@)));
        lemma_key_index(fin, handle as int);
        lemma_key_index(fin, ref_idx as int);
        lemma_key_index(fin, mut_idx as int);
        lemma_key_index(types2, handle as int);
        lemma_key_index(types2, ref_idx as int);
        assert(keys[0] == handle_key());
        assert(keys[1] == plain(ref_expr(this_type@)));
        assert(keys[2] == plain(mut_ref_expr(this_type@)));
        assert(fin.contains(keys[0]));
        assert(fin.contains(keys[1]));
        assert(fin.contains(keys[2]));
        assert forall|i: int| types0.len() <= i < fin.len() implies keys.contains(#[trigger] fin[i]) by {
            if fin[i] == keys[0] {
            } else if fin[i] == keys[1] {
            } else {
                assert(fin[i] == keys[2]);
            }
        }
    }
    Ok(())
}


/// The native types that the OUT/IN rules and descriptors of `c` add.
pub open spec fn main_keys(c: ClassModel) -> Seq<KeyModel> {
    let base = seq![("jlong"@, out_val_suffix(c.name)), ("jlong"@, in_val_suffix(c.name)), handle_key()];
    if divergent(c) {
        base + seq![plain(mut_ref_expr(c.self_type)), plain(ref_expr(c.self_type))]
    } else {
        base
    }
}

fn prepend(a: &str, b: &String) -> (r: String)
    ensures
        r@ == a@ + b@,
{
    let mut r = String::from_str(a);
    r.append(b.as_str());
    r
}

fn append_str(a: &String, b: &str) -> (r: String)
    ensures
        r@ == a@ + b@,
{
    let mut r = a.clone();
    r.append(b);
    r
}

fn ref_descriptor_exec(prefix: &str, name: &String, ty: usize, handle: usize) -> (r: ForeignType)
    ensures
        r@ == ref_descriptor(prefix@, name@, ty as nat, handle as nat),
{
    let code = make_read_field_code();
    let ghost cv = code@;
    let r = ForeignType {
        name: prepend(prefix, name),
        import_rule: Some(ForeignRule {
            rust_ty: ty,
            intermediate: Some(Intermediate { intermediate_ty: handle, code }),
        }),
        export_rule: None,
        name_prefix: Some(String::from_str(prefix)),
    };
    r
}

/// Installs the OUT and IN edges of the class, as its ownership policy
/// prescribes, and registers its foreign descriptors: the outgoing and the
/// incoming handle, the class itself, and its borrowed forms (those of the
/// self type as well where it differs from the native type).
#[verifier::rlimit(100)]
#[verifier::spinoff_prover]
pub fn register_main_foreign_types(
    conv_map: &mut TypeMap,
    class: &ClassInfo,
    this_type: usize,
    self_type: usize,
    this_type_ref: usize,
    this_type_mut_ref: usize,
)
    requires
        old(conv_map)@.wf(),
        old(conv_map)@.types.len() + 5 <= usize::MAX,
        this_type < old(conv_map)@.types.len(),
        self_type < old(conv_map)@.types.len(),
        this_type_ref < old(conv_map)@.types.len(),
        this_type_mut_ref < old(conv_map)@.types.len(),
        old(conv_map)@.types[this_type as int] == plain(class@.native_type),
        old(conv_map)@.types[self_type as int] == plain(class@.self_type),
        old(conv_map)@.types[this_type_ref as int] == plain(ref_expr(class@.native_type)),
        old(conv_map)@.types[this_type_mut_ref as int] == plain(mut_ref_expr(class@.native_type)),
        fresh(foreign_names(old(conv_map)@.foreign_types), class_foreign_names(class@)),
    ensures
        final(conv_map)@.wf(),
        final(conv_map)@.types.len() <= old(conv_map)@.types.len() + 5,
        types_after(old(conv_map)@.types, final(conv_map)@.types, main_keys(class@)),
        final(conv_map)@.rules == value_rules(class@, final(conv_map)@.types, old(conv_map)@.rules),
        final(conv_map)@.foreign_types == old(conv_map)@.foreign_types + class_descriptors(
            class@,
            final(conv_map)@.types,
        ),
{
    let ghost c = class@;
    let ghost old_map = conv_map@;
    let ghost names = class_foreign_names(c);
    let ghost existing = foreign_names(old_map.foreign_types);
    let name = &class.name;

    let out_suffix = append_str(name, "OutVal");
    let out_val = conv_map.find_or_alloc("jlong", out_suffix.as_str());
    conv_map.add_conversion_rule(this_type, out_val, make_box_code(&class.native_type));
    let out_prefix = append_str(&prepend("/*", name), "OutVal*/");
    let out_name = append_str(&out_prefix, "long");
    proof {
        assert(out_suffix@ =~= out_val_suffix(c.name));
        assert(out_name@ =~= names[0]);
        lemma_fresh_step(existing, names, 0);
        assert(foreign_names(conv_map@.foreign_types) =~= existing + names.take(0));
    }
    push_foreign(
        conv_map,
        ForeignType {
            name: out_name,
            import_rule: None,
            export_rule: Some(ForeignRule { rust_ty: out_val, intermediate: None }),
            name_prefix: Some(out_prefix),
        },
    );

    let in_suffix = append_str(name, "InVal");
    let in_val = conv_map.find_or_alloc("jlong", in_suffix.as_str());
    conv_map.add_conversion_rule(in_val, this_type, make_in_code(class.policy, &class.native_type));
    let in_prefix = append_str(&prepend("/*", name), "InVal*/");
    let in_name = append_str(&in_prefix, "long");
    proof {
        assert(in_suffix@ =~= in_val_suffix(c.name));
        assert(in_name@ =~= names[1]);
        lemma_fresh_step(existing, names, 1);
        assert(foreign_names(conv_map@.foreign_types) =~= existing + names.take(1));
    }
    push_foreign(
        conv_map,
        ForeignType {
            name: in_name,
            import_rule: Some(ForeignRule { rust_ty: in_val, intermediate: None }),
            export_rule: None,
            name_prefix: Some(in_prefix),
        },
    );

    proof {
        assert(class.name@ == names[2]);
        lemma_fresh_step(existing, names, 2);
        assert(foreign_names(conv_map@.foreign_types) =~= existing + names.take(2));
    }
    push_foreign(
        conv_map,
        ForeignType {
            name: class.name.clone(),
            import_rule: Some(ForeignRule {
                rust_ty: this_type,
                intermediate: Some(Intermediate { intermediate_ty: in_val, code: make_take_field_code(class.policy) }),
            }),
            export_rule: Some(ForeignRule {
                rust_ty: this_type,
                intermediate: Some(Intermediate { intermediate_ty: out_val, code: make_wrap_code(name) }),
            }),
            name_prefix: None,
        },
    );

    let handle = conv_map.find_or_alloc("jlong", "");
    let d = ref_descriptor_exec("/*ref*/", name, this_type_ref, handle);
    proof {
        lemma_fresh_step(existing, names, 3);
        assert(foreign_names(conv_map@.foreign_types) =~= existing + names.take(3));
    }
    push_foreign(conv_map, d);
    let d = ref_descriptor_exec("/*mut ref*/", name, this_type_mut_ref, handle);
    proof {
        lemma_fresh_step(existing, names, 4);
        assert(foreign_names(conv_map@.foreign_types) =~= existing + names.take(4));
    }
    push_foreign(conv_map, d);
    let ghost types5 = conv_map@.types;

    let mut self_ref: usize = 0;
    let mut self_mut_ref: usize = 0;
    if self_type != this_type {
        let mut_ty = make_mut_ref_expr(&class.self_type);
        self_mut_ref = conv_map.find_or_alloc(mut_ty.as_str(), "");
        let ty = make_ref_expr(&class.self_type);
        self_ref = conv_map.find_or_alloc(ty.as_str(), "");
        let d = ref_descriptor_exec("/*ref 2*/", name, self_ref, handle);
        proof {
            assert(divergent(c));
            lemma_fresh_step(existing, names, 5);
            assert(foreign_names(conv_map@.foreign_types) =~= existing + names.take(5));
        }
        push_foreign(conv_map, d);
        let d = ref_descriptor_exec("/*mut ref 2*/", name, self_mut_ref, handle);
        proof {
            lemma_fresh_step(existing, names, 6);
            assert(foreign_names(conv_map@.foreign_types) =~= existing + names.take(6));
        }
        push_foreign(conv_map, d);
    }
    proof {
        let fin = conv_map@.types;
        let keys = main_keys(c);
        assert(divergent(c) == (self_type != this_type)) by {
            if self_type != this_type {
                assert(old_map.types[self_type as int] != old_map.types[this_type as int]);
            }
        }
        lemma_key_index(fin, this_type as int);
        lemma_key_index(fin, this_type_ref as int);
        lemma_key_index(fin, this_type_mut_ref as int);
        lemma_key_index(fin, out_val as int);
        lemma_key_index(fin, in_val as int);
        lemma_key_index(fin, handle as int);
        assert(fin.contains(keys[0]));
        assert(fin.contains(keys[1]));
        assert(fin.contains(keys[2]));
        if divergent(c) {
            lemma_key_index(fin, self_ref as int);
            lemma_key_index(fin, self_mut_ref as int);
            assert(fin.contains(keys[3]));
            assert(fin.contains(keys[4]));
        }
        assert forall|i: int| old_map.types.len() <= i < fin.len() implies keys.contains(#[trigger] fin[i]) by {
            if fin[i] == keys[0] {
            } else if fin[i] == keys[1] {
            } else if fin[i] == keys[2] {
            } else if fin[i] == keys[3] {
            } else {
                assert(fin[i] == keys[4]);
            }
        }
        assert(conv_map@.foreign_types =~= old_map.foreign_types + class_descriptors(c, fin));
    }
}


pub open spec fn names_view(v: Seq<String>) -> Seq<Seq<char>> {
    v.map_values(|s: String| s@)
}

fn same_text(a: &String, b: &String) -> (r: bool)
    ensures
        r == (a@ == b@),
{
    a.eq(b)
}

/// The foreign names that binding `class` registers, in order.
pub fn foreign_names_of(class: &ClassInfo) -> (r: Vec<String>)
    ensures
        names_view(r@) == class_foreign_names(class@),
{
    let name = &class.name;
    let mut r: Vec<String> = Vec::new();
    r.push(append_str(&append_str(&prepend("/*", name), "OutVal*/"), "long"));
    r.push(append_str(&append_str(&prepend("/*", name), "InVal*/"), "long"));
    r.push(name.clone());
    r.push(prepend("/*ref*/", name));
    r.push(prepend("/*mut ref*/", name));
    if !same_text(&class.self_type, &class.native_type) {
        r.push(prepend("/*ref 2*/", name));
        r.push(prepend("/*mut ref 2*/", name));
    }
    assert(names_view(r@) =~= class_foreign_names(class@));
    r
}

/// The position of the first of `names` that is registered already or
/// repeats an earlier one; `None` where all are fresh.
pub fn first_collision(conv_map: &TypeMap, names: &Vec<String>) -> (r: Option<usize>)
    ensures
        r is None <==> fresh(foreign_names(conv_map@.foreign_types), names_view(names@)),
        r matches Some(i) ==> i < names@.len(),
{
    let ghost existing = foreign_names(conv_map@.foreign_types);
    let ghost nv = names_view(names@);
    let mut i: usize = 0;
    while i < names.len()
        invariant
            0 <= i <= names.len(),
            nv == names_view(names@),
            existing == foreign_names(conv_map@.foreign_types),
            fresh(existing, nv.take(i as int)),
        decreases names.len() - i,
    {
        if conv_map.has_foreign_name(&names[i]) {
            assert(!fresh(existing, nv)) by {
                assert(existing.contains(nv[i as int]));
            }
            return Some(i);
        }
        let mut j: usize = 0;
        while j < i
            invariant
                0 <= j <= i < names.len(),
                nv == names_view(names@),
                forall|k: int| 0 <= k < j ==> nv[k] != nv[i as int],
            decreases i - j,
        {
            if same_text(&names[j], &names[i]) {
                assert(!fresh(existing, nv)) by {
                    assert(nv[j as int] == nv[i as int]);
                }
                return Some(i);
            }
            j = j + 1;
        }
        assert(fresh(existing, nv.take(i + 1))) by {
            let t = nv.take(i + 1);
            assert forall|a: int, b: int| 0 <= a < t.len() && 0 <= b < t.len() && a != b implies t[a] != t[b] by {
                if a < i && b < i {
                    assert(nv.take(i as int)[a] != nv.take(i as int)[b]);
                }
            }
            assert forall|a: int| 0 <= a < t.len() implies !existing.contains(#[trigger] t[a]) by {
                if a < i {
                    assert(nv.take(i as int)[a] == t[a]);
                }
            }
        }
        i = i + 1;
    }
    assert(nv.take(i as int) =~= nv);
    None
}

pub open spec fn handle_keys(t: Seq<char>) -> Seq<KeyModel> {
    seq![handle_key(), plain(ref_expr(t)), plain(mut_ref_expr(t))]
}

/// The native types that binding `c` registers before any edge.
pub open spec fn class_keys(c: ClassModel) -> Seq<KeyModel> {
    seq![
        plain(c.native_type),
        ("jobject"@, c.native_type),
        plain(c.constructor_ret_type),
        plain(ref_expr(c.native_type)),
        plain(mut_ref_expr(c.native_type)),
    ]
}

pub proof fn lemma_contains_kept(a: Seq<KeyModel>, b: Seq<KeyModel>, keys: Seq<KeyModel>, k: KeyModel)
    requires
        grows_within(a, b, keys),
        a.contains(k),
    ensures
        b.contains(k),
{
    let j = choose|j: int| 0 <= j < a.len() && a[j] == k;
    assert(b[j] == k);
}

/// A key keeps its position when more keys are registered after it.
pub proof fn lemma_key_index_stable(a: Seq<KeyModel>, b: Seq<KeyModel>, k: KeyModel)
    requires
        unique(b),
        a.len() <= b.len(),
        forall|i: int| 0 <= i < a.len() ==> b[i] == a[i],
        a.contains(k),
    ensures
        key_index(a, k) == key_index(b, k),
        0 <= key_index(a, k) < a.len(),
{
    let j = choose|j: int| 0 <= j < a.len() && a[j] == k;
    assert(unique(a)) by {
        assert forall|x: int, y: int| 0 <= x < a.len() && 0 <= y < a.len() && x != y implies a[x] != a[y] by {
            assert(b[x] == a[x] && b[y] == a[y]);
        }
    }
    lemma_key_index(a, j);
    lemma_key_index(b, j);
}

pub proof fn lemma_compose_types(
    c: ClassModel,
    t0: Seq<KeyModel>,
    t1: Seq<KeyModel>,
    t2: Seq<KeyModel>,
    t3: Seq<KeyModel>,
    fin: Seq<KeyModel>,
)
    requires
        types_after(t0, t1, class_keys(c)),
        types_after(t1, t2, handle_keys(c.native_type)),
        grows_within(t2, t3, seq![plain(c.self_type)]),
        t3.contains(plain(c.self_type)),
        types_after(t3, fin, main_keys(c)),
    ensures
        types_after(t0, fin, type_keys(c)),
{
    let keys = type_keys(c);
    let k1 = class_keys(c);
    let k2 = handle_keys(c.native_type);
    let k3 = seq![plain(c.self_type)];
    let mk = main_keys(c);
    assert forall|i: int| 0 <= i < k1.len() implies keys.contains(#[trigger] k1[i]) by {
        assert(keys[i] == k1[i]);
    }
    assert forall|i: int| 0 <= i < k2.len() implies keys.contains(#[trigger] k2[i]) by {
        if i == 0 {
            assert(keys[5] == k2[i]);
        } else {
            assert(keys[i + 2] == k2[i]);
        }
    }
    assert forall|i: int| 0 <= i < k3.len() implies keys.contains(#[trigger] k3[i]) by {
        assert(keys[6] == k3[i]);
    }
    assert forall|i: int| 0 <= i < mk.len() implies keys.contains(#[trigger] mk[i]) by {
        if i == 0 {
            assert(keys[7] == mk[i]);
        } else if i == 1 {
            assert(keys[8] == mk[i]);
        } else if i == 2 {
            assert(keys[5] == mk[i]);
        } else if i == 3 {
            assert(keys[10] == mk[i]);
        } else {
            assert(keys[9] == mk[i]);
        }
    }
    lemma_grows_trans(t0, t1, t2, k1, k2, keys);
    lemma_grows_trans(t0, t2, t3, keys, k3, keys);
    lemma_grows_trans(t0, t3, fin, keys, mk, keys);
    assert forall|i: int| 0 <= i < keys.len() implies fin.contains(#[trigger] keys[i]) by {
        if i < 5 {
            assert(keys[i] == k1[i]);
            assert(t1.contains(k1[i]));
            lemma_contains_kept(t1, t2, k2, keys[i]);
            lemma_contains_kept(t2, t3, k3, keys[i]);
            lemma_contains_kept(t3, fin, mk, keys[i]);
        } else if i == 5 {
            assert(keys[i] == k2[0]);
            assert(t2.contains(k2[0]));
            lemma_contains_kept(t2, t3, k3, keys[i]);
            lemma_contains_kept(t3, fin, mk, keys[i]);
        } else if i == 6 {
            lemma_contains_kept(t3, fin, mk, keys[i]);
        } else {
            let m = if i == 7 { 0int } else if i == 8 { 1int } else if i == 9 { 4int } else { 3int };
            assert(keys[i] == mk[m]);
            assert(fin.contains(mk[m]));
        }
    }
}

/// Registers the native type of `class`, its handle carrier, its
/// constructor's return type and the two borrows of the native type.
fn alloc_class_types(conv_map: &mut TypeMap, class: &ClassInfo) -> (r: (usize, usize, usize))
    requires
        old(conv_map)@.wf(),
        old(conv_map)@.types.len() + 5 <= usize::MAX,
    ensures
        final(conv_map)@.wf(),
        final(conv_map)@.types.len() <= old(conv_map)@.types.len() + 5,
        types_after(old(conv_map)@.types, final(conv_map)@.types, class_keys(class@)),
        final(conv_map)@.rules == old(conv_map)@.rules,
        final(conv_map)@.foreign_types == old(conv_map)@.foreign_types,
        r.0 < final(conv_map)@.types.len(),
        r.1 < final(conv_map)@.types.len(),
        r.2 < final(conv_map)@.types.len(),
        final(conv_map)@.types[r.0 as int] == plain(class@.native_type),
        final(conv_map)@.types[r.1 as int] == plain(ref_expr(class@.native_type)),
        final(conv_map)@.types[r.2 as int] == plain(mut_ref_expr(class@.native_type)),
{
    let ghost types0 = conv_map@.types;
    let this_type = conv_map.find_or_alloc(class.native_type.as_str(), "");
    let carrier = conv_map.find_or_alloc("jobject", class.native_type.as_str());
    let ctor = conv_map.find_or_alloc(class.constructor_ret_type.as_str(), "");
    let ref_ty = make_ref_expr(&class.native_type);
    let this_type_ref = conv_map.find_or_alloc(ref_ty.as_str(), "");
    let mut_ty = make_mut_ref_expr(&class.native_type);
    let this_type_mut_ref = conv_map.find_or_alloc(mut_ty.as_str(), "");
    proof {
        let fin = conv_map@.types;
        let keys = class_keys(class@);
        assert(fin[this_type as int] == keys[0]);
        assert(fin[carrier as int] == keys[1]);
        assert(fin[ctor as int] == keys[2]);
        assert(fin[this_type_ref as int] == keys[3]);
        assert(fin[this_type_mut_ref as int] == keys[4]);
        assert forall|i: int| 0 <= i < keys.len() implies fin.contains(#[trigger] keys[i]) by {
            if i == 0 {
                assert(fin[this_type as int] == keys[i]);
            } else if i == 1 {
                assert(fin[carrier as int] == keys[i]);
            } else if i == 2 {
                assert(fin[ctor as int] == keys[i]);
            } else if i == 3 {
                assert(fin[this_type_ref as int] == keys[i]);
            } else {
                assert(fin[this_type_mut_ref as int] == keys[i]);
            }
        }
        assert forall|i: int| types0.len() <= i < fin.len() implies keys.contains(#[trigger] fin[i]) by {
            if fin[i] == keys[0] {
            } else if fin[i] == keys[1] {
            } else if fin[i] == keys[2] {
            } else if fin[i] == keys[3] {
            } else {
                assert(fin[i] == keys[4]);
            }
        }
    }
    (this_type, this_type_ref, this_type_mut_ref)
}

/// The first of the type expressions that binding `class` reads or
/// synthesizes that does not parse; `None` where all of them do.
pub fn first_bad_expr(class: &ClassInfo) -> (r: Option<String>)
    ensures
        r is None <==> all_parse(checked_exprs(class@)),
        r matches Some(e) ==> checked_exprs(class@).contains(e@) && !is_type_expr(e@),
{
    let mut exprs: Vec<String> = Vec::new();
    exprs.push(class.native_type.clone());
    exprs.push(class.constructor_ret_type.clone());
    exprs.push(class.self_type.clone());
    exprs.push(make_ref_expr(&class.native_type));
    exprs.push(make_mut_ref_expr(&class.native_type));
    exprs.push(make_ref_expr(&class.self_type));
    exprs.push(make_mut_ref_expr(&class.self_type));
    assert(names_view(exprs@) =~= checked_exprs(class@));
    let mut i: usize = 0;
    while i < exprs.len()
        invariant
            0 <= i <= exprs.len(),
            names_view(exprs@) == checked_exprs(class@),
            forall|k: int| 0 <= k < i ==> is_type_expr(#[trigger] checked_exprs(class@)[k]),
        decreases exprs.len() - i,
    {
        if !parses_as_type(exprs[i].as_str()) {
            let e = exprs[i].clone();
            assert(checked_exprs(class@)[i as int] == e@);
            assert(checked_exprs(class@).contains(e@));
            assert(!is_type_expr(e@));
            assert(!all_parse(checked_exprs(class@)));
            return Some(e);
        }
        i = i + 1;
    }
    None
}

/// Binds one class: registers its handle carrier, its constructor's return
/// type and the borrowed forms of its native type, then the edges from a
/// handle to those borrows, the OUT and IN edges of its ownership policy and
/// its foreign descriptors.
///
/// Every type expression is checked and every foreign name is tested before
/// anything is registered, so that a failure leaves the registries as they
/// were.
#[verifier::rlimit(100)]
#[verifier::spinoff_prover]
pub fn register_typemap_for_self_type(conv_map: &mut TypeMap, class: &ClassInfo) -> (r: Result<(), BindError>)
    requires
        old(conv_map)@.wf(),
        old(conv_map)@.types.len() + 16 <= usize::MAX,
    ensures
        register_outcome(old(conv_map)@, class@, final(conv_map)@, r),
{
    let ghost c = class@;
    let location = class.location;
    match first_bad_expr(class) {
        Some(expr) => {
            return Err(BindError::TypeExpression { location, expr });
        },
        None => {},
    }

    let names = foreign_names_of(class);
    match first_collision(conv_map, &names) {
        Some(k) => {
            assert(class_foreign_names(c)[k as int] == names@[k as int]@);
            assert(class_foreign_names(c).contains(names@[k as int]@));
            return Err(BindError::NameCollision { location, name: names[k].clone() });
        },
        None => {},
    }

    let ghost types0 = conv_map@.types;
    let (this_type, this_type_ref, this_type_mut_ref) = alloc_class_types(conv_map, class);
    let ghost types1 = conv_map@.types;
    let ghost rules1 = conv_map@.rules;
    assert(is_type_expr(checked_exprs(class@)[3]));
    assert(is_type_expr(checked_exprs(class@)[4]));
    if let Err(e) = register_rust_ty_conversation_rules(conv_map, &class.native_type, location) {
        return Err(e);
    }
    let ghost types2 = conv_map@.types;
    let self_type = conv_map.find_or_alloc(class.self_type.as_str(), "");
    let ghost types3 = conv_map@.types;
    proof {
        assert(seq![plain(class@.self_type)][0] == plain(class@.self_type));
        assert(types3.contains(plain(class@.self_type)));
    }
    register_main_foreign_types(conv_map, class, this_type, self_type, this_type_ref, this_type_mut_ref);
    proof {
        let fin = conv_map@.types;
        lemma_compose_types(class@, types0, types1, types2, types3, fin);
        let t = class@.native_type;
        let keys = handle_keys(t);
        assert(types2.contains(keys[0]));
        assert(types2.contains(keys[1]));
        assert(types2.contains(keys[2]));
        lemma_key_index_stable(types2, fin, keys[0]);
        lemma_key_index_stable(types2, fin, keys[1]);
        lemma_key_index_stable(types2, fin, keys[2]);
        assert(handle_rules(t, types2, rules1) == handle_rules(t, fin, rules1));
    }
    Ok(())
}

} // verus!
