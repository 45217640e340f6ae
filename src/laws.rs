use vstd::prelude::*;

use crate::binder::{
    class_descriptors, class_foreign_names, divergent, fresh, in_val_suffix, out_val_suffix,
    plain, register_outcome, type_keys, BindError, ClassModel,
};
use crate::templates::{box_code, in_code};
use crate::typemap::{
    find_rule, foreign_names, key_index, lemma_find_rule, put_rule, KeyModel, RuleModel,
    TypeMapModel,
};

verus! {

proof fn lemma_put_rule_has(rules: Seq<RuleModel>, a: nat, b: nat, code: Seq<char>)
    ensures
        put_rule(rules, a, b, code).contains((a, b, code)),
{
    lemma_find_rule(rules, a, b);
    let r = put_rule(rules, a, b, code);
    let i = find_rule(rules, a, b);
    if i >= 0 {
        assert(r[i] == (a, b, code));
    } else {
        assert(r[rules.len() as int] == (a, b, code));
    }
}

proof fn lemma_put_rule_keeps(rules: Seq<RuleModel>, a: nat, b: nat, code: Seq<char>, e: RuleModel)
    requires
        rules.contains(e),
        e.0 != a || e.1 != b,
    ensures
        put_rule(rules, a, b, code).contains(e),
{
    lemma_find_rule(rules, a, b);
    let r = put_rule(rules, a, b, code);
    let j = choose|j: int| 0 <= j < rules.len() && rules[j] == e;
    assert(r[j] == e);
}

proof fn lemma_distinct_index(types: Seq<KeyModel>, k1: KeyModel, k2: KeyModel)
    requires
        types.contains(k1),
        types.contains(k2),
        k1 != k2,
    ensures
        key_index(types, k1) != key_index(types, k2),
{
    let i = key_index(types, k1);
    let j = key_index(types, k2);
    assert(types[i] == k1);
    assert(types[j] == k2);
}

/// Binding a class records exactly one OUT edge, from its native type to its
/// outgoing handle with the boxing code, and exactly one IN edge, from its
/// incoming handle back to the native type with the code of its ownership
/// policy: both are there, and no two edges join the same pair of types.
pub proof fn lemma_one_out_edge_one_in_edge(old: TypeMapModel, c: ClassModel, new: TypeMapModel)
    requires
        old.wf(),
        register_outcome(old, c, new, Ok::<(), BindError>(())),
    ensures
        new.rules.contains(
            (
                key_index(new.types, plain(c.native_type)) as nat,
                key_index(new.types, ("jlong"@, out_val_suffix(c.name))) as nat,
                box_code(c.native_type),
            ),
        ),
        new.rules.contains(
            (
                key_index(new.types, ("jlong"@, in_val_suffix(c.name))) as nat,
                key_index(new.types, plain(c.native_type)) as nat,
                in_code(c.policy, c.native_type),
            ),
        ),
        forall|i: int, j: int|
            0 <= i < new.rules.len() && 0 <= j < new.rules.len() && #[trigger] new.rules[i].0
                == #[trigger] new.rules[j].0 && new.rules[i].1 == new.rules[j].1 ==> i == j,
{
    let keys = type_keys(c);
    let tk = plain(c.native_type);
    let ok = ("jlong"@, out_val_suffix(c.name));
    let ik = ("jlong"@, in_val_suffix(c.name));
    assert(keys[0] == tk);
    assert(keys[7] == ok);
    assert(keys[8] == ik);
    assert(new.types.contains(tk));
    assert(new.types.contains(ok));
    assert(new.types.contains(ik));
    reveal_strlit("jlong");
    assert(tk.0 != ok.0 || tk.1 != ok.1) by {
        reveal_strlit("");
        assert(""@.len() == 0);
        assert(ok.1.len() > 0) by {
            reveal_strlit("OutVal");
        }
    }
    lemma_distinct_index(new.types, tk, ok);
    let t = key_index(new.types, tk) as nat;
    let o = key_index(new.types, ok) as nat;
    let i = key_index(new.types, ik) as nat;
    let r0 = crate::binder::handle_rules(c.native_type, new.types, old.rules);
    let r1 = put_rule(r0, t, o, box_code(c.native_type));
    lemma_put_rule_has(r0, t, o, box_code(c.native_type));
    lemma_put_rule_keeps(r1, i, t, in_code(c.policy, c.native_type), (t, o, box_code(c.native_type)));
    lemma_put_rule_has(r1, i, t, in_code(c.policy, c.native_type));
    let pairs = new.rules.map_values(|r: RuleModel| (r.0, r.1));
    assert forall|a: int, b: int|
        0 <= a < new.rules.len() && 0 <= b < new.rules.len() && #[trigger] new.rules[a].0
            == #[trigger] new.rules[b].0 && new.rules[a].1 == new.rules[b].1 implies a == b by {
        assert(pairs[a] == pairs[b]);
    }
}

/// Binding a class registers five foreign descriptors where its self type is
/// its native type, and seven where they differ.
pub proof fn lemma_descriptor_count(old: TypeMapModel, c: ClassModel, new: TypeMapModel)
    requires
        register_outcome(old, c, new, Ok::<(), BindError>(())),
    ensures
        new.foreign_types.len() == old.foreign_types.len() + (if divergent(c) { 7int } else { 5int }),
        class_descriptors(c, new.types).len() == (if divergent(c) { 7int } else { 5int }),
{
}

/// Binding the same class a second time into what the first binding left
/// fails with a name collision and changes nothing.
pub proof fn lemma_rebind_collides(
    m0: TypeMapModel,
    c: ClassModel,
    m1: TypeMapModel,
    m2: TypeMapModel,
    r: Result<(), BindError>,
)
    requires
        m0.wf(),
        register_outcome(m0, c, m1, Ok::<(), BindError>(())),
        register_outcome(m1, c, m2, r),
    ensures
        r matches Err(BindError::NameCollision { .. }),
        m2 == m1,
{
    let n = m0.foreign_types.len();
    let d = class_descriptors(c, m1.types);
    assert(m1.foreign_types[n as int] == d[0]);
    assert(foreign_names(m1.foreign_types)[n as int] == class_foreign_names(c)[0]);
    assert(foreign_names(m1.foreign_types).contains(class_foreign_names(c)[0]));
    assert(!fresh(foreign_names(m1.foreign_types), class_foreign_names(c)));
}

} // verus!
