use vstd::prelude::*;

verus! {

/// A structural type expression, optionally tagged with a suffix that keeps
/// otherwise equal expressions apart (`jlong` for one class's outgoing values).
pub struct RustTypeKey {
    pub expr: String,
    pub suffix: String,
}

pub type KeyModel = (Seq<char>, Seq<char>);

impl View for RustTypeKey {
    type V = KeyModel;

    open spec fn view(&self) -> KeyModel {
        (self.expr@, self.suffix@)
    }
}

/// A directed conversion edge of the native side: how to produce a value of
/// `to` from a value of `from`.
pub struct ConversionRule {
    pub from: usize,
    pub to: usize,
    pub code: String,
}

pub type RuleModel = (nat, nat, Seq<char>);

impl View for ConversionRule {
    type V = RuleModel;

    open spec fn view(&self) -> RuleModel {
        (self.from as nat, self.to as nat, self.code@)
    }
}

/// The step through an intermediate type that a foreign-side rule takes.
pub struct Intermediate {
    pub intermediate_ty: usize,
    pub code: String,
}

pub struct ForeignRule {
    pub rust_ty: usize,
    pub intermediate: Option<Intermediate>,
}

pub struct ForeignRuleModel {
    pub rust_ty: nat,
    pub intermediate: Option<(nat, Seq<char>)>,
}

impl View for ForeignRule {
    type V = ForeignRuleModel;

    open spec fn view(&self) -> ForeignRuleModel {
        ForeignRuleModel {
            rust_ty: self.rust_ty as nat,
            intermediate: match self.intermediate {
                Some(i) => Some((i.intermediate_ty as nat, i.code@)),
                None => None,
            },
        }
    }
}

/// A type as the foreign side names it, with the rule that brings a foreign
/// value into native code (`import_rule`) and the one that hands a native
/// value out (`export_rule`).
pub struct ForeignType {
    pub name: String,
    pub import_rule: Option<ForeignRule>,
    pub export_rule: Option<ForeignRule>,
    pub name_prefix: Option<String>,
}

pub struct ForeignTypeModel {
    pub name: Seq<char>,
    pub import_rule: Option<ForeignRuleModel>,
    pub export_rule: Option<ForeignRuleModel>,
    pub name_prefix: Option<Seq<char>>,
}

pub open spec fn opt_rule_view(r: Option<ForeignRule>) -> Option<ForeignRuleModel> {
    match r {
        Some(x) => Some(x@),
        None => None,
    }
}

impl View for ForeignType {
    type V = ForeignTypeModel;

    open spec fn view(&self) -> ForeignTypeModel {
        ForeignTypeModel {
            name: self.name@,
            import_rule: opt_rule_view(self.import_rule),
            export_rule: opt_rule_view(self.export_rule),
            name_prefix: match self.name_prefix {
                Some(p) => Some(p@),
                None => None,
            },
        }
    }
}

/// The registries that one compilation pass fills: native types by index,
/// the conversion edges between them, and the foreign types by name.
pub struct TypeMap {
    pub types: Vec<RustTypeKey>,
    pub rules: Vec<ConversionRule>,
    pub foreign_types: Vec<ForeignType>,
}

pub struct TypeMapModel {
    pub types: Seq<KeyModel>,
    pub rules: Seq<RuleModel>,
    pub foreign_types: Seq<ForeignTypeModel>,
}

impl View for TypeMap {
    type V = TypeMapModel;

    open spec fn view(&self) -> TypeMapModel {
        TypeMapModel {
            types: self.types@.map_values(|k: RustTypeKey| k@),
            rules: self.rules@.map_values(|r: ConversionRule| r@),
            foreign_types: self.foreign_types@.map_values(|f: ForeignType| f@),
        }
    }
}

/// No value occurs twice.
pub open spec fn unique<A>(s: Seq<A>) -> bool {
    forall|i: int, j: int| 0 <= i < s.len() && 0 <= j < s.len() && i != j ==> s[i] != s[j]
}

/// The position of `k` in `types`, meaningful where `k` occurs there.
pub open spec fn key_index(types: Seq<KeyModel>, k: KeyModel) -> int {
    choose|i: int| 0 <= i < types.len() && types[i] == k
}

/// The index of the edge from `from` to `to`, or -1 where there is none.
pub open spec fn find_rule(rules: Seq<RuleModel>, from: nat, to: nat) -> int
    decreases rules.len(),
{
    if rules.len() == 0 {
        -1
    } else if rules.last().0 == from && rules.last().1 == to {
        rules.len() - 1
    } else {
        find_rule(rules.drop_last(), from, to)
    }
}

/// The edges after recording `from -> to` with `code`: an edge between the
/// same pair gets the new code, else the edge is added.
pub open spec fn put_rule(rules: Seq<RuleModel>, from: nat, to: nat, code: Seq<char>) -> Seq<RuleModel> {
    let i = find_rule(rules, from, to);
    if i >= 0 {
        rules.update(i, (from, to, code))
    } else {
        rules.push((from, to, code))
    }
}

pub open spec fn foreign_names(f: Seq<ForeignTypeModel>) -> Seq<Seq<char>> {
    f.map_values(|t: ForeignTypeModel| t.name)
}

/// Every edge and descriptor refers to a registered type.
pub open spec fn refs_in_range(r: Option<ForeignRuleModel>, n: nat) -> bool {
    match r {
        Some(x) => x.rust_ty < n && match x.intermediate {
            Some(i) => i.0 < n,
            None => true,
        },
        None => true,
    }
}

impl TypeMapModel {
    pub open spec fn wf(self) -> bool {
        &&& unique(self.types)
        &&& unique(self.rules.map_values(|r: RuleModel| (r.0, r.1)))
        &&& unique(foreign_names(self.foreign_types))
        &&& forall|i: int| 0 <= i < self.rules.len() ==> self.rules[i].0 < self.types.len()
            && self.rules[i].1 < self.types.len()
        &&& forall|i: int| 0 <= i < self.foreign_types.len() ==> refs_in_range(
            #[trigger] self.foreign_types[i].import_rule,
            self.types.len(),
        ) && refs_in_range(self.foreign_types[i].export_rule, self.types.len())
    }
}

pub proof fn lemma_find_rule(rules: Seq<RuleModel>, from: nat, to: nat)
    ensures
        -1 <= find_rule(rules, from, to) < rules.len(),
        find_rule(rules, from, to) >= 0 ==> rules[find_rule(rules, from, to)].0 == from
            && rules[find_rule(rules, from, to)].1 == to,
        find_rule(rules, from, to) < 0 ==> forall|i: int|
            0 <= i < rules.len() ==> (#[trigger] rules[i]).0 != from || rules[i].1 != to,
    decreases rules.len(),
{
    if rules.len() > 0 {
        lemma_find_rule(rules.drop_last(), from, to);
        if !(rules.last().0 == from && rules.last().1 == to) {
            assert forall|i: int| 0 <= i < rules.len() - 1 implies rules[i] == rules.drop_last()[i] by {}
        }
    }
}

/// In a sequence without repeats, the position of a present key is the one
/// where it stands.
pub proof fn lemma_key_index(types: Seq<KeyModel>, i: int)
    requires
        unique(types),
        0 <= i < types.len(),
    ensures
        key_index(types, types[i]) == i,
{
    let k = types[i];
    assert(exists|j: int| 0 <= j < types.len() && types[j] == k);
}

fn str_eq(a: &String, b: &String) -> (r: bool)
    ensures
        r == (a@ == b@),
{
    a.eq(b)
}

impl TypeMap {
    /// Where the type `expr` tagged with `suffix` is registered, if it is.
    pub fn position(&self, expr: &String, suffix: &String) -> (r: Option<usize>)
        ensures
            match r {
                Some(i) => i < self@.types.len() && self@.types[i as int] == (expr@, suffix@),
                None => !self@.types.contains((expr@, suffix@)),
            },
    {
        let mut i: usize = 0;
        while i < self.types.len()
            invariant
                0 <= i <= self.types.len(),
                forall|j: int| 0 <= j < i ==> self@.types[j] != (expr@, suffix@),
            decreases self.types.len() - i,
        {
            let t = &self.types[i];
            assert(self@.types[i as int] == t@);
            let b1 = str_eq(&t.expr, expr);
            let b2 = str_eq(&t.suffix, suffix);
            if b1 && b2 {
                assert(t@ == (expr@, suffix@));
                return Some(i);
            }
            i = i + 1;
        }
        None
    }

    pub fn new() -> (r: TypeMap)
        ensures
            r@.types.len() == 0,
            r@.rules.len() == 0,
            r@.foreign_types.len() == 0,
            r@.wf(),
    {
        TypeMap { types: Vec::new(), rules: Vec::new(), foreign_types: Vec::new() }
    }

    /// The index of the type `expr` tagged with `suffix`, allocated at the end
    /// where it was not registered yet.
    pub fn find_or_alloc(&mut self, expr: &str, suffix: &str) -> (r: usize)
        requires
            old(self)@.wf(),
            old(self)@.types.len() < usize::MAX,
        ensures
            final(self)@.wf(),
            final(self)@.types == (if old(self)@.types.contains((expr@, suffix@)) {
                old(self)@.types
            } else {
                old(self)@.types.push((expr@, suffix@))
            }),
            r < final(self)@.types.len(),
            final(self)@.types[r as int] == (expr@, suffix@),
            final(self)@.rules == old(self)@.rules,
            final(self)@.foreign_types == old(self)@.foreign_types,
    {
        let ghost k = (expr@, suffix@);
        let e = String::from_str(expr);
        let s = String::from_str(suffix);
        match self.position(&e, &s) {
            Some(i) => {
                return i;
            },
            None => {},
        }
        assert(!self@.types.contains(k));
        let n = self.types.len();
        self.types.push(RustTypeKey { expr: e, suffix: s });
        assert(self@.types == old(self)@.types.push(k));
        assert(self@.rules == old(self)@.rules);
        assert(self@.foreign_types == old(self)@.foreign_types);
        n
    }
}


/// Why a foreign type could not be registered.
#[derive(PartialEq, Eq, Structural, Clone, Copy, Debug)]
pub enum AllocError {
    /// A foreign type of that name is registered already.
    NameTaken,
}

impl TypeMap {
    /// Whether a foreign type of this name is registered.
    pub fn has_foreign_name(&self, name: &String) -> (r: bool)
        ensures
            r == foreign_names(self@.foreign_types).contains(name@),
    {
        let mut i: usize = 0;
        while i < self.foreign_types.len()
            invariant
                0 <= i <= self.foreign_types.len(),
                forall|j: int| 0 <= j < i ==> foreign_names(self@.foreign_types)[j] != name@,
            decreases self.foreign_types.len() - i,
        {
            let f = &self.foreign_types[i];
            assert(foreign_names(self@.foreign_types)[i as int] == f.name@);
            if str_eq(&f.name, name) {
                assert(foreign_names(self@.foreign_types)[i as int] == name@);
                return true;
            }
            i = i + 1;
        }
        false
    }

    /// Records the edge `from -> to` with `code`, replacing the code of an
    /// edge between the same pair.
    pub fn add_conversion_rule(&mut self, from: usize, to: usize, code: String)
        requires
            old(self)@.wf(),
            from < old(self)@.types.len(),
            to < old(self)@.types.len(),
        ensures
            final(self)@.wf(),
            final(self)@.rules == put_rule(old(self)@.rules, from as nat, to as nat, code@),
            final(self)@.types == old(self)@.types,
            final(self)@.foreign_types == old(self)@.foreign_types,
    {
        let mut i: usize = 0;
        while i < self.rules.len()
            invariant
                0 <= i <= self.rules.len(),
                self@ == old(self)@,
                self@.wf(),
                from < self@.types.len(),
                to < self@.types.len(),
                forall|j: int| 0 <= j < i ==> !(#[trigger] self@.rules[j].0 == from && self@.rules[j].1 == to),
            decreases self.rules.len() - i,
        {
            assert(self@.rules[i as int] == self.rules@[i as int]@);
            if self.rules[i].from == from && self.rules[i].to == to {
                proof {
                    lemma_find_rule(old(self)@.rules, from as nat, to as nat);
                    let pairs = old(self)@.rules.map_values(|r: RuleModel| (r.0, r.1));
                    let f = find_rule(old(self)@.rules, from as nat, to as nat);
                    assert(old(self)@.rules[i as int].0 == from as nat && old(self)@.rules[i as int].1 == to as nat);
                    assert(f >= 0);
                    assert(pairs[f] == pairs[i as int]);
                    assert(f == i as int);
                }
                self.rules.set(i, ConversionRule { from, to, code });
                proof {
                    let pairs = old(self)@.rules.map_values(|r: RuleModel| (r.0, r.1));
                    let n = self@.rules.map_values(|r: RuleModel| (r.0, r.1));
                    assert(n =~= pairs);
                    assert(self@.rules =~= put_rule(old(self)@.rules, from as nat, to as nat, code@));
                    assert(self@.types =~= old(self)@.types);
                    assert(self@.foreign_types =~= old(self)@.foreign_types);
                }
                return;
            }
            i = i + 1;
        }
        self.rules.push(ConversionRule { from, to, code });
        proof {
            lemma_find_rule(old(self)@.rules, from as nat, to as nat);
            let pairs = old(self)@.rules.map_values(|r: RuleModel| (r.0, r.1));
            let n = self@.rules.map_values(|r: RuleModel| (r.0, r.1));
            assert(n =~= pairs.push((from as nat, to as nat)));
            assert(self@.rules =~= put_rule(old(self)@.rules, from as nat, to as nat, code@));
            assert(self@.types =~= old(self)@.types);
            assert(self@.foreign_types =~= old(self)@.foreign_types);
        }
    }

    /// Registers `ft` under its name, unless a foreign type of that name is
    /// registered already.
    pub fn alloc_foreign_type(&mut self, ft: ForeignType) -> (r: Result<usize, AllocError>)
        requires
            old(self)@.wf(),
            refs_in_range(ft@.import_rule, old(self)@.types.len()),
            refs_in_range(ft@.export_rule, old(self)@.types.len()),
        ensures
            final(self)@.wf(),
            final(self)@.types == old(self)@.types,
            final(self)@.rules == old(self)@.rules,
            foreign_names(old(self)@.foreign_types).contains(ft@.name) ==> r == Err::<usize, AllocError>(AllocError::NameTaken)
                && final(self)@.foreign_types == old(self)@.foreign_types,
            !foreign_names(old(self)@.foreign_types).contains(ft@.name) ==> r == Ok::<usize, AllocError>(old(self)@.foreign_types.len() as usize)
                && final(self)@.foreign_types == old(self)@.foreign_types.push(ft@),
    {
        if self.has_foreign_name(&ft.name) {
            return Err(AllocError::NameTaken);
        }
        let ghost fv = ft@;
        let n = self.foreign_types.len();
        self.foreign_types.push(ft);
        proof {
            assert(self@.foreign_types =~= old(self)@.foreign_types.push(fv));
            assert(foreign_names(self@.foreign_types) =~= foreign_names(old(self)@.foreign_types).push(fv.name));
            assert(self@.types =~= old(self)@.types);
            assert(self@.rules =~= old(self)@.rules);
        }
        Ok(n)
    }
}

} // verus!
