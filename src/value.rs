//! The symbolic value tree and its mathematical model.
use std::sync::Arc;
use vstd::prelude::*;

verus! {

/// A number literal, kept as what the rules read of it.
#[derive(Debug, PartialEq)]
pub enum ConstantNumber {
    /// An integral number.
    Int(i64),
    /// Any other number (fractional, NaN, infinite), by its source text.
    Other(String),
}

/// A literal value.
#[derive(Debug, PartialEq)]
pub enum ConstantValue {
    Str(String),
    Num(ConstantNumber),
    True,
    False,
    Null,
    Undefined,
}

/// A free variable of the module scope.
#[derive(Debug, PartialEq)]
pub enum FreeVarKind {
    /// The global `undefined`.
    Undefined,
    /// Any other free variable, by name.
    Other(String),
}

/// One entry of an object literal.
#[derive(Debug, PartialEq)]
pub enum ObjectPart {
    KeyValue(JsValue, JsValue),
    Spread(JsValue),
}

/// A statically known, or partially known, JavaScript value.
#[derive(Debug, PartialEq)]
pub enum JsValue {
    Constant(ConstantValue),
    Array(Vec<JsValue>),
    Object(Vec<ObjectPart>),
    Concat(Vec<JsValue>),
    Add(Vec<JsValue>),
    Url(Box<JsValue>),
    Function(Box<JsValue>),
    Call(Box<JsValue>, Vec<JsValue>),
    MemberCall(Box<JsValue>, Box<JsValue>, Vec<JsValue>),
    Member(Box<JsValue>, Box<JsValue>),
    Alternatives(Vec<JsValue>),
    /// An opaque value, with an optional shared justification and a reason.
    Unknown(Option<Arc<JsValue>>, &'static str),
    FreeVar(FreeVarKind),
    Variable(String),
    WellKnownObject(String),
    WellKnownFunction(String),
    Argument(usize),
    Module(String),
}


/// The model of a number literal.
pub enum NumModel {
    Int(int),
    Other(Seq<char>),
}

/// The model of a literal value.
pub enum LitModel {
    Str(Seq<char>),
    Num(NumModel),
    True,
    False,
    Null,
    Undefined,
}

/// The model of a free variable.
pub enum FreeVarModel {
    Undefined,
    Other(Seq<char>),
}

/// The mathematical model of a symbolic value: children as sequences.
pub enum Sym {
    Constant(LitModel),
    Array(Seq<Sym>),
    Object(Seq<PartModel>),
    Concat(Seq<Sym>),
    Add(Seq<Sym>),
    Url(Box<Sym>),
    Function(Box<Sym>),
    Call(Box<Sym>, Seq<Sym>),
    MemberCall(Box<Sym>, Box<Sym>, Seq<Sym>),
    Member(Box<Sym>, Box<Sym>),
    Alternatives(Seq<Sym>),
    Unknown(Option<Box<Sym>>, Seq<char>),
    FreeVar(FreeVarModel),
    Variable(Seq<char>),
    WellKnownObject(Seq<char>),
    WellKnownFunction(Seq<char>),
    Argument(nat),
    Module(Seq<char>),
}

/// The model of an object entry.
pub enum PartModel {
    KeyValue(Sym, Sym),
    Spread(Sym),
}

pub open spec fn num_model(n: ConstantNumber) -> NumModel {
    match n {
        ConstantNumber::Int(i) => NumModel::Int(i as int),
        ConstantNumber::Other(s) => NumModel::Other(s@),
    }
}

pub open spec fn lit_model(c: ConstantValue) -> LitModel {
    match c {
        ConstantValue::Str(s) => LitModel::Str(s@),
        ConstantValue::Num(n) => LitModel::Num(num_model(n)),
        ConstantValue::True => LitModel::True,
        ConstantValue::False => LitModel::False,
        ConstantValue::Null => LitModel::Null,
        ConstantValue::Undefined => LitModel::Undefined,
    }
}

pub open spec fn free_var_model(k: FreeVarKind) -> FreeVarModel {
    match k {
        FreeVarKind::Undefined => FreeVarModel::Undefined,
        FreeVarKind::Other(s) => FreeVarModel::Other(s@),
    }
}

/// The model of a value.
pub open spec fn sym(v: JsValue) -> Sym
    decreases v,
{
    match v {
        JsValue::Constant(c) => Sym::Constant(lit_model(c)),
        JsValue::Array(items) => Sym::Array(syms(items@)),
        JsValue::Object(parts) => Sym::Object(part_models(parts@)),
        JsValue::Concat(items) => Sym::Concat(syms(items@)),
        JsValue::Add(items) => Sym::Add(syms(items@)),
        JsValue::Url(b) => Sym::Url(Box::new(sym(*b))),
        JsValue::Function(b) => Sym::Function(Box::new(sym(*b))),
        JsValue::Call(c, args) => Sym::Call(Box::new(sym(*c)), syms(args@)),
        JsValue::MemberCall(o, p, args) => Sym::MemberCall(
            Box::new(sym(*o)),
            Box::new(sym(*p)),
            syms(args@),
        ),
        JsValue::Member(o, p) => Sym::Member(Box::new(sym(*o)), Box::new(sym(*p))),
        JsValue::Alternatives(items) => Sym::Alternatives(syms(items@)),
        JsValue::Unknown(j, r) => Sym::Unknown(
            match j {
                Some(a) => Some(Box::new(sym(*a))),
                None => None,
            },
            r@,
        ),
        JsValue::FreeVar(k) => Sym::FreeVar(free_var_model(k)),
        JsValue::Variable(s) => Sym::Variable(s@),
        JsValue::WellKnownObject(s) => Sym::WellKnownObject(s@),
        JsValue::WellKnownFunction(s) => Sym::WellKnownFunction(s@),
        JsValue::Argument(i) => Sym::Argument(i as nat),
        JsValue::Module(s) => Sym::Module(s@),
    }
}

/// The models of a sequence of values, one for one.
pub open spec fn syms(s: Seq<JsValue>) -> Seq<Sym>
    decreases s,
{
    if s.len() == 0 {
        Seq::empty()
    } else {
        syms(s.drop_last()).push(sym(s.last()))
    }
}

/// The model of an object entry.
pub open spec fn part_model(p: ObjectPart) -> PartModel
    decreases p,
{
    match p {
        ObjectPart::KeyValue(k, v) => PartModel::KeyValue(sym(k), sym(v)),
        ObjectPart::Spread(v) => PartModel::Spread(sym(v)),
    }
}

/// The models of a sequence of object entries, one for one.
pub open spec fn part_models(s: Seq<ObjectPart>) -> Seq<PartModel>
    decreases s,
{
    if s.len() == 0 {
        Seq::empty()
    } else {
        part_models(s.drop_last()).push(part_model(s.last()))
    }
}


/// The global `undefined`.
pub open spec fn undefined_sym() -> Sym {
    Sym::FreeVar(FreeVarModel::Undefined)
}

/// An opaque value justified by `v`, with a reason.
pub open spec fn unknown_of(v: Sym, reason: Seq<char>) -> Sym {
    Sym::Unknown(Some(Box::new(v)), reason)
}

/// Whether `v` holds, anywhere in its tree, a construct that is not yet
/// reduced (an unknown, an argument, a variable, a call, a member access, a
/// well-known object or function, or a module).
pub open spec fn has_placeholder(v: Sym) -> bool
    decreases v,
{
    match v {
        Sym::Constant(_) => false,
        Sym::Array(s) => any_placeholder(s),
        Sym::Concat(s) => any_placeholder(s),
        Sym::Add(s) => any_placeholder(s),
        Sym::Alternatives(s) => any_placeholder(s),
        Sym::Object(parts) => any_part_placeholder(parts),
        Sym::Url(b) => has_placeholder(*b),
        Sym::Function(b) => has_placeholder(*b),
        _ => true,
    }
}

/// Whether some value of `s` holds a placeholder.
pub open spec fn any_placeholder(s: Seq<Sym>) -> bool
    decreases s,
{
    if s.len() == 0 {
        false
    } else {
        any_placeholder(s.drop_last()) || has_placeholder(s.last())
    }
}

/// Whether some entry of `parts` holds a placeholder.
pub open spec fn any_part_placeholder(parts: Seq<PartModel>) -> bool
    decreases parts,
{
    if parts.len() == 0 {
        false
    } else {
        any_part_placeholder(parts.drop_last()) || match parts.last() {
            PartModel::KeyValue(k, v) => has_placeholder(k) || has_placeholder(v),
            PartModel::Spread(v) => has_placeholder(v),
        }
    }
}

/// `v` with each `Argument(i)` that is not inside a nested function replaced
/// by `args[i]`, or by `undefined` where there is no such argument.
pub open spec fn subst(v: Sym, args: Seq<Sym>) -> Sym
    decreases v,
{
    match v {
        Sym::Argument(i) => if i < args.len() {
            args[i as int]
        } else {
            undefined_sym()
        },
        Sym::Array(s) => Sym::Array(subst_seq(s, args)),
        Sym::Concat(s) => Sym::Concat(subst_seq(s, args)),
        Sym::Add(s) => Sym::Add(subst_seq(s, args)),
        Sym::Alternatives(s) => Sym::Alternatives(subst_seq(s, args)),
        Sym::Object(parts) => Sym::Object(subst_parts(parts, args)),
        Sym::Url(b) => Sym::Url(Box::new(subst(*b, args))),
        Sym::Call(c, a) => Sym::Call(Box::new(subst(*c, args)), subst_seq(a, args)),
        Sym::MemberCall(o, p, a) => Sym::MemberCall(
            Box::new(subst(*o, args)),
            Box::new(subst(*p, args)),
            subst_seq(a, args),
        ),
        Sym::Member(o, p) => Sym::Member(Box::new(subst(*o, args)), Box::new(subst(*p, args))),
        _ => v,
    }
}

/// `subst` on each value of `s`.
pub open spec fn subst_seq(s: Seq<Sym>, args: Seq<Sym>) -> Seq<Sym>
    decreases s,
{
    if s.len() == 0 {
        Seq::empty()
    } else {
        subst_seq(s.drop_last(), args).push(subst(s.last(), args))
    }
}

/// `subst` on each entry of `parts`.
pub open spec fn subst_parts(parts: Seq<PartModel>, args: Seq<Sym>) -> Seq<PartModel>
    decreases parts,
{
    if parts.len() == 0 {
        Seq::empty()
    } else {
        subst_parts(parts.drop_last(), args).push(
            match parts.last() {
                PartModel::KeyValue(k, v) => PartModel::KeyValue(subst(k, args), subst(v, args)),
                PartModel::Spread(v) => PartModel::Spread(subst(v, args)),
            },
        )
    }
}

/// The models of a sequence, element by element.
pub proof fn lemma_syms(s: Seq<JsValue>)
    ensures
        syms(s).len() == s.len(),
        forall|i: int| 0 <= i < s.len() ==> #[trigger] syms(s)[i] == sym(s[i]),
    decreases s.len(),
{
    if s.len() > 0 {
        lemma_syms(s.drop_last());
    }
}

/// The models of a sequence of entries, entry by entry.
pub proof fn lemma_part_models(s: Seq<ObjectPart>)
    ensures
        part_models(s).len() == s.len(),
        forall|i: int| 0 <= i < s.len() ==> #[trigger] part_models(s)[i] == part_model(s[i]),
    decreases s.len(),
{
    if s.len() > 0 {
        lemma_part_models(s.drop_last());
    }
}

/// The models of a prefix one longer.
pub proof fn lemma_syms_take(s: Seq<JsValue>, i: int)
    requires
        0 <= i < s.len(),
    ensures
        syms(s.take(i + 1)) == syms(s.take(i)).push(sym(s[i])),
{
    assert(s.take(i + 1).drop_last() =~= s.take(i));
}

/// The entry models of a prefix one longer.
pub proof fn lemma_parts_take(s: Seq<ObjectPart>, i: int)
    requires
        0 <= i < s.len(),
    ensures
        part_models(s.take(i + 1)) == part_models(s.take(i)).push(part_model(s[i])),
{
    assert(s.take(i + 1).drop_last() =~= s.take(i));
}


/// The models of a sequence with one more value.
pub proof fn lemma_syms_push(s: Seq<JsValue>, x: JsValue)
    ensures
        syms(s.push(x)) == syms(s).push(sym(x)),
{
    assert(s.push(x).drop_last() =~= s);
}

/// The models of a sequence with one more entry.
pub proof fn lemma_parts_push(s: Seq<ObjectPart>, x: ObjectPart)
    ensures
        part_models(s.push(x)) == part_models(s).push(part_model(x)),
{
    assert(s.push(x).drop_last() =~= s);
}

/// The models of two sequences joined.
pub proof fn lemma_syms_append(a: Seq<JsValue>, b: Seq<JsValue>)
    ensures
        syms(a + b) == syms(a) + syms(b),
    decreases b.len(),
{
    if b.len() == 0 {
        assert(a + b =~= a);
        assert(syms(a) + syms(b) =~= syms(a));
    } else {
        lemma_syms_append(a, b.drop_last());
        assert((a + b).drop_last() =~= a + b.drop_last());
        assert(syms(a) + syms(b) =~= (syms(a) + syms(b.drop_last())).push(sym(b.last())));
    }
}

/// The entry models of two sequences joined.
pub proof fn lemma_parts_append(a: Seq<ObjectPart>, b: Seq<ObjectPart>)
    ensures
        part_models(a + b) == part_models(a) + part_models(b),
    decreases b.len(),
{
    if b.len() == 0 {
        assert(a + b =~= a);
        assert(part_models(a) + part_models(b) =~= part_models(a));
    } else {
        lemma_parts_append(a, b.drop_last());
        assert((a + b).drop_last() =~= a + b.drop_last());
        assert(part_models(a) + part_models(b) =~= (part_models(a) + part_models(
            b.drop_last(),
        )).push(part_model(b.last())));
    }
}

/// Relies on `Arc::clone`: the new handle refers to the same value.
#[verifier::external_body]
fn share(a: &Arc<JsValue>) -> (r: Arc<JsValue>)
    ensures
        *r == **a,
{
    Arc::clone(a)
}

fn clone_number(n: &ConstantNumber) -> (r: ConstantNumber)
    ensures
        num_model(r) == num_model(*n),
{
    match n {
        ConstantNumber::Int(i) => ConstantNumber::Int(*i),
        ConstantNumber::Other(s) => ConstantNumber::Other(s.clone()),
    }
}

pub fn clone_constant_value(c: &ConstantValue) -> (r: ConstantValue)
    ensures
        lit_model(r) == lit_model(*c),
{
    match c {
        ConstantValue::Str(s) => ConstantValue::Str(s.clone()),
        ConstantValue::Num(n) => ConstantValue::Num(clone_number(n)),
        ConstantValue::True => ConstantValue::True,
        ConstantValue::False => ConstantValue::False,
        ConstantValue::Null => ConstantValue::Null,
        ConstantValue::Undefined => ConstantValue::Undefined,
    }
}

/// Deep copies of each value of `v`.
pub fn clone_values(v: &Vec<JsValue>) -> (r: Vec<JsValue>)
    ensures
        syms(r@) == syms(v@),
    decreases v,
{
    let mut out: Vec<JsValue> = Vec::new();
    let mut i: usize = 0;
    while i < v.len()
        invariant
            i <= v.len(),
            syms(out@) == syms(v@.take(i as int)),
        decreases v.len() - i,
    {
        let c = v[i].deep_clone();
        proof {
            lemma_syms_take(v@, i as int);
            lemma_syms_push(out@, c);
        }
        out.push(c);
        i = i + 1;
    }
    assert(v@.take(v.len() as int) =~= v@);
    out
}

pub fn clone_part(p: &ObjectPart) -> (r: ObjectPart)
    ensures
        part_model(r) == part_model(*p),
    decreases p,
{
    match p {
        ObjectPart::KeyValue(k, v) => ObjectPart::KeyValue(k.deep_clone(), v.deep_clone()),
        ObjectPart::Spread(v) => ObjectPart::Spread(v.deep_clone()),
    }
}

pub fn clone_parts(v: &Vec<ObjectPart>) -> (r: Vec<ObjectPart>)
    ensures
        part_models(r@) == part_models(v@),
    decreases v,
{
    let mut out: Vec<ObjectPart> = Vec::new();
    let mut i: usize = 0;
    while i < v.len()
        invariant
            i <= v.len(),
            part_models(out@) == part_models(v@.take(i as int)),
        decreases v.len() - i,
    {
        let c = clone_part(&v[i]);
        proof {
            lemma_parts_take(v@, i as int);
            lemma_parts_push(out@, c);
        }
        out.push(c);
        i = i + 1;
    }
    assert(v@.take(v.len() as int) =~= v@);
    out
}

impl JsValue {
    /// A copy of the tree; an unknown's justification stays shared.
    pub fn deep_clone(&self) -> (r: JsValue)
        ensures
            sym(r) == sym(*self),
        decreases self,
    {
        match self {
            JsValue::Constant(c) => JsValue::Constant(clone_constant_value(c)),
            JsValue::Array(items) => JsValue::Array(clone_values(items)),
            JsValue::Object(parts) => JsValue::Object(clone_parts(parts)),
            JsValue::Concat(items) => JsValue::Concat(clone_values(items)),
            JsValue::Add(items) => JsValue::Add(clone_values(items)),
            JsValue::Url(b) => JsValue::Url(Box::new(b.deep_clone())),
            JsValue::Function(b) => JsValue::Function(Box::new(b.deep_clone())),
            JsValue::Call(c, args) => JsValue::Call(Box::new(c.deep_clone()), clone_values(args)),
            JsValue::MemberCall(o, p, args) => JsValue::MemberCall(
                Box::new(o.deep_clone()),
                Box::new(p.deep_clone()),
                clone_values(args),
            ),
            JsValue::Member(o, p) => JsValue::Member(
                Box::new(o.deep_clone()),
                Box::new(p.deep_clone()),
            ),
            JsValue::Alternatives(items) => JsValue::Alternatives(clone_values(items)),
            JsValue::Unknown(j, r) => match j {
                Some(a) => JsValue::Unknown(Some(share(a)), *r),
                None => JsValue::Unknown(None, *r),
            },
            JsValue::FreeVar(k) => match k {
                FreeVarKind::Undefined => JsValue::FreeVar(FreeVarKind::Undefined),
                FreeVarKind::Other(s) => JsValue::FreeVar(FreeVarKind::Other(s.clone())),
            },
            JsValue::Variable(s) => JsValue::Variable(s.clone()),
            JsValue::WellKnownObject(s) => JsValue::WellKnownObject(s.clone()),
            JsValue::WellKnownFunction(s) => JsValue::WellKnownFunction(s.clone()),
            JsValue::Argument(i) => JsValue::Argument(*i),
            JsValue::Module(s) => JsValue::Module(s.clone()),
        }
    }
}


fn values_have_placeholder(v: &Vec<JsValue>) -> (r: bool)
    ensures
        r == any_placeholder(syms(v@)),
    decreases v,
{
    let mut found = false;
    let mut i: usize = 0;
    while i < v.len()
        invariant
            i <= v.len(),
            found == any_placeholder(syms(v@.take(i as int))),
        decreases v.len() - i,
    {
        let here = v[i].has_placeholder();
        proof {
            lemma_syms_take(v@, i as int);
            assert(syms(v@.take(i as int)).push(sym(v@[i as int])).drop_last() =~= syms(
                v@.take(i as int),
            ));
        }
        found = found || here;
        i = i + 1;
    }
    assert(v@.take(v.len() as int) =~= v@);
    found
}

fn parts_have_placeholder(v: &Vec<ObjectPart>) -> (r: bool)
    ensures
        r == any_part_placeholder(part_models(v@)),
    decreases v,
{
    let mut found = false;
    let mut i: usize = 0;
    while i < v.len()
        invariant
            i <= v.len(),
            found == any_part_placeholder(part_models(v@.take(i as int))),
        decreases v.len() - i,
    {
        let here = match &v[i] {
            ObjectPart::KeyValue(k, x) => {
                let a = k.has_placeholder();
                let b = x.has_placeholder();
                a || b
            },
            ObjectPart::Spread(x) => x.has_placeholder(),
        };
        proof {
            lemma_parts_take(v@, i as int);
            assert(part_models(v@.take(i as int)).push(part_model(v@[i as int])).drop_last()
                =~= part_models(v@.take(i as int)));
        }
        found = found || here;
        i = i + 1;
    }
    assert(v@.take(v.len() as int) =~= v@);
    found
}

fn subst_values(v: &Vec<JsValue>, args: &Vec<JsValue>) -> (r: Vec<JsValue>)
    ensures
        syms(r@) == subst_seq(syms(v@), syms(args@)),
    decreases v,
{
    let mut out: Vec<JsValue> = Vec::new();
    let mut i: usize = 0;
    while i < v.len()
        invariant
            i <= v.len(),
            syms(out@) == subst_seq(syms(v@.take(i as int)), syms(args@)),
        decreases v.len() - i,
    {
        let c = v[i].substitute(args);
        proof {
            lemma_syms_take(v@, i as int);
            lemma_syms_push(out@, c);
            assert(syms(v@.take(i as int)).push(sym(v@[i as int])).drop_last() =~= syms(
                v@.take(i as int),
            ));
        }
        out.push(c);
        i = i + 1;
    }
    assert(v@.take(v.len() as int) =~= v@);
    out
}

fn subst_part_values(v: &Vec<ObjectPart>, args: &Vec<JsValue>) -> (r: Vec<ObjectPart>)
    ensures
        part_models(r@) == subst_parts(part_models(v@), syms(args@)),
    decreases v,
{
    let mut out: Vec<ObjectPart> = Vec::new();
    let mut i: usize = 0;
    while i < v.len()
        invariant
            i <= v.len(),
            part_models(out@) == subst_parts(part_models(v@.take(i as int)), syms(args@)),
        decreases v.len() - i,
    {
        let c = match &v[i] {
            ObjectPart::KeyValue(k, x) => ObjectPart::KeyValue(
                k.substitute(args),
                x.substitute(args),
            ),
            ObjectPart::Spread(x) => ObjectPart::Spread(x.substitute(args)),
        };
        proof {
            lemma_parts_take(v@, i as int);
            lemma_parts_push(out@, c);
            assert(part_models(v@.take(i as int)).push(part_model(v@[i as int])).drop_last()
                =~= part_models(v@.take(i as int)));
        }
        out.push(c);
        i = i + 1;
    }
    assert(v@.take(v.len() as int) =~= v@);
    out
}

impl JsValue {
    /// Whether the tree holds a construct that is not yet reduced.
    pub fn has_placeholder(&self) -> (r: bool)
        ensures
            r == has_placeholder(sym(*self)),
        decreases self,
    {
        match self {
            JsValue::Constant(_) => false,
            JsValue::Array(s) => values_have_placeholder(s),
            JsValue::Concat(s) => values_have_placeholder(s),
            JsValue::Add(s) => values_have_placeholder(s),
            JsValue::Alternatives(s) => values_have_placeholder(s),
            JsValue::Object(parts) => parts_have_placeholder(parts),
            JsValue::Url(b) => b.has_placeholder(),
            JsValue::Function(b) => b.has_placeholder(),
            _ => true,
        }
    }

    /// A copy of the tree with each argument placeholder outside nested
    /// functions replaced by the matching argument, or by `undefined`.
    pub fn substitute(&self, args: &Vec<JsValue>) -> (r: JsValue)
        ensures
            sym(r) == subst(sym(*self), syms(args@)),
        decreases self,
    {
        proof {
            lemma_syms(args@);
        }
        match self {
            JsValue::Argument(i) => {
                if *i < args.len() {
                    args[*i].deep_clone()
                } else {
                    JsValue::FreeVar(FreeVarKind::Undefined)
                }
            },
            JsValue::Array(s) => JsValue::Array(subst_values(s, args)),
            JsValue::Concat(s) => JsValue::Concat(subst_values(s, args)),
            JsValue::Add(s) => JsValue::Add(subst_values(s, args)),
            JsValue::Alternatives(s) => JsValue::Alternatives(subst_values(s, args)),
            JsValue::Object(parts) => JsValue::Object(subst_part_values(parts, args)),
            JsValue::Url(b) => JsValue::Url(Box::new(b.substitute(args))),
            JsValue::Call(c, a) => JsValue::Call(Box::new(c.substitute(args)), subst_values(a, args)),
            JsValue::MemberCall(o, p, a) => JsValue::MemberCall(
                Box::new(o.substitute(args)),
                Box::new(p.substitute(args)),
                subst_values(a, args),
            ),
            JsValue::Member(o, p) => JsValue::Member(
                Box::new(o.substitute(args)),
                Box::new(p.substitute(args)),
            ),
            _ => self.deep_clone(),
        }
    }
}

} // verus!
