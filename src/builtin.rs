//! The builtin rewrite rules: one local simplification step on a value.
use crate::value::{
    clone_constant_value, clone_part, clone_parts, clone_values, has_placeholder,
    lemma_part_models, lemma_parts_append, lemma_parts_push, lemma_syms, lemma_syms_append,
    lemma_syms_push, lit_model, part_model, part_models, subst, subst_seq, sym, syms,
    undefined_sym, unknown_of, ConstantNumber, ConstantValue, FreeVarKind, JsValue, LitModel,
    NumModel, ObjectPart, PartModel, Sym,
};
use std::sync::Arc;
use vstd::prelude::*;

verus! {

pub open spec fn member_of(o: Sym, p: Sym) -> Sym {
    Sym::Member(Box::new(o), Box::new(p))
}

/// The result of a member access whose key cannot be pinned to one value:
/// any element of the array, or something of its prototype.
pub open spec fn array_join(items: Seq<Sym>, p: Sym) -> Sym {
    Sym::Alternatives(
        items.push(
            unknown_of(
                member_of(Sym::Array(Seq::empty()), p),
                "unknown array prototype methods or values"@,
            ),
        ),
    )
}

/// What an object entry contributes to a join over all its values.
pub open spec fn part_value(part: PartModel, p: Sym) -> Sym {
    match part {
        PartModel::KeyValue(_, v) => v,
        PartModel::Spread(x) => unknown_of(
            member_of(Sym::Object(seq![PartModel::Spread(x)]), p),
            "spreaded object"@,
        ),
    }
}

/// The result of a member access on an object whose key cannot be pinned
/// to one value: any of its values, or something of its prototype.
pub open spec fn object_join(parts: Seq<PartModel>, p: Sym) -> Sym {
    Sym::Alternatives(
        parts.map_values(|part: PartModel| part_value(part, p)).push(
            unknown_of(
                member_of(Sym::Object(Seq::empty()), p),
                "unknown object prototype methods or values"@,
            ),
        ),
    )
}

/// Looks up the constant key `c` in `parts` from the last entry back: the
/// last literal write wins, a spread met first makes the result opaque
/// (justified by `v`), and a missing key gives `undefined`.
pub open spec fn lookup(parts: Seq<PartModel>, c: LitModel, v: Sym) -> Sym
    decreases parts.len(),
{
    if parts.len() == 0 {
        undefined_sym()
    } else {
        match parts.last() {
            PartModel::KeyValue(k, val) => if k == Sym::Constant(c) {
                val
            } else {
                lookup(parts.drop_last(), c, v)
            },
            PartModel::Spread(_) => unknown_of(v, "spreaded object"@),
        }
    }
}

pub open spec fn array_member_rule(items: Seq<Sym>, p: Sym) -> Option<Sym> {
    let v = member_of(Sym::Array(items), p);
    match p {
        Sym::Unknown(_, _) => Some(array_join(items, p)),
        Sym::Constant(LitModel::Num(NumModel::Int(i))) => if 0 <= i < items.len() {
            Some(items[i])
        } else {
            Some(unknown_of(v, "invalid index"@))
        },
        Sym::Constant(LitModel::Num(NumModel::Other(_))) => Some(unknown_of(v, "invalid index"@)),
        Sym::Constant(_) => Some(unknown_of(v, "non-num constant property on array"@)),
        Sym::Array(_) => Some(unknown_of(v, "array property on array"@)),
        Sym::Object(_) => Some(unknown_of(v, "object property on array"@)),
        Sym::Url(_) => Some(unknown_of(v, "url property on array"@)),
        Sym::Function(_) => Some(unknown_of(v, "function property on array"@)),
        Sym::Alternatives(alts) => Some(
            Sym::Alternatives(alts.map_values(|a: Sym| member_of(Sym::Array(items), a))),
        ),
        Sym::Concat(_) => if has_placeholder(p) {
            None
        } else {
            Some(array_join(items, p))
        },
        Sym::Add(_) => if has_placeholder(p) {
            None
        } else {
            Some(array_join(items, p))
        },
        _ => None,
    }
}

pub open spec fn object_member_rule(parts: Seq<PartModel>, p: Sym) -> Option<Sym> {
    let v = member_of(Sym::Object(parts), p);
    match p {
        Sym::Unknown(_, _) => Some(object_join(parts, p)),
        Sym::Constant(c) => Some(lookup(parts, c, v)),
        Sym::Array(_) => Some(unknown_of(v, "array property on object"@)),
        Sym::Object(_) => Some(unknown_of(v, "object property on object"@)),
        Sym::Url(_) => Some(unknown_of(v, "url property on object"@)),
        Sym::Function(_) => Some(unknown_of(v, "function property on object"@)),
        Sym::Alternatives(alts) => Some(
            Sym::Alternatives(alts.map_values(|a: Sym| member_of(Sym::Object(parts), a))),
        ),
        Sym::Concat(_) => if has_placeholder(p) {
            None
        } else {
            Some(object_join(parts, p))
        },
        Sym::Add(_) => if has_placeholder(p) {
            None
        } else {
            Some(object_join(parts, p))
        },
        _ => None,
    }
}

/// The rule for `o[p]`.
pub open spec fn member_rule(o: Sym, p: Sym) -> Option<Sym> {
    let v = member_of(o, p);
    match o {
        Sym::Constant(_) => Some(unknown_of(v, "property on constant"@)),
        Sym::Url(_) => Some(unknown_of(v, "property on url"@)),
        Sym::Concat(_) => Some(unknown_of(v, "property on string"@)),
        Sym::Add(_) => Some(unknown_of(v, "property on number or string"@)),
        Sym::Unknown(_, _) => Some(unknown_of(v, "property on unknown"@)),
        Sym::Function(_) => Some(unknown_of(v, "property on function"@)),
        Sym::Alternatives(alts) => Some(
            Sym::Alternatives(alts.map_values(|a: Sym| member_of(a, p))),
        ),
        Sym::Array(items) => array_member_rule(items, p),
        Sym::Object(parts) => object_member_rule(parts, p),
        _ => None,
    }
}


/// Arguments that `concat` may splice without hidden effects.
pub open spec fn concat_safe(a: Sym) -> bool {
    match a {
        Sym::Array(_) | Sym::Constant(_) | Sym::Url(_) | Sym::Concat(_) | Sym::Add(_)
        | Sym::WellKnownObject(_) | Sym::WellKnownFunction(_) | Sym::Function(_) => true,
        _ => false,
    }
}

/// The elements that `concat` appends: an array argument gives its
/// elements, any other argument itself.
pub open spec fn spliced(args: Seq<Sym>) -> Seq<Sym>
    decreases args.len(),
{
    if args.len() == 0 {
        Seq::empty()
    } else {
        spliced(args.drop_last()) + match args.last() {
            Sym::Array(inner) => inner,
            a => seq![a],
        }
    }
}

pub open spec fn is_concat_key(p: Sym) -> bool {
    p == Sym::Constant(LitModel::Str("concat"@))
}

/// The rule for `o.p(...args)`.
pub open spec fn member_call_rule(o: Sym, p: Sym, args: Seq<Sym>) -> Sym {
    match o {
        Sym::Alternatives(alts) => Sym::Alternatives(
            alts.map_values(|a: Sym| Sym::MemberCall(Box::new(a), Box::new(p), args)),
        ),
        Sym::Array(items) if is_concat_key(p) && (forall|i: int|
            0 <= i < args.len() ==> concat_safe(#[trigger] args[i])) => Sym::Array(
            items + spliced(args),
        ),
        _ => Sym::Call(Box::new(member_of(o, p)), args),
    }
}

/// The rule for `c(...args)`.
pub open spec fn call_rule(c: Sym, args: Seq<Sym>) -> Option<Sym> {
    let v = Sym::Call(Box::new(c), args);
    match c {
        Sym::Unknown(_, _) => Some(unknown_of(v, "call of unknown function"@)),
        Sym::Array(_) => Some(unknown_of(v, "call of array"@)),
        Sym::Object(_) => Some(unknown_of(v, "call of object"@)),
        Sym::Constant(_) => Some(unknown_of(v, "call of constant"@)),
        Sym::Url(_) => Some(unknown_of(v, "call of url"@)),
        Sym::Concat(_) => Some(unknown_of(v, "call of string"@)),
        Sym::Add(_) => Some(unknown_of(v, "call of number or string"@)),
        Sym::Function(body) => Some(subst(*body, args)),
        Sym::Alternatives(alts) => Some(
            Sym::Alternatives(alts.map_values(|a: Sym| Sym::Call(Box::new(a), args))),
        ),
        _ => None,
    }
}

pub open spec fn is_spread_object(part: PartModel) -> bool {
    part matches PartModel::Spread(Sym::Object(_))
}

/// The entries with each spread of an object literal replaced, in place, by
/// that literal's entries.
pub open spec fn flatten_spreads(parts: Seq<PartModel>) -> Seq<PartModel>
    decreases parts.len(),
{
    if parts.len() == 0 {
        Seq::empty()
    } else {
        flatten_spreads(parts.drop_last()) + match parts.last() {
            PartModel::Spread(Sym::Object(inner)) => inner,
            part => seq![part],
        }
    }
}

/// The rule for an object literal.
pub open spec fn object_rule(parts: Seq<PartModel>) -> Option<Sym> {
    if exists|i: int| 0 <= i < parts.len() && is_spread_object(#[trigger] parts[i]) {
        Some(Sym::Object(flatten_spreads(parts)))
    } else {
        None
    }
}

/// One local rewrite step: the new value where a rule fires, `None` where
/// the value is settled or deferred.
pub open spec fn rewrite(v: Sym) -> Option<Sym> {
    match v {
        Sym::Member(o, p) => member_rule(*o, *p),
        Sym::MemberCall(o, p, args) => Some(member_call_rule(*o, *p, args)),
        Sym::Call(c, args) => call_rule(*c, args),
        Sym::Object(parts) => object_rule(parts),
        _ => None,
    }
}

} // verus!

verus! {

/// An opaque value justified by `v`.
fn unknown(v: JsValue, reason: &'static str) -> (r: JsValue)
    ensures
        sym(r) == unknown_of(sym(v), reason@),
{
    JsValue::Unknown(Some(Arc::new(v)), reason)
}

/// How each alternative is wrapped when a union is distributed.
#[derive(Clone, Copy)]
enum Shape {
    /// `alt[x]`
    MemberOf,
    /// `x[alt]`
    MemberOn,
    /// `alt.x(...args)`
    MethodOf,
    /// `alt(...args)`
    CallOf,
}

spec fn shaped(s: Shape, a: Sym, x: Sym, args: Seq<Sym>) -> Sym {
    match s {
        Shape::MemberOf => member_of(a, x),
        Shape::MemberOn => member_of(x, a),
        Shape::MethodOf => Sym::MemberCall(Box::new(a), Box::new(x), args),
        Shape::CallOf => Sym::Call(Box::new(a), args),
    }
}

/// The union of `alts`, each wrapped as `s` says; `x` is the other operand
/// of a member access or method call.
fn distribute(s: Shape, alts: &Vec<JsValue>, x: &JsValue, args: &Vec<JsValue>) -> (r: JsValue)
    ensures
        sym(r) == Sym::Alternatives(
            syms(alts@).map_values(|a: Sym| shaped(s, a, sym(*x), syms(args@))),
        ),
{
    let mut out: Vec<JsValue> = Vec::new();
    let mut i: usize = 0;
    while i < alts.len()
        invariant
            i <= alts.len(),
            out@.len() == i,
            forall|j: int|
                0 <= j < i ==> sym(#[trigger] out@[j]) == shaped(
                    s,
                    sym(alts@[j]),
                    sym(*x),
                    syms(args@),
                ),
        decreases alts.len() - i,
    {
        let a = alts[i].deep_clone();
        let e = match s {
            Shape::MemberOf => JsValue::Member(Box::new(a), Box::new(x.deep_clone())),
            Shape::MemberOn => JsValue::Member(Box::new(x.deep_clone()), Box::new(a)),
            Shape::MethodOf => JsValue::MemberCall(
                Box::new(a),
                Box::new(x.deep_clone()),
                clone_values(args),
            ),
            Shape::CallOf => JsValue::Call(Box::new(a), clone_values(args)),
        };
        out.push(e);
        i = i + 1;
    }
    proof {
        lemma_syms(out@);
        lemma_syms(alts@);
        assert(syms(out@) =~= syms(alts@).map_values(
            |a: Sym| shaped(s, a, sym(*x), syms(args@)),
        ));
    }
    JsValue::Alternatives(out)
}

/// Every element of `items`, or something of the array prototype.
fn array_join_of(items: Vec<JsValue>, p: JsValue) -> (r: JsValue)
    ensures
        sym(r) == array_join(syms(items@), sym(p)),
{
    let mut items = items;
    let empty: Vec<JsValue> = Vec::new();
    let ghost e = JsValue::Array(empty);
    assert(syms(empty@) == Seq::<Sym>::empty());
    assert(sym(JsValue::Array(empty)) == Sym::Array(syms(empty@)));
    let catch_all = unknown(
        JsValue::Member(Box::new(JsValue::Array(empty)), Box::new(p)),
        "unknown array prototype methods or values",
    );
    proof {
        lemma_syms_push(items@, catch_all);
    }
    items.push(catch_all);
    JsValue::Alternatives(items)
}

/// Every value of `parts`, or something of the object prototype.
fn object_join_of(parts: &Vec<ObjectPart>, p: JsValue) -> (r: JsValue)
    ensures
        sym(r) == object_join(part_models(parts@), sym(p)),
{
    let mut out: Vec<JsValue> = Vec::new();
    let mut i: usize = 0;
    proof {
        lemma_part_models(parts@);
    }
    while i < parts.len()
        invariant
            i <= parts.len(),
            out@.len() == i,
            part_models(parts@).len() == parts@.len(),
            forall|j: int|
                0 <= j < parts@.len() ==> #[trigger] part_models(parts@)[j] == part_model(
                    parts@[j],
                ),
            forall|j: int|
                0 <= j < i ==> sym(#[trigger] out@[j]) == part_value(
                    part_models(parts@)[j],
                    sym(p),
                ),
        decreases parts.len() - i,
    {
        let e = match &parts[i] {
            ObjectPart::KeyValue(_, val) => val.deep_clone(),
            ObjectPart::Spread(x) => {
                let spread = ObjectPart::Spread(x.deep_clone());
                let mut single: Vec<ObjectPart> = Vec::new();
                proof {
                    assert(part_models(single@) == Seq::<PartModel>::empty());
                    lemma_parts_push(single@, spread);
                    assert(single@.push(spread) =~= seq![spread]);
                    assert(part_models(Seq::<ObjectPart>::empty()).push(part_model(spread))
                        =~= seq![part_model(spread)]);
                }
                single.push(spread);
                assert(sym(JsValue::Object(single)) == Sym::Object(part_models(single@)));
                unknown(
                    JsValue::Member(Box::new(JsValue::Object(single)), Box::new(p.deep_clone())),
                    "spreaded object",
                )
            },
        };
        out.push(e);
        i = i + 1;
    }
    let empty: Vec<ObjectPart> = Vec::new();
    assert(part_models(empty@) == Seq::<PartModel>::empty());
    assert(sym(JsValue::Object(empty)) == Sym::Object(part_models(empty@)));
    let catch_all = unknown(
        JsValue::Member(Box::new(JsValue::Object(empty)), Box::new(p)),
        "unknown object prototype methods or values",
    );
    proof {
        lemma_syms(out@);
        lemma_syms_push(out@, catch_all);
        assert(syms(out@) =~= part_models(parts@).map_values(
            |part: PartModel| part_value(part, sym(p)),
        ));
    }
    out.push(catch_all);
    JsValue::Alternatives(out)
}

/// Whether two literals are the same.
fn same_constant(a: &ConstantValue, b: &ConstantValue) -> (r: bool)
    ensures
        r == (lit_model(*a) == lit_model(*b)),
{
    match (a, b) {
        (ConstantValue::Str(x), ConstantValue::Str(y)) => x.eq(y),
        (ConstantValue::Num(ConstantNumber::Int(x)), ConstantValue::Num(ConstantNumber::Int(y))) => *x
            == *y,
        (
            ConstantValue::Num(ConstantNumber::Other(x)),
            ConstantValue::Num(ConstantNumber::Other(y)),
        ) => x.eq(y),
        (ConstantValue::True, ConstantValue::True) => true,
        (ConstantValue::False, ConstantValue::False) => true,
        (ConstantValue::Null, ConstantValue::Null) => true,
        (ConstantValue::Undefined, ConstantValue::Undefined) => true,
        _ => false,
    }
}

/// `o[p]` where `o` is an array literal.
fn array_member(items: Vec<JsValue>, p: JsValue) -> (res: (bool, JsValue))
    ensures
        match array_member_rule(syms(items@), sym(p)) {
            Some(n) => res.0 && sym(res.1) == n,
            None => !res.0 && res.1 == JsValue::Member(
                Box::new(JsValue::Array(items)),
                Box::new(p),
            ),
        },
{
    proof {
        lemma_syms(items@);
        let ghost o = JsValue::Array(items);
        assert(sym(o) == Sym::Array(syms(items@)));
        assert(sym(JsValue::Member(Box::new(o), Box::new(p))) == member_of(sym(o), sym(p)));
    }
    match &p {
        JsValue::Unknown(_, _) => (true, array_join_of(items, p)),
        JsValue::Constant(ConstantValue::Num(ConstantNumber::Int(n))) => {
            let n = *n;
            if n >= 0 && (n as u64) < (items.len() as u64) {
                let ghost old_items = items;
                let mut items = items;
                proof {
                    lemma_syms(items@);
                }
                let e = items.swap_remove(n as usize);
                assert(sym(e) == syms(old_items@)[n as int]);
                (true, e)
            } else {
                let v = JsValue::Member(Box::new(JsValue::Array(items)), Box::new(p));
                (true, unknown(v, "invalid index"))
            }
        },
        JsValue::Constant(ConstantValue::Num(ConstantNumber::Other(_))) => {
            let v = JsValue::Member(Box::new(JsValue::Array(items)), Box::new(p));
            (true, unknown(v, "invalid index"))
        },
        JsValue::Constant(_) => {
            let v = JsValue::Member(Box::new(JsValue::Array(items)), Box::new(p));
            (true, unknown(v, "non-num constant property on array"))
        },
        JsValue::Array(_) => {
            let v = JsValue::Member(Box::new(JsValue::Array(items)), Box::new(p));
            (true, unknown(v, "array property on array"))
        },
        JsValue::Object(_) => {
            let v = JsValue::Member(Box::new(JsValue::Array(items)), Box::new(p));
            (true, unknown(v, "object property on array"))
        },
        JsValue::Url(_) => {
            let v = JsValue::Member(Box::new(JsValue::Array(items)), Box::new(p));
            (true, unknown(v, "url property on array"))
        },
        JsValue::Function(_) => {
            let v = JsValue::Member(Box::new(JsValue::Array(items)), Box::new(p));
            (true, unknown(v, "function property on array"))
        },
        JsValue::Alternatives(alts) => {
            let o = JsValue::Array(items);
            let r = distribute(Shape::MemberOn, alts, &o, &Vec::new());
            proof {
                assert(syms(alts@).map_values(
                    |a: Sym| shaped(Shape::MemberOn, a, sym(o), syms(Seq::<JsValue>::empty())),
                ) =~= syms(alts@).map_values(|a: Sym| member_of(sym(o), a)));
            }
            (true, r)
        },
        JsValue::Concat(_) | JsValue::Add(_) => {
            if p.has_placeholder() {
                (false, JsValue::Member(Box::new(JsValue::Array(items)), Box::new(p)))
            } else {
                (true, array_join_of(items, p))
            }
        },
        _ => (false, JsValue::Member(Box::new(JsValue::Array(items)), Box::new(p))),
    }
}

proof fn lemma_lookup_step(pm: Seq<PartModel>, c: LitModel, v: Sym, i: int)
    requires
        0 <= i < pm.len(),
    ensures
        lookup(pm.take(i + 1), c, v) == match pm[i] {
            PartModel::KeyValue(k, val) => if k == Sym::Constant(c) {
                val
            } else {
                lookup(pm.take(i), c, v)
            },
            PartModel::Spread(_) => unknown_of(v, "spreaded object"@),
        },
{
    assert(pm.take(i + 1).drop_last() =~= pm.take(i));
    assert(pm.take(i + 1).last() == pm[i]);
}

/// The value under the constant key `c` (the key `p` as a literal) in
/// `parts`, read from the last entry back.
#[verifier::rlimit(40)]
fn lookup_constant(parts: Vec<ObjectPart>, c: &ConstantValue, p: JsValue) -> (r: JsValue)
    requires
        sym(p) == Sym::Constant(lit_model(*c)),
    ensures
        sym(r) == lookup(
            part_models(parts@),
            lit_model(*c),
            member_of(Sym::Object(part_models(parts@)), sym(p)),
        ),
{
    let ghost pm = part_models(parts@);
    let ghost v = member_of(Sym::Object(pm), sym(p));
    proof {
        let ghost o = JsValue::Object(parts);
        assert(sym(o) == Sym::Object(pm));
        assert(sym(JsValue::Member(Box::new(o), Box::new(p))) == v);
        lemma_part_models(parts@);
        assert(pm.take(parts@.len() as int) =~= pm);
    }
    let mut i: usize = parts.len();
    while i > 0
        invariant
            i <= parts@.len(),
            pm == part_models(parts@),
            v == member_of(Sym::Object(pm), sym(p)),
            pm.len() == parts@.len(),
            forall|j: int| 0 <= j < parts@.len() ==> #[trigger] pm[j] == part_model(parts@[j]),
            lookup(pm, lit_model(*c), v) == lookup(pm.take(i as int), lit_model(*c), v),
        decreases i,
    {
        i = i - 1;
        proof {
            lemma_lookup_step(pm, lit_model(*c), v, i as int);
        }
        match &parts[i] {
            ObjectPart::KeyValue(k, val) => {
                let hit = match k {
                    JsValue::Constant(kc) => same_constant(kc, c),
                    _ => false,
                };
                if hit {
                    return val.deep_clone();
                }
            },
            ObjectPart::Spread(_) => {
                let whole = JsValue::Member(Box::new(JsValue::Object(parts)), Box::new(p));
                proof {
                    assert(sym(JsValue::Object(parts)) == Sym::Object(pm));
                    assert(sym(whole) == v);
                }
                return unknown(whole, "spreaded object");
            },
        }
    }
    JsValue::FreeVar(FreeVarKind::Undefined)
}

/// `o[p]` where `o` is an object literal.
fn object_member(parts: Vec<ObjectPart>, p: JsValue) -> (res: (bool, JsValue))
    ensures
        match object_member_rule(part_models(parts@), sym(p)) {
            Some(n) => res.0 && sym(res.1) == n,
            None => !res.0 && res.1 == JsValue::Member(
                Box::new(JsValue::Object(parts)),
                Box::new(p),
            ),
        },
{
    proof {
        let ghost o = JsValue::Object(parts);
        assert(sym(o) == Sym::Object(part_models(parts@)));
        assert(sym(JsValue::Member(Box::new(o), Box::new(p))) == member_of(sym(o), sym(p)));
    }
    match &p {
        JsValue::Unknown(_, _) => (true, object_join_of(&parts, p)),
        JsValue::Constant(c) => {
            let c = clone_constant_value(c);
            (true, lookup_constant(parts, &c, p))
        },
        JsValue::Array(_) => {
            let v = JsValue::Member(Box::new(JsValue::Object(parts)), Box::new(p));
            (true, unknown(v, "array property on object"))
        },
        JsValue::Object(_) => {
            let v = JsValue::Member(Box::new(JsValue::Object(parts)), Box::new(p));
            (true, unknown(v, "object property on object"))
        },
        JsValue::Url(_) => {
            let v = JsValue::Member(Box::new(JsValue::Object(parts)), Box::new(p));
            (true, unknown(v, "url property on object"))
        },
        JsValue::Function(_) => {
            let v = JsValue::Member(Box::new(JsValue::Object(parts)), Box::new(p));
            (true, unknown(v, "function property on object"))
        },
        JsValue::Alternatives(alts) => {
            let o = JsValue::Object(parts);
            let r = distribute(Shape::MemberOn, alts, &o, &Vec::new());
            proof {
                assert(syms(alts@).map_values(
                    |a: Sym| shaped(Shape::MemberOn, a, sym(o), syms(Seq::<JsValue>::empty())),
                ) =~= syms(alts@).map_values(|a: Sym| member_of(sym(o), a)));
            }
            (true, r)
        },
        JsValue::Concat(_) | JsValue::Add(_) => {
            if p.has_placeholder() {
                (false, JsValue::Member(Box::new(JsValue::Object(parts)), Box::new(p)))
            } else {
                (true, object_join_of(&parts, p))
            }
        },
        _ => (false, JsValue::Member(Box::new(JsValue::Object(parts)), Box::new(p))),
    }
}

/// `o[p]`.
fn member(o: JsValue, p: JsValue) -> (res: (bool, JsValue))
    ensures
        match member_rule(sym(o), sym(p)) {
            Some(n) => res.0 && sym(res.1) == n,
            None => !res.0 && res.1 == JsValue::Member(Box::new(o), Box::new(p)),
        },
{
    match o {
        JsValue::Array(items) => array_member(items, p),
        JsValue::Object(parts) => object_member(parts, p),
        JsValue::Alternatives(alts) => {
            let r = distribute(Shape::MemberOf, &alts, &p, &Vec::new());
            proof {
                assert(syms(alts@).map_values(
                    |a: Sym| shaped(Shape::MemberOf, a, sym(p), syms(Seq::<JsValue>::empty())),
                ) =~= syms(alts@).map_values(|a: Sym| member_of(a, sym(p))));
            }
            (true, r)
        },
        o => {
            let reason: Option<&'static str> = match &o {
                JsValue::Constant(_) => Some("property on constant"),
                JsValue::Url(_) => Some("property on url"),
                JsValue::Concat(_) => Some("property on string"),
                JsValue::Add(_) => Some("property on number or string"),
                JsValue::Unknown(_, _) => Some("property on unknown"),
                JsValue::Function(_) => Some("property on function"),
                _ => None,
            };
            let v = JsValue::Member(Box::new(o), Box::new(p));
            match reason {
                Some(r) => (true, unknown(v, r)),
                None => (false, v),
            }
        },
    }
}

fn is_concat_method(p: &JsValue) -> (r: bool)
    ensures
        r == is_concat_key(sym(*p)),
{
    match p {
        JsValue::Constant(ConstantValue::Str(s)) => {
            let name = String::from_str("concat");
            s.eq(&name)
        },
        _ => false,
    }
}

fn all_concat_safe(args: &Vec<JsValue>) -> (r: bool)
    ensures
        r == forall|i: int| 0 <= i < args@.len() ==> concat_safe(#[trigger] syms(args@)[i]),
{
    proof {
        lemma_syms(args@);
    }
    let mut i: usize = 0;
    while i < args.len()
        invariant
            i <= args.len(),
            syms(args@).len() == args@.len(),
            forall|j: int| 0 <= j < args@.len() ==> #[trigger] syms(args@)[j] == sym(args@[j]),
            forall|j: int| 0 <= j < i ==> concat_safe(#[trigger] syms(args@)[j]),
        decreases args.len() - i,
    {
        let safe = match &args[i] {
            JsValue::Array(_) | JsValue::Constant(_) | JsValue::Url(_) | JsValue::Concat(_)
            | JsValue::Add(_) | JsValue::WellKnownObject(_) | JsValue::WellKnownFunction(_)
            | JsValue::Function(_) => true,
            _ => false,
        };
        if !safe {
            assert(!concat_safe(syms(args@)[i as int]));
            return false;
        }
        i = i + 1;
    }
    true
}

proof fn lemma_spliced_step(a: Seq<Sym>, i: int)
    requires
        0 <= i < a.len(),
    ensures
        spliced(a.take(i + 1)) == spliced(a.take(i)) + match a[i] {
            Sym::Array(inner) => inner,
            x => seq![x],
        },
{
    assert(a.take(i + 1).drop_last() =~= a.take(i));
    assert(a.take(i + 1).last() == a[i]);
}

/// `items` followed by what `concat(...args)` appends.
fn splice_into(items: Vec<JsValue>, args: &Vec<JsValue>) -> (r: Vec<JsValue>)
    ensures
        syms(r@) == syms(items@) + spliced(syms(args@)),
{
    let ghost a = syms(args@);
    let ghost first = syms(items@);
    proof {
        lemma_syms(args@);
        assert(a.take(0) =~= Seq::<Sym>::empty());
        assert(first + spliced(a.take(0)) =~= first);
    }
    let mut out = items;
    let mut i: usize = 0;
    while i < args.len()
        invariant
            i <= args.len(),
            a == syms(args@),
            a.len() == args@.len(),
            forall|j: int| 0 <= j < args@.len() ==> #[trigger] a[j] == sym(args@[j]),
            syms(out@) == first + spliced(a.take(i as int)),
        decreases args.len() - i,
    {
        proof {
            lemma_spliced_step(a, i as int);
        }
        match &args[i] {
            JsValue::Array(inner) => {
                let mut c = clone_values(inner);
                proof {
                    lemma_syms_append(out@, c@);
                    assert(first + spliced(a.take(i as int + 1)) =~= first + spliced(
                        a.take(i as int),
                    ) + syms(inner@));
                }
                out.append(&mut c);
            },
            other => {
                let c = other.deep_clone();
                proof {
                    lemma_syms_push(out@, c);
                    assert(first + spliced(a.take(i as int + 1)) =~= (first + spliced(
                        a.take(i as int),
                    )).push(sym(c)));
                }
                out.push(c);
            },
        }
        i = i + 1;
    }
    proof {
        assert(a.take(args@.len() as int) =~= a);
    }
    out
}

/// `o.p(...args)`.
fn member_call(o: JsValue, p: JsValue, args: Vec<JsValue>) -> (r: JsValue)
    ensures
        sym(r) == member_call_rule(sym(o), sym(p), syms(args@)),
{
    proof {
        lemma_syms(args@);
        let ghost m = JsValue::Member(Box::new(o), Box::new(p));
        assert(sym(m) == member_of(sym(o), sym(p)));
        assert(sym(JsValue::Call(Box::new(m), args)) == Sym::Call(Box::new(sym(m)), syms(args@)));
    }
    match o {
        JsValue::Alternatives(alts) => {
            let r = distribute(Shape::MethodOf, &alts, &p, &args);
            proof {
                assert(syms(alts@).map_values(
                    |a: Sym| shaped(Shape::MethodOf, a, sym(p), syms(args@)),
                ) =~= syms(alts@).map_values(
                    |a: Sym| Sym::MemberCall(Box::new(a), Box::new(sym(p)), syms(args@)),
                ));
            }
            r
        },
        JsValue::Array(items) => {
            if is_concat_method(&p) && all_concat_safe(&args) {
                JsValue::Array(splice_into(items, &args))
            } else {
                let o = JsValue::Array(items);
                proof {
                    let ghost m = JsValue::Member(Box::new(o), Box::new(p));
                    assert(sym(m) == member_of(sym(o), sym(p)));
                    assert(sym(JsValue::Call(Box::new(m), args)) == Sym::Call(
                        Box::new(sym(m)),
                        syms(args@),
                    ));
                }
                JsValue::Call(Box::new(JsValue::Member(Box::new(o), Box::new(p))), args)
            }
        },
        o => JsValue::Call(Box::new(JsValue::Member(Box::new(o), Box::new(p))), args),
    }
}

/// `c(...args)`.
fn call(c: JsValue, args: Vec<JsValue>) -> (res: (bool, JsValue))
    ensures
        match call_rule(sym(c), syms(args@)) {
            Some(n) => res.0 && sym(res.1) == n,
            None => !res.0 && res.1 == JsValue::Call(Box::new(c), args),
        },
{
    let reason: Option<&'static str> = match &c {
        JsValue::Unknown(_, _) => Some("call of unknown function"),
        JsValue::Array(_) => Some("call of array"),
        JsValue::Object(_) => Some("call of object"),
        JsValue::Constant(_) => Some("call of constant"),
        JsValue::Url(_) => Some("call of url"),
        JsValue::Concat(_) => Some("call of string"),
        JsValue::Add(_) => Some("call of number or string"),
        _ => None,
    };
    if let Some(r) = reason {
        return (true, unknown(JsValue::Call(Box::new(c), args), r));
    }
    match c {
        JsValue::Function(body) => (true, body.substitute(&args)),
        JsValue::Alternatives(alts) => {
            let unused = JsValue::Alternatives(Vec::new());
            let r = distribute(Shape::CallOf, &alts, &unused, &args);
            proof {
                assert(syms(alts@).map_values(
                    |a: Sym| shaped(Shape::CallOf, a, sym(unused), syms(args@)),
                ) =~= syms(alts@).map_values(|a: Sym| Sym::Call(Box::new(a), syms(args@))));
            }
            (true, r)
        },
        c => (false, JsValue::Call(Box::new(c), args)),
    }
}

proof fn lemma_flatten_step(pm: Seq<PartModel>, i: int)
    requires
        0 <= i < pm.len(),
    ensures
        flatten_spreads(pm.take(i + 1)) == flatten_spreads(pm.take(i)) + match pm[i] {
            PartModel::Spread(Sym::Object(inner)) => inner,
            part => seq![part],
        },
{
    assert(pm.take(i + 1).drop_last() =~= pm.take(i));
    assert(pm.take(i + 1).last() == pm[i]);
}

/// The entries of `parts` with each spread object literal spliced in place.
fn flatten_parts(parts: &Vec<ObjectPart>) -> (r: Vec<ObjectPart>)
    ensures
        part_models(r@) == flatten_spreads(part_models(parts@)),
{
    let ghost pm = part_models(parts@);
    proof {
        lemma_part_models(parts@);
        assert(pm.take(0) =~= Seq::<PartModel>::empty());
    }
    let mut out: Vec<ObjectPart> = Vec::new();
    let mut i: usize = 0;
    while i < parts.len()
        invariant
            i <= parts.len(),
            pm == part_models(parts@),
            pm.len() == parts@.len(),
            forall|j: int| 0 <= j < parts@.len() ==> #[trigger] pm[j] == part_model(parts@[j]),
            part_models(out@) == flatten_spreads(pm.take(i as int)),
        decreases parts.len() - i,
    {
        proof {
            lemma_flatten_step(pm, i as int);
        }
        let spread_inner: Option<&Vec<ObjectPart>> = match &parts[i] {
            ObjectPart::Spread(JsValue::Object(inner)) => Some(inner),
            _ => None,
        };
        match spread_inner {
            Some(inner) => {
                let mut c = clone_parts(inner);
                proof {
                    lemma_parts_append(out@, c@);
                }
                out.append(&mut c);
            },
            None => {
                let c = clone_part(&parts[i]);
                proof {
                    lemma_parts_push(out@, c);
                    assert(flatten_spreads(pm.take(i as int)) + seq![part_model(c)] =~= flatten_spreads(
                        pm.take(i as int),
                    ).push(part_model(c)));
                }
                out.push(c);
            },
        }
        i = i + 1;
    }
    proof {
        assert(pm.take(parts@.len() as int) =~= pm);
    }
    out
}

/// An object literal: spreads of object literals are spliced in.
fn object(parts: Vec<ObjectPart>) -> (res: (bool, JsValue))
    ensures
        match object_rule(part_models(parts@)) {
            Some(n) => res.0 && sym(res.1) == n,
            None => !res.0 && res.1 == JsValue::Object(parts),
        },
{
    let ghost pm = part_models(parts@);
    proof {
        lemma_part_models(parts@);
    }
    let mut found = false;
    let mut i: usize = 0;
    while i < parts.len() && !found
        invariant
            i <= parts.len(),
            pm == part_models(parts@),
            pm.len() == parts@.len(),
            forall|j: int| 0 <= j < parts@.len() ==> #[trigger] pm[j] == part_model(parts@[j]),
            found ==> exists|j: int| 0 <= j < pm.len() && is_spread_object(#[trigger] pm[j]),
            !found ==> forall|j: int| 0 <= j < i ==> !is_spread_object(#[trigger] pm[j]),
        decreases parts.len() - i,
    {
        found = match &parts[i] {
            ObjectPart::Spread(JsValue::Object(_)) => true,
            _ => false,
        };
        proof {
            if found {
                assert(is_spread_object(pm[i as int]));
            }
        }
        i = i + 1;
    }
    if found {
        let flat = flatten_parts(&parts);
        (true, JsValue::Object(flat))
    } else {
        (false, JsValue::Object(parts))
    }
}

/// One rewrite step on an owned value: whether a rule fired, and the value
/// after it (the same value where none did).
fn rewrite_owned(v: JsValue) -> (res: (bool, JsValue))
    ensures
        match rewrite(sym(v)) {
            Some(n) => res.0 && sym(res.1) == n,
            None => !res.0 && res.1 == v,
        },
{
    match v {
        JsValue::Member(o, p) => member(*o, *p),
        JsValue::MemberCall(o, p, args) => (true, member_call(*o, *p, args)),
        JsValue::Call(c, args) => call(*c, args),
        JsValue::Object(parts) => object(parts),
        other => (false, other),
    }
}

/// Applies at most one builtin rewrite rule to `value`, in place, and
/// returns whether it changed. A value on which no rule fires (settled, or
/// deferred until its parts are reduced further) is left exactly as it was.
pub fn replace_builtin(value: &mut JsValue) -> (changed: bool)
    ensures
        changed == rewrite(sym(*old(value))) is Some,
        changed ==> sym(*final(value)) == rewrite(sym(*old(value)))->0,
        !changed ==> *final(value) == *old(value),
{
    let mut taken = JsValue::Constant(ConstantValue::Undefined);
    std::mem::swap(value, &mut taken);
    let (changed, next) = rewrite_owned(taken);
    *value = next;
    changed
}

/// A member access on a union is the union of the member accesses on its
/// alternatives.
pub proof fn lemma_member_distributes(alts: Seq<Sym>, p: Sym)
    ensures
        rewrite(member_of(Sym::Alternatives(alts), p)) == Some(
            Sym::Alternatives(alts.map_values(|a: Sym| member_of(a, p))),
        ),
{
}

/// The same for a union of two: `[A, B][P]` becomes `[A[P], B[P]]`.
pub proof fn lemma_member_distributes_pair(a: Sym, b: Sym, p: Sym)
    ensures
        rewrite(member_of(Sym::Alternatives(seq![a, b]), p)) == Some(
            Sym::Alternatives(seq![member_of(a, p), member_of(b, p)]),
        ),
{
    assert(seq![a, b].map_values(|x: Sym| member_of(x, p)) =~= seq![
        member_of(a, p),
        member_of(b, p),
    ]);
}

pub open spec fn int_sym(i: int) -> Sym {
    Sym::Constant(LitModel::Num(NumModel::Int(i)))
}

/// An integer index in bounds picks that element: `[x, y, z][1]` is `y`.
pub proof fn lemma_array_index(x: Sym, y: Sym, z: Sym)
    ensures
        rewrite(member_of(Sym::Array(seq![x, y, z]), int_sym(1))) == Some(y),
{
}

/// An index out of bounds gives an opaque value: `[x][5]`.
pub proof fn lemma_array_index_out_of_range(x: Sym)
    ensures
        rewrite(member_of(Sym::Array(seq![x]), int_sym(5))) matches Some(Sym::Unknown(_, _)),
{
}

/// The last write of a key wins: `{a: v1, a: v2}.a` is `v2`.
pub proof fn lemma_last_write_wins(v1: Sym, v2: Sym)
    ensures
        ({
            let a = Sym::Constant(LitModel::Str("a"@));
            rewrite(
                member_of(
                    Sym::Object(seq![PartModel::KeyValue(a, v1), PartModel::KeyValue(a, v2)]),
                    a,
                ),
            ) == Some(v2)
        }),
{
    let a = Sym::Constant(LitModel::Str("a"@));
    let parts = seq![PartModel::KeyValue(a, v1), PartModel::KeyValue(a, v2)];
    assert(parts.last() == PartModel::KeyValue(a, v2));
}

pub open spec fn str_sym(s: Seq<char>) -> Sym {
    Sym::Constant(LitModel::Str(s))
}

/// Calling a function inlines its body with the arguments in place:
/// `(function () { return arguments[0] + "x" })("y")` is `"y" + "x"`.
pub proof fn lemma_function_inlining()
    ensures
        rewrite(
            Sym::Call(
                Box::new(
                    Sym::Function(Box::new(Sym::Add(seq![Sym::Argument(0), str_sym("x"@)]))),
                ),
                seq![str_sym("y"@)],
            ),
        ) == Some(Sym::Add(seq![str_sym("y"@), str_sym("x"@)])),
{
    let body = seq![Sym::Argument(0), str_sym("x"@)];
    let args = seq![str_sym("y"@)];
    assert(body.drop_last() =~= seq![Sym::Argument(0)]);
    assert(body.drop_last().drop_last() =~= Seq::<Sym>::empty());
    assert(subst_seq(Seq::<Sym>::empty(), args) == Seq::<Sym>::empty());
    assert(seq![Sym::Argument(0)].drop_last() =~= Seq::<Sym>::empty());
    assert(subst(Sym::Argument(0), args) == str_sym("y"@));
    assert(subst_seq(seq![Sym::Argument(0)], args) =~= seq![str_sym("y"@)]);
    assert(subst(str_sym("x"@), args) == str_sym("x"@));
    assert(subst_seq(body, args) =~= seq![str_sym("y"@), str_sym("x"@)]);
}

/// `[a, b].concat([c])` is `[a, b, c]`.
pub proof fn lemma_concat_splices(a: Sym, b: Sym, c: Sym)
    ensures
        rewrite(
            Sym::MemberCall(
                Box::new(Sym::Array(seq![a, b])),
                Box::new(str_sym("concat"@)),
                seq![Sym::Array(seq![c])],
            ),
        ) == Some(Sym::Array(seq![a, b, c])),
{
    let args = seq![Sym::Array(seq![c])];
    assert(args.drop_last() =~= Seq::<Sym>::empty());
    assert(spliced(args.drop_last()) == Seq::<Sym>::empty());
    assert(spliced(args) =~= seq![c]);
    assert(seq![a, b] + seq![c] =~= seq![a, b, c]);
}

/// `[a].concat(u)` with an opaque `u` is not spliced: it becomes a call of
/// the member `concat`.
pub proof fn lemma_concat_of_unknown_falls_through(a: Sym, u: Sym)
    requires
        u is Unknown,
    ensures
        rewrite(
            Sym::MemberCall(
                Box::new(Sym::Array(seq![a])),
                Box::new(str_sym("concat"@)),
                seq![u],
            ),
        ) == Some(
            Sym::Call(Box::new(member_of(Sym::Array(seq![a]), str_sym("concat"@))), seq![u]),
        ),
{
    assert(!concat_safe(seq![u][0]));
}

/// A spread of an object literal is spliced in place:
/// `{...{k1: v1}, k2: v2}` is `{k1: v1, k2: v2}`.
pub proof fn lemma_spread_flattening(k1: Sym, v1: Sym, k2: Sym, v2: Sym)
    ensures
        rewrite(
            Sym::Object(
                seq![
                    PartModel::Spread(Sym::Object(seq![PartModel::KeyValue(k1, v1)])),
                    PartModel::KeyValue(k2, v2),
                ],
            ),
        ) == Some(Sym::Object(seq![PartModel::KeyValue(k1, v1), PartModel::KeyValue(k2, v2)])),
{
    let parts = seq![
        PartModel::Spread(Sym::Object(seq![PartModel::KeyValue(k1, v1)])),
        PartModel::KeyValue(k2, v2),
    ];
    assert(is_spread_object(parts[0]));
    assert(parts.drop_last() =~= seq![parts[0]]);
    assert(parts.drop_last().drop_last() =~= Seq::<PartModel>::empty());
    assert(seq![parts[0]].drop_last() =~= Seq::<PartModel>::empty());
    assert(flatten_spreads(Seq::<PartModel>::empty()) == Seq::<PartModel>::empty());
    assert(flatten_spreads(seq![parts[0]]) =~= seq![PartModel::KeyValue(k1, v1)]);
    assert(flatten_spreads(parts) =~= seq![
        PartModel::KeyValue(k1, v1),
        PartModel::KeyValue(k2, v2),
    ]);
}

} // verus!
