use std::sync::Arc;
use turbopack_analyzer::builtin::replace_builtin;
use turbopack_analyzer::value::{ConstantNumber, ConstantValue, FreeVarKind, JsValue, ObjectPart};

fn num(i: i64) -> JsValue {
    JsValue::Constant(ConstantValue::Num(ConstantNumber::Int(i)))
}

fn string(s: &str) -> JsValue {
    JsValue::Constant(ConstantValue::Str(s.to_string()))
}

fn var(s: &str) -> JsValue {
    JsValue::Variable(s.to_string())
}

fn member(o: JsValue, p: JsValue) -> JsValue {
    JsValue::Member(Box::new(o), Box::new(p))
}

fn kv(k: &str, v: JsValue) -> ObjectPart {
    ObjectPart::KeyValue(string(k), v)
}

fn unknown(reason: &'static str) -> JsValue {
    JsValue::Unknown(None, reason)
}

fn undefined() -> JsValue {
    JsValue::FreeVar(FreeVarKind::Undefined)
}

/// The reason of an opaque value, and what justifies it.
fn reason_of(v: &JsValue) -> (&'static str, Option<&JsValue>) {
    match v {
        JsValue::Unknown(j, r) => (*r, j.as_deref()),
        other => panic!("expected an unknown value, got {:?}", other),
    }
}

fn rewrite(v: JsValue) -> (bool, JsValue) {
    let mut v = v;
    let changed = replace_builtin(&mut v);
    (changed, v)
}

#[test]
fn settled_values_are_left_alone() {
    let settled = vec![
        num(3),
        string("a"),
        JsValue::Array(vec![num(1), var("x")]),
        JsValue::Object(vec![kv("a", num(1)), ObjectPart::Spread(var("o"))]),
        JsValue::Alternatives(vec![num(1), num(2)]),
        JsValue::Concat(vec![string("a"), var("b")]),
        member(var("x"), string("a")),
        member(JsValue::Array(vec![num(1)]), var("i")),
        member(JsValue::Object(vec![kv("a", num(1))]), JsValue::Argument(0)),
        JsValue::Call(Box::new(var("f")), vec![num(1)]),
        JsValue::Call(Box::new(JsValue::WellKnownFunction("require".to_string())), vec![]),
        unknown("anything"),
    ];
    for v in settled {
        let before = v.deep_clone();
        let (changed, after) = rewrite(v);
        assert!(!changed);
        assert_eq!(after, before);
        let (again, after_again) = rewrite(after);
        assert!(!again);
        assert_eq!(after_again, before);
    }
}

#[test]
fn member_of_union_distributes() {
    let a = JsValue::Array(vec![num(10), num(20)]);
    let b = JsValue::Object(vec![kv("x", num(30))]);
    let v = member(JsValue::Alternatives(vec![a.deep_clone(), b.deep_clone()]), num(1));
    let (changed, v) = rewrite(v);
    assert!(changed);
    assert_eq!(
        v,
        JsValue::Alternatives(vec![member(a.deep_clone(), num(1)), member(b.deep_clone(), num(1))])
    );
    match v {
        JsValue::Alternatives(mut alts) => {
            assert!(replace_builtin(&mut alts[0]));
            assert_eq!(alts[0], num(20));
            assert!(replace_builtin(&mut alts[1]));
            assert_eq!(alts[1], undefined());
        }
        _ => unreachable!(),
    }
}

#[test]
fn array_indexing() {
    let v = member(JsValue::Array(vec![var("x"), var("y"), var("z")]), num(1));
    assert_eq!(rewrite(v), (true, var("y")));
    let v = member(JsValue::Array(vec![var("x"), var("y"), var("z")]), num(2));
    assert_eq!(rewrite(v), (true, var("z")));
    let v = member(JsValue::Array(vec![var("x"), var("y"), var("z")]), num(0));
    assert_eq!(rewrite(v), (true, var("x")));
}

#[test]
fn out_of_range_indexing() {
    let original = member(JsValue::Array(vec![var("x")]), num(5));
    let (changed, v) = rewrite(original.deep_clone());
    assert!(changed);
    let (reason, justification) = reason_of(&v);
    assert_eq!(reason, "invalid index");
    assert_eq!(justification, Some(&original));
    let (_, v) = rewrite(member(JsValue::Array(vec![var("x")]), num(-1)));
    assert_eq!(reason_of(&v).0, "invalid index");
    let fraction = JsValue::Constant(ConstantValue::Num(ConstantNumber::Other("0.5".to_string())));
    let (_, v) = rewrite(member(JsValue::Array(vec![var("x")]), fraction));
    assert_eq!(reason_of(&v).0, "invalid index");
}

#[test]
fn array_with_other_keys() {
    let arr = || JsValue::Array(vec![num(1)]);
    let cases = vec![
        (string("length"), "non-num constant property on array"),
        (JsValue::Constant(ConstantValue::True), "non-num constant property on array"),
        (JsValue::Array(vec![]), "array property on array"),
        (JsValue::Object(vec![]), "object property on array"),
        (JsValue::Url(Box::new(string("a"))), "url property on array"),
        (JsValue::Function(Box::new(num(1))), "function property on array"),
    ];
    for (key, expected) in cases {
        let (changed, v) = rewrite(member(arr(), key));
        assert!(changed);
        assert_eq!(reason_of(&v).0, expected);
    }
}

#[test]
fn array_with_unknown_key_joins_elements() {
    let (changed, v) = rewrite(member(JsValue::Array(vec![num(1), num(2)]), unknown("k")));
    assert!(changed);
    match v {
        JsValue::Alternatives(alts) => {
            assert_eq!(alts.len(), 3);
            assert_eq!(alts[0], num(1));
            assert_eq!(alts[1], num(2));
            let (reason, justification) = reason_of(&alts[2]);
            assert_eq!(reason, "unknown array prototype methods or values");
            assert_eq!(justification, Some(&member(JsValue::Array(vec![]), unknown("k"))));
        }
        other => panic!("unexpected {:?}", other),
    }
}

#[test]
fn array_with_computed_key() {
    let key = JsValue::Concat(vec![string("a"), var("b")]);
    let v = member(JsValue::Array(vec![num(1)]), key);
    let before = v.deep_clone();
    assert_eq!(rewrite(v), (false, before));

    let key = JsValue::Add(vec![num(1), num(2)]);
    let (changed, v) = rewrite(member(JsValue::Array(vec![num(7)]), key));
    assert!(changed);
    match v {
        JsValue::Alternatives(alts) => {
            assert_eq!(alts.len(), 2);
            assert_eq!(alts[0], num(7));
        }
        other => panic!("unexpected {:?}", other),
    }
}

#[test]
fn array_with_union_key_distributes() {
    let arr = JsValue::Array(vec![num(1), num(2)]);
    let v = member(arr.deep_clone(), JsValue::Alternatives(vec![num(0), num(1)]));
    let (changed, v) = rewrite(v);
    assert!(changed);
    assert_eq!(
        v,
        JsValue::Alternatives(vec![member(arr.deep_clone(), num(0)), member(arr.deep_clone(), num(1))])
    );
}

#[test]
fn last_write_wins_object_lookup() {
    let obj = JsValue::Object(vec![kv("a", var("v1")), kv("a", var("v2"))]);
    assert_eq!(rewrite(member(obj, string("a"))), (true, var("v2")));
}

#[test]
fn object_lookup_edges() {
    let obj = JsValue::Object(vec![kv("a", num(1)), kv("b", num(2))]);
    assert_eq!(rewrite(member(obj, string("c"))), (true, undefined()));

    let obj = JsValue::Object(vec![kv("a", num(1)), ObjectPart::Spread(var("o"))]);
    let (changed, v) = rewrite(member(obj, string("a")));
    assert!(changed);
    assert_eq!(reason_of(&v).0, "spreaded object");

    let obj = JsValue::Object(vec![ObjectPart::Spread(var("o")), kv("a", num(1))]);
    assert_eq!(rewrite(member(obj, string("a"))), (true, num(1)));

    let obj = JsValue::Object(vec![ObjectPart::KeyValue(num(1), string("one"))]);
    assert_eq!(rewrite(member(obj, num(1))), (true, string("one")));
    let obj = JsValue::Object(vec![ObjectPart::KeyValue(num(1), string("one"))]);
    assert_eq!(rewrite(member(obj, string("1"))), (true, undefined()));
}

#[test]
fn object_with_unknown_key_joins_values() {
    let obj = JsValue::Object(vec![kv("a", num(1)), ObjectPart::Spread(var("o"))]);
    let (changed, v) = rewrite(member(obj, unknown("k")));
    assert!(changed);
    match v {
        JsValue::Alternatives(alts) => {
            assert_eq!(alts.len(), 3);
            assert_eq!(alts[0], num(1));
            let (reason, justification) = reason_of(&alts[1]);
            assert_eq!(reason, "spreaded object");
            assert_eq!(
                justification,
                Some(&member(JsValue::Object(vec![ObjectPart::Spread(var("o"))]), unknown("k")))
            );
            assert_eq!(reason_of(&alts[2]).0, "unknown object prototype methods or values");
        }
        other => panic!("unexpected {:?}", other),
    }
}

#[test]
fn object_with_other_keys() {
    let cases = vec![
        (JsValue::Array(vec![]), "array property on object"),
        (JsValue::Object(vec![]), "object property on object"),
        (JsValue::Url(Box::new(string("a"))), "url property on object"),
        (JsValue::Function(Box::new(num(1))), "function property on object"),
    ];
    for (key, expected) in cases {
        let (changed, v) = rewrite(member(JsValue::Object(vec![kv("a", num(1))]), key));
        assert!(changed);
        assert_eq!(reason_of(&v).0, expected);
    }
}

#[test]
fn member_of_opaque_values() {
    let cases = vec![
        (num(1), "property on constant"),
        (JsValue::Url(Box::new(string("u"))), "property on url"),
        (JsValue::Concat(vec![string("a")]), "property on string"),
        (JsValue::Add(vec![num(1)]), "property on number or string"),
        (unknown("x"), "property on unknown"),
        (JsValue::Function(Box::new(num(1))), "property on function"),
    ];
    for (obj, expected) in cases {
        let original = member(obj, string("p"));
        let (changed, v) = rewrite(original.deep_clone());
        assert!(changed);
        let (reason, justification) = reason_of(&v);
        assert_eq!(reason, expected);
        assert_eq!(justification, Some(&original));
    }
}

#[test]
fn function_inlining() {
    let body = JsValue::Add(vec![JsValue::Argument(0), string("x")]);
    let v = JsValue::Call(Box::new(JsValue::Function(Box::new(body))), vec![string("y")]);
    assert_eq!(rewrite(v), (true, JsValue::Add(vec![string("y"), string("x")])));
}

#[test]
fn inlining_stops_at_nested_functions() {
    let inner = JsValue::Function(Box::new(JsValue::Argument(0)));
    let body = JsValue::Array(vec![JsValue::Argument(1), inner.deep_clone(), JsValue::Argument(0)]);
    let v = JsValue::Call(Box::new(JsValue::Function(Box::new(body))), vec![num(5)]);
    assert_eq!(rewrite(v), (true, JsValue::Array(vec![undefined(), inner, num(5)])));
}

#[test]
fn call_of_non_callables() {
    let cases = vec![
        (unknown("u"), "call of unknown function"),
        (JsValue::Array(vec![]), "call of array"),
        (JsValue::Object(vec![]), "call of object"),
        (num(1), "call of constant"),
        (JsValue::Url(Box::new(string("u"))), "call of url"),
        (JsValue::Concat(vec![]), "call of string"),
        (JsValue::Add(vec![]), "call of number or string"),
    ];
    for (callee, expected) in cases {
        let (changed, v) = rewrite(JsValue::Call(Box::new(callee), vec![num(1)]));
        assert!(changed);
        assert_eq!(reason_of(&v).0, expected);
    }
}

#[test]
fn call_of_union_distributes() {
    let f = JsValue::Function(Box::new(JsValue::Argument(0)));
    let v = JsValue::Call(Box::new(JsValue::Alternatives(vec![f.deep_clone(), var("g")])), vec![num(1)]);
    let (changed, v) = rewrite(v);
    assert!(changed);
    assert_eq!(
        v,
        JsValue::Alternatives(vec![
            JsValue::Call(Box::new(f), vec![num(1)]),
            JsValue::Call(Box::new(var("g")), vec![num(1)]),
        ])
    );
}

#[test]
fn concat_specialization() {
    let v = JsValue::MemberCall(
        Box::new(JsValue::Array(vec![var("a"), var("b")])),
        Box::new(string("concat")),
        vec![JsValue::Array(vec![var("c")])],
    );
    assert_eq!(rewrite(v), (true, JsValue::Array(vec![var("a"), var("b"), var("c")])));

    let v = JsValue::MemberCall(
        Box::new(JsValue::Array(vec![var("a")])),
        Box::new(string("concat")),
        vec![unknown("u")],
    );
    assert_eq!(
        rewrite(v),
        (
            true,
            JsValue::Call(
                Box::new(member(JsValue::Array(vec![var("a")]), string("concat"))),
                vec![unknown("u")],
            )
        )
    );
}

#[test]
fn concat_pushes_non_array_arguments() {
    let v = JsValue::MemberCall(
        Box::new(JsValue::Array(vec![num(1)])),
        Box::new(string("concat")),
        vec![num(2), JsValue::Array(vec![num(3), num(4)]), string("s")],
    );
    assert_eq!(rewrite(v), (true, JsValue::Array(vec![num(1), num(2), num(3), num(4), string("s")])));
}

#[test]
fn other_method_calls_become_calls() {
    let v = JsValue::MemberCall(Box::new(var("o")), Box::new(string("m")), vec![num(1)]);
    assert_eq!(
        rewrite(v),
        (true, JsValue::Call(Box::new(member(var("o"), string("m"))), vec![num(1)]))
    );
    let v = JsValue::MemberCall(
        Box::new(JsValue::Alternatives(vec![var("a"), var("b")])),
        Box::new(string("m")),
        vec![],
    );
    assert_eq!(
        rewrite(v),
        (
            true,
            JsValue::Alternatives(vec![
                JsValue::MemberCall(Box::new(var("a")), Box::new(string("m")), vec![]),
                JsValue::MemberCall(Box::new(var("b")), Box::new(string("m")), vec![]),
            ])
        )
    );
}

#[test]
fn spread_flattening() {
    let v = JsValue::Object(vec![
        ObjectPart::Spread(JsValue::Object(vec![kv("a", num(1))])),
        kv("b", num(2)),
    ]);
    assert_eq!(rewrite(v), (true, JsValue::Object(vec![kv("a", num(1)), kv("b", num(2))])));
}

#[test]
fn unknown_justification_is_shared_by_clones() {
    let v = JsValue::Unknown(Some(Arc::new(num(1))), "r");
    let c = v.deep_clone();
    match (&v, &c) {
        (JsValue::Unknown(Some(a), _), JsValue::Unknown(Some(b), _)) => assert!(Arc::ptr_eq(a, b)),
        _ => unreachable!(),
    }
}

#[test]
fn placeholders() {
    assert!(!JsValue::Array(vec![num(1), JsValue::Concat(vec![string("a")])]).has_placeholder());
    assert!(JsValue::Array(vec![num(1), JsValue::Concat(vec![var("a")])]).has_placeholder());
    assert!(JsValue::Object(vec![kv("a", JsValue::Argument(0))]).has_placeholder());
    assert!(!JsValue::Object(vec![kv("a", num(0))]).has_placeholder());
    assert!(JsValue::Function(Box::new(JsValue::Argument(0))).has_placeholder());
    assert!(JsValue::Module("m".to_string()).has_placeholder());
}
