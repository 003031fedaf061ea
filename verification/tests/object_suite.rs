use monkey::BuiltInFnt;
use monkey::Environment;
use monkey::Kind;
use monkey::Object;

#[test]
fn push_builds_arrays_without_mutating_arguments() {
    let intermediate = BuiltInFnt::Push
        .call(vec![Object::Array(vec![]), Object::Integer { value: 1 }])
        .unwrap();
    let result = BuiltInFnt::Push.call(vec![intermediate, Object::Integer { value: 2 }]).unwrap();
    assert_eq!(
        result,
        Object::Array(vec![Object::Integer { value: 1 }, Object::Integer { value: 2 }])
    );
    let empty_elsewhere = Object::Array(vec![]);
    let once_more = BuiltInFnt::Push
        .call(vec![Object::Array(vec![]), Object::Integer { value: 1 }])
        .unwrap();
    assert_eq!(once_more, Object::Array(vec![Object::Integer { value: 1 }]));
    assert_eq!(empty_elsewhere, Object::Array(vec![]));
}

#[test]
fn len_counts_strings_and_arrays() {
    let r = BuiltInFnt::Len.call(vec![Object::Str(String::from("hello"))]).unwrap();
    assert_eq!(r, Object::Integer { value: 5 });
    let r = BuiltInFnt::Len
        .call(vec![Object::Array(vec![Object::Null, Object::Boolean { value: true }])])
        .unwrap();
    assert_eq!(r, Object::Integer { value: 2 });
}

#[test]
fn first_last_rest_read_arrays() {
    let arr = || {
        Object::Array(vec![
            Object::Integer { value: 1 },
            Object::Integer { value: 2 },
            Object::Integer { value: 3 },
        ])
    };
    assert_eq!(BuiltInFnt::First.call(vec![arr()]).unwrap(), Object::Integer { value: 1 });
    assert_eq!(BuiltInFnt::Last.call(vec![arr()]).unwrap(), Object::Integer { value: 3 });
    assert_eq!(
        BuiltInFnt::Rest.call(vec![arr()]).unwrap(),
        Object::Array(vec![Object::Integer { value: 2 }, Object::Integer { value: 3 }])
    );
    assert_eq!(BuiltInFnt::First.call(vec![Object::Array(vec![])]).unwrap(), Object::Null);
    assert_eq!(BuiltInFnt::Last.call(vec![Object::Array(vec![])]).unwrap(), Object::Null);
    assert_eq!(BuiltInFnt::Rest.call(vec![Object::Array(vec![])]).unwrap(), Object::Null);
}

#[test]
fn builtins_validate_arity_and_kinds() {
    let r = BuiltInFnt::Len.call(vec![]);
    assert!(matches!(
        r,
        Err(monkey::EvalError::WrongArgCount { builtin: BuiltInFnt::Len, expected: 1, got: 0 })
    ));
    let r = BuiltInFnt::Len.call(vec![Object::Integer { value: 5 }]);
    assert!(matches!(
        r,
        Err(monkey::EvalError::WrongArgKind { builtin: BuiltInFnt::Len, got: Kind::Integer })
    ));
    let r = BuiltInFnt::Push.call(vec![Object::Integer { value: 5 }, Object::Null]);
    assert!(matches!(
        r,
        Err(monkey::EvalError::WrongArgKind { builtin: BuiltInFnt::Push, got: Kind::Integer })
    ));
}

#[test]
fn builtin_names_resolve() {
    assert_eq!(BuiltInFnt::from_name("len"), BuiltInFnt::Len);
    assert_eq!(BuiltInFnt::from_name("first"), BuiltInFnt::First);
    assert_eq!(BuiltInFnt::from_name("last"), BuiltInFnt::Last);
    assert_eq!(BuiltInFnt::from_name("rest"), BuiltInFnt::Rest);
    assert_eq!(BuiltInFnt::from_name("push"), BuiltInFnt::Push);
    assert_eq!(BuiltInFnt::from_name("cons"), BuiltInFnt::NotBuiltIn);
}

#[test]
fn builtin_tags_have_display_names() {
    assert_eq!(BuiltInFnt::Len.name(), "len");
    assert_eq!(BuiltInFnt::First.name(), "first");
    assert_eq!(BuiltInFnt::Last.name(), "last");
    assert_eq!(BuiltInFnt::Push.name(), "push");
    assert_eq!(BuiltInFnt::NotBuiltIn.name(), "");
}

#[test]
fn structural_equality_reaches_into_values() {
    let r = monkey::eval_infix_expr(
        &monkey::Token::EQ,
        Object::Str(String::from("a")),
        Object::Str(String::from("a")),
    );
    assert_eq!(r, Ok(Object::Boolean { value: true }));
    let r = monkey::eval_infix_expr(
        &monkey::Token::NOTEQ,
        Object::Str(String::from("a")),
        Object::Str(String::from("b")),
    );
    assert_eq!(r, Ok(Object::Boolean { value: true }));
    let func = || Object::Function {
        parameter: vec![String::from("x")],
        body: vec![],
        env: 0,
    };
    let r = monkey::eval_infix_expr(&monkey::Token::EQ, func(), func());
    assert_eq!(r, Ok(Object::Boolean { value: true }));
}

#[test]
fn environment_shadowing_reads_through_layers() {
    let mut outer = Environment::new();
    outer.set(String::from("a"), Object::Integer { value: 5 });
    let mut inner = Environment::new_enclosed(outer);
    assert_eq!(inner.get(&String::from("a")), Some(Object::Integer { value: 5 }));
    inner.set(String::from("a"), Object::Integer { value: 7 });
    assert_eq!(inner.get(&String::from("a")), Some(Object::Integer { value: 7 }));
    assert_eq!(inner.get(&String::from("b")), None);
}

#[test]
fn kind_names_describe_values() {
    assert_eq!(Object::Integer { value: 1 }.kind_name(), "Integer");
    assert_eq!(Object::Complex { re: 1, im: 1 }.kind_name(), "Complex");
    assert_eq!(Object::Null.kind_name(), "Null");
    assert_eq!(Object::Str(String::new()).kind_name(), "String");
    assert_eq!(Object::Array(vec![]).kind_name(), "Array");
}

#[test]
fn to_complex_reads_numeric_values_only() {
    assert_eq!(Object::Integer { value: 4 }.to_complex(), Some((4, 0)));
    assert_eq!(Object::Complex { re: 2, im: -3 }.to_complex(), Some((2, -3)));
    assert_eq!(Object::Boolean { value: true }.to_complex(), None);
    assert_eq!(Object::Null.to_complex(), None);
}
