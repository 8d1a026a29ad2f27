use hermes_ru::cache::{Cache, CacheVariable, ExpType};
use hermes_ru::error::ErrorKind;
use hermes_ru::lexer::{parse_to_string, parser};

fn float_draw(bounds: Vec<ExpType>) -> Result<ExpType, hermes_ru::error::Error> {
    let numbers: Vec<f32> = bounds
        .iter()
        .filter_map(|bound| match bound {
            ExpType::FLOAT(numeral) => numeral.parse::<f32>().ok(),
            _ => None,
        })
        .collect();
    match numbers.as_slice() {
        [low, high] if low < high => {
            let drawn: f32 = rand::Rng::gen_range(&mut rand::thread_rng(), *low..*high);
            Ok(ExpType::FLOAT(drawn.to_string()))
        }
        _ => Err(hermes_ru::error::Error::with_kind(
            hermes_ru::error::ErrorKind::TypeMismatch,
            "the range is empty".to_string(),
        )),
    }
}

fn registry() -> Cache {
    let mut cache = Cache::new(10, float_draw);
    cache.add_variable(CacheVariable::new(
        "name".to_string(),
        ExpType::STRING("liudao".to_string()),
    ));
    cache.add_variable(CacheVariable::new("len".to_string(), ExpType::INT(10)));
    cache
}

fn kind_of(result: &Result<ExpType, hermes_ru::error::Error>) -> Option<ErrorKind> {
    match result {
        Ok(_) => None,
        Err(e) => Some(e.kind),
    }
}

#[test]
fn variable_renders_to_its_value() {
    let mut cache = registry();
    assert_eq!(parse_to_string("${name}", &mut cache), "liudao");
}

#[test]
fn missing_variable_renders_to_nothing_and_is_reported() {
    let mut cache = registry();
    assert_eq!(parse_to_string("${missing}", &mut cache), "");
    let results = parser("${missing}", &mut cache).unwrap();
    assert_eq!(results.len(), 1);
    assert_eq!(kind_of(&results[0]), Some(ErrorKind::VariableNotFound));
}

#[test]
fn literal_and_variable_are_joined() {
    let mut cache = registry();
    assert_eq!(parse_to_string("true+${name}", &mut cache), "trueliudao");
}

#[test]
fn random_str_takes_its_length_from_a_variable() {
    let mut cache = registry();
    let out = parse_to_string("${random_str(${len})}", &mut cache);
    assert_eq!(out.chars().count(), 10);
    assert!(out.chars().all(|c| c.is_ascii_alphanumeric()));
}

#[test]
fn unregistered_function_renders_to_nothing_and_is_reported() {
    let mut cache = registry();
    assert_eq!(parse_to_string("${nope()}", &mut cache), "");
    let results = parser("${nope()}", &mut cache).unwrap();
    assert_eq!(results.len(), 1);
    assert_eq!(kind_of(&results[0]), Some(ErrorKind::FunctionNotFound));
}

fn multiply(params: Vec<ExpType>) -> Result<ExpType, hermes_ru::error::Error> {
    let mut product = 1.0f32;
    for item in params {
        match item {
            ExpType::INT(i) => product *= i as f32,
            ExpType::FLOAT(text) => product *= text.parse::<f32>().unwrap(),
            _ => {}
        }
    }
    Ok(ExpType::FLOAT(product.to_string()))
}

#[test]
fn a_host_function_is_called_with_the_values_of_its_arguments() {
    let mut cache = registry();
    cache.add_function("multiply", multiply);
    assert_eq!(parse_to_string("${multiply(1,-2.5,3)}", &mut cache), "-7.5");
    assert_eq!(parse_to_string("${multiply(${len},0.5)}", &mut cache), "5");
    assert_eq!(parse_to_string("${multiply()}", &mut cache), "1");
}

#[test]
fn the_whole_example_renders() {
    let mut cache = registry();
    cache.add_function("multiply", multiply);
    let input = "\"dd\"+true+${name}+${invalid}+${random_str(${len})}+${multiply(1,-2.5,3)}";
    let out = parse_to_string(input, &mut cache);
    assert_eq!(out.chars().count(), 2 + 4 + 6 + 0 + 10 + 4);
    assert!(out.starts_with("ddtrueliudao"));
    assert!(out.ends_with("-7.5"));
}

#[test]
fn literals_evaluate_to_what_they_denote() {
    let mut cache = registry();
    let results = parser("12+-3+2.50+true+false+\"s\"+${7}", &mut cache).unwrap();
    let shown: Vec<String> = results.iter().map(|r| format!("{:?}", r.as_ref().unwrap())).collect();
    assert_eq!(
        shown,
        vec![
            "INT(12)",
            "INT(-3)",
            "FLOAT(\"2.50\")",
            "BOOL(true)",
            "BOOL(false)",
            "STRING(\"s\")",
            "INT(7)"
        ]
    );
    assert_eq!(
        parse_to_string("12+-3+2.50+true+false+\"s\"+${7}", &mut cache),
        "12-32.50truefalses7"
    );
}

#[test]
fn an_integer_literal_out_of_range_is_a_literal_failure() {
    let mut cache = registry();
    let results = parser("2147483647+2147483648+-2147483648+-2147483649", &mut cache).unwrap();
    assert_eq!(results.len(), 4);
    assert_eq!(results[0].as_ref().unwrap().to_string(), "2147483647");
    assert_eq!(kind_of(&results[1]), Some(ErrorKind::LiteralParseError));
    assert_eq!(results[2].as_ref().unwrap().to_string(), "-2147483648");
    assert_eq!(kind_of(&results[3]), Some(ErrorKind::LiteralParseError));
    assert_eq!(
        parse_to_string("1+99999999999+2", &mut cache),
        "12"
    );
}

#[test]
fn input_that_is_no_template_fails_as_a_whole() {
    let mut cache = registry();
    for input in ["", "${name", "${name}+", "${name}}", "1 + 2", "hello"] {
        let e = parser(input, &mut cache).unwrap_err();
        assert_eq!(e.kind, ErrorKind::SyntaxError);
        assert_eq!(parse_to_string(input, &mut cache), "");
    }
}

#[test]
fn one_failed_item_does_not_stop_the_others() {
    let mut cache = registry();
    let results = parser("${missing}+${name}+${nope()}+1", &mut cache).unwrap();
    assert_eq!(results.len(), 4);
    assert_eq!(kind_of(&results[0]), Some(ErrorKind::VariableNotFound));
    assert_eq!(results[1].as_ref().unwrap().to_string(), "liudao");
    assert_eq!(kind_of(&results[2]), Some(ErrorKind::FunctionNotFound));
    assert_eq!(results[3].as_ref().unwrap().to_string(), "1");
    assert_eq!(parse_to_string("${missing}+${name}+${nope()}+1", &mut cache), "liudao1");
}

#[test]
fn the_first_failed_argument_ends_the_call() {
    let mut cache = registry();
    cache.add_function("never", |_params: Vec<ExpType>| -> Result<ExpType, hermes_ru::error::Error> {
        panic!("the function was called")
    });
    let results = parser("${never(1,${missing},${nope()})}", &mut cache).unwrap();
    assert_eq!(kind_of(&results[0]), Some(ErrorKind::VariableNotFound));
    let results = parser("${never(${nope()},${missing})}", &mut cache).unwrap();
    assert_eq!(kind_of(&results[0]), Some(ErrorKind::FunctionNotFound));
    let results = parser("${never(random_str(true))}", &mut cache).unwrap();
    assert_eq!(kind_of(&results[0]), Some(ErrorKind::TypeMismatch));
    let results = parser("${nope(${missing})}", &mut cache).unwrap();
    assert_eq!(kind_of(&results[0]), Some(ErrorKind::VariableNotFound));
}

#[test]
fn an_unregistered_function_never_reaches_a_callable() {
    let mut cache = Cache::new(0, float_draw);
    cache.add_function("other", |_params: Vec<ExpType>| -> Result<ExpType, hermes_ru::error::Error> {
        panic!("a function was called")
    });
    let results = parser("${nope(1,2)}", &mut cache).unwrap();
    assert_eq!(kind_of(&results[0]), Some(ErrorKind::FunctionNotFound));
}

#[test]
fn a_bare_name_as_argument_is_a_variable() {
    let mut cache = registry();
    let out = parse_to_string("${random_str(len)}", &mut cache);
    assert_eq!(out.chars().count(), 10);
    let results = parser("${random_str(name)}", &mut cache).unwrap();
    assert_eq!(kind_of(&results[0]), Some(ErrorKind::TypeMismatch));
}

#[test]
fn builtins_are_reached_from_a_template() {
    let mut cache = registry();
    let out = parse_to_string("${random_num(10,20)}", &mut cache);
    let n: i32 = out.parse().unwrap();
    assert!(10 <= n && n < 20);
    let out = parse_to_string("${random_bool()}", &mut cache);
    assert!(out == "true" || out == "false");
    let out = parse_to_string("${current_time(\"%Y\")}", &mut cache);
    assert_eq!(out.len(), 4);
    let out = parse_to_string("${random_num(0.0,1.0)}", &mut cache);
    let drawn: f32 = out.parse().unwrap();
    assert!(0.0 <= drawn && drawn < 1.0);
    let out = parse_to_string("${random_num(10.0)}", &mut cache);
    let drawn: f32 = out.parse().unwrap();
    assert!(0.0 <= drawn && drawn < 10.0);
    let results = parser("${random_num(1,2.0)}", &mut cache).unwrap();
    assert_eq!(kind_of(&results[0]), Some(ErrorKind::TypeMismatch));
}

#[test]
fn rendering_a_join_is_joining_the_renderings() {
    let mut cache = registry();
    let parts = ["${name}", "true", "\"a+b\"", "${len}+-2.5", "${missing}", "${random_num(3,4)}"];
    for a in parts {
        for b in parts {
            let joined = format!("{}+{}", a, b);
            let expected = format!(
                "{}{}",
                parse_to_string(a, &mut cache),
                parse_to_string(b, &mut cache)
            );
            assert_eq!(parse_to_string(&joined, &mut cache), expected);
        }
    }
}

#[test]
fn evaluation_leaves_the_registry_as_it_was() {
    let mut cache = registry();
    let _ = parser("${name}+${random_str(${len})}+${missing}", &mut cache).unwrap();
    let names: Vec<&str> = cache.variables().iter().map(|v| v.name.as_str()).collect();
    assert_eq!(names, vec!["name", "len"]);
    assert_eq!(cache.functions().len(), 5);
}

#[test]
fn a_variable_set_anew_is_what_a_template_sees() {
    let mut cache = registry();
    cache.set_variable("name", ExpType::INT(3));
    assert_eq!(parse_to_string("${name}+${len}", &mut cache), "310");
    cache.remove_variable("len");
    assert_eq!(parse_to_string("${name}+${len}", &mut cache), "3");
}

fn identity(params: Vec<ExpType>) -> Result<ExpType, hermes_ru::error::Error> {
    Ok(params[0].clone())
}

#[test]
fn a_host_function_gets_an_integer_literal() {
    let mut c = Cache::new(0, float_draw);
    c.add_function("id", identity);
    let v = parser("${id(-7)}", &mut c).unwrap();
    assert_eq!(v.len(), 1);
    assert!(matches!(v[0].as_ref().unwrap(), ExpType::INT(-7)));
}

#[test]
fn a_host_function_gets_a_float_literal() {
    let mut c = Cache::new(0, float_draw);
    c.add_function("id", identity);
    let v = parser("${id(-2.5)}", &mut c).unwrap();
    assert_eq!(v.len(), 1);
    match v[0].as_ref().unwrap() {
        ExpType::FLOAT(numeral) => {
            assert_eq!(numeral, "-2.5");
            assert_eq!(numeral.parse::<f32>().unwrap(), -2.5f32);
        }
        other => panic!("a float was expected, not {:?}", other),
    }
}

#[test]
fn a_host_function_gets_its_arguments_in_their_order() {
    let mut c = Cache::new(0, float_draw);
    c.add_function("cat", |p: Vec<ExpType>| {
        Ok(ExpType::STRING(
            p.iter().map(|v| v.to_string()).collect::<Vec<_>>().join(","),
        ))
    });
    let v = parser(r#"${cat(3,"a",true,-2.5)}"#, &mut c).unwrap();
    assert_eq!(v.len(), 1);
    assert_eq!(v[0].as_ref().unwrap().to_string(), "3,a,true,-2.5");
    assert!(matches!(v[0].as_ref().unwrap(), ExpType::STRING(_)));
}

#[test]
fn an_unclosed_marker_fails_as_a_whole_and_calls_nothing() {
    let called = std::rc::Rc::new(std::cell::Cell::new(0));
    let seen = called.clone();
    let mut c = Cache::new(1, float_draw);
    c.add_variable(CacheVariable::new(
        "name".to_string(),
        ExpType::STRING("liudao".to_string()),
    ));
    c.add_function("record", move |_p: Vec<ExpType>| {
        seen.set(seen.get() + 1);
        Ok(ExpType::INT(0))
    });
    let e = parser("${name", &mut c).unwrap_err();
    assert_eq!(e.kind, ErrorKind::SyntaxError);
    assert_eq!(
        e.message,
        "no marker or literal can be read from the input at character 0"
    );
    let e = parser("${record()}+${name", &mut c).unwrap_err();
    assert_eq!(
        e.message,
        "no marker or literal can be read from the input at character 12"
    );
    let e = parser("${record()}${name}", &mut c).unwrap_err();
    assert_eq!(
        e.message,
        "`+` or the end of the input is expected at character 11"
    );
    assert_eq!(called.get(), 0);
    assert_eq!(c.variables().len(), 1);
    assert_eq!(c.functions().len(), 6);
}
