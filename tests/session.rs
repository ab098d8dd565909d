use tazor::session::{SessionStore, Step};

// A stand-in evaluator: the value of an expression is its length.
fn evaluate(expression: &str) -> Result<f64, String> {
    if expression.is_empty() {
        return Err(String::from("Expression is empty"));
    }

    return Ok(expression.len() as f64);
}

fn process(store: &mut SessionStore, input: &str) -> Result<String, String> {
    match store.prepare(input)? {
        Step::Evaluate { target, text } => {
            let value: f64 = evaluate(text.as_str())?;
            Ok(store.assign(target, format!("{}", value)))
        }
        Step::Define {
            name,
            parameters,
            body,
            expanded,
        } => Ok(store.define(name, parameters, body, expanded)),
    }
}

fn variable(store: &SessionStore, name: &str) -> Option<String> {
    store
        .variables()
        .iter()
        .find(|(key, _)| key == name)
        .map(|(_, value)| value.clone())
}

fn function(store: &SessionStore, name: &str) -> Option<(Vec<String>, String)> {
    store
        .functions()
        .iter()
        .find(|(key, _)| key == name)
        .map(|(_, definition)| definition.clone())
}

#[test]
fn test_calculator_process_raw_expression() {
    let mut calculator = SessionStore::new();

    let expression: String = String::from("1 + 1");

    match process(&mut calculator, expression.as_str()) {
        Ok(str_result) => {
            let variable_name: String = String::from("last");
            let variable_value: f64 = expression.len() as f64;

            let str_reference: String = format!("{} = {}", variable_name, variable_value);
            assert_eq!(str_result, str_reference);

            assert_eq!(calculator.variables().len(), 1);
            assert_eq!(
                variable(&calculator, &variable_name),
                Some(format!("{}", variable_value))
            );
        }
        Err(_) => assert!(false),
    }
}

#[test]
fn test_calculator_process_several_raw_expression() {
    let mut calculator = SessionStore::new();

    let first_expression: String = String::from("1 + 1");
    let variable_name: String = String::from("last");

    match process(&mut calculator, first_expression.as_str()) {
        Ok(str_result) => {
            let variable_value: f64 = first_expression.len() as f64;

            let str_reference: String = format!("{} = {}", variable_name, variable_value);
            assert_eq!(str_result, str_reference);

            assert_eq!(calculator.variables().len(), 1);
            assert_eq!(
                variable(&calculator, &variable_name),
                Some(format!("{}", variable_value))
            );
        }
        Err(_) => assert!(false),
    }

    // The value stored under `last` is overwritten by the second expression.
    let second_expression: String = String::from("1 + 1 + 3");

    match process(&mut calculator, second_expression.as_str()) {
        Ok(str_result) => {
            let variable_value: f64 = second_expression.len() as f64;

            let str_reference: String = format!("{} = {}", variable_name, variable_value);
            assert_eq!(str_result, str_reference);

            assert_eq!(calculator.variables().len(), 1);
            assert_eq!(
                variable(&calculator, &variable_name),
                Some(format!("{}", variable_value))
            );
        }
        Err(_) => assert!(false),
    }
}

#[test]
fn test_calculator_process_variable_expression() {
    let mut calculator = SessionStore::new();

    let variable_name: String = String::from("x");
    let variable_definition: String = String::from("1 + 1");

    let expression: String = format!("{} = {}", variable_name, variable_definition);

    match process(&mut calculator, expression.as_str()) {
        Ok(str_result) => {
            let variable_value: f64 = variable_definition.len() as f64;

            let str_reference: String = format!("{} = {}", variable_name, variable_value);
            assert_eq!(str_result, str_reference);

            assert_eq!(calculator.variables().len(), 1);
            assert_eq!(
                variable(&calculator, &variable_name),
                Some(format!("{}", variable_value))
            );
        }
        Err(_) => assert!(false),
    }
}

#[test]
fn test_calculator_process_several_variable_expression() {
    let mut calculator = SessionStore::new();

    let first_variable_name: String = String::from("x");
    let first_variable_definition: String = String::from("1 + 1");

    let first_expression: String =
        format!("{} = {}", first_variable_name, first_variable_definition);

    match process(&mut calculator, first_expression.as_str()) {
        Ok(str_result) => {
            let variable_value: f64 = first_variable_definition.len() as f64;

            let str_reference: String = format!("{} = {}", first_variable_name, variable_value);
            assert_eq!(str_result, str_reference);

            assert_eq!(calculator.variables().len(), 1);
            assert_eq!(
                variable(&calculator, &first_variable_name),
                Some(format!("{}", variable_value))
            );
        }
        Err(_) => assert!(false),
    }

    let second_variable_name: String = String::from("y");
    let second_variable_definition: String = String::from("9 + 1");

    let second_expression: String =
        format!("{} = {}", second_variable_name, second_variable_definition);

    match process(&mut calculator, second_expression.as_str()) {
        Ok(str_result) => {
            let variable_value: f64 = second_variable_definition.len() as f64;

            let str_reference: String = format!("{} = {}", second_variable_name, variable_value);

            assert_eq!(str_result, str_reference);

            assert_eq!(calculator.variables().len(), 2);
            assert_eq!(
                variable(&calculator, &second_variable_name),
                Some(format!("{}", variable_value))
            );
        }
        Err(_) => assert!(false),
    }
}

#[test]
fn test_calculator_process_expression_with_variables() {
    let mut calculator = SessionStore::new();

    let first_variable_name: String = String::from("x");
    let first_variable_definition: String = String::from("1 + 1");

    let first_expression: String =
        format!("{} = {}", first_variable_name, first_variable_definition);

    let first_process_result = process(&mut calculator, first_expression.as_str());
    assert!(first_process_result.is_ok());

    let second_variable_name: String = String::from("y");
    let second_variable_definition: String = String::from("97 + 1");

    let second_expression: String =
        format!("{} = {}", second_variable_name, second_variable_definition);

    let second_process_result = process(&mut calculator, second_expression.as_str());
    assert!(second_process_result.is_ok());

    let variable_name: String = String::from("distance");
    let variable_definition: String = String::from("x + y");

    let expression: String = format!("{} = {}", variable_name, variable_definition);

    match process(&mut calculator, expression.as_str()) {
        Ok(str_result) => {
            let variable_value: f64 = (first_variable_definition.len().to_string().len()
                + second_variable_definition.len().to_string().len()
                + 3) as f64;

            let str_reference: String = format!("{} = {}", variable_name, variable_value);
            assert_eq!(str_result, str_reference);
        }
        Err(_) => assert!(false),
    }
}

#[test]
fn test_calculator_process_function_expression() {
    let mut calculator = SessionStore::new();

    let function_name: String = String::from("distance");
    let function_variables: Vec<String> = vec![String::from("x"), String::from("y")];
    let function_definition: String = format!(
        "{} * {} + {} * {}",
        function_variables[0], function_variables[0], function_variables[1], function_variables[1]
    );

    let expression: String = format!(
        "{}: {}, {} = {}",
        function_name, function_variables[0], function_variables[1], function_definition
    );

    match process(&mut calculator, expression.as_str()) {
        Ok(str_result) => {
            let str_reference: String = format!(
                "{}({}) = {}",
                function_name,
                function_variables.join(", "),
                function_definition
            );

            assert_eq!(str_result, str_reference);

            assert_eq!(calculator.functions().len(), 1);
            assert_eq!(
                function(&calculator, &function_name),
                Some((function_variables, function_definition))
            );
        }
        Err(_) => assert!(false),
    }
}

fn define_distance_and_velocity(calculator: &mut SessionStore) {
    assert!(process(calculator, "distance: x, y = x * x + y * y").is_ok());
    assert!(process(calculator, "velocity: distance, time = distance / time").is_ok());
}

#[test]
fn test_calculator_process_several_function_expression() {
    let mut calculator = SessionStore::new();

    let first_function_name: String = String::from("distance");
    let first_function_variables: Vec<String> = vec![String::from("x"), String::from("y")];
    let first_function_definition: String = String::from("x * x + y * y");

    match process(&mut calculator, "distance: x, y = x * x + y * y") {
        Ok(str_result) => {
            assert_eq!(str_result, "distance(x, y) = x * x + y * y");
            assert_eq!(calculator.functions().len(), 1);
            assert_eq!(
                function(&calculator, &first_function_name),
                Some((first_function_variables, first_function_definition))
            );
        }
        Err(_) => assert!(false),
    }

    let second_function_name: String = String::from("velocity");
    let second_function_variables: Vec<String> =
        vec![String::from("distance"), String::from("time")];
    let second_function_definition: String = String::from("distance / time");

    match process(&mut calculator, "velocity: distance, time = distance / time") {
        Ok(str_result) => {
            assert_eq!(str_result, "velocity(distance, time) = distance / time");
            assert_eq!(calculator.functions().len(), 2);
            assert_eq!(
                function(&calculator, &second_function_name),
                Some((second_function_variables, second_function_definition))
            );
        }
        Err(_) => assert!(false),
    }
}

#[test]
fn test_calculator_process_expression_with_functions() {
    let mut calculator = SessionStore::new();
    define_distance_and_velocity(&mut calculator);

    let expression: String =
        String::from("3.14 * velocity(6.89, 5.43) - distance(2.4, 4.3) + (2 * 3 - 7)");

    let replaced_expression: String =
        String::from("3.14 * (6.89 / 5.43) - (2.4 * 2.4 + 4.3 * 4.3) + (2 * 3 - 7)");

    match process(&mut calculator, expression.as_str()) {
        Ok(str_result) => {
            let str_reference: String = format!("last = {}", replaced_expression.len());
            assert_eq!(str_result, str_reference);
        }
        Err(_) => assert!(false),
    }
}

#[test]
fn test_calculator_process_expression_with_variables_and_functions() {
    let mut calculator = SessionStore::new();
    define_distance_and_velocity(&mut calculator);

    let first_variable_definition: String = String::from("1 + 1");
    assert!(process(&mut calculator, "x = 1 + 1").is_ok());

    let second_variable_definition: String = String::from("97 + 1");
    assert!(process(&mut calculator, "y = 97 + 1").is_ok());

    let expression: String =
        String::from("3.14 * velocity(x, y) - distance(2.4, 4.3) + (2 * 3 - 7)");

    let replaced_expression: String = format!(
        "3.14 * ({} / {}) - (2.4 * 2.4 + 4.3 * 4.3) + (2 * 3 - 7)",
        first_variable_definition.len(),
        second_variable_definition.len()
    );

    match process(&mut calculator, expression.as_str()) {
        Ok(str_result) => {
            let str_reference: String = format!("last = {}", replaced_expression.len());
            assert_eq!(str_result, str_reference);
        }
        Err(_) => assert!(false),
    }
}

#[test]
fn test_calculator_process_expression_with_variables_and_function_variables_equal_to_variables() {
    let mut calculator = SessionStore::new();

    assert!(process(&mut calculator, "x = 1 + 1").is_ok());
    assert!(process(&mut calculator, "y = 2 * 5").is_ok());

    let function_definition: String = String::from("x * x + y * y");
    assert!(process(&mut calculator, "distance: x, y = x * x + y * y").is_ok());
    assert!(function(&calculator, "distance").unwrap().1 == function_definition);
}

#[test]
fn defined_variable_is_stored_and_replaced_later() {
    let mut store = SessionStore::new();

    assert_eq!(process(&mut store, "x = 1 + 1"), Ok(String::from("x = 5")));
    assert_eq!(variable(&store, "x"), Some(String::from("5")));

    match store.prepare("x * 2") {
        Ok(Step::Evaluate { target, text }) => {
            assert_eq!(target, "last");
            assert_eq!(text, "5 * 2");
        }
        _ => assert!(false),
    }
}

#[test]
fn stored_function_body_is_kept_as_written() {
    let mut store = SessionStore::new();
    assert!(process(&mut store, "k = 12").is_ok());
    assert!(process(&mut store, "f: a = a + 1").is_ok());

    let line = process(&mut store, "g: b = f(b) * k");
    assert_eq!(line, Ok(String::from("g(b) = (b + 1) * 2")));
    assert_eq!(
        function(&store, "g"),
        Some((vec![String::from("b")], String::from("f(b) * k")))
    );
}

#[test]
fn redefinition_overwrites_in_place() {
    let mut store = SessionStore::new();
    assert!(process(&mut store, "a = 1").is_ok());
    assert!(process(&mut store, "b = 22").is_ok());
    assert!(process(&mut store, "a = 333").is_ok());
    assert_eq!(
        store.variables().clone(),
        vec![
            (String::from("a"), String::from("3")),
            (String::from("b"), String::from("2")),
        ]
    );

    assert!(process(&mut store, "f: x = x").is_ok());
    assert!(process(&mut store, "f: y, z = y - z").is_ok());
    assert_eq!(store.functions().len(), 1);
    assert_eq!(
        function(&store, "f"),
        Some((
            vec![String::from("y"), String::from("z")],
            String::from("y - z")
        ))
    );
}

#[test]
fn expansion_errors_leave_the_tables_unchanged() {
    let mut store = SessionStore::new();
    assert!(process(&mut store, "f: a, b = a + b").is_ok());
    assert!(process(&mut store, "v = 7").is_ok());

    assert_eq!(
        process(&mut store, "w = f(1)"),
        Err(String::from("The number of variables is not consistent"))
    );
    assert_eq!(
        process(&mut store, "f(1, 2"),
        Err(String::from(
            "Error occurs in call of function f: Missing closing parenthesis"
        ))
    );
    assert_eq!(store.variables().len(), 1);
    assert_eq!(store.functions().len(), 1);
}

#[test]
fn evaluation_failure_is_returned_unchanged() {
    let mut store = SessionStore::new();
    assert_eq!(
        process(&mut store, "e = "),
        Err(String::from("Expression is empty"))
    );
    assert_eq!(store.variables().len(), 0);
}
