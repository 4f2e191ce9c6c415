use lambda_finder::template::{resolve_explicit_function_name, search_yaml};

const TEMPLATE: &str = "AWSTemplateFormatVersion: '2010-09-09'
Resources:
  CreateOrderLogGroup:
    Type: AWS::Logs::LogGroup
    Properties:
      Path: /orders/create
  CreateOrder:
    Type: AWS::Serverless::Function
    Properties:
      FunctionName: !Sub '${EnvironmentValue}-createOrder'
      Events:
        Api:
          Properties:
            Path: \"/orders/create\"
        Api2:
          Properties:
            Path: '/orders/create'
        Api3:
          Properties:
            Path: /orders/v2/create
  CreateOrderLogsGroup:
    Type: AWS::Logs::LogGroup
    Properties:
      LogGroupName: /aws/lambda/envStackname-createOrder
  FetchPaymentDetails:
    Type: AWS::Serverless::Function
    Properties:
      Handler: index.handler
";

#[test]
fn resolve_env_stackname_prefix() {
    let r = resolve_explicit_function_name("envStackname-createOrder", "service-requests-dev-", "orders-");
    assert_eq!(r, "service-requests-dev-createOrder");
}

#[test]
fn resolve_env_stackname_without_dash() {
    let r = resolve_explicit_function_name("  envStacknameFoo  ", "p-", "s-");
    assert_eq!(r, "p-Foo");
}

#[test]
fn resolve_sub_placeholder() {
    let r = resolve_explicit_function_name("!Sub '${AWS::StackName}-myFunc'", "svc-dev-", "orders-");
    assert_eq!(r, "svc-dev-orders-myFunc");
}

#[test]
fn resolve_last_sub_placeholder_wins() {
    let r = resolve_explicit_function_name("!Sub \"${A}-x-${B}--tail\"", "p-", "");
    assert_eq!(r, "p-tail");
}

#[test]
fn resolve_environment_value_placeholder() {
    let r = resolve_explicit_function_name(
        "ubl-EnvironmentValue-createAssignedLeadFromPortal",
        "ubl-test-",
        "",
    );
    assert_eq!(r, "ubl-test-createAssignedLeadFromPortal");
}

#[test]
fn resolve_literal_name_is_unquoted() {
    let r = resolve_explicit_function_name("  \"literal-name\" ", "p-", "s-");
    assert_eq!(r, "literal-name");
}

#[test]
fn resolve_single_quote_only() {
    let r = resolve_explicit_function_name("'", "p-", "s-");
    assert_eq!(r, "");
}

#[test]
fn resolve_dollar_in_prefix_is_interpolated() {
    let r = resolve_explicit_function_name("envStackname-x", "a$$b-", "");
    assert_eq!(r, "a$b-x");
}

#[test]
fn search_by_path_finds_enclosing_function() {
    let content = "Resources:\n  CreateOrder:\n    Type: AWS::Serverless::Function\n    Properties:\n      Events:\n        Api:\n          Properties:\n            Path: /orders/create\n";
    let m = search_yaml(content, "ORDERS/create").unwrap();
    assert_eq!(m.lambda_function_name, "CreateOrder");
    assert_eq!(m.api_paths, vec!["/orders/create".to_string()]);
    assert_eq!(m.explicit_function_name, None);
    assert_eq!(m.log_group_name, None);
}

#[test]
fn search_skips_log_group_resources() {
    let m = search_yaml(TEMPLATE, "/orders/create").unwrap();
    assert_eq!(m.lambda_function_name, "CreateOrder");
}

#[test]
fn search_collects_block_details() {
    let m = search_yaml(TEMPLATE, "orders").unwrap();
    assert_eq!(m.lambda_function_name, "CreateOrder");
    assert_eq!(m.explicit_function_name.as_deref(), Some("!Sub '${EnvironmentValue}-createOrder'"));
    assert_eq!(
        m.api_paths,
        vec!["/orders/create".to_string(), "/orders/v2/create".to_string()]
    );
    // The first log group header for the function is `CreateOrderLogGroup`,
    // whose window holds no `LogGroupName:`.
    assert_eq!(m.log_group_name, None);
}

#[test]
fn search_reads_log_group_name_near_header() {
    let content = "Resources:\n  Api:\n    Properties:\n      Path: /ping\n  ApiLogsGroup:\n    Type: AWS::Logs::LogGroup\n    Properties:\n      LogGroupName:  /aws/lambda/envStackname-ping  \n";
    let m = search_yaml(content, "ping").unwrap();
    assert_eq!(m.lambda_function_name, "Api");
    assert_eq!(m.log_group_name.as_deref(), Some("/aws/lambda/envStackname-ping"));
}

#[test]
fn search_falls_back_to_logical_id() {
    let m = search_yaml(TEMPLATE, "fetchpayment").unwrap();
    assert_eq!(m.lambda_function_name, "FetchPaymentDetails");
    assert!(m.api_paths.is_empty());
    assert_eq!(m.explicit_function_name, None);
}

#[test]
fn search_without_match_is_none() {
    assert!(search_yaml(TEMPLATE, "no-such-thing").is_none());
    assert!(search_yaml("", "x").is_none());
}

#[test]
fn search_name_fallback_skips_log_groups() {
    let content = "Resources:\n  OrdersLogGroup:\n    Type: AWS::Logs::LogGroup\n  Orders:\n    Type: AWS::Serverless::Function\n";
    let m = search_yaml(content, "orders").unwrap();
    assert_eq!(m.lambda_function_name, "Orders");
}

#[test]
fn search_path_pass_takes_nearest_header_of_last_hit() {
    let content = "Resources:\n  First:\n    Properties:\n      Path: /a/items\n  Second:\n    Properties:\n      Path: /b/items\n";
    let m = search_yaml(content, "items").unwrap();
    assert_eq!(m.lambda_function_name, "Second");
    assert_eq!(m.api_paths, vec!["/b/items".to_string()]);
}

#[test]
fn search_is_case_insensitive() {
    let a = search_yaml(TEMPLATE, "FETCHPAYMENTDETAILS").unwrap();
    let b = search_yaml(TEMPLATE, "fetchpaymentdetails").unwrap();
    assert_eq!(a.lambda_function_name, b.lambda_function_name);
}

#[test]
fn search_handles_crlf_lines() {
    let content = "Resources:\r\n  Handler:\r\n    Properties:\r\n      FunctionName:   my-fn  \r\n      Path: /x/y\r\n";
    let m = search_yaml(content, "/x/y").unwrap();
    assert_eq!(m.lambda_function_name, "Handler");
    assert_eq!(m.explicit_function_name.as_deref(), Some("my-fn"));
}

#[test]
fn resolve_prefix_references_to_the_match() {
    let cases = [
        ("p$0-", "penvStackname--x"),
        ("p${0}q-", "penvStackname-q-x"),
        ("p${+00}-", "penvStackname--x"),
        ("p$1-", "p-x"),
        ("p$name-", "p-x"),
        ("p${}-", "p-x"),
        ("p$0a-", "p-x"),
        ("p${0-", "p${0-x"),
        ("p$-", "p$-x"),
        ("p$", "p$x"),
        ("é$$0ü", "é$0üx"),
    ];
    for (prefix, expected) in cases {
        assert_eq!(resolve_explicit_function_name("envStackname-x", prefix, ""), expected, "prefix {}", prefix);
    }
}
