use nereus::scanner::{get_declr_name, scan_enclosed, scan_method};

fn lines_of(v: Vec<&str>) -> Vec<String> {
    v.into_iter().map(|s| s.to_string()).collect()
}

#[test]
fn lexer_test_same_line_method_scan() {
    let lines = lines_of(vec![
        "    def my_method(self, value: typing.Any):",
        "        print(value)",
    ]);
    let mut pos = 0;
    let _ = scan_method(&lines, &mut pos);
    assert_eq!(pos, 1);
}

#[test]
fn lexer_test_listed_arg_method_scan() {
    let lines = lines_of(vec![
        "    def my_method(",
        "        self,",
        "        value: typing.Any",
        "    ) -> list[str | tuple[str, str]]:",
        "        return ['hello world!']",
    ]);
    let mut pos = 0;
    let _ = scan_method(&lines, &mut pos);
    assert_eq!(pos, 4);
}

#[test]
fn lexer_test_staggered_arg_method_scan() {
    let lines = lines_of(vec![
        "    def my_method(self,",
        "        value: typing.Any) -> None:",
        "        print(value)",
    ]);
    let mut pos = 0;
    let _ = scan_method(&lines, &mut pos);
    assert_eq!(pos, 2);
}

#[test]
fn scanner_test_same_line_method_scan() {
    let lines = lines_of(vec![
        "    def my_method(self, value: typing.Any):",
        "        print(value)",
    ]);
    let mut pos = 0;
    let _ = scan_method(&lines, &mut pos);
    assert_eq!(pos, 1);
}

#[test]
fn scanner_test_listed_arg_method_scan() {
    let lines = lines_of(vec![
        "    def my_method(",
        "        self,",
        "        value: typing.Any = 'my, default'",
        "    ) -> list[str | tuple[str, str]]:",
        "        return ['hello world!']",
    ]);
    let mut pos = 0;
    let m = scan_method(&lines, &mut pos);
    assert!(m.is_ok());
    assert_eq!(pos, 4);
}

#[test]
fn scanner_test_staggered_arg_method_scan() {
    let lines = lines_of(vec![
        "    def my_method(self,",
        "        value: typing.Any) -> None:",
        "        print(value)",
    ]);
    let mut pos = 0;
    let _ = scan_method(&lines, &mut pos);
    assert_eq!(pos, 2);
}

#[test]
fn test_declaration_name() {
    let signature = "    def my_method(self,";
    let declaration = get_declr_name(signature).unwrap();
    assert_eq!(declaration, "my_method");
}

#[test]
fn test_staggered_default_parse() {
    let lines = lines_of(vec![
        "    (",
        "        value1,",
        "        value2,",
        "        value3,",
        "    )",
    ]);
    let mut pos = 0;
    let scanned = scan_enclosed(&lines, &mut pos, None, true);
    assert_eq!(scanned.unwrap(), "(value1, value2, value3,)");
}

#[test]
fn test_type_parse() {
    let lines = lines_of(vec![
        "    tuple[",
        "        int,",
        "        str,",
        "        int",
        "    ]",
    ]);
    let mut pos = 0;
    let scanned = scan_enclosed(&lines, &mut pos, None, true);
    let res = format!("tuple{}", scanned.unwrap().as_str());
    assert_eq!(res, "tuple[int, str, int]");
}

#[test]
fn test_listed_return_parse() {
    let lines = lines_of(vec![
        "    def my_method(",
        "        self,",
        "        value: typing.Any = 'my, default'",
        "    ) -> list[",
        "            str | tuple[str, str]",
        "        ]:",
        "        return ['hello world!']",
    ]);
    let mut pos = 0;
    let m = scan_method(&lines, &mut pos).unwrap();
    assert_eq!(m.returns, Some("list[str | tuple[str, str]]".to_string()));
}
