use nereus::from_src;

#[test]
fn scenario_single_class_with_method() {
    let src = "class Animal:\n    name: str\n    def speak(self) -> str:\n        return \"\"\n";
    let out = from_src(src.to_string()).unwrap();
    let expected = "classDiagram\r\n    class Animal{\r\n        +name str\r\n        +speak(self) str\r\n    }";
    assert_eq!(out, expected);
}

#[test]
fn scenario_single_parent_relationship() {
    let src = "class Dog(Animal):\n    breed: str = \"unknown\"\n";
    let out = from_src(src.to_string()).unwrap();
    let expected =
        "classDiagram\r\n    class Dog{\r\n        +breed str\r\n    }\r\n    `Animal` <|-- Dog";
    assert_eq!(out, expected);
}

#[test]
fn scenario_enum_style_bare_fields() {
    let src = "class Color:\n    RED\n    GREEN\n";
    let out = from_src(src.to_string()).unwrap();
    let expected = "classDiagram\r\n    class Color{\r\n        +RED\r\n        +GREEN\r\n    }";
    assert_eq!(out, expected);
}

#[test]
fn field_default_without_type_renders_with_equals() {
    let src = "class Config:\n    retries = 3\n";
    let out = from_src(src.to_string()).unwrap();
    let expected = "classDiagram\r\n    class Config{\r\n        +retries = 3\r\n    }";
    assert_eq!(out, expected);
}

#[test]
fn dunder_methods_never_render() {
    let src = "class A:\n    x: int\n    def __init__(self):\n        pass\n    def __str__(self) -> str:\n        return \"\"\n    def run(self):\n        pass\n";
    let out = from_src(src.to_string()).unwrap();
    assert!(!out.contains("__init__"));
    assert!(!out.contains("__str__"));
    assert!(out.contains("        +run(self)"));
}

#[test]
fn access_glyph_follows_name() {
    let src = "class A:\n    def _hidden(self):\n        pass\n    def shown(self):\n        pass\n";
    let out = from_src(src.to_string()).unwrap();
    assert!(out.contains("        -_hidden(self)"));
    assert!(out.contains("        +shown(self)"));
}

#[test]
fn quoted_default_stays_one_parameter() {
    let src = "class A:\n    def f(self, v: str = 'a, b'):\n        pass\n";
    let out = from_src(src.to_string()).unwrap();
    assert!(out.contains("        +f(self, str v)"));
}

#[test]
fn duplicate_class_first_definition_wins() {
    let src = "class Foo:\n    a: int\nclass Foo:\n    b: str\n";
    let out = from_src(src.to_string()).unwrap();
    let expected = "classDiagram\r\n    class Foo{\r\n        +a int\r\n    }";
    assert_eq!(out, expected);
    assert!(!out.contains("+b"));
}

#[test]
fn no_parent_means_no_relationship_line() {
    let src = "class A:\n    x: int\nclass B(A):\n    y: int\n";
    let out = from_src(src.to_string()).unwrap();
    assert_eq!(out.matches("<|--").count(), 1);
    assert!(out.contains("    `A` <|-- B"));
}

#[test]
fn multiple_parents_each_get_a_line() {
    let src = "class C(A, B):\n    pass\n";
    let out = from_src(src.to_string()).unwrap();
    assert!(out.contains("    `A` <|-- C"));
    assert!(out.contains("    `B` <|-- C"));
}

#[test]
fn ignorable_lines_are_filtered() {
    let src = "import os\nfrom x import y\n# a comment\n\"\"\"one-line docstring\"\"\"\n@decorator\nclass A:\n    x: int\n";
    let out = from_src(src.to_string()).unwrap();
    let expected = "classDiagram\r\n    class A{\r\n        +x int\r\n    }";
    assert_eq!(out, expected);
}

#[test]
fn module_docstring_containing_class_word_is_skipped() {
    let src = "'''\nclass NotReal:\n'''\nclass Real:\n    x: int\n";
    let out = from_src(src.to_string()).unwrap();
    assert!(!out.contains("NotReal"));
    assert!(out.contains("    class Real{"));
}

#[test]
fn nested_scopes_are_skipped() {
    let src = "class A:\n    def f(self):\n        local: int\n        if True:\n            deep = 1\n    x: int\n";
    let out = from_src(src.to_string()).unwrap();
    assert!(!out.contains("local"));
    assert!(!out.contains("deep"));
    assert!(out.contains("        +x int"));
}

#[test]
fn missing_class_terminator_is_fatal() {
    let src = "class Foo\n";
    assert!(from_src(src.to_string()).is_err());
}

#[test]
fn unclosed_parent_list_is_fatal() {
    let src = "class Foo(A:\n";
    assert!(from_src(src.to_string()).is_err());
}

#[test]
fn unclosed_parameter_list_is_fatal() {
    let src = "class A:\n    def f(self,\n";
    assert!(from_src(src.to_string()).is_err());
}

#[test]
fn method_without_parenthesis_is_fatal() {
    let src = "class A:\n    def f:\n        pass\n";
    assert!(from_src(src.to_string()).is_err());
}

#[test]
fn empty_body_class_renders_empty_block() {
    let src = "class A:\n    pass\n";
    let out = from_src(src.to_string()).unwrap();
    assert_eq!(out, "classDiagram\r\n    class A{\r\n    }");
}

#[test]
fn crlf_input_is_accepted() {
    let src = "class A:\r\n    x: int\r\n";
    let out = from_src(src.to_string()).unwrap();
    assert_eq!(out, "classDiagram\r\n    class A{\r\n        +x int\r\n    }");
}

#[test]
fn header_emitted_once_for_many_classes() {
    let src = "class A:\n    x: int\nclass B:\n    y: int\n";
    let out = from_src(src.to_string()).unwrap();
    assert_eq!(out.matches("classDiagram").count(), 1);
    assert!(out.starts_with("classDiagram\r\n"));
}

#[test]
fn classless_source_renders_header_alone() {
    let out = from_src("x = 1\nprint(x)\n".to_string()).unwrap();
    assert_eq!(out, "classDiagram");
}
