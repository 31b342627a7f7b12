use nereus::models::{
    indent_count, is_class_def, is_class_field, is_comment, is_decorator, is_docstring,
    is_enum_variant, is_full_docstring, is_import, is_method_def, is_placeholder, remove_dups,
    PyClass, PyLine, PyMethod, PyMethodAccess, PydanticModel, UniqueVec,
};
use nereus::parser::{parse, parse_class, parse_class_def};
use nereus::scanner::{scan_pystr, split_string};

#[test]
fn split_is_quote_aware() {
    let parts = split_string("a, 'b, c', d", ',');
    assert_eq!(parts, vec!["a".to_string(), "'b, c'".to_string(), "d".to_string()]);
}

#[test]
fn split_trims_segments() {
    let parts = split_string("  x :  int ", ':');
    assert_eq!(parts, vec!["x".to_string(), "int".to_string()]);
}

#[test]
fn split_double_quotes_protect_delimiter() {
    let parts = split_string("k = \"a=b\"", '=');
    assert_eq!(parts, vec!["k".to_string(), "\"a=b\"".to_string()]);
}

#[test]
fn pystr_scan_stops_at_closing_quote() {
    assert_eq!(scan_pystr("x = 'a, b' + z"), "x = 'a, b'");
    assert_eq!(scan_pystr("no quotes here"), "no quotes here");
    assert_eq!(scan_pystr("'unterminated"), "'unterminated");
}

#[test]
fn classifier_predicates() {
    assert!(is_import("import os"));
    assert!(is_import("  from x import y"));
    assert!(is_comment("  # note"));
    assert!(is_decorator("@wraps"));
    assert!(is_docstring("  '''open"));
    assert!(is_full_docstring("\"\"\"whole\"\"\""));
    assert!(!is_full_docstring("\"\"\""));
    assert!(is_placeholder("    pass"));
    assert!(is_placeholder("    ..."));
    assert!(!is_placeholder("    passenger"));
    assert!(is_method_def("    def f(self):"));
    assert!(is_class_def("class A:"));
    assert!(!is_class_def("classes = 3"));
    assert!(is_enum_variant("    RED"));
    assert!(!is_enum_variant("    RED = 1"));
}

#[test]
fn indent_counts_whole_units() {
    assert_eq!(indent_count("top"), 0);
    assert_eq!(indent_count("    one"), 1);
    assert_eq!(indent_count("        two"), 2);
    assert_eq!(indent_count("   three_spaces"), 0);
}

#[test]
fn class_field_requires_single_indent() {
    assert!(is_class_field("    x: int"));
    assert!(is_class_field("    x = 3"));
    assert!(is_class_field("    RED"));
    assert!(!is_class_field("x: int"));
    assert!(!is_class_field("        x: int"));
    assert!(!is_class_field("    class Inner:"));
}

#[test]
fn class_def_parses_name_and_parents() {
    let lines = vec!["class Foo(A, B):".to_string()];
    let mut pos = 0;
    let (name, parents) = parse_class_def(&lines, &mut pos).unwrap();
    assert_eq!(name, "Foo");
    assert_eq!(parents, vec!["A".to_string(), "B".to_string()]);
    assert_eq!(pos, 1);
}

#[test]
fn class_def_without_parents() {
    let lines = vec!["class Foo:".to_string()];
    let mut pos = 0;
    let (name, parents) = parse_class_def(&lines, &mut pos).unwrap();
    assert_eq!(name, "Foo");
    assert!(parents.is_empty());
}

#[test]
fn parse_class_collects_fields_and_methods() {
    let lines = vec![
        "class A(Base):".to_string(),
        "    x: int".to_string(),
        "    def f(self) -> int:".to_string(),
        "        return self.x".to_string(),
    ];
    let mut pos = 0;
    let c = parse_class(&lines, &mut pos).unwrap();
    assert_eq!(c.name, "A");
    assert_eq!(c.parents, vec!["Base".to_string()]);
    assert_eq!(c.fields.len(), 1);
    assert_eq!(c.fields[0].name, "x");
    assert_eq!(c.fields[0].dtype, Some("int".to_string()));
    assert_eq!(c.fields[0].default, None);
    assert_eq!(c.methods.len(), 1);
    assert_eq!(c.methods[0].name, "f");
    assert_eq!(c.methods[0].returns, Some("int".to_string()));
    assert_eq!(pos, 4);
}

#[test]
fn parse_stops_field_scan_at_next_class() {
    let models = parse("class A:\n    x: int\nclass B:\n    y: int\n".to_string()).unwrap();
    assert_eq!(models.len(), 2);
    assert_eq!(models[0].name, "A");
    assert_eq!(models[0].fields.len(), 1);
    assert_eq!(models[1].name, "B");
    assert_eq!(models[1].fields.len(), 1);
}

#[test]
fn field_with_type_and_default_keeps_both() {
    let models = parse("class A:\n    x: int = 3\n".to_string()).unwrap();
    assert_eq!(models[0].fields[0].name, "x");
    assert_eq!(models[0].fields[0].dtype, Some("int".to_string()));
    assert_eq!(models[0].fields[0].default, Some("3".to_string()));
}

#[test]
fn bare_self_parameter_has_no_type_or_default() {
    let models = parse("class A:\n    def f(self):\n        pass\n".to_string()).unwrap();
    let m = &models[0].methods[0];
    assert_eq!(m.args[0].name, "self");
    assert_eq!(m.args[0].dtype, None);
    assert_eq!(m.args[0].default, None);
}

#[test]
fn method_access_derived_from_name() {
    let models =
        parse("class A:\n    def _p(self):\n        pass\n    def q(self):\n        pass\n"
            .to_string())
            .unwrap();
    assert!(matches!(models[0].methods[0].access, PyMethodAccess::Private));
    assert!(matches!(models[0].methods[1].access, PyMethodAccess::Public));
}

#[test]
fn is_dunder_detects_double_underscores() {
    let make = |name: &str| PyMethod {
        name: name.to_string(),
        args: vec![],
        returns: None,
        access: PyMethodAccess::Public,
    };
    assert!(make("__init__").is_dunder());
    assert!(make("__str__").is_dunder());
    assert!(!make("_private").is_dunder());
    assert!(!make("public").is_dunder());
    assert!(!make("__half").is_dunder());
}

#[test]
fn remove_dups_keeps_first_occurrence() {
    let mk = |name: &str, field: &str| PyClass {
        name: name.to_string(),
        parents: vec![],
        fields: vec![nereus::models::PyParam {
            name: field.to_string(),
            dtype: None,
            default: None,
        }],
        methods: vec![],
    };
    let mut v = vec![mk("A", "a1"), mk("B", "b1"), mk("A", "a2")];
    remove_dups(&mut v);
    assert_eq!(v.len(), 2);
    assert_eq!(v[0].name, "A");
    assert_eq!(v[0].fields[0].name, "a1");
    assert_eq!(v[1].name, "B");
}

#[test]
fn base_model_recognition() {
    assert!(PydanticModel::is_base_model(&"BaseModel".to_string()));
    assert!(PydanticModel::is_base_model(&"pydantic.BaseModel".to_string()));
    assert!(!PydanticModel::is_base_model(&"Other".to_string()));
    let m = PydanticModel {
        class_name: "M".to_string(),
        parents: vec!["X".to_string(), "pydantic.BaseModel".to_string()],
        fields: vec![],
        methods: vec![],
    };
    assert!(m.inherits_base_model());
    let n = PydanticModel {
        class_name: "N".to_string(),
        parents: vec!["X".to_string()],
        fields: vec![],
        methods: vec![],
    };
    assert!(!n.inherits_base_model());
}

#[test]
fn source_with_no_class_yields_empty_list() {
    let models = parse("x = 1\nprint(x)\n".to_string()).unwrap();
    assert!(models.is_empty());
}

#[test]
fn pyline_methods_match_free_functions() {
    let line = "    def f(self):";
    assert!((&line).is_method_def());
    assert!(!(&line).is_class_def());
    assert_eq!((&line).indent_count(), 1);
    assert!((&"    pass").is_placeholder());
    assert!((&"class A:").starts_with_token("class"));
    assert!(!(&"classes").starts_with_token("class"));
}

#[test]
fn unique_vec_trait_removes_duplicates() {
    let mk = |name: &str| PyClass {
        name: name.to_string(),
        parents: vec![],
        fields: vec![],
        methods: vec![],
    };
    let mut v = vec![mk("A"), mk("A"), mk("B")];
    v.remove_dups();
    assert_eq!(v.len(), 2);
}
