use argschema::engine::{parse, parse_with_subcommands, FieldValue, ParseError, Selected};
use argschema::schema::{ParameterKind, ParameterSpec, Schema};
use argschema::usage::render_usage;
use argschema::value::{coerce, Value, ValueType};
use argschema::{multy_command_copy_pa, multy_command_create_pa, multy_command_pa, schema_pa, simple_pa};

fn missing_of(e: &ParseError) -> Option<String> {
    match e {
        ParseError::MissingRequired { parameter } => Some(parameter.clone()),
        _ => None,
    }
}

fn conversion_of(e: &ParseError) -> Option<(String, String)> {
    match e {
        ParseError::TypeConversionFailure { parameter, raw_value } => Some((parameter.clone(), raw_value.clone())),
        _ => None,
    }
}

#[test]
fn usage_heading_and_name() {
    let usage = schema_pa::usage("prog", "Description");
    assert!(usage.starts_with("USAGE:\n    "));
    assert!(usage.contains("prog"));
    let bare = render_usage(&Schema::new("tool", "d"));
    assert!(bare.starts_with("USAGE:"));
    assert!(bare.contains("tool"));
}

#[test]
fn missing_required_then_incomplete_succeeds() {
    let argv = vec!["program", "50", "true", "0.5", "0.7", "pos1"];
    let err = schema_pa::parse_ext(argv[0], &argv[..], "d", false).err().unwrap();
    assert_eq!(Some("paramE".to_string()), missing_of(&err));
    let config = schema_pa::parse_ext(argv[0], &argv[..], "d", true).ok().unwrap();
    assert_eq!(false, config.has_parame());
    assert_eq!(50, config.paramg());
}

#[test]
fn missing_repeating_positional_is_named() {
    let argv = vec!["program", "-e", "x", "50", "true", "0.5", "0.7"];
    let err = schema_pa::parse_debug(argv[0], &argv[..], "d").err().unwrap();
    assert_eq!(Some("PARAMH".to_string()), missing_of(&err));
    assert!(schema_pa::parse_ext(argv[0], &argv[..], "d", true).is_ok());
}

#[test]
fn repeated_values_keep_order() {
    let argv = vec![
        "program", "-e", "x", "-f", "1", "-f", "2", "-f", "3", "50", "true", "0.5", "0.7", "p",
    ];
    let config = schema_pa::parse_debug(argv[0], &argv[..], "d").ok().unwrap();
    assert_eq!(vec![1, 2, 3], config.paramf());
    assert_eq!(2, config.get_paramf(1));
    let argv = vec!["program", "--count", "1", "--r-underscore", "r", "--flags", "false", "--flags", "true", "--flags", "false"];
    let config = simple_pa::parse_str(argv[0], &argv[..], "d").ok().unwrap();
    assert_eq!(vec![false, true, false], config.flags());
}

#[test]
fn wrong_type_fails_in_both_modes() {
    let argv = vec!["program", "--count", "stringnotdigit", "--r-underscore", "r"];
    for allow in [false, true] {
        let err = simple_pa::parse_ext(argv[0], &argv[..], "d", allow).err().unwrap();
        assert_eq!(Some(("count".to_string(), "stringnotdigit".to_string())), conversion_of(&err));
    }
    let argv = vec!["program", "-e", "x", "-f", "1", "-f", "two", "50", "true", "0.5", "0.7", "p"];
    let err = schema_pa::parse_ext(argv[0], &argv[..], "d", true).err().unwrap();
    assert_eq!(Some(("paramF".to_string(), "two".to_string())), conversion_of(&err));
}

#[test]
fn flag_presence_and_default() {
    let argv = vec!["program", "-e", "x", "-i", "50", "true", "0.5", "0.7", "p"];
    let config = schema_pa::parse_debug(argv[0], &argv[..], "d").ok().unwrap();
    assert!(config.has_param_i());
    assert!(config.param_i());
    assert!(!config.has_param_j());
    assert!(!config.param_j());
    let config = multy_command_copy_pa::parse_str("p", &["p", "/a", "/b"], "d").ok().unwrap();
    assert!(!config.has_recursive());
    assert!(!config.recursive());
}

#[test]
fn positionals_bind_in_order() {
    let argv = vec!["program", "-e", "x", "50", "true", "0.5", "0.7", "pos1", "pos2", "pos3"];
    let config = schema_pa::parse_debug(argv[0], &argv[..], "d").ok().unwrap();
    assert_eq!(50, config.paramg());
    assert_eq!(true, config.p_a_r_a_m_g_2());
    assert_eq!(0.5f32, config.param_float().parse::<f32>().unwrap());
    assert_eq!(0.7f64, config.param_double().parse::<f64>().unwrap());
    assert_eq!(vec!["pos1".to_string(), "pos2".to_string(), "pos3".to_string()], config.paramh());
    assert_eq!("pos3", config.get_paramh(2));
}

#[test]
fn subcommand_dispatch() {
    let top = Schema::new("program", "d")
        .subcommand(multy_command_create_pa::prepare_options("create", "d"))
        .unwrap()
        .subcommand(multy_command_copy_pa::prepare_options("copy", "d"))
        .unwrap();
    let argv = vec!["program", "copy", "-r", "/a", "/b"];
    let dispatch = parse_with_subcommands(&top, &argv[..], false).ok().unwrap();
    match dispatch.selected {
        Selected::Command { name, config } => {
            assert_eq!("copy", name);
            let fields = config.ok().unwrap().fields;
            assert!(matches!(fields[1], FieldValue::Scalar(Value::Bool(true))));
            assert!(matches!(&fields[2], FieldValue::Scalar(Value::Str(s)) if s == "/a"));
            assert!(matches!(&fields[3], FieldValue::Scalar(Value::Str(s)) if s == "/b"));
        },
        Selected::NoCommand => panic!("no subcommand selected"),
    }
    let child = multy_command_copy_pa::parse_str("program copy", &["program copy", "-r", "/a", "/b"], "d").ok().unwrap();
    assert!(child.recursive());
    assert_eq!("/a", child.src());
    assert_eq!("/b", child.dst());
    let none = parse_with_subcommands(&top, &["program", "other"], false).ok().unwrap();
    assert!(matches!(none.selected, Selected::NoCommand));
    let failing = parse_with_subcommands(&top, &["program", "copy", "/a"], false).ok().unwrap();
    match failing.selected {
        Selected::Command { config, .. } => assert_eq!(Some("DST".to_string()), missing_of(&config.err().unwrap())),
        Selected::NoCommand => panic!("no subcommand selected"),
    }
}

#[test]
fn parsing_twice_gives_equal_results() {
    let schema = schema_pa::prepare_options("program", "d");
    let argv = vec!["program", "-e", "x", "-f", "7", "50", "false", "1e3", "2.5", "a", "b"];
    let first = parse(&schema, &argv[..], false);
    let second = parse(&schema, &argv[..], false);
    assert_eq!(format!("{:?}", first), format!("{:?}", second));
    assert!(first.is_ok());
}

#[test]
fn integer_literals() {
    assert!(matches!(coerce(ValueType::U64, "18446744073709551615"), Some(Value::U64(18446744073709551615))));
    assert!(coerce(ValueType::U64, "18446744073709551616").is_none());
    assert!(matches!(coerce(ValueType::U64, "+42"), Some(Value::U64(42))));
    assert!(coerce(ValueType::U64, "-0").is_none());
    assert!(coerce(ValueType::U64, "").is_none());
    assert!(coerce(ValueType::U64, "+").is_none());
    assert!(matches!(coerce(ValueType::U32, "4294967295"), Some(Value::U32(4294967295))));
    assert!(coerce(ValueType::U32, "4294967296").is_none());
    assert!(matches!(coerce(ValueType::I32, "-2147483648"), Some(Value::I32(-2147483648))));
    assert!(coerce(ValueType::I32, "2147483648").is_none());
    assert!(matches!(coerce(ValueType::I32, "-17"), Some(Value::I32(-17))));
    assert!(coerce(ValueType::I32, "1_000").is_none());
}

#[test]
fn float_and_bool_literals() {
    for ok in ["0.5", "1e5", ".5", "1.", "-2.5E-3", "inf", "-Infinity", "NaN", "+7"] {
        assert!(matches!(coerce(ValueType::F64, ok), Some(Value::Float(_))), "{}", ok);
        assert!(ok.parse::<f64>().is_ok());
    }
    for bad in [".", "e5", "1e", "0.7d", "", "1.2.3", "infinit"] {
        assert!(coerce(ValueType::F32, bad).is_none(), "{}", bad);
        assert!(bad.parse::<f32>().is_err());
    }
    assert!(matches!(coerce(ValueType::Bool, "true"), Some(Value::Bool(true))));
    assert!(matches!(coerce(ValueType::Bool, "false"), Some(Value::Bool(false))));
    assert!(coerce(ValueType::Bool, "True").is_none());
    assert!(coerce(ValueType::Bool, "0").is_none());
    assert!(matches!(coerce(ValueType::Str, "any text"), Some(Value::Str(s)) if s == "any text"));
}

#[test]
fn schema_rejects_clashes() {
    let s = Schema::new("p", "d");
    let v = s.arg(ParameterSpec::named("x", Some('h'), None, ParameterKind::OptionArg, false, ValueType::Str, None, "", false));
    assert_eq!("x", v.err().unwrap().subject);
    let s = Schema::new("p", "d")
        .arg(ParameterSpec::positional("A", 1, false, ValueType::Str, "", true))
        .unwrap();
    assert!(s.arg(ParameterSpec::positional("B", 2, false, ValueType::Str, "", false)).is_err());
    let s = Schema::new("p", "d");
    assert!(s.arg(ParameterSpec::positional("A", 2, true, ValueType::Str, "", false)).is_err());
    let s = Schema::new("p", "d");
    let bad_default = ParameterSpec::named("n", None, Some("n"), ParameterKind::OptionArg, false, ValueType::U32, Some(Value::Bool(true)), "", false);
    assert!(s.arg(bad_default).is_err());
    let top = Schema::new("p", "d").subcommand(Schema::new("run", "d")).unwrap();
    assert_eq!("run", top.subcommand(Schema::new("run", "d")).err().unwrap().subject);
}

#[test]
fn optionally_valued_flag_and_trailing_option() {
    let s = Schema::new("p", "d")
        .arg(ParameterSpec::named("fast", None, Some("fast"), ParameterKind::Flag { optionally_valued: true }, false, ValueType::Bool, None, "", false))
        .unwrap()
        .arg(ParameterSpec::named("level", Some('l'), None, ParameterKind::OptionArg, false, ValueType::U32, None, "", false))
        .unwrap()
        .arg(ParameterSpec::positional("REST", 1, false, ValueType::Str, "", true))
        .unwrap();
    let cfg = parse(&s, &["p", "--fast", "false", "x"], false).ok().unwrap();
    assert!(matches!(cfg.fields[1], FieldValue::Scalar(Value::Bool(false))));
    assert!(matches!(&cfg.fields[3], FieldValue::List(v) if v.len() == 1));
    let cfg = parse(&s, &["p", "--fast", "x", "-l"], false).ok().unwrap();
    assert!(matches!(cfg.fields[1], FieldValue::Scalar(Value::Bool(true))));
    assert!(matches!(cfg.fields[2], FieldValue::Absent));
    let cfg = parse(&s, &["p", "-l", "3", "-l", "9"], false).ok().unwrap();
    assert!(matches!(cfg.fields[2], FieldValue::Scalar(Value::U32(9))));
}

#[test]
fn empty_argument_vector() {
    let empty: Vec<&str> = Vec::new();
    let err = multy_command_copy_pa::parse_str("p", &empty[..], "d").err().unwrap();
    assert_eq!(Some("SRC".to_string()), missing_of(&err));
    let config = multy_command_copy_pa::parse_ext("p", &empty[..], "d", true).ok().unwrap();
    assert!(!config.has_src());
    assert!(!config.has_dst());
    let config = simple_pa::parse_vec("p", &vec!["p".to_string(), "--count".to_string(), "7".to_string(), "--r-underscore".to_string(), "".to_string()], "d").ok().unwrap();
    assert_eq!(7, config.count());
    assert_eq!("", config.r_underscore());
    assert_eq!("some value", config.c());
}

#[test]
fn extending_a_command_appends_or_reports_clash() {
    let base = Schema::new("prog", "About prog")
        .arg(ParameterSpec::named("extra", Some('x'), Some("extra"), ParameterKind::OptionArg, false, ValueType::Str, None, "", false))
        .unwrap();
    let s = simple_pa::prepare_options_ext(base).ok().unwrap();
    assert_eq!(11, s.params.len());
    assert_eq!("extra", s.params[1].id);
    assert_eq!("count", s.params[2].id);
    assert_eq!("About prog", s.description);
    let cfg = parse(&s, &["prog", "-x", "v", "--count", "3", "--r-underscore", "r"], false).ok().unwrap();
    assert!(matches!(&cfg.fields[1], FieldValue::Scalar(Value::Str(v)) if v == "v"));
    assert!(matches!(cfg.fields[2], FieldValue::Scalar(Value::U64(3))));

    let clashing = Schema::new("prog", "d")
        .arg(ParameterSpec::named("other", Some('a'), None, ParameterKind::OptionArg, false, ValueType::Str, None, "", false))
        .unwrap();
    assert_eq!("paramA", schema_pa::prepare_options_ext(clashing).err().unwrap().subject);
    let long_clash = Schema::new("prog", "d")
        .arg(ParameterSpec::named("mine", None, Some("count"), ParameterKind::Flag { optionally_valued: false }, false, ValueType::Bool, None, "", false))
        .unwrap();
    assert_eq!("count", simple_pa::prepare_options_ext(long_clash).err().unwrap().subject);
    let positional_taken = Schema::new("prog", "d")
        .arg(ParameterSpec::positional("FIRST", 1, true, ValueType::Str, "", false))
        .unwrap();
    assert_eq!("SRC", multy_command_copy_pa::prepare_options_ext(positional_taken).err().unwrap().subject);
}

#[test]
fn prepare_options_keeps_name_and_description() {
    let s = multy_command_create_pa::prepare_options("maker", "Makes files");
    assert_eq!("maker", s.name);
    assert_eq!("Makes files", s.description);
    assert_eq!(3, s.params.len());
    assert_eq!(schema_pa::usage("p", "d"), schema_pa::usage("p", "d"));
}

#[test]
fn complete_parse_selects_subcommand_under_command_schema() {
    let top = multy_command_pa::prepare_options("program", "d")
        .subcommand(multy_command_create_pa::prepare_options("create", "d"))
        .unwrap()
        .subcommand(multy_command_copy_pa::prepare_options("copy", "d"))
        .unwrap();
    let argv = vec!["program", "copy", "-r", "/a", "/b"];
    let dispatch = parse_with_subcommands(&top, &argv[..], false).ok().unwrap();
    assert!(matches!(dispatch.top.fields[1], FieldValue::Absent));
    match dispatch.selected {
        Selected::Command { name, config } => {
            assert_eq!("copy", name);
            let fields = config.ok().unwrap().fields;
            assert!(matches!(fields[1], FieldValue::Scalar(Value::Bool(true))));
            assert!(matches!(&fields[2], FieldValue::Scalar(Value::Str(s)) if s == "/a"));
            assert!(matches!(&fields[3], FieldValue::Scalar(Value::Str(s)) if s == "/b"));
        },
        Selected::NoCommand => panic!("no subcommand selected"),
    }
    let top_only = multy_command_pa::parse_command(&argv[..], top, false).ok().unwrap();
    assert!(!top_only.has_command());
}
