//! A schema of named options and flags only.
use vstd::prelude::*;
use vstd::string::*;
use crate::value::{Value, ValueType, Val};
use crate::schema::{Schema, SchemaViolation, ParameterSpec, ParameterKind, ParamModel, help_model, clash, admits, admits_all, lemma_help_only};
use crate::matcher::{MatchTable, match_spec, match_tokens, strings_view};
use crate::engine::{TypedConfig, ParseError, Failure, Field, bind, bind_spec, argv_tokens, argv_to_tokens, vec_tokens, strings_after_first};
use crate::fields::{conforms, is_present, int_or, truth_or, text_or, list_of, truth_of, text_of, lemma_bind_conforms};
use crate::usage::{render_usage, usage_title, usage_text, schema_facts};

verus! {

/// Position of `count` in the schema.
pub const COUNT: usize = 1;

/// Position of `configuration` in the schema.
pub const CONFIGURATION: usize = 2;

/// Position of `flags` in the schema.
pub const FLAGS: usize = 3;

/// Position of `version` in the schema.
pub const VERSION: usize = 4;

/// Position of `c` in the schema.
pub const C: usize = 5;

/// Position of `r-underscore` in the schema.
pub const R_UNDERSCORE: usize = 6;

/// Position of `o-underscore` in the schema.
pub const O_UNDERSCORE: usize = 7;

/// Position of `a-underscore` in the schema.
pub const A_UNDERSCORE: usize = 8;

/// Position of `s-quote-in-descr` in the schema.
pub const S_QUOTE_IN_DESCR: usize = 9;

/// The parameters of this schema, the help flag first.
pub open spec fn schema_params() -> Seq<ParamModel> {
    seq![
        help_model(),
        ParamModel {
            id: "count"@,
            short: None,
            long: Some("count"@),
            kind: ParameterKind::OptionArg,
            required: true,
            ty: ValueType::U64,
            default: Some(Val::Int(1)),
            multiple: false,
            index: 0,
        },
        ParamModel {
            id: "configuration"@,
            short: None,
            long: Some("configuration"@),
            kind: ParameterKind::OptionArg,
            required: false,
            ty: ValueType::Str,
            default: Some(Val::Text(""@)),
            multiple: false,
            index: 0,
        },
        ParamModel {
            id: "flags"@,
            short: None,
            long: Some("flags"@),
            kind: ParameterKind::OptionArg,
            required: false,
            ty: ValueType::Bool,
            default: None,
            multiple: true,
            index: 0,
        },
        ParamModel {
            id: "version"@,
            short: None,
            long: Some("version"@),
            kind: ParameterKind::Flag { optionally_valued: false },
            required: false,
            ty: ValueType::Bool,
            default: Some(Val::Truth(false)),
            multiple: false,
            index: 0,
        },
        ParamModel {
            id: "c"@,
            short: Some('c'),
            long: None,
            kind: ParameterKind::OptionArg,
            required: false,
            ty: ValueType::Str,
            default: Some(Val::Text("some value"@)),
            multiple: false,
            index: 0,
        },
        ParamModel {
            id: "r-underscore"@,
            short: None,
            long: Some("r-underscore"@),
            kind: ParameterKind::OptionArg,
            required: true,
            ty: ValueType::Str,
            default: None,
            multiple: false,
            index: 0,
        },
        ParamModel {
            id: "o-underscore"@,
            short: None,
            long: Some("o-underscore"@),
            kind: ParameterKind::OptionArg,
            required: false,
            ty: ValueType::Str,
            default: Some(Val::Text(""@)),
            multiple: false,
            index: 0,
        },
        ParamModel {
            id: "a-underscore"@,
            short: None,
            long: Some("a-underscore"@),
            kind: ParameterKind::OptionArg,
            required: false,
            ty: ValueType::Str,
            default: None,
            multiple: true,
            index: 0,
        },
        ParamModel {
            id: "s-quote-in-descr"@,
            short: None,
            long: Some("s-quote-in-descr"@),
            kind: ParameterKind::OptionArg,
            required: false,
            ty: ValueType::Str,
            default: Some(Val::Text(""@)),
            multiple: false,
            index: 0,
        },
    ]
}

/// Typed configuration: one field per parameter of `schema_params`.
#[derive(Debug)]
pub struct Config {
    typed: TypedConfig,
}

impl View for Config {
    type V = Seq<Field>;

    closed spec fn view(&self) -> Seq<Field> {
        self.typed@
    }
}

impl Config {
    #[verifier::type_invariant]
    spec fn conforming(&self) -> bool {
        conforms(self.typed@, schema_params())
    }

    /// Whether the help flag was given.
    pub fn has_help(&self) -> (r: bool)
        ensures
            r == is_present(self@[0]),
    {
        proof {
            use_type_invariant(self);
        }
        self.typed.present(0)
    }

    /// Whether help was asked for.
    pub fn help(&self) -> (r: bool)
        ensures
            r == truth_or(self@[0], false),
    {
        proof {
            use_type_invariant(self);
        }
        self.typed.bool_or(0, false)
    }

    /// Whether `count` was given.
    pub fn has_count(&self) -> (r: bool)
        ensures
            r == is_present(self@[COUNT as int]),
    {
        proof {
            use_type_invariant(self);
        }
        self.typed.present(COUNT)
    }
    /// The value of `count`, or 1 when it was not given.
    pub fn count(&self) -> (r: u64)
        ensures
            r as int == int_or(self@[COUNT as int], 1),
    {
        proof {
            use_type_invariant(self);
        }
        self.typed.u64_or(COUNT, 1)
    }

    /// Whether `configuration` was given.
    pub fn has_configuration(&self) -> (r: bool)
        ensures
            r == is_present(self@[CONFIGURATION as int]),
    {
        proof {
            use_type_invariant(self);
        }
        self.typed.present(CONFIGURATION)
    }
    /// The value of `configuration`, or the empty string when it was not given.
    pub fn configuration(&self) -> (r: String)
        ensures
            r@ == text_or(self@[CONFIGURATION as int], ""@),
    {
        proof {
            use_type_invariant(self);
        }
        self.typed.text_or(CONFIGURATION, "")
    }

    /// Every value given for `flags`, in order.
    pub fn flags(&self) -> (r: Vec<bool>)
        ensures
            r@ == list_of(self@[FLAGS as int]).map_values(|v: Val| truth_of(v)),
    {
        proof {
            use_type_invariant(self);
        }
        self.typed.bools(FLAGS)
    }

    /// The `i`-th value given for `flags`.
    pub fn get_flags(&self, i: usize) -> (r: bool)
        requires
            i < list_of(self@[FLAGS as int]).len(),
        ensures
            r == truth_of(list_of(self@[FLAGS as int])[i as int]),
    {
        let all = self.flags();
        proof {
            assert(all@.len() == list_of(self@[FLAGS as int]).len());
            assert(all@[i as int] == all@[i as int] && list_of(self@[FLAGS as int]).map_values(|v: Val| truth_of(v))[i as int] == truth_of(list_of(self@[FLAGS as int])[i as int]));
        }
        all[i]
    }

    /// Whether `version` was given.
    pub fn has_version(&self) -> (r: bool)
        ensures
            r == is_present(self@[VERSION as int]),
    {
        proof {
            use_type_invariant(self);
        }
        self.typed.present(VERSION)
    }
    /// The value of `version`, or `false` when it was not given.
    pub fn version(&self) -> (r: bool)
        ensures
            r == truth_or(self@[VERSION as int], false),
    {
        proof {
            use_type_invariant(self);
        }
        self.typed.bool_or(VERSION, false)
    }

    /// Whether `c` was given.
    pub fn has_c(&self) -> (r: bool)
        ensures
            r == is_present(self@[C as int]),
    {
        proof {
            use_type_invariant(self);
        }
        self.typed.present(C)
    }
    /// The value of `c`, or `some value` when it was not given.
    pub fn c(&self) -> (r: String)
        ensures
            r@ == text_or(self@[C as int], "some value"@),
    {
        proof {
            use_type_invariant(self);
        }
        self.typed.text_or(C, "some value")
    }

    /// Whether `r-underscore` was given.
    pub fn has_r_underscore(&self) -> (r: bool)
        ensures
            r == is_present(self@[R_UNDERSCORE as int]),
    {
        proof {
            use_type_invariant(self);
        }
        self.typed.present(R_UNDERSCORE)
    }
    /// The value of `r-underscore`.
    pub fn r_underscore(&self) -> (r: String)
        requires
            is_present(self@[R_UNDERSCORE as int]),
        ensures
            r@ == text_or(self@[R_UNDERSCORE as int], ""@),
    {
        proof {
            use_type_invariant(self);
        }
        self.typed.text_or(R_UNDERSCORE, "")
    }

    /// Whether `o-underscore` was given.
    pub fn has_o_underscore(&self) -> (r: bool)
        ensures
            r == is_present(self@[O_UNDERSCORE as int]),
    {
        proof {
            use_type_invariant(self);
        }
        self.typed.present(O_UNDERSCORE)
    }
    /// The value of `o-underscore`, or the empty string when it was not given.
    pub fn o_underscore(&self) -> (r: String)
        ensures
            r@ == text_or(self@[O_UNDERSCORE as int], ""@),
    {
        proof {
            use_type_invariant(self);
        }
        self.typed.text_or(O_UNDERSCORE, "")
    }

    /// Every value given for `a-underscore`, in order.
    pub fn a_underscore(&self) -> (r: Vec<String>)
        ensures
            strings_view(r@) == list_of(self@[A_UNDERSCORE as int]).map_values(|v: Val| text_of(v)),
    {
        proof {
            use_type_invariant(self);
        }
        self.typed.texts(A_UNDERSCORE)
    }

    /// The `i`-th value given for `a-underscore`.
    pub fn get_a_underscore(&self, i: usize) -> (r: String)
        requires
            i < list_of(self@[A_UNDERSCORE as int]).len(),
        ensures
            r@ == text_of(list_of(self@[A_UNDERSCORE as int])[i as int]),
    {
        let all = self.a_underscore();
        proof {
            assert(strings_view(all@).len() == list_of(self@[A_UNDERSCORE as int]).len());
            assert(strings_view(all@)[i as int] == all@[i as int]@ && list_of(self@[A_UNDERSCORE as int]).map_values(|v: Val| text_of(v))[i as int] == text_of(list_of(self@[A_UNDERSCORE as int])[i as int]));
        }
        all[i].clone()
    }

    /// Whether `s-quote-in-descr` was given.
    pub fn has_s_quote_in_descr(&self) -> (r: bool)
        ensures
            r == is_present(self@[S_QUOTE_IN_DESCR as int]),
    {
        proof {
            use_type_invariant(self);
        }
        self.typed.present(S_QUOTE_IN_DESCR)
    }
    /// The value of `s-quote-in-descr`, or the empty string when it was not given.
    pub fn s_quote_in_descr(&self) -> (r: String)
        ensures
            r@ == text_or(self@[S_QUOTE_IN_DESCR as int], ""@),
    {
        proof {
            use_type_invariant(self);
        }
        self.typed.text_or(S_QUOTE_IN_DESCR, "")
    }
}

/// The outcome of a parse, over the typed fields.
pub open spec fn outcome(r: Result<Config, ParseError>) -> Result<Seq<Field>, Failure> {
    match r {
        Ok(c) => Ok(c@),
        Err(e) => Err(e@),
    }
}

/// The outcome of parsing `toks` (the program name removed) against this schema.
pub open spec fn parse_model(toks: Seq<Seq<char>>, allow_incomplete: bool) -> Result<Seq<Field>, Failure> {
    bind_spec(schema_params(), match_spec(schema_params(), seq![], toks).hits, allow_incomplete)
}

/// This schema's own parameters, in declaration order.
pub open spec fn own_params() -> Seq<ParamModel> {
    schema_params().drop_first()
}

/// A schema named `program` with this schema's parameters.
pub fn prepare_options(program: &str, description: &str) -> (r: Schema)
    ensures
        r.wf(),
        r.models() == schema_params(),
        r.name@ == program@,
        r.description@ == description@,
        r.commands() == Seq::<Seq<char>>::empty(),
{
    let s = prepare_options_ext(Schema::new(program, description)).unwrap();
    proof {
        assert(seq![help_model()] + own_params() =~= schema_params());
        assert(s.commands() =~= Seq::<Seq<char>>::empty());
    }
    s
}

/// Appends this schema's parameters to `command`, in declaration order, or reports the
/// first one that cannot join it (see `admits`).
pub fn prepare_options_ext(command: Schema) -> (r: Result<Schema, SchemaViolation>)
    requires
        command.wf(),
    ensures
        r is Ok <==> admits_all(command.models(), own_params()),
        command.models() == seq![help_model()] ==> r is Ok,
        r is Ok ==> ({
            let s = r->Ok_0;
            &&& s.wf()
            &&& s.models() == command.models() + own_params()
            &&& s.name == command.name
            &&& s.description == command.description
            &&& s.children == command.children
        }),
{
    let ghost base = command.models();
    let ghost fresh = base == seq![help_model()];
    proof {
        if fresh {
            lemma_help_only();
        }
        assert(base =~= base + own_params().take(0));
    }
    let s = command;
    let ghost prev0 = s.models();
    let p = ParameterSpec::named(
            "count",
            None,
            Some("count"),
            ParameterKind::OptionArg,
            true,
            ValueType::U64,
            Some(Value::U64(1)),
            "Converted to --count",
            false,
        );
    let ghost pv0 = p@;
    proof {
        assert(pv0 == own_params()[0]);
        assert(fresh ==> admits(prev0, pv0)) by {
            if fresh {
                lemma_admits_1();
                assert(prev0 =~= schema_params().take(1));
            }
        }
    }
    let s = match s.arg(p) {
        Ok(s) => s,
        Err(e) => {
            proof {
                assert(!admits(base + own_params().take(0), own_params()[0]));
            }
            return Err(e);
        },
    };
    proof {
        assert(s.models() =~= base + own_params().take(1));
    }
    let ghost prev1 = s.models();
    let p = ParameterSpec::named(
            "configuration",
            None,
            Some("configuration"),
            ParameterKind::OptionArg,
            false,
            ValueType::Str,
            Some(Value::Str("".to_owned())),
            "Converted to --configuration",
            false,
        );
    let ghost pv1 = p@;
    proof {
        assert(pv1 == own_params()[1]);
        assert(fresh ==> admits(prev1, pv1)) by {
            if fresh {
                lemma_admits_2();
                assert(prev1 =~= schema_params().take(2));
            }
        }
    }
    let s = match s.arg(p) {
        Ok(s) => s,
        Err(e) => {
            proof {
                assert(!admits(base + own_params().take(1), own_params()[1]));
            }
            return Err(e);
        },
    };
    proof {
        assert(s.models() =~= base + own_params().take(2));
    }
    let ghost prev2 = s.models();
    let p = ParameterSpec::named(
            "flags",
            None,
            Some("flags"),
            ParameterKind::OptionArg,
            false,
            ValueType::Bool,
            None,
            "Converted to --flags, each encounter will be stored in list",
            true,
        );
    let ghost pv2 = p@;
    proof {
        assert(pv2 == own_params()[2]);
        assert(fresh ==> admits(prev2, pv2)) by {
            if fresh {
                lemma_admits_3();
                assert(prev2 =~= schema_params().take(3));
            }
        }
    }
    let s = match s.arg(p) {
        Ok(s) => s,
        Err(e) => {
            proof {
                assert(!admits(base + own_params().take(2), own_params()[2]));
            }
            return Err(e);
        },
    };
    proof {
        assert(s.models() =~= base + own_params().take(3));
    }
    let ghost prev3 = s.models();
    let p = ParameterSpec::named(
            "version",
            None,
            Some("version"),
            ParameterKind::Flag { optionally_valued: false },
            false,
            ValueType::Bool,
            Some(Value::Bool(false)),
            "Converted to --version",
            false,
        );
    let ghost pv3 = p@;
    proof {
        assert(pv3 == own_params()[3]);
        assert(fresh ==> admits(prev3, pv3)) by {
            if fresh {
                lemma_admits_4();
                assert(prev3 =~= schema_params().take(4));
            }
        }
    }
    let s = match s.arg(p) {
        Ok(s) => s,
        Err(e) => {
            proof {
                assert(!admits(base + own_params().take(3), own_params()[3]));
            }
            return Err(e);
        },
    };
    proof {
        assert(s.models() =~= base + own_params().take(4));
    }
    let ghost prev4 = s.models();
    let p = ParameterSpec::named(
            "c",
            Some('c'),
            None,
            ParameterKind::OptionArg,
            false,
            ValueType::Str,
            Some(Value::Str("some value".to_owned())),
            "Converted to -c short option",
            false,
        );
    let ghost pv4 = p@;
    proof {
        assert(pv4 == own_params()[4]);
        assert(fresh ==> admits(prev4, pv4)) by {
            if fresh {
                lemma_admits_5();
                assert(prev4 =~= schema_params().take(5));
            }
        }
    }
    let s = match s.arg(p) {
        Ok(s) => s,
        Err(e) => {
            proof {
                assert(!admits(base + own_params().take(4), own_params()[4]));
            }
            return Err(e);
        },
    };
    proof {
        assert(s.models() =~= base + own_params().take(5));
    }
    let ghost prev5 = s.models();
    let p = ParameterSpec::named(
            "r-underscore",
            None,
            Some("r-underscore"),
            ParameterKind::OptionArg,
            true,
            ValueType::Str,
            None,
            "Converted to r-underscore long option",
            false,
        );
    let ghost pv5 = p@;
    proof {
        assert(pv5 == own_params()[5]);
        assert(fresh ==> admits(prev5, pv5)) by {
            if fresh {
                lemma_admits_6();
                assert(prev5 =~= schema_params().take(6));
            }
        }
    }
    let s = match s.arg(p) {
        Ok(s) => s,
        Err(e) => {
            proof {
                assert(!admits(base + own_params().take(5), own_params()[5]));
            }
            return Err(e);
        },
    };
    proof {
        assert(s.models() =~= base + own_params().take(6));
    }
    let ghost prev6 = s.models();
    let p = ParameterSpec::named(
            "o-underscore",
            None,
            Some("o-underscore"),
            ParameterKind::OptionArg,
            false,
            ValueType::Str,
            Some(Value::Str("".to_owned())),
            "Converted to o-underscore long option",
            false,
        );
    let ghost pv6 = p@;
    proof {
        assert(pv6 == own_params()[6]);
        assert(fresh ==> admits(prev6, pv6)) by {
            if fresh {
                lemma_admits_7();
                assert(prev6 =~= schema_params().take(7));
            }
        }
    }
    let s = match s.arg(p) {
        Ok(s) => s,
        Err(e) => {
            proof {
                assert(!admits(base + own_params().take(6), own_params()[6]));
            }
            return Err(e);
        },
    };
    proof {
        assert(s.models() =~= base + own_params().take(7));
    }
    let ghost prev7 = s.models();
    let p = ParameterSpec::named(
            "a-underscore",
            None,
            Some("a-underscore"),
            ParameterKind::OptionArg,
            false,
            ValueType::Str,
            None,
            "Converted to a-underscore long option",
            true,
        );
    let ghost pv7 = p@;
    proof {
        assert(pv7 == own_params()[7]);
        assert(fresh ==> admits(prev7, pv7)) by {
            if fresh {
                lemma_admits_8();
                assert(prev7 =~= schema_params().take(8));
            }
        }
    }
    let s = match s.arg(p) {
        Ok(s) => s,
        Err(e) => {
            proof {
                assert(!admits(base + own_params().take(7), own_params()[7]));
            }
            return Err(e);
        },
    };
    proof {
        assert(s.models() =~= base + own_params().take(8));
    }
    let ghost prev8 = s.models();
    let p = ParameterSpec::named(
            "s-quote-in-descr",
            None,
            Some("s-quote-in-descr"),
            ParameterKind::OptionArg,
            false,
            ValueType::Str,
            Some(Value::Str("".to_owned())),
            "Converted to s-quote-in-descr long option, \"checking quotes\"",
            false,
        );
    let ghost pv8 = p@;
    proof {
        assert(pv8 == own_params()[8]);
        assert(fresh ==> admits(prev8, pv8)) by {
            if fresh {
                lemma_admits_9();
                assert(prev8 =~= schema_params().take(9));
            }
        }
    }
    let s = match s.arg(p) {
        Ok(s) => s,
        Err(e) => {
            proof {
                assert(!admits(base + own_params().take(8), own_params()[8]));
            }
            return Err(e);
        },
    };
    proof {
        assert(s.models() =~= base + own_params().take(9));
    }
    proof {
        assert(own_params().take(9) =~= own_params());
        assert forall|k: int| 0 <= k < 9 implies admits(base + own_params().take(k), #[trigger] own_params()[k]) by {
        if k == 0 {
            assert(admits(prev0, pv0));
        } else if k == 1 {
            assert(admits(prev1, pv1));
        } else if k == 2 {
            assert(admits(prev2, pv2));
        } else if k == 3 {
            assert(admits(prev3, pv3));
        } else if k == 4 {
            assert(admits(prev4, pv4));
        } else if k == 5 {
            assert(admits(prev5, pv5));
        } else if k == 6 {
            assert(admits(prev6, pv6));
        } else if k == 7 {
            assert(admits(prev7, pv7));
        } else if k == 8 {
            assert(admits(prev8, pv8));
        }
        }
    }
    Ok(s)
}


proof fn lemma_admits_1()
    ensures
        forall|i: int|
            0 <= i < 1 ==> !clash(#[trigger] schema_params().take(1)[i], schema_params()[1]) && (
            schema_params()[i].kind is Positional ==> !schema_params()[i].multiple && (
            schema_params()[1].required ==> schema_params()[i].required)),
        schema_params()[1].long is Some ==> schema_params()[1].long->Some_0.len() > 0
            && schema_params()[1].long->Some_0[0] != '-',
{
    reveal_strlit("count");
    reveal_strlit("help");
    let ps = schema_params().take(1);
    let pm = schema_params()[1];
    assert forall|i: int| 0 <= i < ps.len() implies !clash(#[trigger] ps[i], pm) && (ps[i].kind is Positional
        ==> !ps[i].multiple && (pm.required ==> ps[i].required)) by {
        if i == 0 {
                assert(ps[0] == schema_params()[0]);
                assert(ps[0].id.len() == 4 && pm.id.len() == 5);
                assert(ps[0].long->Some_0.len() == 4 && pm.long->Some_0.len() == 5);
                assert(!clash(ps[0], pm));
            }
    }
}

proof fn lemma_admits_2()
    ensures
        forall|i: int|
            0 <= i < 2 ==> !clash(#[trigger] schema_params().take(2)[i], schema_params()[2]) && (
            schema_params()[i].kind is Positional ==> !schema_params()[i].multiple && (
            schema_params()[2].required ==> schema_params()[i].required)),
        schema_params()[2].long is Some ==> schema_params()[2].long->Some_0.len() > 0
            && schema_params()[2].long->Some_0[0] != '-',
{
    reveal_strlit("configuration");
    reveal_strlit("count");
    reveal_strlit("help");
    let ps = schema_params().take(2);
    let pm = schema_params()[2];
    assert forall|i: int| 0 <= i < ps.len() implies !clash(#[trigger] ps[i], pm) && (ps[i].kind is Positional
        ==> !ps[i].multiple && (pm.required ==> ps[i].required)) by {
        if i == 0 {
                assert(ps[0] == schema_params()[0]);
                assert(ps[0].id.len() == 4 && pm.id.len() == 13);
                assert(ps[0].long->Some_0.len() == 4 && pm.long->Some_0.len() == 13);
                assert(!clash(ps[0], pm));
            } else if i == 1 {
                assert(ps[1] == schema_params()[1]);
                assert(ps[1].id.len() == 5 && pm.id.len() == 13);
                assert(ps[1].long->Some_0.len() == 5 && pm.long->Some_0.len() == 13);
                assert(!clash(ps[1], pm));
            }
    }
}

proof fn lemma_admits_3()
    ensures
        forall|i: int|
            0 <= i < 3 ==> !clash(#[trigger] schema_params().take(3)[i], schema_params()[3]) && (
            schema_params()[i].kind is Positional ==> !schema_params()[i].multiple && (
            schema_params()[3].required ==> schema_params()[i].required)),
        schema_params()[3].long is Some ==> schema_params()[3].long->Some_0.len() > 0
            && schema_params()[3].long->Some_0[0] != '-',
{
    reveal_strlit("configuration");
    reveal_strlit("count");
    reveal_strlit("flags");
    reveal_strlit("help");
    let ps = schema_params().take(3);
    let pm = schema_params()[3];
    assert forall|i: int| 0 <= i < ps.len() implies !clash(#[trigger] ps[i], pm) && (ps[i].kind is Positional
        ==> !ps[i].multiple && (pm.required ==> ps[i].required)) by {
        if i == 0 {
                assert(ps[0] == schema_params()[0]);
                assert(ps[0].id.len() == 4 && pm.id.len() == 5);
                assert(ps[0].long->Some_0.len() == 4 && pm.long->Some_0.len() == 5);
                assert(!clash(ps[0], pm));
            } else if i == 1 {
                assert(ps[1] == schema_params()[1]);
                assert(ps[i].id[0] != pm.id[0]);
                assert(ps[i].long->Some_0[0] != pm.long->Some_0[0]);
                assert(!clash(ps[1], pm));
            } else if i == 2 {
                assert(ps[2] == schema_params()[2]);
                assert(ps[2].id.len() == 13 && pm.id.len() == 5);
                assert(ps[2].long->Some_0.len() == 13 && pm.long->Some_0.len() == 5);
                assert(!clash(ps[2], pm));
            }
    }
}

proof fn lemma_admits_4()
    ensures
        forall|i: int|
            0 <= i < 4 ==> !clash(#[trigger] schema_params().take(4)[i], schema_params()[4]) && (
            schema_params()[i].kind is Positional ==> !schema_params()[i].multiple && (
            schema_params()[4].required ==> schema_params()[i].required)),
        schema_params()[4].long is Some ==> schema_params()[4].long->Some_0.len() > 0
            && schema_params()[4].long->Some_0[0] != '-',
{
    reveal_strlit("configuration");
    reveal_strlit("count");
    reveal_strlit("flags");
    reveal_strlit("help");
    reveal_strlit("version");
    let ps = schema_params().take(4);
    let pm = schema_params()[4];
    assert forall|i: int| 0 <= i < ps.len() implies !clash(#[trigger] ps[i], pm) && (ps[i].kind is Positional
        ==> !ps[i].multiple && (pm.required ==> ps[i].required)) by {
        if i == 0 {
                assert(ps[0] == schema_params()[0]);
                assert(ps[0].id.len() == 4 && pm.id.len() == 7);
                assert(ps[0].long->Some_0.len() == 4 && pm.long->Some_0.len() == 7);
                assert(!clash(ps[0], pm));
            } else if i == 1 {
                assert(ps[1] == schema_params()[1]);
                assert(ps[1].id.len() == 5 && pm.id.len() == 7);
                assert(ps[1].long->Some_0.len() == 5 && pm.long->Some_0.len() == 7);
                assert(!clash(ps[1], pm));
            } else if i == 2 {
                assert(ps[2] == schema_params()[2]);
                assert(ps[2].id.len() == 13 && pm.id.len() == 7);
                assert(ps[2].long->Some_0.len() == 13 && pm.long->Some_0.len() == 7);
                assert(!clash(ps[2], pm));
            } else if i == 3 {
                assert(ps[3] == schema_params()[3]);
                assert(ps[3].id.len() == 5 && pm.id.len() == 7);
                assert(ps[3].long->Some_0.len() == 5 && pm.long->Some_0.len() == 7);
                assert(!clash(ps[3], pm));
            }
    }
}

proof fn lemma_admits_5()
    ensures
        forall|i: int|
            0 <= i < 5 ==> !clash(#[trigger] schema_params().take(5)[i], schema_params()[5]) && (
            schema_params()[i].kind is Positional ==> !schema_params()[i].multiple && (
            schema_params()[5].required ==> schema_params()[i].required)),
        schema_params()[5].long is Some ==> schema_params()[5].long->Some_0.len() > 0
            && schema_params()[5].long->Some_0[0] != '-',
{
    reveal_strlit("c");
    reveal_strlit("configuration");
    reveal_strlit("count");
    reveal_strlit("flags");
    reveal_strlit("help");
    reveal_strlit("version");
    let ps = schema_params().take(5);
    let pm = schema_params()[5];
    assert forall|i: int| 0 <= i < ps.len() implies !clash(#[trigger] ps[i], pm) && (ps[i].kind is Positional
        ==> !ps[i].multiple && (pm.required ==> ps[i].required)) by {
        if i == 0 {
                assert(ps[0] == schema_params()[0]);
                assert(ps[0].id.len() == 4 && pm.id.len() == 1);
                assert(!clash(ps[0], pm));
            } else if i == 1 {
                assert(ps[1] == schema_params()[1]);
                assert(ps[1].id.len() == 5 && pm.id.len() == 1);
                assert(!clash(ps[1], pm));
            } else if i == 2 {
                assert(ps[2] == schema_params()[2]);
                assert(ps[2].id.len() == 13 && pm.id.len() == 1);
                assert(!clash(ps[2], pm));
            } else if i == 3 {
                assert(ps[3] == schema_params()[3]);
                assert(ps[3].id.len() == 5 && pm.id.len() == 1);
                assert(!clash(ps[3], pm));
            } else if i == 4 {
                assert(ps[4] == schema_params()[4]);
                assert(ps[4].id.len() == 7 && pm.id.len() == 1);
                assert(!clash(ps[4], pm));
            }
    }
}

proof fn lemma_admits_6()
    ensures
        forall|i: int|
            0 <= i < 6 ==> !clash(#[trigger] schema_params().take(6)[i], schema_params()[6]) && (
            schema_params()[i].kind is Positional ==> !schema_params()[i].multiple && (
            schema_params()[6].required ==> schema_params()[i].required)),
        schema_params()[6].long is Some ==> schema_params()[6].long->Some_0.len() > 0
            && schema_params()[6].long->Some_0[0] != '-',
{
    reveal_strlit("c");
    reveal_strlit("configuration");
    reveal_strlit("count");
    reveal_strlit("flags");
    reveal_strlit("help");
    reveal_strlit("r-underscore");
    reveal_strlit("version");
    let ps = schema_params().take(6);
    let pm = schema_params()[6];
    assert forall|i: int| 0 <= i < ps.len() implies !clash(#[trigger] ps[i], pm) && (ps[i].kind is Positional
        ==> !ps[i].multiple && (pm.required ==> ps[i].required)) by {
        if i == 0 {
                assert(ps[0] == schema_params()[0]);
                assert(ps[0].id.len() == 4 && pm.id.len() == 12);
                assert(ps[0].long->Some_0.len() == 4 && pm.long->Some_0.len() == 12);
                assert(!clash(ps[0], pm));
            } else if i == 1 {
                assert(ps[1] == schema_params()[1]);
                assert(ps[1].id.len() == 5 && pm.id.len() == 12);
                assert(ps[1].long->Some_0.len() == 5 && pm.long->Some_0.len() == 12);
                assert(!clash(ps[1], pm));
            } else if i == 2 {
                assert(ps[2] == schema_params()[2]);
                assert(ps[2].id.len() == 13 && pm.id.len() == 12);
                assert(ps[2].long->Some_0.len() == 13 && pm.long->Some_0.len() == 12);
                assert(!clash(ps[2], pm));
            } else if i == 3 {
                assert(ps[3] == schema_params()[3]);
                assert(ps[3].id.len() == 5 && pm.id.len() == 12);
                assert(ps[3].long->Some_0.len() == 5 && pm.long->Some_0.len() == 12);
                assert(!clash(ps[3], pm));
            } else if i == 4 {
                assert(ps[4] == schema_params()[4]);
                assert(ps[4].id.len() == 7 && pm.id.len() == 12);
                assert(ps[4].long->Some_0.len() == 7 && pm.long->Some_0.len() == 12);
                assert(!clash(ps[4], pm));
            } else if i == 5 {
                assert(ps[5] == schema_params()[5]);
                assert(ps[5].id.len() == 1 && pm.id.len() == 12);
                assert(!clash(ps[5], pm));
            }
    }
}

proof fn lemma_admits_7()
    ensures
        forall|i: int|
            0 <= i < 7 ==> !clash(#[trigger] schema_params().take(7)[i], schema_params()[7]) && (
            schema_params()[i].kind is Positional ==> !schema_params()[i].multiple && (
            schema_params()[7].required ==> schema_params()[i].required)),
        schema_params()[7].long is Some ==> schema_params()[7].long->Some_0.len() > 0
            && schema_params()[7].long->Some_0[0] != '-',
{
    reveal_strlit("c");
    reveal_strlit("configuration");
    reveal_strlit("count");
    reveal_strlit("flags");
    reveal_strlit("help");
    reveal_strlit("o-underscore");
    reveal_strlit("r-underscore");
    reveal_strlit("version");
    let ps = schema_params().take(7);
    let pm = schema_params()[7];
    assert forall|i: int| 0 <= i < ps.len() implies !clash(#[trigger] ps[i], pm) && (ps[i].kind is Positional
        ==> !ps[i].multiple && (pm.required ==> ps[i].required)) by {
        if i == 0 {
                assert(ps[0] == schema_params()[0]);
                assert(ps[0].id.len() == 4 && pm.id.len() == 12);
                assert(ps[0].long->Some_0.len() == 4 && pm.long->Some_0.len() == 12);
                assert(!clash(ps[0], pm));
            } else if i == 1 {
                assert(ps[1] == schema_params()[1]);
                assert(ps[1].id.len() == 5 && pm.id.len() == 12);
                assert(ps[1].long->Some_0.len() == 5 && pm.long->Some_0.len() == 12);
                assert(!clash(ps[1], pm));
            } else if i == 2 {
                assert(ps[2] == schema_params()[2]);
                assert(ps[2].id.len() == 13 && pm.id.len() == 12);
                assert(ps[2].long->Some_0.len() == 13 && pm.long->Some_0.len() == 12);
                assert(!clash(ps[2], pm));
            } else if i == 3 {
                assert(ps[3] == schema_params()[3]);
                assert(ps[3].id.len() == 5 && pm.id.len() == 12);
                assert(ps[3].long->Some_0.len() == 5 && pm.long->Some_0.len() == 12);
                assert(!clash(ps[3], pm));
            } else if i == 4 {
                assert(ps[4] == schema_params()[4]);
                assert(ps[4].id.len() == 7 && pm.id.len() == 12);
                assert(ps[4].long->Some_0.len() == 7 && pm.long->Some_0.len() == 12);
                assert(!clash(ps[4], pm));
            } else if i == 5 {
                assert(ps[5] == schema_params()[5]);
                assert(ps[5].id.len() == 1 && pm.id.len() == 12);
                assert(!clash(ps[5], pm));
            } else if i == 6 {
                assert(ps[6] == schema_params()[6]);
                assert(ps[i].id[0] != pm.id[0]);
                assert(ps[i].long->Some_0[0] != pm.long->Some_0[0]);
                assert(!clash(ps[6], pm));
            }
    }
}

proof fn lemma_admits_8()
    ensures
        forall|i: int|
            0 <= i < 8 ==> !clash(#[trigger] schema_params().take(8)[i], schema_params()[8]) && (
            schema_params()[i].kind is Positional ==> !schema_params()[i].multiple && (
            schema_params()[8].required ==> schema_params()[i].required)),
        schema_params()[8].long is Some ==> schema_params()[8].long->Some_0.len() > 0
            && schema_params()[8].long->Some_0[0] != '-',
{
    reveal_strlit("a-underscore");
    reveal_strlit("c");
    reveal_strlit("configuration");
    reveal_strlit("count");
    reveal_strlit("flags");
    reveal_strlit("help");
    reveal_strlit("o-underscore");
    reveal_strlit("r-underscore");
    reveal_strlit("version");
    let ps = schema_params().take(8);
    let pm = schema_params()[8];
    assert forall|i: int| 0 <= i < ps.len() implies !clash(#[trigger] ps[i], pm) && (ps[i].kind is Positional
        ==> !ps[i].multiple && (pm.required ==> ps[i].required)) by {
        if i == 0 {
                assert(ps[0] == schema_params()[0]);
                assert(ps[0].id.len() == 4 && pm.id.len() == 12);
                assert(ps[0].long->Some_0.len() == 4 && pm.long->Some_0.len() == 12);
                assert(!clash(ps[0], pm));
            } else if i == 1 {
                assert(ps[1] == schema_params()[1]);
                assert(ps[1].id.len() == 5 && pm.id.len() == 12);
                assert(ps[1].long->Some_0.len() == 5 && pm.long->Some_0.len() == 12);
                assert(!clash(ps[1], pm));
            } else if i == 2 {
                assert(ps[2] == schema_params()[2]);
                assert(ps[2].id.len() == 13 && pm.id.len() == 12);
                assert(ps[2].long->Some_0.len() == 13 && pm.long->Some_0.len() == 12);
                assert(!clash(ps[2], pm));
            } else if i == 3 {
                assert(ps[3] == schema_params()[3]);
                assert(ps[3].id.len() == 5 && pm.id.len() == 12);
                assert(ps[3].long->Some_0.len() == 5 && pm.long->Some_0.len() == 12);
                assert(!clash(ps[3], pm));
            } else if i == 4 {
                assert(ps[4] == schema_params()[4]);
                assert(ps[4].id.len() == 7 && pm.id.len() == 12);
                assert(ps[4].long->Some_0.len() == 7 && pm.long->Some_0.len() == 12);
                assert(!clash(ps[4], pm));
            } else if i == 5 {
                assert(ps[5] == schema_params()[5]);
                assert(ps[5].id.len() == 1 && pm.id.len() == 12);
                assert(!clash(ps[5], pm));
            } else if i == 6 {
                assert(ps[6] == schema_params()[6]);
                assert(ps[i].id[0] != pm.id[0]);
                assert(ps[i].long->Some_0[0] != pm.long->Some_0[0]);
                assert(!clash(ps[6], pm));
            } else if i == 7 {
                assert(ps[7] == schema_params()[7]);
                assert(ps[i].id[0] != pm.id[0]);
                assert(ps[i].long->Some_0[0] != pm.long->Some_0[0]);
                assert(!clash(ps[7], pm));
            }
    }
}

proof fn lemma_admits_9()
    ensures
        forall|i: int|
            0 <= i < 9 ==> !clash(#[trigger] schema_params().take(9)[i], schema_params()[9]) && (
            schema_params()[i].kind is Positional ==> !schema_params()[i].multiple && (
            schema_params()[9].required ==> schema_params()[i].required)),
        schema_params()[9].long is Some ==> schema_params()[9].long->Some_0.len() > 0
            && schema_params()[9].long->Some_0[0] != '-',
{
    reveal_strlit("a-underscore");
    reveal_strlit("c");
    reveal_strlit("configuration");
    reveal_strlit("count");
    reveal_strlit("flags");
    reveal_strlit("help");
    reveal_strlit("o-underscore");
    reveal_strlit("r-underscore");
    reveal_strlit("s-quote-in-descr");
    reveal_strlit("version");
    let ps = schema_params().take(9);
    let pm = schema_params()[9];
    assert forall|i: int| 0 <= i < ps.len() implies !clash(#[trigger] ps[i], pm) && (ps[i].kind is Positional
        ==> !ps[i].multiple && (pm.required ==> ps[i].required)) by {
        if i == 0 {
                assert(ps[0] == schema_params()[0]);
                assert(ps[0].id.len() == 4 && pm.id.len() == 16);
                assert(ps[0].long->Some_0.len() == 4 && pm.long->Some_0.len() == 16);
                assert(!clash(ps[0], pm));
            } else if i == 1 {
                assert(ps[1] == schema_params()[1]);
                assert(ps[1].id.len() == 5 && pm.id.len() == 16);
                assert(ps[1].long->Some_0.len() == 5 && pm.long->Some_0.len() == 16);
                assert(!clash(ps[1], pm));
            } else if i == 2 {
                assert(ps[2] == schema_params()[2]);
                assert(ps[2].id.len() == 13 && pm.id.len() == 16);
                assert(ps[2].long->Some_0.len() == 13 && pm.long->Some_0.len() == 16);
                assert(!clash(ps[2], pm));
            } else if i == 3 {
                assert(ps[3] == schema_params()[3]);
                assert(ps[3].id.len() == 5 && pm.id.len() == 16);
                assert(ps[3].long->Some_0.len() == 5 && pm.long->Some_0.len() == 16);
                assert(!clash(ps[3], pm));
            } else if i == 4 {
                assert(ps[4] == schema_params()[4]);
                assert(ps[4].id.len() == 7 && pm.id.len() == 16);
                assert(ps[4].long->Some_0.len() == 7 && pm.long->Some_0.len() == 16);
                assert(!clash(ps[4], pm));
            } else if i == 5 {
                assert(ps[5] == schema_params()[5]);
                assert(ps[5].id.len() == 1 && pm.id.len() == 16);
                assert(!clash(ps[5], pm));
            } else if i == 6 {
                assert(ps[6] == schema_params()[6]);
                assert(ps[6].id.len() == 12 && pm.id.len() == 16);
                assert(ps[6].long->Some_0.len() == 12 && pm.long->Some_0.len() == 16);
                assert(!clash(ps[6], pm));
            } else if i == 7 {
                assert(ps[7] == schema_params()[7]);
                assert(ps[7].id.len() == 12 && pm.id.len() == 16);
                assert(ps[7].long->Some_0.len() == 12 && pm.long->Some_0.len() == 16);
                assert(!clash(ps[7], pm));
            } else if i == 8 {
                assert(ps[8] == schema_params()[8]);
                assert(ps[8].id.len() == 12 && pm.id.len() == 16);
                assert(ps[8].long->Some_0.len() == 12 && pm.long->Some_0.len() == 16);
                assert(!clash(ps[8], pm));
            }
    }
}

/// The usage text of this schema.
pub fn usage(program: &str, description: &str) -> (r: String)
    ensures
        r@ == usage_text(program@, schema_facts(schema_params())),
        r@.len() > 0,
        usage_title(r@),
{
    render_usage(&prepare_options(program, description))
}

fn config_from(schema: &Schema, tokens: &Vec<String>, allow_incomplete: bool) -> (r: Result<Config, ParseError>)
    requires
        schema.models() == schema_params(),
    ensures
        outcome(r) == bind_spec(
            schema_params(),
            match_spec(schema_params(), schema.commands(), strings_view(tokens@)).hits,
            allow_incomplete,
        ),
{
    let table = match_tokens(schema, tokens);
    match bind(schema, &table, allow_incomplete) {
        Ok(t) => {
            proof {
                lemma_bind_conforms(schema_params(), table@.hits, allow_incomplete);
            }
            Ok(Config { typed: t })
        },
        Err(e) => Err(e),
    }
}

/// Parses `args` (the program name first); missing required parameters are errors.
pub fn parse_debug(program: &str, args: &[&str], description: &str) -> (r: Result<Config, ParseError>)
    ensures
        outcome(r) == parse_model(argv_tokens(args@), false),
{
    parse_command(args, prepare_options(program, description), false)
}

/// Parses an owned argument vector (the program name first).
pub fn parse_vec(program: &str, args: &Vec<String>, description: &str) -> (r: Result<Config, ParseError>)
    ensures
        outcome(r) == parse_model(vec_tokens(args@), false),
{
    let schema = prepare_options(program, description);
    let tokens = strings_after_first(args);
    config_from(&schema, &tokens, false)
}

/// Parses `args` (the program name first).
pub fn parse_str(program: &str, args: &[&str], description: &str) -> (r: Result<Config, ParseError>)
    ensures
        outcome(r) == parse_model(argv_tokens(args@), false),
{
    parse_command(args, prepare_options(program, description), false)
}

/// Parses `args` (the program name first); with `allow_incomplete`, missing required
/// parameters are not errors, while tokens that do not convert still are.
pub fn parse_ext(program: &str, args: &[&str], description: &str, allow_incomplete: bool) -> (r: Result<Config, ParseError>)
    ensures
        outcome(r) == parse_model(argv_tokens(args@), allow_incomplete),
{
    parse_command(args, prepare_options(program, description), allow_incomplete)
}

/// Parses `args` (the program name first) against `command`, a schema with this
/// schema's parameters (and possibly subcommands, which end the scan).
pub fn parse_command(args: &[&str], command: Schema, allow_incomplete: bool) -> (r: Result<Config, ParseError>)
    requires
        command.models() == schema_params(),
    ensures
        outcome(r) == bind_spec(
            schema_params(),
            match_spec(schema_params(), command.commands(), argv_tokens(args@)).hits,
            allow_incomplete,
        ),
{
    let tokens = argv_to_tokens(args);
    config_from(&command, &tokens, allow_incomplete)
}

/// Converts and validates a match table made for this schema.
pub fn parse_matches(matches: &MatchTable, allow_incomplete: bool) -> (r: Result<Config, ParseError>)
    ensures
        outcome(r) == bind_spec(schema_params(), matches@.hits, allow_incomplete),
{
    let schema = prepare_options("", "");
    match bind(&schema, matches, allow_incomplete) {
        Ok(t) => {
            proof {
                lemma_bind_conforms(schema_params(), matches@.hits, allow_incomplete);
            }
            Ok(Config { typed: t })
        },
        Err(e) => Err(e),
    }
}

} // verus!
