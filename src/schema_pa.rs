//! A schema with every kind of parameter: options of each type, flags, fixed positionals and a repeating positional.
use vstd::prelude::*;
use vstd::string::*;
use crate::value::{Value, ValueType, Val};
use crate::schema::{Schema, SchemaViolation, ParameterSpec, ParameterKind, ParamModel, help_model, clash, admits, admits_all, lemma_help_only};
use crate::matcher::{MatchTable, match_spec, match_tokens, strings_view};
use crate::engine::{TypedConfig, ParseError, Failure, Field, bind, bind_spec, argv_tokens, argv_to_tokens, vec_tokens, strings_after_first};
use crate::fields::{conforms, is_present, int_or, truth_or, text_or, list_of, int_of, text_of, lemma_bind_conforms};
use crate::usage::{render_usage, usage_title, usage_text, schema_facts};

verus! {

/// Position of `paramA` in the schema.
pub const PARAMA: usize = 1;

/// Position of `paramB` in the schema.
pub const PARAMB: usize = 2;

/// Position of `paramC` in the schema.
pub const PARAMC: usize = 3;

/// Position of `paramD` in the schema.
pub const PARAMD: usize = 4;

/// Position of `paramE` in the schema.
pub const PARAME: usize = 5;

/// Position of `paramF` in the schema.
pub const PARAMF: usize = 6;

/// Position of `param-I` in the schema.
pub const PARAM_I: usize = 7;

/// Position of `param-J` in the schema.
pub const PARAM_J: usize = 8;

/// Position of `paramFloat` in the schema.
pub const PARAMFLOAT: usize = 9;

/// Position of `paramDouble` in the schema.
pub const PARAMDOUBLE: usize = 10;

/// Position of `PARAMG` in the schema.
pub const PARAMG: usize = 11;

/// Position of `P-A-R-A-M-G-2` in the schema.
pub const P_A_R_A_M_G_2: usize = 12;

/// Position of `PARAM-FLOAT` in the schema.
pub const PARAM_FLOAT: usize = 13;

/// Position of `PARAM-DOUBLE` in the schema.
pub const PARAM_DOUBLE: usize = 14;

/// Position of `PARAMH` in the schema.
pub const PARAMH: usize = 15;

/// The parameters of this schema, the help flag first.
pub open spec fn schema_params() -> Seq<ParamModel> {
    seq![
        help_model(),
        ParamModel {
            id: "paramA"@,
            short: Some('a'),
            long: Some("a-long-param"@),
            kind: ParameterKind::OptionArg,
            required: false,
            ty: ValueType::Str,
            default: Some(Val::Text("// tricky default value"@)),
            multiple: false,
            index: 0,
        },
        ParamModel {
            id: "paramB"@,
            short: None,
            long: Some("b-long-param"@),
            kind: ParameterKind::OptionArg,
            required: false,
            ty: ValueType::U32,
            default: Some(Val::Int(10)),
            multiple: false,
            index: 0,
        },
        ParamModel {
            id: "paramC"@,
            short: Some('c'),
            long: Some("c-long-param"@),
            kind: ParameterKind::OptionArg,
            required: false,
            ty: ValueType::I32,
            default: None,
            multiple: false,
            index: 0,
        },
        ParamModel {
            id: "paramD"@,
            short: None,
            long: Some("d-long-param"@),
            kind: ParameterKind::OptionArg,
            required: false,
            ty: ValueType::F32,
            default: None,
            multiple: false,
            index: 0,
        },
        ParamModel {
            id: "paramE"@,
            short: Some('e'),
            long: None,
            kind: ParameterKind::OptionArg,
            required: true,
            ty: ValueType::Str,
            default: None,
            multiple: false,
            index: 0,
        },
        ParamModel {
            id: "paramF"@,
            short: Some('f'),
            long: None,
            kind: ParameterKind::OptionArg,
            required: false,
            ty: ValueType::I32,
            default: None,
            multiple: true,
            index: 0,
        },
        ParamModel {
            id: "param-I"@,
            short: Some('i'),
            long: None,
            kind: ParameterKind::Flag { optionally_valued: false },
            required: false,
            ty: ValueType::Bool,
            default: Some(Val::Truth(true)),
            multiple: false,
            index: 0,
        },
        ParamModel {
            id: "param-J"@,
            short: None,
            long: Some("j-long"@),
            kind: ParameterKind::Flag { optionally_valued: false },
            required: false,
            ty: ValueType::Bool,
            default: None,
            multiple: false,
            index: 0,
        },
        ParamModel {
            id: "paramFloat"@,
            short: Some('k'),
            long: None,
            kind: ParameterKind::OptionArg,
            required: false,
            ty: ValueType::F32,
            default: None,
            multiple: false,
            index: 0,
        },
        ParamModel {
            id: "paramDouble"@,
            short: Some('l'),
            long: None,
            kind: ParameterKind::OptionArg,
            required: false,
            ty: ValueType::F64,
            default: None,
            multiple: false,
            index: 0,
        },
        ParamModel {
            id: "PARAMG"@,
            short: None,
            long: None,
            kind: ParameterKind::Positional,
            required: true,
            ty: ValueType::U64,
            default: None,
            multiple: false,
            index: 1,
        },
        ParamModel {
            id: "P-A-R-A-M-G-2"@,
            short: None,
            long: None,
            kind: ParameterKind::Positional,
            required: true,
            ty: ValueType::Bool,
            default: None,
            multiple: false,
            index: 2,
        },
        ParamModel {
            id: "PARAM-FLOAT"@,
            short: None,
            long: None,
            kind: ParameterKind::Positional,
            required: true,
            ty: ValueType::F32,
            default: None,
            multiple: false,
            index: 3,
        },
        ParamModel {
            id: "PARAM-DOUBLE"@,
            short: None,
            long: None,
            kind: ParameterKind::Positional,
            required: true,
            ty: ValueType::F64,
            default: None,
            multiple: false,
            index: 4,
        },
        ParamModel {
            id: "PARAMH"@,
            short: None,
            long: None,
            kind: ParameterKind::Positional,
            required: true,
            ty: ValueType::Str,
            default: None,
            multiple: true,
            index: 5,
        },
    ]
}

/// Typed configuration: one field per parameter of `schema_params`.
#[derive(Debug)]
pub struct Config {
    typed: TypedConfig,
}

impl View for Config {
    type V = Seq<Field>;

    closed spec fn view(&self) -> Seq<Field> {
        self.typed@
    }
}

impl Config {
    #[verifier::type_invariant]
    spec fn conforming(&self) -> bool {
        conforms(self.typed@, schema_params())
    }

    /// Whether `paramA` was given.
    pub fn has_parama(&self) -> (r: bool)
        ensures
            r == is_present(self@[PARAMA as int]),
    {
        proof {
            use_type_invariant(self);
        }
        self.typed.present(PARAMA)
    }
    /// The value of `paramA`, or `// tricky default value` when it was not given.
    pub fn parama(&self) -> (r: String)
        ensures
            r@ == text_or(self@[PARAMA as int], "// tricky default value"@),
    {
        proof {
            use_type_invariant(self);
        }
        self.typed.text_or(PARAMA, "// tricky default value")
    }

    /// Whether `paramB` was given.
    pub fn has_paramb(&self) -> (r: bool)
        ensures
            r == is_present(self@[PARAMB as int]),
    {
        proof {
            use_type_invariant(self);
        }
        self.typed.present(PARAMB)
    }
    /// The value of `paramB`, or 10 when it was not given.
    pub fn paramb(&self) -> (r: u32)
        ensures
            r as int == int_or(self@[PARAMB as int], 10),
    {
        proof {
            use_type_invariant(self);
        }
        self.typed.u32_or(PARAMB, 10)
    }

    /// Whether `paramC` was given.
    pub fn has_paramc(&self) -> (r: bool)
        ensures
            r == is_present(self@[PARAMC as int]),
    {
        proof {
            use_type_invariant(self);
        }
        self.typed.present(PARAMC)
    }
    /// The value of `paramC`, or 0 when it was not given.
    pub fn paramc(&self) -> (r: i32)
        ensures
            r as int == int_or(self@[PARAMC as int], 0),
    {
        proof {
            use_type_invariant(self);
        }
        self.typed.i32_or(PARAMC, 0)
    }

    /// Whether `paramD` was given.
    pub fn has_paramd(&self) -> (r: bool)
        ensures
            r == is_present(self@[PARAMD as int]),
    {
        proof {
            use_type_invariant(self);
        }
        self.typed.present(PARAMD)
    }
    /// The literal given for `paramD` (f32), or `0` when it was not given.
    pub fn paramd(&self) -> (r: String)
        ensures
            r@ == text_or(self@[PARAMD as int], "0"@),
    {
        proof {
            use_type_invariant(self);
        }
        self.typed.text_or(PARAMD, "0")
    }

    /// Whether `paramE` was given.
    pub fn has_parame(&self) -> (r: bool)
        ensures
            r == is_present(self@[PARAME as int]),
    {
        proof {
            use_type_invariant(self);
        }
        self.typed.present(PARAME)
    }
    /// The value of `paramE`.
    pub fn parame(&self) -> (r: String)
        requires
            is_present(self@[PARAME as int]),
        ensures
            r@ == text_or(self@[PARAME as int], ""@),
    {
        proof {
            use_type_invariant(self);
        }
        self.typed.text_or(PARAME, "")
    }

    /// Every value given for `paramF`, in order.
    pub fn paramf(&self) -> (r: Vec<i32>)
        ensures
            r@.map_values(|x: i32| x as int) == list_of(self@[PARAMF as int]).map_values(|v: Val| int_of(v)),
    {
        proof {
            use_type_invariant(self);
        }
        self.typed.i32s(PARAMF)
    }

    /// The `i`-th value given for `paramF`.
    pub fn get_paramf(&self, i: usize) -> (r: i32)
        requires
            i < list_of(self@[PARAMF as int]).len(),
        ensures
            r as int == int_of(list_of(self@[PARAMF as int])[i as int]),
    {
        let all = self.paramf();
        proof {
            assert(all@.map_values(|x: i32| x as int).len() == list_of(self@[PARAMF as int]).len());
            assert(all@.map_values(|x: i32| x as int)[i as int] == all@[i as int] as int && list_of(self@[PARAMF as int]).map_values(|v: Val| int_of(v))[i as int] == int_of(list_of(self@[PARAMF as int])[i as int]));
        }
        all[i]
    }

    /// Whether `param-I` was given.
    pub fn has_param_i(&self) -> (r: bool)
        ensures
            r == is_present(self@[PARAM_I as int]),
    {
        proof {
            use_type_invariant(self);
        }
        self.typed.present(PARAM_I)
    }
    /// The value of `param-I`, or `true` when it was not given.
    pub fn param_i(&self) -> (r: bool)
        ensures
            r == truth_or(self@[PARAM_I as int], true),
    {
        proof {
            use_type_invariant(self);
        }
        self.typed.bool_or(PARAM_I, true)
    }

    /// Whether `param-J` was given.
    pub fn has_param_j(&self) -> (r: bool)
        ensures
            r == is_present(self@[PARAM_J as int]),
    {
        proof {
            use_type_invariant(self);
        }
        self.typed.present(PARAM_J)
    }
    /// The value of `param-J`, or `false` when it was not given.
    pub fn param_j(&self) -> (r: bool)
        ensures
            r == truth_or(self@[PARAM_J as int], false),
    {
        proof {
            use_type_invariant(self);
        }
        self.typed.bool_or(PARAM_J, false)
    }

    /// Whether `paramFloat` was given.
    pub fn has_paramfloat(&self) -> (r: bool)
        ensures
            r == is_present(self@[PARAMFLOAT as int]),
    {
        proof {
            use_type_invariant(self);
        }
        self.typed.present(PARAMFLOAT)
    }
    /// The literal given for `paramFloat` (f32), or `0` when it was not given.
    pub fn paramfloat(&self) -> (r: String)
        ensures
            r@ == text_or(self@[PARAMFLOAT as int], "0"@),
    {
        proof {
            use_type_invariant(self);
        }
        self.typed.text_or(PARAMFLOAT, "0")
    }

    /// Whether `paramDouble` was given.
    pub fn has_paramdouble(&self) -> (r: bool)
        ensures
            r == is_present(self@[PARAMDOUBLE as int]),
    {
        proof {
            use_type_invariant(self);
        }
        self.typed.present(PARAMDOUBLE)
    }
    /// The literal given for `paramDouble` (f64), or `0` when it was not given.
    pub fn paramdouble(&self) -> (r: String)
        ensures
            r@ == text_or(self@[PARAMDOUBLE as int], "0"@),
    {
        proof {
            use_type_invariant(self);
        }
        self.typed.text_or(PARAMDOUBLE, "0")
    }

    /// Whether `PARAMG` was given.
    pub fn has_paramg(&self) -> (r: bool)
        ensures
            r == is_present(self@[PARAMG as int]),
    {
        proof {
            use_type_invariant(self);
        }
        self.typed.present(PARAMG)
    }
    /// The value of `PARAMG`.
    pub fn paramg(&self) -> (r: u64)
        requires
            is_present(self@[PARAMG as int]),
        ensures
            r as int == int_or(self@[PARAMG as int], 0),
    {
        proof {
            use_type_invariant(self);
        }
        self.typed.u64_or(PARAMG, 0)
    }

    /// Whether `P-A-R-A-M-G-2` was given.
    pub fn has_p_a_r_a_m_g_2(&self) -> (r: bool)
        ensures
            r == is_present(self@[P_A_R_A_M_G_2 as int]),
    {
        proof {
            use_type_invariant(self);
        }
        self.typed.present(P_A_R_A_M_G_2)
    }
    /// The value of `P-A-R-A-M-G-2`.
    pub fn p_a_r_a_m_g_2(&self) -> (r: bool)
        requires
            is_present(self@[P_A_R_A_M_G_2 as int]),
        ensures
            r == truth_or(self@[P_A_R_A_M_G_2 as int], false),
    {
        proof {
            use_type_invariant(self);
        }
        self.typed.bool_or(P_A_R_A_M_G_2, false)
    }

    /// Whether `PARAM-FLOAT` was given.
    pub fn has_param_float(&self) -> (r: bool)
        ensures
            r == is_present(self@[PARAM_FLOAT as int]),
    {
        proof {
            use_type_invariant(self);
        }
        self.typed.present(PARAM_FLOAT)
    }
    /// The literal given for `PARAM-FLOAT` (f32), or `0` when it was not given.
    pub fn param_float(&self) -> (r: String)
        ensures
            r@ == text_or(self@[PARAM_FLOAT as int], "0"@),
    {
        proof {
            use_type_invariant(self);
        }
        self.typed.text_or(PARAM_FLOAT, "0")
    }

    /// Whether `PARAM-DOUBLE` was given.
    pub fn has_param_double(&self) -> (r: bool)
        ensures
            r == is_present(self@[PARAM_DOUBLE as int]),
    {
        proof {
            use_type_invariant(self);
        }
        self.typed.present(PARAM_DOUBLE)
    }
    /// The literal given for `PARAM-DOUBLE` (f64), or `0` when it was not given.
    pub fn param_double(&self) -> (r: String)
        ensures
            r@ == text_or(self@[PARAM_DOUBLE as int], "0"@),
    {
        proof {
            use_type_invariant(self);
        }
        self.typed.text_or(PARAM_DOUBLE, "0")
    }

    /// Every value given for `PARAMH`, in order.
    pub fn paramh(&self) -> (r: Vec<String>)
        ensures
            strings_view(r@) == list_of(self@[PARAMH as int]).map_values(|v: Val| text_of(v)),
    {
        proof {
            use_type_invariant(self);
        }
        self.typed.texts(PARAMH)
    }

    /// The `i`-th value given for `PARAMH`.
    pub fn get_paramh(&self, i: usize) -> (r: String)
        requires
            i < list_of(self@[PARAMH as int]).len(),
        ensures
            r@ == text_of(list_of(self@[PARAMH as int])[i as int]),
    {
        let all = self.paramh();
        proof {
            assert(strings_view(all@).len() == list_of(self@[PARAMH as int]).len());
            assert(strings_view(all@)[i as int] == all@[i as int]@ && list_of(self@[PARAMH as int]).map_values(|v: Val| text_of(v))[i as int] == text_of(list_of(self@[PARAMH as int])[i as int]));
        }
        all[i].clone()
    }
}

/// The outcome of a parse, over the typed fields.
pub open spec fn outcome(r: Result<Config, ParseError>) -> Result<Seq<Field>, Failure> {
    match r {
        Ok(c) => Ok(c@),
        Err(e) => Err(e@),
    }
}

/// The outcome of parsing `toks` (the program name removed) against this schema.
pub open spec fn parse_model(toks: Seq<Seq<char>>, allow_incomplete: bool) -> Result<Seq<Field>, Failure> {
    bind_spec(schema_params(), match_spec(schema_params(), seq![], toks).hits, allow_incomplete)
}

/// This schema's own parameters, in declaration order.
pub open spec fn own_params() -> Seq<ParamModel> {
    schema_params().drop_first()
}

/// A schema named `program` with this schema's parameters.
pub fn prepare_options(program: &str, description: &str) -> (r: Schema)
    ensures
        r.wf(),
        r.models() == schema_params(),
        r.name@ == program@,
        r.description@ == description@,
        r.commands() == Seq::<Seq<char>>::empty(),
{
    let s = prepare_options_ext(Schema::new(program, description)).unwrap();
    proof {
        assert(seq![help_model()] + own_params() =~= schema_params());
        assert(s.commands() =~= Seq::<Seq<char>>::empty());
    }
    s
}

/// Appends this schema's parameters to `command`, in declaration order, or reports the
/// first one that cannot join it (see `admits`).
#[verifier::spinoff_prover]
#[verifier::rlimit(100)]
pub fn prepare_options_ext(command: Schema) -> (r: Result<Schema, SchemaViolation>)
    requires
        command.wf(),
    ensures
        r is Ok <==> admits_all(command.models(), own_params()),
        command.models() == seq![help_model()] ==> r is Ok,
        r is Ok ==> ({
            let s = r->Ok_0;
            &&& s.wf()
            &&& s.models() == command.models() + own_params()
            &&& s.name == command.name
            &&& s.description == command.description
            &&& s.children == command.children
        }),
{
    let ghost base = command.models();
    let ghost fresh = base == seq![help_model()];
    proof {
        if fresh {
            lemma_help_only();
        }
        assert(base =~= base + own_params().take(0));
    }
    let s = command;
    let ghost prev0 = s.models();
    let p = ParameterSpec::named(
            "paramA",
            Some('a'),
            Some("a-long-param"),
            ParameterKind::OptionArg,
            false,
            ValueType::Str,
            Some(Value::Str("// tricky default value".to_owned())),
            "String param option with default value",
            false,
        );
    let ghost pv0 = p@;
    proof {
        assert(pv0 == own_params()[0]);
        assert(fresh ==> admits(prev0, pv0)) by {
            if fresh {
                lemma_admits_1();
                assert(prev0 =~= schema_params().take(1));
            }
        }
    }
    let s = match s.arg(p) {
        Ok(s) => s,
        Err(e) => {
            proof {
                assert(!admits(base + own_params().take(0), own_params()[0]));
            }
            return Err(e);
        },
    };
    proof {
        assert(s.models() =~= base + own_params().take(1));
    }
    let ghost prev1 = s.models();
    let p = ParameterSpec::named(
            "paramB",
            None,
            Some("b-long-param"),
            ParameterKind::OptionArg,
            false,
            ValueType::U32,
            Some(Value::U32(10)),
            "Integer param with default value",
            false,
        );
    let ghost pv1 = p@;
    proof {
        assert(pv1 == own_params()[1]);
        assert(fresh ==> admits(prev1, pv1)) by {
            if fresh {
                lemma_admits_2();
                assert(prev1 =~= schema_params().take(2));
            }
        }
    }
    let s = match s.arg(p) {
        Ok(s) => s,
        Err(e) => {
            proof {
                assert(!admits(base + own_params().take(1), own_params()[1]));
            }
            return Err(e);
        },
    };
    proof {
        assert(s.models() =~= base + own_params().take(2));
    }
    let ghost prev2 = s.models();
    let p = ParameterSpec::named(
            "paramC",
            Some('c'),
            Some("c-long-param"),
            ParameterKind::OptionArg,
            false,
            ValueType::I32,
            None,
            "Integer param without default value",
            false,
        );
    let ghost pv2 = p@;
    proof {
        assert(pv2 == own_params()[2]);
        assert(fresh ==> admits(prev2, pv2)) by {
            if fresh {
                lemma_admits_3();
                assert(prev2 =~= schema_params().take(3));
            }
        }
    }
    let s = match s.arg(p) {
        Ok(s) => s,
        Err(e) => {
            proof {
                assert(!admits(base + own_params().take(2), own_params()[2]));
            }
            return Err(e);
        },
    };
    proof {
        assert(s.models() =~= base + own_params().take(3));
    }
    let ghost prev3 = s.models();
    let p = ParameterSpec::named(
            "paramD",
            None,
            Some("d-long-param"),
            ParameterKind::OptionArg,
            false,
            ValueType::F32,
            None,
            "Float param without default value",
            false,
        );
    let ghost pv3 = p@;
    proof {
        assert(pv3 == own_params()[3]);
        assert(fresh ==> admits(prev3, pv3)) by {
            if fresh {
                lemma_admits_4();
                assert(prev3 =~= schema_params().take(4));
            }
        }
    }
    let s = match s.arg(p) {
        Ok(s) => s,
        Err(e) => {
            proof {
                assert(!admits(base + own_params().take(3), own_params()[3]));
            }
            return Err(e);
        },
    };
    proof {
        assert(s.models() =~= base + own_params().take(4));
    }
    let ghost prev4 = s.models();
    let p = ParameterSpec::named(
            "paramE",
            Some('e'),
            None,
            ParameterKind::OptionArg,
            true,
            ValueType::Str,
            None,
            "String param which should be anyway",
            false,
        );
    let ghost pv4 = p@;
    proof {
        assert(pv4 == own_params()[4]);
        assert(fresh ==> admits(prev4, pv4)) by {
            if fresh {
                lemma_admits_5();
                assert(prev4 =~= schema_params().take(5));
            }
        }
    }
    let s = match s.arg(p) {
        Ok(s) => s,
        Err(e) => {
            proof {
                assert(!admits(base + own_params().take(4), own_params()[4]));
            }
            return Err(e);
        },
    };
    proof {
        assert(s.models() =~= base + own_params().take(5));
    }
    let ghost prev5 = s.models();
    let p = ParameterSpec::named(
            "paramF",
            Some('f'),
            None,
            ParameterKind::OptionArg,
            false,
            ValueType::I32,
            None,
            "Integer param which may encounter multiple times",
            true,
        );
    let ghost pv5 = p@;
    proof {
        assert(pv5 == own_params()[5]);
        assert(fresh ==> admits(prev5, pv5)) by {
            if fresh {
                lemma_admits_6();
                assert(prev5 =~= schema_params().take(6));
            }
        }
    }
    let s = match s.arg(p) {
        Ok(s) => s,
        Err(e) => {
            proof {
                assert(!admits(base + own_params().take(5), own_params()[5]));
            }
            return Err(e);
        },
    };
    proof {
        assert(s.models() =~= base + own_params().take(6));
    }
    let ghost prev6 = s.models();
    let p = ParameterSpec::named(
            "param-I",
            Some('i'),
            None,
            ParameterKind::Flag { optionally_valued: false },
            false,
            ValueType::Bool,
            Some(Value::Bool(true)),
            "Boolean arg with default value",
            false,
        );
    let ghost pv6 = p@;
    proof {
        assert(pv6 == own_params()[6]);
        assert(fresh ==> admits(prev6, pv6)) by {
            if fresh {
                lemma_admits_7();
                assert(prev6 =~= schema_params().take(7));
            }
        }
    }
    let s = match s.arg(p) {
        Ok(s) => s,
        Err(e) => {
            proof {
                assert(!admits(base + own_params().take(6), own_params()[6]));
            }
            return Err(e);
        },
    };
    proof {
        assert(s.models() =~= base + own_params().take(7));
    }
    let ghost prev7 = s.models();
    let p = ParameterSpec::named(
            "param-J",
            None,
            Some("j-long"),
            ParameterKind::Flag { optionally_valued: false },
            false,
            ValueType::Bool,
            None,
            "Boolean arg without default value",
            false,
        );
    let ghost pv7 = p@;
    proof {
        assert(pv7 == own_params()[7]);
        assert(fresh ==> admits(prev7, pv7)) by {
            if fresh {
                lemma_admits_8();
                assert(prev7 =~= schema_params().take(8));
            }
        }
    }
    let s = match s.arg(p) {
        Ok(s) => s,
        Err(e) => {
            proof {
                assert(!admits(base + own_params().take(7), own_params()[7]));
            }
            return Err(e);
        },
    };
    proof {
        assert(s.models() =~= base + own_params().take(8));
    }
    let ghost prev8 = s.models();
    let p = ParameterSpec::named(
            "paramFloat",
            Some('k'),
            None,
            ParameterKind::OptionArg,
            false,
            ValueType::F32,
            None,
            "Float param",
            false,
        );
    let ghost pv8 = p@;
    proof {
        assert(pv8 == own_params()[8]);
        assert(fresh ==> admits(prev8, pv8)) by {
            if fresh {
                lemma_admits_9();
                assert(prev8 =~= schema_params().take(9));
            }
        }
    }
    let s = match s.arg(p) {
        Ok(s) => s,
        Err(e) => {
            proof {
                assert(!admits(base + own_params().take(8), own_params()[8]));
            }
            return Err(e);
        },
    };
    proof {
        assert(s.models() =~= base + own_params().take(9));
    }
    let ghost prev9 = s.models();
    let p = ParameterSpec::named(
            "paramDouble",
            Some('l'),
            None,
            ParameterKind::OptionArg,
            false,
            ValueType::F64,
            None,
            "Double param",
            false,
        );
    let ghost pv9 = p@;
    proof {
        assert(pv9 == own_params()[9]);
        assert(fresh ==> admits(prev9, pv9)) by {
            if fresh {
                lemma_admits_10();
                assert(prev9 =~= schema_params().take(10));
            }
        }
    }
    let s = match s.arg(p) {
        Ok(s) => s,
        Err(e) => {
            proof {
                assert(!admits(base + own_params().take(9), own_params()[9]));
            }
            return Err(e);
        },
    };
    proof {
        assert(s.models() =~= base + own_params().take(10));
    }
    let ghost prev10 = s.models();
    let p = ParameterSpec::positional("PARAMG", 1, true, ValueType::U64, "Positional integer param", false);
    let ghost pv10 = p@;
    proof {
        assert(pv10 == own_params()[10]);
        assert(fresh ==> admits(prev10, pv10)) by {
            if fresh {
                lemma_admits_11();
                assert(prev10 =~= schema_params().take(11));
            }
        }
    }
    let s = match s.arg(p) {
        Ok(s) => s,
        Err(e) => {
            proof {
                assert(!admits(base + own_params().take(10), own_params()[10]));
            }
            return Err(e);
        },
    };
    proof {
        assert(s.models() =~= base + own_params().take(11));
    }
    let ghost prev11 = s.models();
    let p = ParameterSpec::positional("P-A-R-A-M-G-2", 2, true, ValueType::Bool, "Positional boolean param", false);
    let ghost pv11 = p@;
    proof {
        assert(pv11 == own_params()[11]);
        assert(fresh ==> admits(prev11, pv11)) by {
            if fresh {
                lemma_admits_12();
                assert(prev11 =~= schema_params().take(12));
            }
        }
    }
    let s = match s.arg(p) {
        Ok(s) => s,
        Err(e) => {
            proof {
                assert(!admits(base + own_params().take(11), own_params()[11]));
            }
            return Err(e);
        },
    };
    proof {
        assert(s.models() =~= base + own_params().take(12));
    }
    let ghost prev12 = s.models();
    let p = ParameterSpec::positional("PARAM-FLOAT", 3, true, ValueType::F32, "Positional float param", false);
    let ghost pv12 = p@;
    proof {
        assert(pv12 == own_params()[12]);
        assert(fresh ==> admits(prev12, pv12)) by {
            if fresh {
                lemma_admits_13();
                assert(prev12 =~= schema_params().take(13));
            }
        }
    }
    let s = match s.arg(p) {
        Ok(s) => s,
        Err(e) => {
            proof {
                assert(!admits(base + own_params().take(12), own_params()[12]));
            }
            return Err(e);
        },
    };
    proof {
        assert(s.models() =~= base + own_params().take(13));
    }
    let ghost prev13 = s.models();
    let p = ParameterSpec::positional("PARAM-DOUBLE", 4, true, ValueType::F64, "Positional double param", false);
    let ghost pv13 = p@;
    proof {
        assert(pv13 == own_params()[13]);
        assert(fresh ==> admits(prev13, pv13)) by {
            if fresh {
                lemma_admits_14();
                assert(prev13 =~= schema_params().take(14));
            }
        }
    }
    let s = match s.arg(p) {
        Ok(s) => s,
        Err(e) => {
            proof {
                assert(!admits(base + own_params().take(13), own_params()[13]));
            }
            return Err(e);
        },
    };
    proof {
        assert(s.models() =~= base + own_params().take(14));
    }
    let ghost prev14 = s.models();
    let p = ParameterSpec::positional("PARAMH", 5, true, ValueType::Str, "Positional repeating string params", true);
    let ghost pv14 = p@;
    proof {
        assert(pv14 == own_params()[14]);
        assert(fresh ==> admits(prev14, pv14)) by {
            if fresh {
                lemma_admits_15();
                assert(prev14 =~= schema_params().take(15));
            }
        }
    }
    let s = match s.arg(p) {
        Ok(s) => s,
        Err(e) => {
            proof {
                assert(!admits(base + own_params().take(14), own_params()[14]));
            }
            return Err(e);
        },
    };
    proof {
        assert(s.models() =~= base + own_params().take(15));
    }
    proof {
        assert(own_params().take(15) =~= own_params());
        assert forall|k: int| 0 <= k < 15 implies admits(base + own_params().take(k), #[trigger] own_params()[k]) by {
        if k == 0 {
            assert(admits(prev0, pv0));
        } else if k == 1 {
            assert(admits(prev1, pv1));
        } else if k == 2 {
            assert(admits(prev2, pv2));
        } else if k == 3 {
            assert(admits(prev3, pv3));
        } else if k == 4 {
            assert(admits(prev4, pv4));
        } else if k == 5 {
            assert(admits(prev5, pv5));
        } else if k == 6 {
            assert(admits(prev6, pv6));
        } else if k == 7 {
            assert(admits(prev7, pv7));
        } else if k == 8 {
            assert(admits(prev8, pv8));
        } else if k == 9 {
            assert(admits(prev9, pv9));
        } else if k == 10 {
            assert(admits(prev10, pv10));
        } else if k == 11 {
            assert(admits(prev11, pv11));
        } else if k == 12 {
            assert(admits(prev12, pv12));
        } else if k == 13 {
            assert(admits(prev13, pv13));
        } else if k == 14 {
            assert(admits(prev14, pv14));
        }
        }
    }
    Ok(s)
}


proof fn lemma_admits_1()
    ensures
        forall|i: int|
            0 <= i < 1 ==> !clash(#[trigger] schema_params().take(1)[i], schema_params()[1]) && (
            schema_params()[i].kind is Positional ==> !schema_params()[i].multiple && (
            schema_params()[1].required ==> schema_params()[i].required)),
        schema_params()[1].long is Some ==> schema_params()[1].long->Some_0.len() > 0
            && schema_params()[1].long->Some_0[0] != '-',
{
    reveal_strlit("a-long-param");
    reveal_strlit("help");
    reveal_strlit("paramA");
    let ps = schema_params().take(1);
    let pm = schema_params()[1];
    assert forall|i: int| 0 <= i < ps.len() implies !clash(#[trigger] ps[i], pm) && (ps[i].kind is Positional
        ==> !ps[i].multiple && (pm.required ==> ps[i].required)) by {
        if i == 0 {
                assert(ps[0] == schema_params()[0]);
                assert(ps[0].id.len() == 4 && pm.id.len() == 6);
                assert(ps[0].long->Some_0.len() == 4 && pm.long->Some_0.len() == 12);
                assert(!clash(ps[0], pm));
            }
    }
}

proof fn lemma_admits_2()
    ensures
        forall|i: int|
            0 <= i < 2 ==> !clash(#[trigger] schema_params().take(2)[i], schema_params()[2]) && (
            schema_params()[i].kind is Positional ==> !schema_params()[i].multiple && (
            schema_params()[2].required ==> schema_params()[i].required)),
        schema_params()[2].long is Some ==> schema_params()[2].long->Some_0.len() > 0
            && schema_params()[2].long->Some_0[0] != '-',
{
    reveal_strlit("a-long-param");
    reveal_strlit("b-long-param");
    reveal_strlit("help");
    reveal_strlit("paramA");
    reveal_strlit("paramB");
    let ps = schema_params().take(2);
    let pm = schema_params()[2];
    assert forall|i: int| 0 <= i < ps.len() implies !clash(#[trigger] ps[i], pm) && (ps[i].kind is Positional
        ==> !ps[i].multiple && (pm.required ==> ps[i].required)) by {
        if i == 0 {
                assert(ps[0] == schema_params()[0]);
                assert(ps[0].id.len() == 4 && pm.id.len() == 6);
                assert(ps[0].long->Some_0.len() == 4 && pm.long->Some_0.len() == 12);
                assert(!clash(ps[0], pm));
            } else if i == 1 {
                assert(ps[1] == schema_params()[1]);
                assert(ps[i].id[5] != pm.id[5]);
                assert(ps[i].long->Some_0[0] != pm.long->Some_0[0]);
                assert(!clash(ps[1], pm));
            }
    }
}

proof fn lemma_admits_3()
    ensures
        forall|i: int|
            0 <= i < 3 ==> !clash(#[trigger] schema_params().take(3)[i], schema_params()[3]) && (
            schema_params()[i].kind is Positional ==> !schema_params()[i].multiple && (
            schema_params()[3].required ==> schema_params()[i].required)),
        schema_params()[3].long is Some ==> schema_params()[3].long->Some_0.len() > 0
            && schema_params()[3].long->Some_0[0] != '-',
{
    reveal_strlit("a-long-param");
    reveal_strlit("b-long-param");
    reveal_strlit("c-long-param");
    reveal_strlit("help");
    reveal_strlit("paramA");
    reveal_strlit("paramB");
    reveal_strlit("paramC");
    let ps = schema_params().take(3);
    let pm = schema_params()[3];
    assert forall|i: int| 0 <= i < ps.len() implies !clash(#[trigger] ps[i], pm) && (ps[i].kind is Positional
        ==> !ps[i].multiple && (pm.required ==> ps[i].required)) by {
        if i == 0 {
                assert(ps[0] == schema_params()[0]);
                assert(ps[0].id.len() == 4 && pm.id.len() == 6);
                assert(ps[0].long->Some_0.len() == 4 && pm.long->Some_0.len() == 12);
                assert(!clash(ps[0], pm));
            } else if i == 1 {
                assert(ps[1] == schema_params()[1]);
                assert(ps[i].id[5] != pm.id[5]);
                assert(ps[i].long->Some_0[0] != pm.long->Some_0[0]);
                assert(!clash(ps[1], pm));
            } else if i == 2 {
                assert(ps[2] == schema_params()[2]);
                assert(ps[i].id[5] != pm.id[5]);
                assert(ps[i].long->Some_0[0] != pm.long->Some_0[0]);
                assert(!clash(ps[2], pm));
            }
    }
}

proof fn lemma_admits_4()
    ensures
        forall|i: int|
            0 <= i < 4 ==> !clash(#[trigger] schema_params().take(4)[i], schema_params()[4]) && (
            schema_params()[i].kind is Positional ==> !schema_params()[i].multiple && (
            schema_params()[4].required ==> schema_params()[i].required)),
        schema_params()[4].long is Some ==> schema_params()[4].long->Some_0.len() > 0
            && schema_params()[4].long->Some_0[0] != '-',
{
    reveal_strlit("a-long-param");
    reveal_strlit("b-long-param");
    reveal_strlit("c-long-param");
    reveal_strlit("d-long-param");
    reveal_strlit("help");
    reveal_strlit("paramA");
    reveal_strlit("paramB");
    reveal_strlit("paramC");
    reveal_strlit("paramD");
    let ps = schema_params().take(4);
    let pm = schema_params()[4];
    assert forall|i: int| 0 <= i < ps.len() implies !clash(#[trigger] ps[i], pm) && (ps[i].kind is Positional
        ==> !ps[i].multiple && (pm.required ==> ps[i].required)) by {
        if i == 0 {
                assert(ps[0] == schema_params()[0]);
                assert(ps[0].id.len() == 4 && pm.id.len() == 6);
                assert(ps[0].long->Some_0.len() == 4 && pm.long->Some_0.len() == 12);
                assert(!clash(ps[0], pm));
            } else if i == 1 {
                assert(ps[1] == schema_params()[1]);
                assert(ps[i].id[5] != pm.id[5]);
                assert(ps[i].long->Some_0[0] != pm.long->Some_0[0]);
                assert(!clash(ps[1], pm));
            } else if i == 2 {
                assert(ps[2] == schema_params()[2]);
                assert(ps[i].id[5] != pm.id[5]);
                assert(ps[i].long->Some_0[0] != pm.long->Some_0[0]);
                assert(!clash(ps[2], pm));
            } else if i == 3 {
                assert(ps[3] == schema_params()[3]);
                assert(ps[i].id[5] != pm.id[5]);
                assert(ps[i].long->Some_0[0] != pm.long->Some_0[0]);
                assert(!clash(ps[3], pm));
            }
    }
}

proof fn lemma_admits_5()
    ensures
        forall|i: int|
            0 <= i < 5 ==> !clash(#[trigger] schema_params().take(5)[i], schema_params()[5]) && (
            schema_params()[i].kind is Positional ==> !schema_params()[i].multiple && (
            schema_params()[5].required ==> schema_params()[i].required)),
        schema_params()[5].long is Some ==> schema_params()[5].long->Some_0.len() > 0
            && schema_params()[5].long->Some_0[0] != '-',
{
    reveal_strlit("a-long-param");
    reveal_strlit("b-long-param");
    reveal_strlit("c-long-param");
    reveal_strlit("d-long-param");
    reveal_strlit("help");
    reveal_strlit("paramA");
    reveal_strlit("paramB");
    reveal_strlit("paramC");
    reveal_strlit("paramD");
    reveal_strlit("paramE");
    let ps = schema_params().take(5);
    let pm = schema_params()[5];
    assert forall|i: int| 0 <= i < ps.len() implies !clash(#[trigger] ps[i], pm) && (ps[i].kind is Positional
        ==> !ps[i].multiple && (pm.required ==> ps[i].required)) by {
        if i == 0 {
                assert(ps[0] == schema_params()[0]);
                assert(ps[0].id.len() == 4 && pm.id.len() == 6);
                assert(!clash(ps[0], pm));
            } else if i == 1 {
                assert(ps[1] == schema_params()[1]);
                assert(ps[i].id[5] != pm.id[5]);
                assert(!clash(ps[1], pm));
            } else if i == 2 {
                assert(ps[2] == schema_params()[2]);
                assert(ps[i].id[5] != pm.id[5]);
                assert(!clash(ps[2], pm));
            } else if i == 3 {
                assert(ps[3] == schema_params()[3]);
                assert(ps[i].id[5] != pm.id[5]);
                assert(!clash(ps[3], pm));
            } else if i == 4 {
                assert(ps[4] == schema_params()[4]);
                assert(ps[i].id[5] != pm.id[5]);
                assert(!clash(ps[4], pm));
            }
    }
}

proof fn lemma_admits_6()
    ensures
        forall|i: int|
            0 <= i < 6 ==> !clash(#[trigger] schema_params().take(6)[i], schema_params()[6]) && (
            schema_params()[i].kind is Positional ==> !schema_params()[i].multiple && (
            schema_params()[6].required ==> schema_params()[i].required)),
        schema_params()[6].long is Some ==> schema_params()[6].long->Some_0.len() > 0
            && schema_params()[6].long->Some_0[0] != '-',
{
    reveal_strlit("a-long-param");
    reveal_strlit("b-long-param");
    reveal_strlit("c-long-param");
    reveal_strlit("d-long-param");
    reveal_strlit("help");
    reveal_strlit("paramA");
    reveal_strlit("paramB");
    reveal_strlit("paramC");
    reveal_strlit("paramD");
    reveal_strlit("paramE");
    reveal_strlit("paramF");
    let ps = schema_params().take(6);
    let pm = schema_params()[6];
    assert forall|i: int| 0 <= i < ps.len() implies !clash(#[trigger] ps[i], pm) && (ps[i].kind is Positional
        ==> !ps[i].multiple && (pm.required ==> ps[i].required)) by {
        if i == 0 {
                assert(ps[0] == schema_params()[0]);
                assert(ps[0].id.len() == 4 && pm.id.len() == 6);
                assert(!clash(ps[0], pm));
            } else if i == 1 {
                assert(ps[1] == schema_params()[1]);
                assert(ps[i].id[5] != pm.id[5]);
                assert(!clash(ps[1], pm));
            } else if i == 2 {
                assert(ps[2] == schema_params()[2]);
                assert(ps[i].id[5] != pm.id[5]);
                assert(!clash(ps[2], pm));
            } else if i == 3 {
                assert(ps[3] == schema_params()[3]);
                assert(ps[i].id[5] != pm.id[5]);
                assert(!clash(ps[3], pm));
            } else if i == 4 {
                assert(ps[4] == schema_params()[4]);
                assert(ps[i].id[5] != pm.id[5]);
                assert(!clash(ps[4], pm));
            } else if i == 5 {
                assert(ps[5] == schema_params()[5]);
                assert(ps[i].id[5] != pm.id[5]);
                assert(!clash(ps[5], pm));
            }
    }
}

proof fn lemma_admits_7()
    ensures
        forall|i: int|
            0 <= i < 7 ==> !clash(#[trigger] schema_params().take(7)[i], schema_params()[7]) && (
            schema_params()[i].kind is Positional ==> !schema_params()[i].multiple && (
            schema_params()[7].required ==> schema_params()[i].required)),
        schema_params()[7].long is Some ==> schema_params()[7].long->Some_0.len() > 0
            && schema_params()[7].long->Some_0[0] != '-',
{
    reveal_strlit("a-long-param");
    reveal_strlit("b-long-param");
    reveal_strlit("c-long-param");
    reveal_strlit("d-long-param");
    reveal_strlit("help");
    reveal_strlit("param-I");
    reveal_strlit("paramA");
    reveal_strlit("paramB");
    reveal_strlit("paramC");
    reveal_strlit("paramD");
    reveal_strlit("paramE");
    reveal_strlit("paramF");
    let ps = schema_params().take(7);
    let pm = schema_params()[7];
    assert forall|i: int| 0 <= i < ps.len() implies !clash(#[trigger] ps[i], pm) && (ps[i].kind is Positional
        ==> !ps[i].multiple && (pm.required ==> ps[i].required)) by {
        if i == 0 {
                assert(ps[0] == schema_params()[0]);
                assert(ps[0].id.len() == 4 && pm.id.len() == 7);
                assert(!clash(ps[0], pm));
            } else if i == 1 {
                assert(ps[1] == schema_params()[1]);
                assert(ps[1].id.len() == 6 && pm.id.len() == 7);
                assert(!clash(ps[1], pm));
            } else if i == 2 {
                assert(ps[2] == schema_params()[2]);
                assert(ps[2].id.len() == 6 && pm.id.len() == 7);
                assert(!clash(ps[2], pm));
            } else if i == 3 {
                assert(ps[3] == schema_params()[3]);
                assert(ps[3].id.len() == 6 && pm.id.len() == 7);
                assert(!clash(ps[3], pm));
            } else if i == 4 {
                assert(ps[4] == schema_params()[4]);
                assert(ps[4].id.len() == 6 && pm.id.len() == 7);
                assert(!clash(ps[4], pm));
            } else if i == 5 {
                assert(ps[5] == schema_params()[5]);
                assert(ps[5].id.len() == 6 && pm.id.len() == 7);
                assert(!clash(ps[5], pm));
            } else if i == 6 {
                assert(ps[6] == schema_params()[6]);
                assert(ps[6].id.len() == 6 && pm.id.len() == 7);
                assert(!clash(ps[6], pm));
            }
    }
}

proof fn lemma_admits_8()
    ensures
        forall|i: int|
            0 <= i < 8 ==> !clash(#[trigger] schema_params().take(8)[i], schema_params()[8]) && (
            schema_params()[i].kind is Positional ==> !schema_params()[i].multiple && (
            schema_params()[8].required ==> schema_params()[i].required)),
        schema_params()[8].long is Some ==> schema_params()[8].long->Some_0.len() > 0
            && schema_params()[8].long->Some_0[0] != '-',
{
    reveal_strlit("a-long-param");
    reveal_strlit("b-long-param");
    reveal_strlit("c-long-param");
    reveal_strlit("d-long-param");
    reveal_strlit("help");
    reveal_strlit("j-long");
    reveal_strlit("param-I");
    reveal_strlit("param-J");
    reveal_strlit("paramA");
    reveal_strlit("paramB");
    reveal_strlit("paramC");
    reveal_strlit("paramD");
    reveal_strlit("paramE");
    reveal_strlit("paramF");
    let ps = schema_params().take(8);
    let pm = schema_params()[8];
    assert forall|i: int| 0 <= i < ps.len() implies !clash(#[trigger] ps[i], pm) && (ps[i].kind is Positional
        ==> !ps[i].multiple && (pm.required ==> ps[i].required)) by {
        if i == 0 {
                assert(ps[0] == schema_params()[0]);
                assert(ps[0].id.len() == 4 && pm.id.len() == 7);
                assert(ps[0].long->Some_0.len() == 4 && pm.long->Some_0.len() == 6);
                assert(!clash(ps[0], pm));
            } else if i == 1 {
                assert(ps[1] == schema_params()[1]);
                assert(ps[1].id.len() == 6 && pm.id.len() == 7);
                assert(ps[1].long->Some_0.len() == 12 && pm.long->Some_0.len() == 6);
                assert(!clash(ps[1], pm));
            } else if i == 2 {
                assert(ps[2] == schema_params()[2]);
                assert(ps[2].id.len() == 6 && pm.id.len() == 7);
                assert(ps[2].long->Some_0.len() == 12 && pm.long->Some_0.len() == 6);
                assert(!clash(ps[2], pm));
            } else if i == 3 {
                assert(ps[3] == schema_params()[3]);
                assert(ps[3].id.len() == 6 && pm.id.len() == 7);
                assert(ps[3].long->Some_0.len() == 12 && pm.long->Some_0.len() == 6);
                assert(!clash(ps[3], pm));
            } else if i == 4 {
                assert(ps[4] == schema_params()[4]);
                assert(ps[4].id.len() == 6 && pm.id.len() == 7);
                assert(ps[4].long->Some_0.len() == 12 && pm.long->Some_0.len() == 6);
                assert(!clash(ps[4], pm));
            } else if i == 5 {
                assert(ps[5] == schema_params()[5]);
                assert(ps[5].id.len() == 6 && pm.id.len() == 7);
                assert(!clash(ps[5], pm));
            } else if i == 6 {
                assert(ps[6] == schema_params()[6]);
                assert(ps[6].id.len() == 6 && pm.id.len() == 7);
                assert(!clash(ps[6], pm));
            } else if i == 7 {
                assert(ps[7] == schema_params()[7]);
                assert(ps[i].id[6] != pm.id[6]);
                assert(!clash(ps[7], pm));
            }
    }
}

proof fn lemma_admits_9()
    ensures
        forall|i: int|
            0 <= i < 9 ==> !clash(#[trigger] schema_params().take(9)[i], schema_params()[9]) && (
            schema_params()[i].kind is Positional ==> !schema_params()[i].multiple && (
            schema_params()[9].required ==> schema_params()[i].required)),
        schema_params()[9].long is Some ==> schema_params()[9].long->Some_0.len() > 0
            && schema_params()[9].long->Some_0[0] != '-',
{
    reveal_strlit("a-long-param");
    reveal_strlit("b-long-param");
    reveal_strlit("c-long-param");
    reveal_strlit("d-long-param");
    reveal_strlit("help");
    reveal_strlit("j-long");
    reveal_strlit("param-I");
    reveal_strlit("param-J");
    reveal_strlit("paramA");
    reveal_strlit("paramB");
    reveal_strlit("paramC");
    reveal_strlit("paramD");
    reveal_strlit("paramE");
    reveal_strlit("paramF");
    reveal_strlit("paramFloat");
    let ps = schema_params().take(9);
    let pm = schema_params()[9];
    assert forall|i: int| 0 <= i < ps.len() implies !clash(#[trigger] ps[i], pm) && (ps[i].kind is Positional
        ==> !ps[i].multiple && (pm.required ==> ps[i].required)) by {
        if i == 0 {
                assert(ps[0] == schema_params()[0]);
                assert(ps[0].id.len() == 4 && pm.id.len() == 10);
                assert(!clash(ps[0], pm));
            } else if i == 1 {
                assert(ps[1] == schema_params()[1]);
                assert(ps[1].id.len() == 6 && pm.id.len() == 10);
                assert(!clash(ps[1], pm));
            } else if i == 2 {
                assert(ps[2] == schema_params()[2]);
                assert(ps[2].id.len() == 6 && pm.id.len() == 10);
                assert(!clash(ps[2], pm));
            } else if i == 3 {
                assert(ps[3] == schema_params()[3]);
                assert(ps[3].id.len() == 6 && pm.id.len() == 10);
                assert(!clash(ps[3], pm));
            } else if i == 4 {
                assert(ps[4] == schema_params()[4]);
                assert(ps[4].id.len() == 6 && pm.id.len() == 10);
                assert(!clash(ps[4], pm));
            } else if i == 5 {
                assert(ps[5] == schema_params()[5]);
                assert(ps[5].id.len() == 6 && pm.id.len() == 10);
                assert(!clash(ps[5], pm));
            } else if i == 6 {
                assert(ps[6] == schema_params()[6]);
                assert(ps[6].id.len() == 6 && pm.id.len() == 10);
                assert(!clash(ps[6], pm));
            } else if i == 7 {
                assert(ps[7] == schema_params()[7]);
                assert(ps[7].id.len() == 7 && pm.id.len() == 10);
                assert(!clash(ps[7], pm));
            } else if i == 8 {
                assert(ps[8] == schema_params()[8]);
                assert(ps[8].id.len() == 7 && pm.id.len() == 10);
                assert(!clash(ps[8], pm));
            }
    }
}

proof fn lemma_admits_10()
    ensures
        forall|i: int|
            0 <= i < 10 ==> !clash(#[trigger] schema_params().take(10)[i], schema_params()[10]) && (
            schema_params()[i].kind is Positional ==> !schema_params()[i].multiple && (
            schema_params()[10].required ==> schema_params()[i].required)),
        schema_params()[10].long is Some ==> schema_params()[10].long->Some_0.len() > 0
            && schema_params()[10].long->Some_0[0] != '-',
{
    reveal_strlit("a-long-param");
    reveal_strlit("b-long-param");
    reveal_strlit("c-long-param");
    reveal_strlit("d-long-param");
    reveal_strlit("help");
    reveal_strlit("j-long");
    reveal_strlit("param-I");
    reveal_strlit("param-J");
    reveal_strlit("paramA");
    reveal_strlit("paramB");
    reveal_strlit("paramC");
    reveal_strlit("paramD");
    reveal_strlit("paramDouble");
    reveal_strlit("paramE");
    reveal_strlit("paramF");
    reveal_strlit("paramFloat");
    let ps = schema_params().take(10);
    let pm = schema_params()[10];
    assert forall|i: int| 0 <= i < ps.len() implies !clash(#[trigger] ps[i], pm) && (ps[i].kind is Positional
        ==> !ps[i].multiple && (pm.required ==> ps[i].required)) by {
        if i == 0 {
                assert(ps[0] == schema_params()[0]);
                assert(ps[0].id.len() == 4 && pm.id.len() == 11);
                assert(!clash(ps[0], pm));
            } else if i == 1 {
                assert(ps[1] == schema_params()[1]);
                assert(ps[1].id.len() == 6 && pm.id.len() == 11);
                assert(!clash(ps[1], pm));
            } else if i == 2 {
                assert(ps[2] == schema_params()[2]);
                assert(ps[2].id.len() == 6 && pm.id.len() == 11);
                assert(!clash(ps[2], pm));
            } else if i == 3 {
                assert(ps[3] == schema_params()[3]);
                assert(ps[3].id.len() == 6 && pm.id.len() == 11);
                assert(!clash(ps[3], pm));
            } else if i == 4 {
                assert(ps[4] == schema_params()[4]);
                assert(ps[4].id.len() == 6 && pm.id.len() == 11);
                assert(!clash(ps[4], pm));
            } else if i == 5 {
                assert(ps[5] == schema_params()[5]);
                assert(ps[5].id.len() == 6 && pm.id.len() == 11);
                assert(!clash(ps[5], pm));
            } else if i == 6 {
                assert(ps[6] == schema_params()[6]);
                assert(ps[6].id.len() == 6 && pm.id.len() == 11);
                assert(!clash(ps[6], pm));
            } else if i == 7 {
                assert(ps[7] == schema_params()[7]);
                assert(ps[7].id.len() == 7 && pm.id.len() == 11);
                assert(!clash(ps[7], pm));
            } else if i == 8 {
                assert(ps[8] == schema_params()[8]);
                assert(ps[8].id.len() == 7 && pm.id.len() == 11);
                assert(!clash(ps[8], pm));
            } else if i == 9 {
                assert(ps[9] == schema_params()[9]);
                assert(ps[9].id.len() == 10 && pm.id.len() == 11);
                assert(!clash(ps[9], pm));
            }
    }
}

proof fn lemma_admits_11()
    ensures
        forall|i: int|
            0 <= i < 11 ==> !clash(#[trigger] schema_params().take(11)[i], schema_params()[11]) && (
            schema_params()[i].kind is Positional ==> !schema_params()[i].multiple && (
            schema_params()[11].required ==> schema_params()[i].required)),
        schema_params()[11].long is Some ==> schema_params()[11].long->Some_0.len() > 0
            && schema_params()[11].long->Some_0[0] != '-',
{
    reveal_strlit("PARAMG");
    reveal_strlit("a-long-param");
    reveal_strlit("b-long-param");
    reveal_strlit("c-long-param");
    reveal_strlit("d-long-param");
    reveal_strlit("help");
    reveal_strlit("j-long");
    reveal_strlit("param-I");
    reveal_strlit("param-J");
    reveal_strlit("paramA");
    reveal_strlit("paramB");
    reveal_strlit("paramC");
    reveal_strlit("paramD");
    reveal_strlit("paramDouble");
    reveal_strlit("paramE");
    reveal_strlit("paramF");
    reveal_strlit("paramFloat");
    let ps = schema_params().take(11);
    let pm = schema_params()[11];
    assert forall|i: int| 0 <= i < ps.len() implies !clash(#[trigger] ps[i], pm) && (ps[i].kind is Positional
        ==> !ps[i].multiple && (pm.required ==> ps[i].required)) by {
        if i == 0 {
                assert(ps[0] == schema_params()[0]);
                assert(ps[0].id.len() == 4 && pm.id.len() == 6);
                assert(!clash(ps[0], pm));
            } else if i == 1 {
                assert(ps[1] == schema_params()[1]);
                assert(ps[i].id[0] != pm.id[0]);
                assert(!clash(ps[1], pm));
            } else if i == 2 {
                assert(ps[2] == schema_params()[2]);
                assert(ps[i].id[0] != pm.id[0]);
                assert(!clash(ps[2], pm));
            } else if i == 3 {
                assert(ps[3] == schema_params()[3]);
                assert(ps[i].id[0] != pm.id[0]);
                assert(!clash(ps[3], pm));
            } else if i == 4 {
                assert(ps[4] == schema_params()[4]);
                assert(ps[i].id[0] != pm.id[0]);
                assert(!clash(ps[4], pm));
            } else if i == 5 {
                assert(ps[5] == schema_params()[5]);
                assert(ps[i].id[0] != pm.id[0]);
                assert(!clash(ps[5], pm));
            } else if i == 6 {
                assert(ps[6] == schema_params()[6]);
                assert(ps[i].id[0] != pm.id[0]);
                assert(!clash(ps[6], pm));
            } else if i == 7 {
                assert(ps[7] == schema_params()[7]);
                assert(ps[7].id.len() == 7 && pm.id.len() == 6);
                assert(!clash(ps[7], pm));
            } else if i == 8 {
                assert(ps[8] == schema_params()[8]);
                assert(ps[8].id.len() == 7 && pm.id.len() == 6);
                assert(!clash(ps[8], pm));
            } else if i == 9 {
                assert(ps[9] == schema_params()[9]);
                assert(ps[9].id.len() == 10 && pm.id.len() == 6);
                assert(!clash(ps[9], pm));
            } else if i == 10 {
                assert(ps[10] == schema_params()[10]);
                assert(ps[10].id.len() == 11 && pm.id.len() == 6);
                assert(!clash(ps[10], pm));
            }
    }
}

proof fn lemma_admits_12()
    ensures
        forall|i: int|
            0 <= i < 12 ==> !clash(#[trigger] schema_params().take(12)[i], schema_params()[12]) && (
            schema_params()[i].kind is Positional ==> !schema_params()[i].multiple && (
            schema_params()[12].required ==> schema_params()[i].required)),
        schema_params()[12].long is Some ==> schema_params()[12].long->Some_0.len() > 0
            && schema_params()[12].long->Some_0[0] != '-',
{
    reveal_strlit("P-A-R-A-M-G-2");
    reveal_strlit("PARAMG");
    reveal_strlit("a-long-param");
    reveal_strlit("b-long-param");
    reveal_strlit("c-long-param");
    reveal_strlit("d-long-param");
    reveal_strlit("help");
    reveal_strlit("j-long");
    reveal_strlit("param-I");
    reveal_strlit("param-J");
    reveal_strlit("paramA");
    reveal_strlit("paramB");
    reveal_strlit("paramC");
    reveal_strlit("paramD");
    reveal_strlit("paramDouble");
    reveal_strlit("paramE");
    reveal_strlit("paramF");
    reveal_strlit("paramFloat");
    let ps = schema_params().take(12);
    let pm = schema_params()[12];
    assert forall|i: int| 0 <= i < ps.len() implies !clash(#[trigger] ps[i], pm) && (ps[i].kind is Positional
        ==> !ps[i].multiple && (pm.required ==> ps[i].required)) by {
        if i == 0 {
                assert(ps[0] == schema_params()[0]);
                assert(ps[0].id.len() == 4 && pm.id.len() == 13);
                assert(!clash(ps[0], pm));
            } else if i == 1 {
                assert(ps[1] == schema_params()[1]);
                assert(ps[1].id.len() == 6 && pm.id.len() == 13);
                assert(!clash(ps[1], pm));
            } else if i == 2 {
                assert(ps[2] == schema_params()[2]);
                assert(ps[2].id.len() == 6 && pm.id.len() == 13);
                assert(!clash(ps[2], pm));
            } else if i == 3 {
                assert(ps[3] == schema_params()[3]);
                assert(ps[3].id.len() == 6 && pm.id.len() == 13);
                assert(!clash(ps[3], pm));
            } else if i == 4 {
                assert(ps[4] == schema_params()[4]);
                assert(ps[4].id.len() == 6 && pm.id.len() == 13);
                assert(!clash(ps[4], pm));
            } else if i == 5 {
                assert(ps[5] == schema_params()[5]);
                assert(ps[5].id.len() == 6 && pm.id.len() == 13);
                assert(!clash(ps[5], pm));
            } else if i == 6 {
                assert(ps[6] == schema_params()[6]);
                assert(ps[6].id.len() == 6 && pm.id.len() == 13);
                assert(!clash(ps[6], pm));
            } else if i == 7 {
                assert(ps[7] == schema_params()[7]);
                assert(ps[7].id.len() == 7 && pm.id.len() == 13);
                assert(!clash(ps[7], pm));
            } else if i == 8 {
                assert(ps[8] == schema_params()[8]);
                assert(ps[8].id.len() == 7 && pm.id.len() == 13);
                assert(!clash(ps[8], pm));
            } else if i == 9 {
                assert(ps[9] == schema_params()[9]);
                assert(ps[9].id.len() == 10 && pm.id.len() == 13);
                assert(!clash(ps[9], pm));
            } else if i == 10 {
                assert(ps[10] == schema_params()[10]);
                assert(ps[10].id.len() == 11 && pm.id.len() == 13);
                assert(!clash(ps[10], pm));
            } else if i == 11 {
                assert(ps[11] == schema_params()[11]);
                assert(ps[11].id.len() == 6 && pm.id.len() == 13);
                assert(!clash(ps[11], pm));
            }
    }
}

proof fn lemma_admits_13()
    ensures
        forall|i: int|
            0 <= i < 13 ==> !clash(#[trigger] schema_params().take(13)[i], schema_params()[13]) && (
            schema_params()[i].kind is Positional ==> !schema_params()[i].multiple && (
            schema_params()[13].required ==> schema_params()[i].required)),
        schema_params()[13].long is Some ==> schema_params()[13].long->Some_0.len() > 0
            && schema_params()[13].long->Some_0[0] != '-',
{
    reveal_strlit("P-A-R-A-M-G-2");
    reveal_strlit("PARAM-FLOAT");
    reveal_strlit("PARAMG");
    reveal_strlit("a-long-param");
    reveal_strlit("b-long-param");
    reveal_strlit("c-long-param");
    reveal_strlit("d-long-param");
    reveal_strlit("help");
    reveal_strlit("j-long");
    reveal_strlit("param-I");
    reveal_strlit("param-J");
    reveal_strlit("paramA");
    reveal_strlit("paramB");
    reveal_strlit("paramC");
    reveal_strlit("paramD");
    reveal_strlit("paramDouble");
    reveal_strlit("paramE");
    reveal_strlit("paramF");
    reveal_strlit("paramFloat");
    let ps = schema_params().take(13);
    let pm = schema_params()[13];
    assert forall|i: int| 0 <= i < ps.len() implies !clash(#[trigger] ps[i], pm) && (ps[i].kind is Positional
        ==> !ps[i].multiple && (pm.required ==> ps[i].required)) by {
        if i == 0 {
                assert(ps[0] == schema_params()[0]);
                assert(ps[0].id.len() == 4 && pm.id.len() == 11);
                assert(!clash(ps[0], pm));
            } else if i == 1 {
                assert(ps[1] == schema_params()[1]);
                assert(ps[1].id.len() == 6 && pm.id.len() == 11);
                assert(!clash(ps[1], pm));
            } else if i == 2 {
                assert(ps[2] == schema_params()[2]);
                assert(ps[2].id.len() == 6 && pm.id.len() == 11);
                assert(!clash(ps[2], pm));
            } else if i == 3 {
                assert(ps[3] == schema_params()[3]);
                assert(ps[3].id.len() == 6 && pm.id.len() == 11);
                assert(!clash(ps[3], pm));
            } else if i == 4 {
                assert(ps[4] == schema_params()[4]);
                assert(ps[4].id.len() == 6 && pm.id.len() == 11);
                assert(!clash(ps[4], pm));
            } else if i == 5 {
                assert(ps[5] == schema_params()[5]);
                assert(ps[5].id.len() == 6 && pm.id.len() == 11);
                assert(!clash(ps[5], pm));
            } else if i == 6 {
                assert(ps[6] == schema_params()[6]);
                assert(ps[6].id.len() == 6 && pm.id.len() == 11);
                assert(!clash(ps[6], pm));
            } else if i == 7 {
                assert(ps[7] == schema_params()[7]);
                assert(ps[7].id.len() == 7 && pm.id.len() == 11);
                assert(!clash(ps[7], pm));
            } else if i == 8 {
                assert(ps[8] == schema_params()[8]);
                assert(ps[8].id.len() == 7 && pm.id.len() == 11);
                assert(!clash(ps[8], pm));
            } else if i == 9 {
                assert(ps[9] == schema_params()[9]);
                assert(ps[9].id.len() == 10 && pm.id.len() == 11);
                assert(!clash(ps[9], pm));
            } else if i == 10 {
                assert(ps[10] == schema_params()[10]);
                assert(ps[i].id[0] != pm.id[0]);
                assert(!clash(ps[10], pm));
            } else if i == 11 {
                assert(ps[11] == schema_params()[11]);
                assert(ps[11].id.len() == 6 && pm.id.len() == 11);
                assert(!clash(ps[11], pm));
            } else if i == 12 {
                assert(ps[12] == schema_params()[12]);
                assert(ps[12].id.len() == 13 && pm.id.len() == 11);
                assert(!clash(ps[12], pm));
            }
    }
}

proof fn lemma_admits_14()
    ensures
        forall|i: int|
            0 <= i < 14 ==> !clash(#[trigger] schema_params().take(14)[i], schema_params()[14]) && (
            schema_params()[i].kind is Positional ==> !schema_params()[i].multiple && (
            schema_params()[14].required ==> schema_params()[i].required)),
        schema_params()[14].long is Some ==> schema_params()[14].long->Some_0.len() > 0
            && schema_params()[14].long->Some_0[0] != '-',
{
    reveal_strlit("P-A-R-A-M-G-2");
    reveal_strlit("PARAM-DOUBLE");
    reveal_strlit("PARAM-FLOAT");
    reveal_strlit("PARAMG");
    reveal_strlit("a-long-param");
    reveal_strlit("b-long-param");
    reveal_strlit("c-long-param");
    reveal_strlit("d-long-param");
    reveal_strlit("help");
    reveal_strlit("j-long");
    reveal_strlit("param-I");
    reveal_strlit("param-J");
    reveal_strlit("paramA");
    reveal_strlit("paramB");
    reveal_strlit("paramC");
    reveal_strlit("paramD");
    reveal_strlit("paramDouble");
    reveal_strlit("paramE");
    reveal_strlit("paramF");
    reveal_strlit("paramFloat");
    let ps = schema_params().take(14);
    let pm = schema_params()[14];
    assert forall|i: int| 0 <= i < ps.len() implies !clash(#[trigger] ps[i], pm) && (ps[i].kind is Positional
        ==> !ps[i].multiple && (pm.required ==> ps[i].required)) by {
        if i == 0 {
                assert(ps[0] == schema_params()[0]);
                assert(ps[0].id.len() == 4 && pm.id.len() == 12);
                assert(!clash(ps[0], pm));
            } else if i == 1 {
                assert(ps[1] == schema_params()[1]);
                assert(ps[1].id.len() == 6 && pm.id.len() == 12);
                assert(!clash(ps[1], pm));
            } else if i == 2 {
                assert(ps[2] == schema_params()[2]);
                assert(ps[2].id.len() == 6 && pm.id.len() == 12);
                assert(!clash(ps[2], pm));
            } else if i == 3 {
                assert(ps[3] == schema_params()[3]);
                assert(ps[3].id.len() == 6 && pm.id.len() == 12);
                assert(!clash(ps[3], pm));
            } else if i == 4 {
                assert(ps[4] == schema_params()[4]);
                assert(ps[4].id.len() == 6 && pm.id.len() == 12);
                assert(!clash(ps[4], pm));
            } else if i == 5 {
                assert(ps[5] == schema_params()[5]);
                assert(ps[5].id.len() == 6 && pm.id.len() == 12);
                assert(!clash(ps[5], pm));
            } else if i == 6 {
                assert(ps[6] == schema_params()[6]);
                assert(ps[6].id.len() == 6 && pm.id.len() == 12);
                assert(!clash(ps[6], pm));
            } else if i == 7 {
                assert(ps[7] == schema_params()[7]);
                assert(ps[7].id.len() == 7 && pm.id.len() == 12);
                assert(!clash(ps[7], pm));
            } else if i == 8 {
                assert(ps[8] == schema_params()[8]);
                assert(ps[8].id.len() == 7 && pm.id.len() == 12);
                assert(!clash(ps[8], pm));
            } else if i == 9 {
                assert(ps[9] == schema_params()[9]);
                assert(ps[9].id.len() == 10 && pm.id.len() == 12);
                assert(!clash(ps[9], pm));
            } else if i == 10 {
                assert(ps[10] == schema_params()[10]);
                assert(ps[10].id.len() == 11 && pm.id.len() == 12);
                assert(!clash(ps[10], pm));
            } else if i == 11 {
                assert(ps[11] == schema_params()[11]);
                assert(ps[11].id.len() == 6 && pm.id.len() == 12);
                assert(!clash(ps[11], pm));
            } else if i == 12 {
                assert(ps[12] == schema_params()[12]);
                assert(ps[12].id.len() == 13 && pm.id.len() == 12);
                assert(!clash(ps[12], pm));
            } else if i == 13 {
                assert(ps[13] == schema_params()[13]);
                assert(ps[13].id.len() == 11 && pm.id.len() == 12);
                assert(!clash(ps[13], pm));
            }
    }
}

proof fn lemma_admits_15()
    ensures
        forall|i: int|
            0 <= i < 15 ==> !clash(#[trigger] schema_params().take(15)[i], schema_params()[15]) && (
            schema_params()[i].kind is Positional ==> !schema_params()[i].multiple && (
            schema_params()[15].required ==> schema_params()[i].required)),
        schema_params()[15].long is Some ==> schema_params()[15].long->Some_0.len() > 0
            && schema_params()[15].long->Some_0[0] != '-',
{
    reveal_strlit("P-A-R-A-M-G-2");
    reveal_strlit("PARAM-DOUBLE");
    reveal_strlit("PARAM-FLOAT");
    reveal_strlit("PARAMG");
    reveal_strlit("PARAMH");
    reveal_strlit("a-long-param");
    reveal_strlit("b-long-param");
    reveal_strlit("c-long-param");
    reveal_strlit("d-long-param");
    reveal_strlit("help");
    reveal_strlit("j-long");
    reveal_strlit("param-I");
    reveal_strlit("param-J");
    reveal_strlit("paramA");
    reveal_strlit("paramB");
    reveal_strlit("paramC");
    reveal_strlit("paramD");
    reveal_strlit("paramDouble");
    reveal_strlit("paramE");
    reveal_strlit("paramF");
    reveal_strlit("paramFloat");
    let ps = schema_params().take(15);
    let pm = schema_params()[15];
    assert forall|i: int| 0 <= i < ps.len() implies !clash(#[trigger] ps[i], pm) && (ps[i].kind is Positional
        ==> !ps[i].multiple && (pm.required ==> ps[i].required)) by {
        if i == 0 {
                assert(ps[0] == schema_params()[0]);
                assert(ps[0].id.len() == 4 && pm.id.len() == 6);
                assert(!clash(ps[0], pm));
            } else if i == 1 {
                assert(ps[1] == schema_params()[1]);
                assert(ps[i].id[0] != pm.id[0]);
                assert(!clash(ps[1], pm));
            } else if i == 2 {
                assert(ps[2] == schema_params()[2]);
                assert(ps[i].id[0] != pm.id[0]);
                assert(!clash(ps[2], pm));
            } else if i == 3 {
                assert(ps[3] == schema_params()[3]);
                assert(ps[i].id[0] != pm.id[0]);
                assert(!clash(ps[3], pm));
            } else if i == 4 {
                assert(ps[4] == schema_params()[4]);
                assert(ps[i].id[0] != pm.id[0]);
                assert(!clash(ps[4], pm));
            } else if i == 5 {
                assert(ps[5] == schema_params()[5]);
                assert(ps[i].id[0] != pm.id[0]);
                assert(!clash(ps[5], pm));
            } else if i == 6 {
                assert(ps[6] == schema_params()[6]);
                assert(ps[i].id[0] != pm.id[0]);
                assert(!clash(ps[6], pm));
            } else if i == 7 {
                assert(ps[7] == schema_params()[7]);
                assert(ps[7].id.len() == 7 && pm.id.len() == 6);
                assert(!clash(ps[7], pm));
            } else if i == 8 {
                assert(ps[8] == schema_params()[8]);
                assert(ps[8].id.len() == 7 && pm.id.len() == 6);
                assert(!clash(ps[8], pm));
            } else if i == 9 {
                assert(ps[9] == schema_params()[9]);
                assert(ps[9].id.len() == 10 && pm.id.len() == 6);
                assert(!clash(ps[9], pm));
            } else if i == 10 {
                assert(ps[10] == schema_params()[10]);
                assert(ps[10].id.len() == 11 && pm.id.len() == 6);
                assert(!clash(ps[10], pm));
            } else if i == 11 {
                assert(ps[11] == schema_params()[11]);
                assert(ps[i].id[5] != pm.id[5]);
                assert(!clash(ps[11], pm));
            } else if i == 12 {
                assert(ps[12] == schema_params()[12]);
                assert(ps[12].id.len() == 13 && pm.id.len() == 6);
                assert(!clash(ps[12], pm));
            } else if i == 13 {
                assert(ps[13] == schema_params()[13]);
                assert(ps[13].id.len() == 11 && pm.id.len() == 6);
                assert(!clash(ps[13], pm));
            } else if i == 14 {
                assert(ps[14] == schema_params()[14]);
                assert(ps[14].id.len() == 12 && pm.id.len() == 6);
                assert(!clash(ps[14], pm));
            }
    }
}

/// The usage text of this schema.
pub fn usage(program: &str, description: &str) -> (r: String)
    ensures
        r@ == usage_text(program@, schema_facts(schema_params())),
        r@.len() > 0,
        usage_title(r@),
{
    render_usage(&prepare_options(program, description))
}

fn config_from(schema: &Schema, tokens: &Vec<String>, allow_incomplete: bool) -> (r: Result<Config, ParseError>)
    requires
        schema.models() == schema_params(),
    ensures
        outcome(r) == bind_spec(
            schema_params(),
            match_spec(schema_params(), schema.commands(), strings_view(tokens@)).hits,
            allow_incomplete,
        ),
{
    let table = match_tokens(schema, tokens);
    match bind(schema, &table, allow_incomplete) {
        Ok(t) => {
            proof {
                lemma_bind_conforms(schema_params(), table@.hits, allow_incomplete);
            }
            Ok(Config { typed: t })
        },
        Err(e) => Err(e),
    }
}

/// Parses `args` (the program name first); missing required parameters are errors.
pub fn parse_debug(program: &str, args: &[&str], description: &str) -> (r: Result<Config, ParseError>)
    ensures
        outcome(r) == parse_model(argv_tokens(args@), false),
{
    parse_command(args, prepare_options(program, description), false)
}

/// Parses an owned argument vector (the program name first).
pub fn parse_vec(program: &str, args: &Vec<String>, description: &str) -> (r: Result<Config, ParseError>)
    ensures
        outcome(r) == parse_model(vec_tokens(args@), false),
{
    let schema = prepare_options(program, description);
    let tokens = strings_after_first(args);
    config_from(&schema, &tokens, false)
}

/// Parses `args` (the program name first).
pub fn parse_str(program: &str, args: &[&str], description: &str) -> (r: Result<Config, ParseError>)
    ensures
        outcome(r) == parse_model(argv_tokens(args@), false),
{
    parse_command(args, prepare_options(program, description), false)
}

/// Parses `args` (the program name first); with `allow_incomplete`, missing required
/// parameters are not errors, while tokens that do not convert still are.
pub fn parse_ext(program: &str, args: &[&str], description: &str, allow_incomplete: bool) -> (r: Result<Config, ParseError>)
    ensures
        outcome(r) == parse_model(argv_tokens(args@), allow_incomplete),
{
    parse_command(args, prepare_options(program, description), allow_incomplete)
}

/// Parses `args` (the program name first) against `command`, a schema with this
/// schema's parameters (and possibly subcommands, which end the scan).
pub fn parse_command(args: &[&str], command: Schema, allow_incomplete: bool) -> (r: Result<Config, ParseError>)
    requires
        command.models() == schema_params(),
    ensures
        outcome(r) == bind_spec(
            schema_params(),
            match_spec(schema_params(), command.commands(), argv_tokens(args@)).hits,
            allow_incomplete,
        ),
{
    let tokens = argv_to_tokens(args);
    config_from(&command, &tokens, allow_incomplete)
}

/// Converts and validates a match table made for this schema.
pub fn parse_matches(matches: &MatchTable, allow_incomplete: bool) -> (r: Result<Config, ParseError>)
    ensures
        outcome(r) == bind_spec(schema_params(), matches@.hits, allow_incomplete),
{
    let schema = prepare_options("", "");
    match bind(&schema, matches, allow_incomplete) {
        Ok(t) => {
            proof {
                lemma_bind_conforms(schema_params(), matches@.hits, allow_incomplete);
            }
            Ok(Config { typed: t })
        },
        Err(e) => Err(e),
    }
}

} // verus!
