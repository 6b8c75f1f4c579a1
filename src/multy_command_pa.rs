//! The top level of a program with subcommands: the command name is its one optional positional, filled when no subcommand is attached or selected.
use vstd::prelude::*;
use vstd::string::*;
use crate::value::ValueType;
use crate::schema::{Schema, SchemaViolation, ParameterSpec, ParameterKind, ParamModel, help_model, clash, admits, admits_all, lemma_help_only};
use crate::matcher::{MatchTable, match_spec, match_tokens, strings_view};
use crate::engine::{TypedConfig, ParseError, Failure, Field, bind, bind_spec, argv_tokens, argv_to_tokens, vec_tokens, strings_after_first};
use crate::fields::{conforms, is_present, text_or, lemma_bind_conforms};
use crate::usage::{render_usage, usage_title, usage_text, schema_facts};

verus! {

/// Position of `COMMAND` in the schema.
pub const COMMAND: usize = 1;

/// The parameters of this schema, the help flag first.
pub open spec fn schema_params() -> Seq<ParamModel> {
    seq![
        help_model(),
        ParamModel {
            id: "COMMAND"@,
            short: None,
            long: None,
            kind: ParameterKind::Positional,
            required: false,
            ty: ValueType::Str,
            default: None,
            multiple: false,
            index: 1,
        },
    ]
}

/// Typed configuration: one field per parameter of `schema_params`.
#[derive(Debug)]
pub struct Config {
    typed: TypedConfig,
}

impl View for Config {
    type V = Seq<Field>;

    closed spec fn view(&self) -> Seq<Field> {
        self.typed@
    }
}

impl Config {
    #[verifier::type_invariant]
    spec fn conforming(&self) -> bool {
        conforms(self.typed@, schema_params())
    }

    /// Whether `COMMAND` was given.
    pub fn has_command(&self) -> (r: bool)
        ensures
            r == is_present(self@[COMMAND as int]),
    {
        proof {
            use_type_invariant(self);
        }
        self.typed.present(COMMAND)
    }
    /// The value of `COMMAND`.
    pub fn command(&self) -> (r: String)
        requires
            is_present(self@[COMMAND as int]),
        ensures
            r@ == text_or(self@[COMMAND as int], ""@),
    {
        proof {
            use_type_invariant(self);
        }
        self.typed.text_or(COMMAND, "")
    }
}

/// The outcome of a parse, over the typed fields.
pub open spec fn outcome(r: Result<Config, ParseError>) -> Result<Seq<Field>, Failure> {
    match r {
        Ok(c) => Ok(c@),
        Err(e) => Err(e@),
    }
}

/// The outcome of parsing `toks` (the program name removed) against this schema.
pub open spec fn parse_model(toks: Seq<Seq<char>>, allow_incomplete: bool) -> Result<Seq<Field>, Failure> {
    bind_spec(schema_params(), match_spec(schema_params(), seq![], toks).hits, allow_incomplete)
}

/// This schema's own parameters, in declaration order.
pub open spec fn own_params() -> Seq<ParamModel> {
    schema_params().drop_first()
}

/// A schema named `program` with this schema's parameters.
pub fn prepare_options(program: &str, description: &str) -> (r: Schema)
    ensures
        r.wf(),
        r.models() == schema_params(),
        r.name@ == program@,
        r.description@ == description@,
        r.commands() == Seq::<Seq<char>>::empty(),
{
    let s = prepare_options_ext(Schema::new(program, description)).unwrap();
    proof {
        assert(seq![help_model()] + own_params() =~= schema_params());
        assert(s.commands() =~= Seq::<Seq<char>>::empty());
    }
    s
}

/// Appends this schema's parameters to `command`, in declaration order, or reports the
/// first one that cannot join it (see `admits`).
pub fn prepare_options_ext(command: Schema) -> (r: Result<Schema, SchemaViolation>)
    requires
        command.wf(),
    ensures
        r is Ok <==> admits_all(command.models(), own_params()),
        command.models() == seq![help_model()] ==> r is Ok,
        r is Ok ==> ({
            let s = r->Ok_0;
            &&& s.wf()
            &&& s.models() == command.models() + own_params()
            &&& s.name == command.name
            &&& s.description == command.description
            &&& s.children == command.children
        }),
{
    let ghost base = command.models();
    let ghost fresh = base == seq![help_model()];
    proof {
        if fresh {
            lemma_help_only();
        }
        assert(base =~= base + own_params().take(0));
    }
    let s = command;
    let ghost prev0 = s.models();
    let p = ParameterSpec::positional("COMMAND", 1, false, ValueType::Str, "Command to run; left empty when a subcommand is selected", false);
    let ghost pv0 = p@;
    proof {
        assert(pv0 == own_params()[0]);
        assert(fresh ==> admits(prev0, pv0)) by {
            if fresh {
                lemma_admits_1();
                assert(prev0 =~= schema_params().take(1));
            }
        }
    }
    let s = match s.arg(p) {
        Ok(s) => s,
        Err(e) => {
            proof {
                assert(!admits(base + own_params().take(0), own_params()[0]));
            }
            return Err(e);
        },
    };
    proof {
        assert(s.models() =~= base + own_params().take(1));
    }
    proof {
        assert(own_params().take(1) =~= own_params());
        assert forall|k: int| 0 <= k < 1 implies admits(base + own_params().take(k), #[trigger] own_params()[k]) by {
        if k == 0 {
            assert(admits(prev0, pv0));
        }
        }
    }
    Ok(s)
}


proof fn lemma_admits_1()
    ensures
        forall|i: int|
            0 <= i < 1 ==> !clash(#[trigger] schema_params().take(1)[i], schema_params()[1]) && (
            schema_params()[i].kind is Positional ==> !schema_params()[i].multiple && (
            schema_params()[1].required ==> schema_params()[i].required)),
        schema_params()[1].long is Some ==> schema_params()[1].long->Some_0.len() > 0
            && schema_params()[1].long->Some_0[0] != '-',
{
    reveal_strlit("COMMAND");
    reveal_strlit("help");
    let ps = schema_params().take(1);
    let pm = schema_params()[1];
    assert forall|i: int| 0 <= i < ps.len() implies !clash(#[trigger] ps[i], pm) && (ps[i].kind is Positional
        ==> !ps[i].multiple && (pm.required ==> ps[i].required)) by {
        if i == 0 {
                assert(ps[0] == schema_params()[0]);
                assert(ps[0].id.len() == 4 && pm.id.len() == 7);
                assert(!clash(ps[0], pm));
            }
    }
}

/// The usage text of this schema.
pub fn usage(program: &str, description: &str) -> (r: String)
    ensures
        r@ == usage_text(program@, schema_facts(schema_params())),
        r@.len() > 0,
        usage_title(r@),
{
    render_usage(&prepare_options(program, description))
}

fn config_from(schema: &Schema, tokens: &Vec<String>, allow_incomplete: bool) -> (r: Result<Config, ParseError>)
    requires
        schema.models() == schema_params(),
    ensures
        outcome(r) == bind_spec(
            schema_params(),
            match_spec(schema_params(), schema.commands(), strings_view(tokens@)).hits,
            allow_incomplete,
        ),
{
    let table = match_tokens(schema, tokens);
    match bind(schema, &table, allow_incomplete) {
        Ok(t) => {
            proof {
                lemma_bind_conforms(schema_params(), table@.hits, allow_incomplete);
            }
            Ok(Config { typed: t })
        },
        Err(e) => Err(e),
    }
}

/// Parses `args` (the program name first); missing required parameters are errors.
pub fn parse_debug(program: &str, args: &[&str], description: &str) -> (r: Result<Config, ParseError>)
    ensures
        outcome(r) == parse_model(argv_tokens(args@), false),
{
    parse_command(args, prepare_options(program, description), false)
}

/// Parses an owned argument vector (the program name first).
pub fn parse_vec(program: &str, args: &Vec<String>, description: &str) -> (r: Result<Config, ParseError>)
    ensures
        outcome(r) == parse_model(vec_tokens(args@), false),
{
    let schema = prepare_options(program, description);
    let tokens = strings_after_first(args);
    config_from(&schema, &tokens, false)
}

/// Parses `args` (the program name first).
pub fn parse_str(program: &str, args: &[&str], description: &str) -> (r: Result<Config, ParseError>)
    ensures
        outcome(r) == parse_model(argv_tokens(args@), false),
{
    parse_command(args, prepare_options(program, description), false)
}

/// Parses `args` (the program name first); with `allow_incomplete`, missing required
/// parameters are not errors, while tokens that do not convert still are.
pub fn parse_ext(program: &str, args: &[&str], description: &str, allow_incomplete: bool) -> (r: Result<Config, ParseError>)
    ensures
        outcome(r) == parse_model(argv_tokens(args@), allow_incomplete),
{
    parse_command(args, prepare_options(program, description), allow_incomplete)
}

/// Parses `args` (the program name first) against `command`, a schema with this
/// schema's parameters (and possibly subcommands, which end the scan).
pub fn parse_command(args: &[&str], command: Schema, allow_incomplete: bool) -> (r: Result<Config, ParseError>)
    requires
        command.models() == schema_params(),
    ensures
        outcome(r) == bind_spec(
            schema_params(),
            match_spec(schema_params(), command.commands(), argv_tokens(args@)).hits,
            allow_incomplete,
        ),
{
    let tokens = argv_to_tokens(args);
    config_from(&command, &tokens, allow_incomplete)
}

/// Converts and validates a match table made for this schema.
pub fn parse_matches(matches: &MatchTable, allow_incomplete: bool) -> (r: Result<Config, ParseError>)
    ensures
        outcome(r) == bind_spec(schema_params(), matches@.hits, allow_incomplete),
{
    let schema = prepare_options("", "");
    match bind(&schema, matches, allow_incomplete) {
        Ok(t) => {
            proof {
                lemma_bind_conforms(schema_params(), matches@.hits, allow_incomplete);
            }
            Ok(Config { typed: t })
        },
        Err(e) => Err(e),
    }
}

} // verus!
