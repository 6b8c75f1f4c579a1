//! Converting and validating captured tokens into a typed configuration, and the
//! parse entry points, with subcommand dispatch.
use vstd::prelude::*;
use crate::value::{Value, ValueType, Val, coerce, coerce_spec, opt_view};
use crate::schema::{Schema, ParameterSpec, ParamModel, opt_str_view};
use crate::matcher::{MatchTable, Hit, match_spec, match_tokens, strings_view, first_command};

verus! {

/// The bound value of one parameter.
#[derive(Debug)]
pub enum FieldValue {
    /// Nothing was captured; getters fall back to the declared default.
    Absent,
    Scalar(Value),
    List(Vec<Value>),
}

pub enum Field {
    Absent,
    One(Val),
    Many(Seq<Val>),
}

pub open spec fn vals_view(vs: Seq<Value>) -> Seq<Val> {
    vs.map_values(|v: Value| v@)
}

impl View for FieldValue {
    type V = Field;

    open spec fn view(&self) -> Field {
        match self {
            FieldValue::Absent => Field::Absent,
            FieldValue::Scalar(v) => Field::One(v@),
            FieldValue::List(vs) => Field::Many(vals_view(vs@)),
        }
    }
}

/// The typed result of a parse: one field per schema parameter, in schema order.
#[derive(Debug)]
pub struct TypedConfig {
    pub fields: Vec<FieldValue>,
}

impl View for TypedConfig {
    type V = Seq<Field>;

    open spec fn view(&self) -> Seq<Field> {
        self.fields@.map_values(|f: FieldValue| f@)
    }
}

/// A parse-time error.
#[derive(Debug)]
pub enum ParseError {
    /// A required parameter captured no token.
    MissingRequired { parameter: String },
    /// A captured token is not a literal of the parameter's type.
    TypeConversionFailure { parameter: String, raw_value: String },
}

pub enum Failure {
    Missing(Seq<char>),
    Conversion(Seq<char>, Seq<char>),
}

impl View for ParseError {
    type V = Failure;

    open spec fn view(&self) -> Failure {
        match self {
            ParseError::MissingRequired { parameter } => Failure::Missing(parameter@),
            ParseError::TypeConversionFailure { parameter, raw_value } => Failure::Conversion(
                parameter@,
                raw_value@,
            ),
        }
    }
}

pub open spec fn result_view(r: Result<TypedConfig, ParseError>) -> Result<Seq<Field>, Failure> {
    match r {
        Ok(c) => Ok(c@),
        Err(e) => Err(e@),
    }
}

/// The tokens captured for parameter `k`, in encounter order.
pub open spec fn values_for(hits: Seq<(int, Option<Seq<char>>)>, k: int) -> Seq<Option<Seq<char>>>
    decreases hits.len(),
{
    if hits.len() == 0 {
        seq![]
    } else {
        let rest = values_for(hits.drop_last(), k);
        if hits.last().0 == k {
            rest.push(hits.last().1)
        } else {
            rest
        }
    }
}

/// A captured token converted; a bare presence means `true` for a boolean.
pub open spec fn coerce_occ(ty: ValueType, o: Option<Seq<char>>) -> Option<Val> {
    match o {
        Some(s) => coerce_spec(ty, s),
        None => if ty == ValueType::Bool {
            Some(Val::Truth(true))
        } else {
            None
        },
    }
}

pub open spec fn raw_of(o: Option<Seq<char>>) -> Seq<char> {
    match o {
        Some(s) => s,
        None => seq![],
    }
}

/// Every captured token converted, in order, or the first one that does not convert.
pub open spec fn coerce_all(ty: ValueType, os: Seq<Option<Seq<char>>>) -> Result<Seq<Val>, Seq<char>>
    decreases os.len(),
{
    if os.len() == 0 {
        Ok(seq![])
    } else {
        match coerce_all(ty, os.drop_last()) {
            Err(e) => Err(e),
            Ok(vs) => match coerce_occ(ty, os.last()) {
                Some(v) => Ok(vs.push(v)),
                None => Err(raw_of(os.last())),
            },
        }
    }
}

/// Binding one parameter: with nothing captured it is absent, or missing when required
/// and the parse is complete; otherwise every token converts, and a single-arity
/// parameter keeps the last value.
pub open spec fn bind_field(p: ParamModel, os: Seq<Option<Seq<char>>>, allow_incomplete: bool) -> Result<Field, Failure> {
    if os.len() == 0 {
        if p.required && !allow_incomplete {
            Err(Failure::Missing(p.id))
        } else {
            Ok(Field::Absent)
        }
    } else {
        match coerce_all(p.ty, os) {
            Err(raw) => Err(Failure::Conversion(p.id, raw)),
            Ok(vs) => Ok(
                if p.multiple {
                    Field::Many(vs)
                } else {
                    Field::One(vs.last())
                },
            ),
        }
    }
}

/// Binding the first `n` parameters in order, stopping at the first error.
pub open spec fn bind_prefix(
    ps: Seq<ParamModel>,
    hits: Seq<(int, Option<Seq<char>>)>,
    allow_incomplete: bool,
    n: int,
) -> Result<Seq<Field>, Failure>
    decreases n,
{
    if n <= 0 {
        Ok(seq![])
    } else {
        match bind_prefix(ps, hits, allow_incomplete, n - 1) {
            Err(e) => Err(e),
            Ok(fs) => match bind_field(ps[n - 1], values_for(hits, n - 1), allow_incomplete) {
                Ok(f) => Ok(fs.push(f)),
                Err(e) => Err(e),
            },
        }
    }
}

pub open spec fn bind_spec(ps: Seq<ParamModel>, hits: Seq<(int, Option<Seq<char>>)>, allow_incomplete: bool) -> Result<Seq<Field>, Failure> {
    bind_prefix(ps, hits, allow_incomplete, ps.len() as int)
}

/// The outcome of parsing `toks` (the program name removed) against `s`.
pub open spec fn parse_spec(s: Schema, toks: Seq<Seq<char>>, allow_incomplete: bool) -> Result<Seq<Field>, Failure> {
    bind_spec(s.models(), match_spec(s.models(), s.commands(), toks).hits, allow_incomplete)
}

/// The tokens of an argument vector whose first element is the program name.
pub open spec fn argv_tokens(args: Seq<&str>) -> Seq<Seq<char>> {
    if args.len() == 0 {
        seq![]
    } else {
        args.drop_first().map_values(|a: &str| a@)
    }
}

proof fn lemma_values_for_step(hits: Seq<(int, Option<Seq<char>>)>, k: int, j: int)
    requires
        0 <= j < hits.len(),
    ensures
        values_for(hits.take(j + 1), k) == if hits[j].0 == k {
            values_for(hits.take(j), k).push(hits[j].1)
        } else {
            values_for(hits.take(j), k)
        },
{
    assert(hits.take(j + 1).drop_last() =~= hits.take(j));
}

/// Once binding fails, binding more parameters keeps the same error.
pub proof fn lemma_bind_err_stays(
    ps: Seq<ParamModel>,
    hits: Seq<(int, Option<Seq<char>>)>,
    ai: bool,
    m: int,
    n: int,
)
    requires
        0 <= m <= n,
        bind_prefix(ps, hits, ai, m) is Err,
    ensures
        bind_prefix(ps, hits, ai, n) == bind_prefix(ps, hits, ai, m),
    decreases n - m,
{
    if m < n {
        lemma_bind_err_stays(ps, hits, ai, m, n - 1);
    }
}

fn coerce_hit(ty: ValueType, value: &Option<String>) -> (r: Option<Value>)
    ensures
        opt_view(r) == coerce_occ(ty, opt_str_view(*value)),
{
    match value {
        Some(s) => coerce(ty, s.as_str()),
        None => if ty == ValueType::Bool {
            Some(Value::Bool(true))
        } else {
            None
        },
    }
}

fn bind_one(p: &ParameterSpec, k: usize, hits: &Vec<Hit>, allow_incomplete: bool) -> (r: Result<FieldValue, ParseError>)
    ensures
        match r {
            Ok(f) => bind_field(p@, values_for(hits@.map_values(|h: Hit| h@), k as int), allow_incomplete) == Ok::<Field, Failure>(f@),
            Err(e) => bind_field(p@, values_for(hits@.map_values(|h: Hit| h@), k as int), allow_incomplete) == Err::<Field, Failure>(e@),
        },
{
    let ghost hv = hits@.map_values(|h: Hit| h@);
    let mut vals: Vec<Value> = Vec::new();
    let mut bad: Option<String> = None;
    let mut count: usize = 0;
    let mut j: usize = 0;
    proof {
        assert(hv.take(0) =~= seq![]);
        assert(vals_view(vals@) =~= seq![]);
    }
    while j < hits.len()
        invariant
            hv == hits@.map_values(|h: Hit| h@),
            j <= hits@.len(),
            count <= j,
            count as int == values_for(hv.take(j as int), k as int).len(),
            match bad {
                None => coerce_all(p.ty, values_for(hv.take(j as int), k as int)) == Ok::<Seq<Val>, Seq<char>>(vals_view(vals@)),
                Some(b) => coerce_all(p.ty, values_for(hv.take(j as int), k as int)) == Err::<Seq<Val>, Seq<char>>(b@),
            },
        decreases hits@.len() - j,
    {
        proof {
            lemma_values_for_step(hv, k as int, j as int);
        }
        let h = &hits[j];
        if h.param == k {
            let ghost os = values_for(hv.take(j + 1), k as int);
            assert(os.drop_last() == values_for(hv.take(j as int), k as int));
            count = count + 1;
            if bad.is_none() {
                match coerce_hit(p.ty, &h.value) {
                    Some(v) => {
                        let ghost before = vals@;
                        vals.push(v);
                        proof {
                            assert(vals_view(vals@) =~= vals_view(before).push(v@));
                        }
                    },
                    None => {
                        let raw = match &h.value {
                            Some(s) => s.clone(),
                            None => String::new(),
                        };
                        bad = Some(raw);
                    },
                }
            }
        }
        j = j + 1;
    }
    proof {
        assert(hv.take(j as int) =~= hv);
    }
    if count == 0 {
        if p.required && !allow_incomplete {
            return Err(ParseError::MissingRequired { parameter: p.id.clone() });
        }
        return Ok(FieldValue::Absent);
    }
    match bad {
        Some(b) => Err(ParseError::TypeConversionFailure { parameter: p.id.clone(), raw_value: b }),
        None => {
            if p.multiple {
                Ok(FieldValue::List(vals))
            } else {
                let ghost vv = vals_view(vals@);
                let last = vals.pop().unwrap();
                assert(last@ == vv.last());
                Ok(FieldValue::Scalar(last))
            }
        },
    }
}

/// Converts and validates a match table against `schema`, failing on the first error
/// in schema order.
pub fn bind(schema: &Schema, table: &MatchTable, allow_incomplete: bool) -> (r: Result<TypedConfig, ParseError>)
    ensures
        result_view(r) == bind_spec(schema.models(), table@.hits, allow_incomplete),
{
    let ghost ps = schema.models();
    let ghost hv = table@.hits;
    let mut fields: Vec<FieldValue> = Vec::new();
    let mut i: usize = 0;
    proof {
        assert(fields@.map_values(|f: FieldValue| f@) =~= seq![]);
    }
    while i < schema.params.len()
        invariant
            ps == schema.models(),
            hv == table@.hits,
            i <= schema.params@.len(),
            bind_prefix(ps, hv, allow_incomplete, i as int) == Ok::<Seq<Field>, Failure>(fields@.map_values(|f: FieldValue| f@)),
        decreases schema.params@.len() - i,
    {
        match bind_one(&schema.params[i], i, &table.hits, allow_incomplete) {
            Ok(f) => {
                let ghost before = fields@;
                fields.push(f);
                proof {
                    assert(fields@.map_values(|f: FieldValue| f@) =~= before.map_values(|f: FieldValue| f@).push(f@));
                }
            },
            Err(e) => {
                proof {
                    lemma_bind_err_stays(ps, hv, allow_incomplete, i + 1, ps.len() as int);
                }
                return Err(e);
            },
        }
        i = i + 1;
    }
    Ok(TypedConfig { fields })
}

/// Parses `tokens` (the program name already removed) against `schema`.
pub fn parse_tokens(schema: &Schema, tokens: &Vec<String>, allow_incomplete: bool) -> (r: Result<TypedConfig, ParseError>)
    ensures
        result_view(r) == parse_spec(*schema, strings_view(tokens@), allow_incomplete),
{
    let table = match_tokens(schema, tokens);
    bind(schema, &table, allow_incomplete)
}

/// The tokens of `args` after the program name, owned.
pub fn argv_to_tokens(args: &[&str]) -> (r: Vec<String>)
    ensures
        strings_view(r@) == argv_tokens(args@),
{
    let mut out: Vec<String> = Vec::new();
    let mut i: usize = 1;
    proof {
        assert(strings_view(out@) =~= seq![]);
    }
    while i < args.len()
        invariant
            1 <= i,
            args@.len() == 0 || i <= args@.len(),
            args@.len() > 0 ==> strings_view(out@) == args@.drop_first().map_values(|a: &str| a@).take(i - 1),
            args@.len() == 0 ==> out@.len() == 0,
        decreases args@.len() - i,
    {
        let ghost before = out@;
        out.push(args[i].to_owned());
        proof {
            let all = args@.drop_first().map_values(|a: &str| a@);
            assert(strings_view(out@) =~= strings_view(before).push(args@[i as int]@));
            assert(all.take(i as int) =~= all.take(i - 1).push(all[i - 1]));
        }
        i = i + 1;
    }
    proof {
        if args@.len() > 0 {
            let all = args@.drop_first().map_values(|a: &str| a@);
            assert(all.take(i - 1) =~= all);
        } else {
            assert(strings_view(out@) =~= seq![]);
        }
    }
    out
}

/// The tokens of an owned argument vector whose first element is the program name.
pub open spec fn vec_tokens(args: Seq<String>) -> Seq<Seq<char>> {
    if args.len() == 0 {
        seq![]
    } else {
        strings_view(args).drop_first()
    }
}

/// The elements of `args` after the first, copied.
pub fn strings_after_first(args: &Vec<String>) -> (r: Vec<String>)
    ensures
        strings_view(r@) == vec_tokens(args@),
{
    let mut out: Vec<String> = Vec::new();
    let mut i: usize = 1;
    proof {
        assert(strings_view(out@) =~= seq![]);
    }
    while i < args.len()
        invariant
            1 <= i,
            args@.len() == 0 || i <= args@.len(),
            args@.len() > 0 ==> strings_view(out@) == strings_view(args@).drop_first().take(i - 1),
            args@.len() == 0 ==> out@.len() == 0,
        decreases args@.len() - i,
    {
        let ghost before = out@;
        out.push(args[i].clone());
        proof {
            let all = strings_view(args@).drop_first();
            assert(strings_view(out@) =~= strings_view(before).push(args@[i as int]@));
            assert(all.take(i as int) =~= all.take(i - 1).push(all[i - 1]));
        }
        i = i + 1;
    }
    proof {
        if args@.len() > 0 {
            assert(strings_view(args@).drop_first().take(i - 1) =~= strings_view(args@).drop_first());
        } else {
            assert(strings_view(out@) =~= seq![]);
        }
    }
    out
}

/// Scans an argument vector whose first element is the program name.
pub fn get_matches_from(schema: &Schema, args: &[&str]) -> (r: MatchTable)
    ensures
        r@ == match_spec(schema.models(), schema.commands(), argv_tokens(args@)),
{
    let tokens = argv_to_tokens(args);
    match_tokens(schema, &tokens)
}

impl MatchTable {
    /// The match table of subcommand `name` of `schema`, when the scan selected it.
    pub fn subcommand_matches(&self, schema: &Schema, name: &str) -> (r: Option<MatchTable>)
        ensures
            r is Some <==> (self@.sub is Some && self@.sub->Some_0.0 == name@ && first_command(
                schema.commands(),
                name@,
                0,
            ) is Some),
            r is Some ==> ({
                let c = first_command(schema.commands(), name@, 0)->Some_0;
                let ch = schema.children@[c];
                r->Some_0@ == match_spec(ch.models(), ch.commands(), self@.sub->Some_0.1)
            }),
    {
        match &self.subcommand {
            None => None,
            Some(sub) => {
                let owned = name.to_owned();
                if !sub.name.eq(&owned) {
                    return None;
                }
                match crate::matcher::command_index(&schema.children, name) {
                    Some(c) => Some(match_tokens(&schema.children[c], &sub.tokens)),
                    None => None,
                }
            },
        }
    }
}

/// Parses an argument vector whose first element is the program name.
pub fn parse(schema: &Schema, args: &[&str], allow_incomplete: bool) -> (r: Result<TypedConfig, ParseError>)
    ensures
        result_view(r) == parse_spec(*schema, argv_tokens(args@), allow_incomplete),
{
    let tokens = argv_to_tokens(args);
    parse_tokens(schema, &tokens, allow_incomplete)
}

/// Which subcommand a parse selected, if any, and the outcome of its own parse.
#[derive(Debug)]
pub enum Selected {
    NoCommand,
    Command { name: String, config: Result<TypedConfig, ParseError> },
}

/// The two independent outcomes of a parse with subcommands.
#[derive(Debug)]
pub struct Dispatch {
    pub top: TypedConfig,
    pub selected: Selected,
}

/// Parses `args` against `schema`; when a subcommand name ends the scan, parses the
/// tokens after it against that subcommand's schema.
pub fn parse_with_subcommands(schema: &Schema, args: &[&str], allow_incomplete: bool) -> (r: Result<Dispatch, ParseError>)
    requires
        schema.wf(),
    ensures
        ({
            let ps = schema.models();
            let m = match_spec(ps, schema.commands(), argv_tokens(args@));
            match bind_spec(ps, m.hits, allow_incomplete) {
                Err(e) => r is Err && r->Err_0@ == e,
                Ok(fs) => r is Ok && r->Ok_0.top@ == fs && match m.sub {
                    None => r->Ok_0.selected is NoCommand,
                    Some(sub) => {
                        let c = first_command(schema.commands(), sub.0, 0)->Some_0;
                        &&& r->Ok_0.selected is Command
                        &&& r->Ok_0.selected->name@ == sub.0
                        &&& result_view(r->Ok_0.selected->config) == parse_spec(schema.children@[c], sub.1, allow_incomplete)
                    },
                },
            }
        }),
{
    let tokens = argv_to_tokens(args);
    let table = match_tokens(schema, &tokens);
    proof {
        crate::matcher::lemma_scan_sub(schema.models(), schema.commands(), strings_view(tokens@), 0, seq![], 0);
    }
    let top = match bind(schema, &table, allow_incomplete) {
        Ok(t) => t,
        Err(e) => return Err(e),
    };
    match &table.subcommand {
        None => Ok(Dispatch { top, selected: Selected::NoCommand }),
        Some(sub) => {
            let c = crate::matcher::command_index(&schema.children, sub.name.as_str());
            match c {
                Some(c) => {
                    let config = parse_tokens(&schema.children[c], &sub.tokens, allow_incomplete);
                    Ok(Dispatch { top, selected: Selected::Command { name: sub.name.clone(), config } })
                },
                None => {
                    proof {
                        assert(false);
                    }
                    Ok(Dispatch { top, selected: Selected::NoCommand })
                },
            }
        },
    }
}

} // verus!
