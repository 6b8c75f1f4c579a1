//! The schema model: parameters, their admission rules, and subcommands.
use vstd::prelude::*;
use vstd::string::*;
use crate::value::{Value, ValueType, Val, opt_view, float_literal};

verus! {

/// How a parameter binds to tokens.
#[derive(Clone, Copy, Debug, PartialEq, Eq, Structural)]
pub enum ParameterKind {
    /// Presence-only boolean. When `optionally_valued`, a directly following `true` or
    /// `false` token is taken as its explicit value.
    Flag { optionally_valued: bool },
    /// Named; each occurrence consumes the next token as its value.
    OptionArg,
    /// Unnamed; bound by position.
    Positional,
}

/// One entry of a schema.
#[derive(Debug)]
pub struct ParameterSpec {
    pub id: String,
    pub short: Option<char>,
    /// Long alias without its leading `--`.
    pub long: Option<String>,
    pub kind: ParameterKind,
    pub required: bool,
    pub ty: ValueType,
    pub default: Option<Value>,
    pub help: String,
    /// Multiple-occurrence arity: every captured value is kept, in order.
    pub multiple: bool,
    /// Position among the positionals, from 1; 0 for named parameters.
    pub index: usize,
}

/// The content of a `ParameterSpec` that matching and binding depend on.
pub struct ParamModel {
    pub id: Seq<char>,
    pub short: Option<char>,
    pub long: Option<Seq<char>>,
    pub kind: ParameterKind,
    pub required: bool,
    pub ty: ValueType,
    pub default: Option<Val>,
    pub multiple: bool,
    pub index: int,
}

pub open spec fn opt_str_view(o: Option<String>) -> Option<Seq<char>> {
    match o {
        Some(s) => Some(s@),
        None => None,
    }
}

impl View for ParameterSpec {
    type V = ParamModel;

    open spec fn view(&self) -> ParamModel {
        ParamModel {
            id: self.id@,
            short: self.short,
            long: opt_str_view(self.long),
            kind: self.kind,
            required: self.required,
            ty: self.ty,
            default: opt_view(self.default),
            multiple: self.multiple,
            index: self.index as int,
        }
    }
}

impl ParameterSpec {
    /// A named parameter: a flag or an option.
    pub fn named(
        id: &str,
        short: Option<char>,
        long: Option<&str>,
        kind: ParameterKind,
        required: bool,
        ty: ValueType,
        default: Option<Value>,
        help: &str,
        multiple: bool,
    ) -> (r: ParameterSpec)
        ensures
            r@ == (ParamModel {
                id: id@,
                short,
                long: match long {
                    Some(l) => Some(l@),
                    None => None,
                },
                kind,
                required,
                ty,
                default: opt_view(default),
                multiple,
                index: 0,
            }),
    {
        let long = match long {
            Some(l) => Some(l.to_owned()),
            None => None,
        };
        ParameterSpec {
            id: id.to_owned(),
            short,
            long,
            kind,
            required,
            ty,
            default,
            help: help.to_owned(),
            multiple,
            index: 0,
        }
    }

    /// The positional at `index` (from 1).
    pub fn positional(
        id: &str,
        index: usize,
        required: bool,
        ty: ValueType,
        help: &str,
        multiple: bool,
    ) -> (r: ParameterSpec)
        ensures
            r@ == (ParamModel {
                id: id@,
                short: None,
                long: None,
                kind: ParameterKind::Positional,
                required,
                ty,
                default: None,
                multiple,
                index: index as int,
            }),
    {
        ParameterSpec {
            id: id.to_owned(),
            short: None,
            long: None,
            kind: ParameterKind::Positional,
            required,
            ty,
            default: None,
            help: help.to_owned(),
            multiple,
            index,
        }
    }
}

/// A command's accepted arguments, and its subcommands (one level deep).
#[derive(Debug)]
pub struct Schema {
    pub name: String,
    pub description: String,
    pub params: Vec<ParameterSpec>,
    pub children: Vec<Schema>,
}

/// Error raised when a parameter or subcommand cannot join a schema.
#[derive(Debug)]
pub struct SchemaViolation {
    /// Identifier of the offending parameter, or name of the offending subcommand.
    pub subject: String,
}

pub open spec fn param_models(ps: Seq<ParameterSpec>) -> Seq<ParamModel> {
    ps.map_values(|p: ParameterSpec| p@)
}

pub open spec fn child_names(cs: Seq<Schema>) -> Seq<Seq<char>> {
    cs.map_values(|c: Schema| c.name@)
}

pub open spec fn is_named(k: ParameterKind) -> bool {
    !(k is Positional)
}

pub open spec fn short_token(c: char) -> Seq<char> {
    seq!['-', c]
}

pub open spec fn long_token(l: Seq<char>) -> Seq<char> {
    seq!['-', '-'] + l
}

/// Token `t` is an alias of `p`.
pub open spec fn answers_to(p: ParamModel, t: Seq<char>) -> bool {
    is_named(p.kind) && ((p.short is Some && t == short_token(p.short->Some_0)) || (
    p.long is Some && t == long_token(p.long->Some_0)))
}

/// `p` and `q` cannot stand in one schema: same identifier, or a shared alias.
pub open spec fn clash(p: ParamModel, q: ParamModel) -> bool {
    p.id == q.id || (is_named(p.kind) && is_named(q.kind) && ((p.short is Some && p.short
        == q.short) || (p.long is Some && p.long == q.long)))
}

pub open spec fn val_has_type(v: Val, ty: ValueType) -> bool {
    match ty {
        ValueType::Str => v is Text,
        ValueType::Bool => v is Truth,
        ValueType::U32 => v is Int && 0 <= v->Int_0 <= u32::MAX,
        ValueType::U64 => v is Int && 0 <= v->Int_0 <= u64::MAX,
        ValueType::I32 => v is Int && i32::MIN <= v->Int_0 <= i32::MAX,
        ValueType::F32 | ValueType::F64 => v is Real && float_literal(v->Real_0),
    }
}

/// Number of positionals among `ps`.
pub open spec fn positional_count(ps: Seq<ParamModel>) -> int
    decreases ps.len(),
{
    if ps.len() == 0 {
        0
    } else {
        positional_count(ps.drop_last()) + if ps.last().kind is Positional {
            1int
        } else {
            0int
        }
    }
}

/// `p` may be appended to a schema whose parameters are `ps`: no identifier or alias is
/// shared, a named parameter has an alias (neither a short `-` nor a long starting
/// with `-`), a flag is boolean, a positional takes the
/// next index, follows no repeating positional, and is optional only when those before
/// it are, and a default has the declared type.
pub open spec fn admits(ps: Seq<ParamModel>, p: ParamModel) -> bool {
    &&& forall|i: int| 0 <= i < ps.len() ==> !clash(#[trigger] ps[i], p)
    &&& p.default is Some ==> val_has_type(p.default->Some_0, p.ty)
    &&& match p.kind {
        ParameterKind::Positional => {
            &&& p.short is None
            &&& p.long is None
            &&& p.index == positional_count(ps) + 1
            &&& forall|i: int|
                0 <= i < ps.len() && (#[trigger] ps[i]).kind is Positional ==> !ps[i].multiple
                    && (p.required ==> ps[i].required)
        },
        _ => {
            &&& p.short is Some || p.long is Some
            &&& p.short is Some ==> p.short->Some_0 != '-'
            &&& p.long is Some ==> p.long->Some_0.len() > 0 && p.long->Some_0[0] != '-'
            &&& p.index == 0
            &&& p.kind is Flag ==> p.ty == ValueType::Bool
        },
    }
}

/// Every parameter was admissible when it was appended.
pub open spec fn params_wf(ps: Seq<ParamModel>) -> bool {
    forall|n: int| 0 <= n < ps.len() ==> admits(ps.take(n), #[trigger] ps[n])
}

/// Each of `ms` may be appended in turn to a schema whose parameters are `ps`.
pub open spec fn admits_all(ps: Seq<ParamModel>, ms: Seq<ParamModel>) -> bool {
    forall|k: int| 0 <= k < ms.len() ==> admits(ps + ms.take(k), #[trigger] ms[k])
}

/// The standard help flag that every schema starts with.
pub open spec fn help_model() -> ParamModel {
    ParamModel {
        id: "help"@,
        short: Some('h'),
        long: Some("help"@),
        kind: ParameterKind::Flag { optionally_valued: false },
        required: false,
        ty: ValueType::Bool,
        default: None,
        multiple: false,
        index: 0,
    }
}

/// A schema holding only the help flag has no positionals.
pub proof fn lemma_help_only()
    ensures
        positional_count(seq![help_model()]) == 0,
{
    assert(seq![help_model()].drop_last() =~= Seq::<ParamModel>::empty());
    assert(positional_count(Seq::<ParamModel>::empty()) == 0);
    assert(seq![help_model()].last() == help_model());
}

impl Schema {
    /// Well-formed parameters, starting with the help flag.
    pub open spec fn own_wf(&self) -> bool {
        &&& params_wf(param_models(self.params@))
        &&& self.params@.len() >= 1
        &&& self.params@[0]@ == help_model()
    }

    /// The invariant of a schema: its own parameters and each subcommand's are
    /// well-formed, subcommands have no subcommands, and their names are distinct.
    pub open spec fn wf(&self) -> bool {
        &&& self.own_wf()
        &&& forall|k: int| 0 <= k < self.children@.len() ==> (#[trigger] self.children@[k]).own_wf()
            && self.children@[k].children@.len() == 0
        &&& forall|k: int, l: int|
            0 <= k < l < self.children@.len() ==> (#[trigger] self.children@[k]).name@
                != (#[trigger] self.children@[l]).name@
    }

    pub open spec fn models(&self) -> Seq<ParamModel> {
        param_models(self.params@)
    }

    pub open spec fn commands(&self) -> Seq<Seq<char>> {
        child_names(self.children@)
    }

    /// A schema named `program` holding only the help flag.
    pub fn new(program: &str, description: &str) -> (r: Schema)
        ensures
            r.wf(),
            r.name@ == program@,
            r.description@ == description@,
            r.models() == seq![help_model()],
            positional_count(r.models()) == 0,
            r.children@.len() == 0,
    {
        let help = ParameterSpec {
            id: String::from_str("help"),
            short: Some('h'),
            long: Some(String::from_str("help")),
            kind: ParameterKind::Flag { optionally_valued: false },
            required: false,
            ty: ValueType::Bool,
            default: None,
            help: String::from_str("Print help information"),
            multiple: false,
            index: 0,
        };
        let mut params: Vec<ParameterSpec> = Vec::new();
        params.push(help);
        let r = Schema {
            name: program.to_owned(),
            description: description.to_owned(),
            params,
            children: Vec::new(),
        };
        proof {
            reveal_strlit("help");
            let ms = r.models();
            assert(ms =~= seq![help_model()]);
            assert(ms.take(0) =~= Seq::<ParamModel>::empty());
            assert(ms.drop_last() =~= Seq::<ParamModel>::empty());
            assert(positional_count(Seq::<ParamModel>::empty()) == 0);
        }
        r
    }
}

proof fn lemma_wf_push(ps: Seq<ParamModel>, p: ParamModel)
    requires
        params_wf(ps),
        admits(ps, p),
    ensures
        params_wf(ps.push(p)),
{
    let qs = ps.push(p);
    assert forall|n: int| 0 <= n < qs.len() implies admits(qs.take(n), #[trigger] qs[n]) by {
        if n < ps.len() {
            assert(qs.take(n) =~= ps.take(n));
        } else {
            assert(qs.take(n) =~= ps);
        }
    }
}

fn same_opt_string(a: &Option<String>, b: &Option<String>) -> (r: bool)
    ensures
        r == (opt_str_view(*a) == opt_str_view(*b)),
{
    match (a, b) {
        (Some(x), Some(y)) => x.eq(y),
        (None, None) => true,
        _ => false,
    }
}

fn clashes(p: &ParameterSpec, q: &ParameterSpec) -> (r: bool)
    ensures
        r == clash(p@, q@),
{
    if p.id == q.id {
        return true;
    }
    let named = !matches!(p.kind, ParameterKind::Positional) && !matches!(
        q.kind,
        ParameterKind::Positional
    );
    let short_shared = match (p.short, q.short) {
        (Some(a), Some(b)) => a == b,
        _ => false,
    };
    let long_shared = p.long.is_some() && same_opt_string(&p.long, &q.long);
    named && (short_shared || long_shared)
}

fn default_fits(d: &Value, ty: ValueType) -> (r: bool)
    ensures
        r == val_has_type(d@, ty),
{
    match ty {
        ValueType::Str => matches!(d, Value::Str(_)),
        ValueType::Bool => matches!(d, Value::Bool(_)),
        ValueType::U32 => match d {
            Value::U32(_) => true,
            Value::U64(n) => *n <= 4294967295,
            Value::I32(n) => *n >= 0,
            _ => false,
        },
        ValueType::U64 => match d {
            Value::U64(_) => true,
            Value::U32(_) => true,
            Value::I32(n) => *n >= 0,
            _ => false,
        },
        ValueType::I32 => match d {
            Value::I32(_) => true,
            Value::U32(n) => *n <= 2147483647,
            Value::U64(n) => *n <= 2147483647,
            _ => false,
        },
        ValueType::F32 | ValueType::F64 => match d {
            Value::Float(s) => crate::value::is_float_text(s.as_str()),
            _ => false,
        },
    }
}

impl Schema {
    /// Whether `p` may be appended to this schema's parameters.
    pub fn admits_param(&self, p: &ParameterSpec) -> (r: bool)
        ensures
            r == admits(self.models(), p@),
    {
        let ghost ms = self.models();
        let mut i: usize = 0;
        let mut npos: usize = 0;
        let mut ordered = true;
        while i < self.params.len()
            invariant
                ms == self.models(),
                i <= self.params@.len(),
                npos as int == positional_count(ms.take(i as int)),
                npos <= i,
                forall|j: int| 0 <= j < i ==> !clash(#[trigger] ms[j], p@),
                ordered == (forall|j: int|
                    0 <= j < i && (#[trigger] ms[j]).kind is Positional ==> !ms[j].multiple && (
                    p@.required ==> ms[j].required)),
            decreases self.params@.len() - i,
        {
            let q = &self.params[i];
            if clashes(q, p) {
                proof {
                    assert(clash(ms[i as int], p@));
                }
                return false;
            }
            proof {
                assert(ms.take(i + 1).drop_last() =~= ms.take(i as int));
            }
            if matches!(q.kind, ParameterKind::Positional) {
                npos = npos + 1;
                if q.multiple || (p.required && !q.required) {
                    ordered = false;
                }
            }
            i = i + 1;
        }
        proof {
            assert(ms.take(i as int) =~= ms);
        }
        let default_ok = match &p.default {
            Some(d) => default_fits(d, p.ty),
            None => true,
        };
        if !default_ok {
            return false;
        }
        match p.kind {
            ParameterKind::Positional => {
                p.short.is_none() && p.long.is_none() && npos < usize::MAX && p.index == npos + 1
                    && ordered
            },
            _ => {
                let long_ok = match &p.long {
                    Some(l) => l.as_str().unicode_len() > 0 && l.as_str().get_char(0) != '-',
                    None => true,
                };
                let short_ok = match p.short {
                    Some(c) => c != '-',
                    None => true,
                };
                (p.short.is_some() || p.long.is_some()) && short_ok && long_ok && p.index == 0 && (!matches!(
                    p.kind,
                    ParameterKind::Flag { .. }
                ) || p.ty == ValueType::Bool)
            },
        }
    }

    /// Appends `p`, or reports it when it cannot join (see `admits`).
    pub fn arg(self, p: ParameterSpec) -> (r: Result<Schema, SchemaViolation>)
        requires
            self.wf(),
        ensures
            r is Ok <==> admits(self.models(), p@),
            r is Ok ==> ({
                let s = r->Ok_0;
                &&& s.wf()
                &&& s.models() == self.models().push(p@)
                &&& positional_count(s.models()) == positional_count(self.models()) + if p.kind is Positional {
                    1int
                } else {
                    0int
                }
                &&& s.name == self.name
                &&& s.description == self.description
                &&& s.children == self.children
            }),
            r is Err ==> r->Err_0.subject@ == p.id@,
    {
        if !self.admits_param(&p) {
            return Err(SchemaViolation { subject: p.id.clone() });
        }
        let ghost old_ms = self.models();
        let ghost pv = p@;
        let mut s = self;
        s.params.push(p);
        proof {
            assert(s.models() =~= old_ms.push(pv));
            assert(old_ms.push(pv).drop_last() =~= old_ms);
            lemma_wf_push(old_ms, pv);
            assert(s.models()[0] == old_ms[0]);
        }
        Ok(s)
    }

    /// Attaches `child` as a subcommand, or reports its name when it cannot join: it
    /// must have no subcommands of its own, and its name must be new here.
    pub fn subcommand(self, child: Schema) -> (r: Result<Schema, SchemaViolation>)
        requires
            self.wf(),
            child.wf(),
        ensures
            r is Ok <==> (child.children@.len() == 0 && !self.commands().contains(child.name@)),
            r is Ok ==> ({
                let s = r->Ok_0;
                &&& s.wf()
                &&& s.models() == self.models()
                &&& s.name == self.name
                &&& s.description == self.description
                &&& s.children@ == self.children@.push(child)
                &&& s.commands() == self.commands().push(child.name@)
            }),
            r is Err ==> r->Err_0.subject@ == child.name@,
    {
        if child.children.len() > 0 {
            return Err(SchemaViolation { subject: child.name.clone() });
        }
        let mut k: usize = 0;
        while k < self.children.len()
            invariant
                k <= self.children@.len(),
                forall|j: int| 0 <= j < k ==> (#[trigger] self.children@[j]).name@ != child.name@,
            decreases self.children@.len() - k,
        {
            if self.children[k].name == child.name {
                proof {
                    assert(self.commands()[k as int] == child.name@);
                }
                return Err(SchemaViolation { subject: child.name.clone() });
            }
            k = k + 1;
        }
        let ghost old_cs = self.children@;
        let ghost cname = child.name@;
        let mut s = self;
        s.children.push(child);
        proof {
            assert(s.commands() =~= child_names(old_cs).push(cname));
            assert forall|j: int| 0 <= j < child_names(old_cs).len() implies child_names(
                old_cs,
            )[j] != cname by {
                assert(old_cs[j].name@ != cname);
            }
        }
        Ok(s)
    }
}

} // verus!
