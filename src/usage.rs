//! Usage text, rendered by clap from a schema.
use vstd::prelude::*;
use crate::schema::{Schema, ParameterKind, ParamModel, admits, param_models, params_wf, positional_count, clash, help_model};

verus! {

#[verifier::external_type_specification]
#[verifier::external_body]
pub struct ExCommand<'a>(clap::Command<'a>);

#[verifier::external_type_specification]
#[verifier::external_body]
pub struct ExArg<'a>(clap::Arg<'a>);

/// What an argument holds that bears on a command's usage text: identifier, short
/// name, long name (without `--`), positional index (0 for none), and whether it is
/// required, takes a value, and may occur several times.
pub type ArgFacts = (Seq<char>, Option<char>, Option<Seq<char>>, int, bool, bool, bool);

/// The facts of a clap argument as the wrappers below build it.
pub uninterp spec fn arg_facts(a: clap::Arg<'_>) -> ArgFacts;

/// The arguments added to a clap command by the user (not those clap generates, such
/// as `help` and `version`, which it drops again when it renders), in the order they
/// were added.
pub uninterp spec fn command_args(c: clap::Command<'_>) -> Seq<ArgFacts>;

/// The name a clap command was created with.
pub uninterp spec fn command_name(c: clap::Command<'_>) -> Seq<char>;

/// The usage text clap renders for a command with this name and these arguments.
pub uninterp spec fn usage_text(name: Seq<char>, args: Seq<ArgFacts>) -> Seq<char>;

/// The heading that clap puts in front of every usage text.
pub open spec fn usage_title(s: Seq<char>) -> bool {
    s.len() >= 11 && s.subrange(0, 11) == seq!['U', 'S', 'A', 'G', 'E', ':', '\n', ' ', ' ', ' ', ' ']
}

/// Number of positionals (nonzero index) among `args`.
pub open spec fn positional_total(args: Seq<ArgFacts>) -> int
    decreases args.len(),
{
    if args.len() == 0 {
        0
    } else {
        positional_total(args.drop_last()) + if args.last().3 > 0 {
            1int
        } else {
            0int
        }
    }
}

/// `a` may follow `prev` in a command that clap accepts: its identifier and names are
/// new, and a positional has no names, takes a value, has the next index, follows no
/// repeating positional, and is required only when every earlier positional is.
pub open spec fn clap_admits(prev: Seq<ArgFacts>, a: ArgFacts) -> bool {
    &&& forall|i: int|
        0 <= i < prev.len() ==> (#[trigger] prev[i]).0 != a.0 && (a.1 is Some ==> prev[i].1 != a.1) && (
        a.2 is Some ==> prev[i].2 != a.2)
    &&& a.3 > 0 ==> {
        &&& a.1 is None && a.2 is None && a.5
        &&& a.3 == positional_total(prev) + 1
        &&& forall|i: int|
            0 <= i < prev.len() && (#[trigger] prev[i]).3 > 0 ==> !prev[i].6 && (a.4 ==> prev[i].4)
    }
}

/// A command that clap renders without failing its consistency checks: unique
/// identifiers and names, contiguous positional indices with only the last one
/// repeating and no optional one before a required one, and an argument of its own
/// named `help` in place of the generated one.
pub open spec fn usage_consistent(args: Seq<ArgFacts>) -> bool {
    &&& forall|n: int| 0 <= n < args.len() ==> clap_admits(args.take(n), #[trigger] args[n])
    &&& args.len() > 0 && args[0].0 == "help"@ && args[0].2 == Some("help"@)
}

/// The facts of the clap argument built for parameter `p`.
pub open spec fn facts_of(p: ParamModel) -> ArgFacts {
    (
        p.id,
        p.short,
        p.long,
        if p.kind is Positional {
            p.index
        } else {
            0
        },
        p.required,
        !(p.kind is Flag),
        p.multiple,
    )
}

pub open spec fn schema_facts(ps: Seq<ParamModel>) -> Seq<ArgFacts> {
    ps.map_values(|p: ParamModel| facts_of(p))
}

/// Relies on clap's `Command::new`: a command with the given name and no arguments
/// added by the user.
#[verifier::external_body]
fn command_new<'a>(name: &str) -> (r: clap::Command<'a>)
    ensures
        command_name(r) == name@,
        command_args(r) == Seq::<ArgFacts>::empty(),
{
    clap::Command::new(name)
}

/// Relies on clap's `Command::arg`: the command with the argument appended.
#[verifier::external_body]
fn command_arg<'a>(cmd: clap::Command<'a>, a: clap::Arg<'a>) -> (r: clap::Command<'a>)
    ensures
        command_name(r) == command_name(cmd),
        command_args(r) == command_args(cmd).push(arg_facts(a)),
{
    cmd.arg(a)
}

/// Relies on clap's `Arg::new`: an argument identified by `id`, with no names or index,
/// optional, taking no value, occurring once.
#[verifier::external_body]
fn arg_new<'a>(id: &'a str) -> (r: clap::Arg<'a>)
    ensures
        arg_facts(r) == (id@, None::<char>, None::<Seq<char>>, 0int, false, false, false),
{
    clap::Arg::new(id)
}

/// Relies on clap's `Arg::required`.
#[verifier::external_body]
fn arg_required<'a>(a: clap::Arg<'a>, yes: bool) -> (r: clap::Arg<'a>)
    ensures
        arg_facts(r) == (arg_facts(a).0, arg_facts(a).1, arg_facts(a).2, arg_facts(a).3, yes, arg_facts(a).5, arg_facts(a).6),
{
    a.required(yes)
}

/// Relies on clap's `Arg::takes_value`.
#[verifier::external_body]
#[allow(deprecated)]
fn arg_takes_value<'a>(a: clap::Arg<'a>, yes: bool) -> (r: clap::Arg<'a>)
    ensures
        arg_facts(r) == (arg_facts(a).0, arg_facts(a).1, arg_facts(a).2, arg_facts(a).3, arg_facts(a).4, yes, arg_facts(a).6),
{
    a.takes_value(yes)
}

/// Relies on clap's `Arg::multiple_occurrences`.
#[verifier::external_body]
#[allow(deprecated)]
fn arg_multiple_occurrences<'a>(a: clap::Arg<'a>, yes: bool) -> (r: clap::Arg<'a>)
    ensures
        arg_facts(r) == (arg_facts(a).0, arg_facts(a).1, arg_facts(a).2, arg_facts(a).3, arg_facts(a).4, arg_facts(a).5, yes),
{
    a.multiple_occurrences(yes)
}

/// Relies on clap's `Arg::short`, which panics on `-`.
#[verifier::external_body]
fn arg_short<'a>(a: clap::Arg<'a>, c: char) -> (r: clap::Arg<'a>)
    requires
        c != '-',
    ensures
        arg_facts(r) == (arg_facts(a).0, Some(c), arg_facts(a).2, arg_facts(a).3, arg_facts(a).4, arg_facts(a).5, arg_facts(a).6),
{
    a.short(c)
}

/// Relies on clap's `Arg::long` (the name without its leading `--`; clap strips
/// leading `-`, so a name starting with one is left out).
#[verifier::external_body]
fn arg_long<'a>(a: clap::Arg<'a>, l: &'a str) -> (r: clap::Arg<'a>)
    requires
        l@.len() > 0 && l@[0] != '-',
    ensures
        arg_facts(r) == (arg_facts(a).0, arg_facts(a).1, Some(l@), arg_facts(a).3, arg_facts(a).4, arg_facts(a).5, arg_facts(a).6),
{
    a.long(l)
}

/// Relies on clap's `Arg::index`: the argument becomes the positional at `idx`.
#[verifier::external_body]
fn arg_index<'a>(a: clap::Arg<'a>, idx: usize) -> (r: clap::Arg<'a>)
    requires
        idx > 0,
    ensures
        arg_facts(r) == (arg_facts(a).0, arg_facts(a).1, arg_facts(a).2, idx as int, arg_facts(a).4, arg_facts(a).5, arg_facts(a).6),
{
    a.index(idx)
}

/// Relies on clap's `Command::render_usage`, which writes `USAGE:\n    ` and then the
/// synopsis derived from the command's name and arguments. In debug builds clap first
/// checks the command and panics on the shapes that `usage_consistent` leaves out.
#[verifier::external_body]
fn command_render_usage<'a>(cmd: &mut clap::Command<'a>) -> (r: String)
    requires
        usage_consistent(command_args(*old(cmd))),
    ensures
        r@ == usage_text(command_name(*old(cmd)), command_args(*old(cmd))),
        usage_title(r@),
{
    cmd.render_usage()
}

proof fn lemma_positional_count_nonneg(ps: Seq<ParamModel>)
    ensures
        positional_count(ps) >= 0,
    decreases ps.len(),
{
    if ps.len() > 0 {
        lemma_positional_count_nonneg(ps.drop_last());
    }
}

proof fn lemma_positional_total(ps: Seq<ParamModel>)
    requires
        forall|i: int| 0 <= i < ps.len() && (#[trigger] ps[i]).kind is Positional ==> ps[i].index > 0,
    ensures
        positional_total(schema_facts(ps)) == positional_count(ps),
    decreases ps.len(),
{
    if ps.len() > 0 {
        let pre = ps.drop_last();
        assert forall|i: int| 0 <= i < pre.len() && (#[trigger] pre[i]).kind is Positional implies pre[i].index > 0 by {
            assert(pre[i] == ps[i]);
        }
        lemma_positional_total(pre);
        assert(schema_facts(ps).drop_last() =~= schema_facts(pre));
        assert(ps.last() == ps[ps.len() - 1]);
    }
}

/// The command built from a well-formed schema passes clap's checks.
proof fn lemma_consistent(ps: Seq<ParamModel>)
    requires
        params_wf(ps),
        ps.len() >= 1,
        ps[0] == help_model(),
    ensures
        usage_consistent(schema_facts(ps)),
{
    let fs = schema_facts(ps);
    assert forall|i: int| 0 <= i < ps.len() && (#[trigger] ps[i]).kind is Positional implies ps[i].index > 0 by {
        assert(admits(ps.take(i), ps[i]));
        lemma_positional_count_nonneg(ps.take(i));
    }
    assert forall|n: int| 0 <= n < fs.len() implies clap_admits(fs.take(n), #[trigger] fs[n]) by {
        let prev = ps.take(n);
        assert(admits(prev, ps[n]));
        assert(fs.take(n) =~= schema_facts(prev));
        assert forall|i: int| 0 <= i < prev.len() && (#[trigger] prev[i]).kind is Positional implies prev[i].index > 0 by {
            assert(prev[i] == ps[i]);
        }
        lemma_positional_total(prev);
        assert forall|i: int| 0 <= i < n implies {
            let q = (#[trigger] fs.take(n)[i]);
            &&& q.0 != fs[n].0
            &&& fs[n].1 is Some ==> q.1 != fs[n].1
            &&& fs[n].2 is Some ==> q.2 != fs[n].2
        } by {
            assert(fs.take(n)[i] == facts_of(ps[i]));
            assert(prev[i] == ps[i]);
            assert(!clash(prev[i], ps[n]));
            assert(admits(ps.take(i), ps[i]));
        }
        if fs[n].3 > 0 {
            assert forall|i: int| 0 <= i < n && (#[trigger] fs.take(n)[i]).3 > 0 implies !fs.take(n)[i].6 && (
            fs[n].4 ==> fs.take(n)[i].4) by {
                assert(fs.take(n)[i] == facts_of(ps[i]));
                assert(prev[i] == ps[i]);
            }
        }
    }
}

/// The usage text of `schema`: clap's synopsis of its name and parameters.
pub fn render_usage(schema: &Schema) -> (r: String)
    requires
        schema.wf(),
    ensures
        r@ == usage_text(schema.name@, schema_facts(schema.models())),
        r@.len() > 0,
        usage_title(r@),
{
    let ghost ps = param_models(schema.params@);
    proof {
        lemma_consistent(ps);
    }
    let mut cmd = command_new(schema.name.as_str());
    let mut i: usize = 0;
    proof {
        assert(schema_facts(ps.take(0)) =~= Seq::<ArgFacts>::empty());
    }
    while i < schema.params.len()
        invariant
            schema.wf(),
            ps == param_models(schema.params@),
            i <= schema.params@.len(),
            command_name(cmd) == schema.name@,
            command_args(cmd) == schema_facts(ps.take(i as int)),
        decreases schema.params@.len() - i,
    {
        let p = &schema.params[i];
        proof {
            assert(admits(ps.take(i as int), ps[i as int]));
            lemma_positional_count_nonneg(ps.take(i as int));
        }
        let mut a = arg_new(p.id.as_str());
        a = arg_required(a, p.required);
        match p.kind {
            ParameterKind::Positional => {
                a = arg_index(a, p.index);
                a = arg_takes_value(a, true);
            },
            ParameterKind::OptionArg => {
                a = arg_takes_value(a, true);
            },
            ParameterKind::Flag { .. } => {
                a = arg_takes_value(a, false);
            },
        }
        a = arg_multiple_occurrences(a, p.multiple);
        match p.short {
            Some(c) => {
                a = arg_short(a, c);
            },
            None => {},
        }
        match &p.long {
            Some(l) => {
                a = arg_long(a, l.as_str());
            },
            None => {},
        }
        proof {
            assert(arg_facts(a) == facts_of(ps[i as int]));
            assert(schema_facts(ps.take(i + 1)) =~= schema_facts(ps.take(i as int)).push(facts_of(ps[i as int])));
        }
        cmd = command_arg(cmd, a);
        i = i + 1;
    }
    proof {
        assert(ps.take(i as int) =~= ps);
    }
    command_render_usage(&mut cmd)
}

} // verus!
