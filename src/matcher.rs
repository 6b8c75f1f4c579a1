//! Scanning an argument vector against a schema into a table of captured tokens.
use vstd::prelude::*;
use vstd::string::*;
use crate::value::bool_literal;
use crate::schema::{
    Schema, ParameterSpec, ParameterKind, ParamModel, answers_to, short_token, long_token,
    positional_count, opt_str_view,
};

verus! {

/// One binding found while scanning: the parameter (by its position in the schema) and
/// the token captured for it, if any (a flag's bare presence captures none).
#[derive(Debug)]
pub struct Hit {
    pub param: usize,
    pub value: Option<String>,
}

/// The subcommand selected during scanning, and the tokens after its name.
#[derive(Debug)]
pub struct SubcommandMatch {
    pub name: String,
    pub tokens: Vec<String>,
}

/// What scanning an argument vector found, in encounter order.
#[derive(Debug)]
pub struct MatchTable {
    pub hits: Vec<Hit>,
    pub subcommand: Option<SubcommandMatch>,
}

pub struct TableModel {
    pub hits: Seq<(int, Option<Seq<char>>)>,
    pub sub: Option<(Seq<char>, Seq<Seq<char>>)>,
}

impl View for Hit {
    type V = (int, Option<Seq<char>>);

    open spec fn view(&self) -> (int, Option<Seq<char>>) {
        (self.param as int, opt_str_view(self.value))
    }
}

pub open spec fn strings_view(ts: Seq<String>) -> Seq<Seq<char>> {
    ts.map_values(|t: String| t@)
}

impl View for MatchTable {
    type V = TableModel;

    open spec fn view(&self) -> TableModel {
        TableModel {
            hits: self.hits@.map_values(|h: Hit| h@),
            sub: match self.subcommand {
                Some(m) => Some((m.name@, strings_view(m.tokens@))),
                None => None,
            },
        }
    }
}

/// The first parameter from `from` on that `t` is an alias of.
pub open spec fn first_alias(ps: Seq<ParamModel>, t: Seq<char>, from: int) -> Option<int>
    decreases ps.len() - from,
{
    if from < 0 || from >= ps.len() {
        None
    } else if answers_to(ps[from], t) {
        Some(from)
    } else {
        first_alias(ps, t, from + 1)
    }
}

/// The first positional from `from` on declared with index `idx`.
pub open spec fn find_positional(ps: Seq<ParamModel>, idx: int, from: int) -> Option<int>
    decreases ps.len() - from,
{
    if from < 0 || from >= ps.len() {
        None
    } else if ps[from].kind is Positional && ps[from].index == idx {
        Some(from)
    } else {
        find_positional(ps, idx, from + 1)
    }
}

/// The first subcommand name from `from` on equal to `t`.
pub open spec fn first_command(cs: Seq<Seq<char>>, t: Seq<char>, from: int) -> Option<int>
    decreases cs.len() - from,
{
    if from < 0 || from >= cs.len() {
        None
    } else if cs[from] == t {
        Some(from)
    } else {
        first_command(cs, t, from + 1)
    }
}

/// The parameter that the `m`-th positional token (from 0) binds to: the positional
/// with index `m + 1`, or past the last one, the last one if it repeats.
pub open spec fn slot_for(ps: Seq<ParamModel>, m: int) -> Option<int> {
    let npos = positional_count(ps);
    if m < npos {
        find_positional(ps, m + 1, 0)
    } else if npos > 0 {
        match find_positional(ps, npos, 0) {
            Some(i) => if ps[i].multiple {
                Some(i)
            } else {
                None
            },
            None => None,
        }
    } else {
        None
    }
}

/// Scanning `toks` from position `i`, having found `hits` and `npos` positional tokens.
/// An alias of an option takes the next token as its value (a trailing one is dropped);
/// an alias of a flag takes nothing, or a following boolean literal when the flag is
/// optionally valued; a token that is no alias and names a subcommand ends the scan;
/// any other token binds to the next positional slot, or is left over.
pub open spec fn scan(
    ps: Seq<ParamModel>,
    cs: Seq<Seq<char>>,
    toks: Seq<Seq<char>>,
    i: int,
    hits: Seq<(int, Option<Seq<char>>)>,
    npos: int,
) -> TableModel
    decreases toks.len() - i,
{
    if i < 0 || i >= toks.len() {
        TableModel { hits, sub: None }
    } else {
        let t = toks[i];
        match first_alias(ps, t, 0) {
            Some(k) => if ps[k].kind is OptionArg {
                if i + 1 < toks.len() {
                    scan(ps, cs, toks, i + 2, hits.push((k, Some(toks[i + 1]))), npos)
                } else {
                    scan(ps, cs, toks, i + 1, hits, npos)
                }
            } else if ps[k].kind == (ParameterKind::Flag { optionally_valued: true }) && i + 1
                < toks.len() && bool_literal(toks[i + 1]) is Some {
                scan(ps, cs, toks, i + 2, hits.push((k, Some(toks[i + 1]))), npos)
            } else {
                scan(ps, cs, toks, i + 1, hits.push((k, None)), npos)
            },
            None => match first_command(cs, t, 0) {
                Some(c) => TableModel {
                    hits,
                    sub: Some((cs[c], toks.subrange(i + 1, toks.len() as int))),
                },
                None => match slot_for(ps, npos) {
                    Some(k) => scan(ps, cs, toks, i + 1, hits.push((k, Some(t))), npos + 1),
                    None => scan(ps, cs, toks, i + 1, hits, npos + 1),
                },
            },
        }
    }
}

/// The match table of `toks` under a schema with parameters `ps` and subcommands `cs`.
pub open spec fn match_spec(ps: Seq<ParamModel>, cs: Seq<Seq<char>>, toks: Seq<Seq<char>>) -> TableModel {
    scan(ps, cs, toks, 0, seq![], 0)
}

proof fn lemma_first_command_hit(cs: Seq<Seq<char>>, t: Seq<char>, from: int)
    ensures
        first_command(cs, t, from) is Some ==> {
            let c = first_command(cs, t, from)->Some_0;
            0 <= c < cs.len() && cs[c] == t
        },
    decreases cs.len() - from,
{
    if 0 <= from < cs.len() && cs[from] != t {
        lemma_first_command_hit(cs, t, from + 1);
    }
}

/// A subcommand selected by scanning is one of the schema's subcommands.
pub proof fn lemma_scan_sub(
    ps: Seq<ParamModel>,
    cs: Seq<Seq<char>>,
    toks: Seq<Seq<char>>,
    i: int,
    hits: Seq<(int, Option<Seq<char>>)>,
    npos: int,
)
    ensures
        scan(ps, cs, toks, i, hits, npos).sub is Some ==> first_command(
            cs,
            scan(ps, cs, toks, i, hits, npos).sub->Some_0.0,
            0,
        ) is Some,
    decreases toks.len() - i,
{
    if 0 <= i < toks.len() {
        let t = toks[i];
        match first_alias(ps, t, 0) {
            Some(k) => {
                if ps[k].kind is OptionArg {
                    if i + 1 < toks.len() {
                        lemma_scan_sub(ps, cs, toks, i + 2, hits.push((k, Some(toks[i + 1]))), npos);
                    } else {
                        lemma_scan_sub(ps, cs, toks, i + 1, hits, npos);
                    }
                } else if ps[k].kind == (ParameterKind::Flag { optionally_valued: true }) && i + 1
                    < toks.len() && bool_literal(toks[i + 1]) is Some {
                    lemma_scan_sub(ps, cs, toks, i + 2, hits.push((k, Some(toks[i + 1]))), npos);
                } else {
                    lemma_scan_sub(ps, cs, toks, i + 1, hits.push((k, None)), npos);
                }
            },
            None => match first_command(cs, t, 0) {
                Some(c) => {
                    lemma_first_command_hit(cs, t, 0);
                },
                None => match slot_for(ps, npos) {
                    Some(k) => {
                        lemma_scan_sub(ps, cs, toks, i + 1, hits.push((k, Some(t))), npos + 1);
                    },
                    None => {
                        lemma_scan_sub(ps, cs, toks, i + 1, hits, npos + 1);
                    },
                },
            },
        }
    }
}

pub open spec fn opt_index(o: Option<usize>) -> Option<int> {
    match o {
        Some(k) => Some(k as int),
        None => None,
    }
}

fn answers(p: &ParameterSpec, t: &str) -> (r: bool)
    ensures
        r == answers_to(p@, t@),
{
    if matches!(p.kind, ParameterKind::Positional) {
        return false;
    }
    let n = t.unicode_len();
    let short_hit = match p.short {
        Some(c) => n == 2 && t.get_char(0) == '-' && t.get_char(1) == c,
        None => false,
    };
    proof {
        if p@.short is Some && t@ == short_token(p@.short->Some_0) {
            assert(t@[0] == '-' && t@[1] == p@.short->Some_0);
        }
        if short_hit {
            assert(t@ =~= short_token(p@.short->Some_0));
        }
    }
    let long_hit = match &p.long {
        Some(l) => n >= 2 && t.get_char(0) == '-' && t.get_char(1) == '-' && t.substring_char(
            2,
            n,
        ).to_owned().eq(l),
        None => false,
    };
    proof {
        if p@.long is Some {
            let l = p@.long->Some_0;
            if t@ == long_token(l) {
                assert(t@[0] == '-' && t@[1] == '-');
                assert(t@.subrange(2, n as int) =~= l);
            }
            if long_hit {
                assert(t@ =~= long_token(l));
            }
        }
    }
    short_hit || long_hit
}

fn alias_of(params: &Vec<ParameterSpec>, t: &str) -> (r: Option<usize>)
    ensures
        opt_index(r) == first_alias(crate::schema::param_models(params@), t@, 0),
        r is Some ==> r->Some_0 < params@.len(),
{
    let ghost ps = crate::schema::param_models(params@);
    let mut j: usize = 0;
    while j < params.len()
        invariant
            ps == crate::schema::param_models(params@),
            j <= params@.len(),
            first_alias(ps, t@, 0) == first_alias(ps, t@, j as int),
        decreases params@.len() - j,
    {
        if answers(&params[j], t) {
            return Some(j);
        }
        j = j + 1;
    }
    None
}

/// The position of the subcommand named `t`, if any.
pub fn command_index(children: &Vec<Schema>, t: &str) -> (r: Option<usize>)
    ensures
        opt_index(r) == first_command(crate::schema::child_names(children@), t@, 0),
        r is Some ==> r->Some_0 < children@.len(),
{
    let ghost cs = crate::schema::child_names(children@);
    let owned = t.to_owned();
    let mut j: usize = 0;
    while j < children.len()
        invariant
            cs == crate::schema::child_names(children@),
            owned@ == t@,
            j <= children@.len(),
            first_command(cs, t@, 0) == first_command(cs, t@, j as int),
        decreases children@.len() - j,
    {
        if children[j].name.eq(&owned) {
            return Some(j);
        }
        j = j + 1;
    }
    None
}

fn count_positionals(params: &Vec<ParameterSpec>) -> (r: usize)
    ensures
        r as int == positional_count(crate::schema::param_models(params@)),
{
    let ghost ps = crate::schema::param_models(params@);
    let mut j: usize = 0;
    let mut c: usize = 0;
    while j < params.len()
        invariant
            ps == crate::schema::param_models(params@),
            j <= params@.len(),
            c <= j,
            c as int == positional_count(ps.take(j as int)),
        decreases params@.len() - j,
    {
        proof {
            assert(ps.take(j + 1).drop_last() =~= ps.take(j as int));
        }
        if matches!(params[j].kind, ParameterKind::Positional) {
            c = c + 1;
        }
        j = j + 1;
    }
    proof {
        assert(ps.take(j as int) =~= ps);
    }
    c
}

fn positional_at(params: &Vec<ParameterSpec>, idx: usize) -> (r: Option<usize>)
    ensures
        opt_index(r) == find_positional(crate::schema::param_models(params@), idx as int, 0),
        r is Some ==> r->Some_0 < params@.len(),
{
    let ghost ps = crate::schema::param_models(params@);
    let mut j: usize = 0;
    while j < params.len()
        invariant
            ps == crate::schema::param_models(params@),
            j <= params@.len(),
            find_positional(ps, idx as int, 0) == find_positional(ps, idx as int, j as int),
        decreases params@.len() - j,
    {
        if matches!(params[j].kind, ParameterKind::Positional) && params[j].index == idx {
            return Some(j);
        }
        j = j + 1;
    }
    None
}

fn slot(params: &Vec<ParameterSpec>, m: usize) -> (r: Option<usize>)
    ensures
        opt_index(r) == slot_for(crate::schema::param_models(params@), m as int),
        r is Some ==> r->Some_0 < params@.len(),
{
    let npos = count_positionals(params);
    if m < npos {
        positional_at(params, m + 1)
    } else if npos > 0 {
        match positional_at(params, npos) {
            Some(i) => if params[i].multiple {
                Some(i)
            } else {
                None
            },
            None => None,
        }
    } else {
        None
    }
}

fn is_bool_text(s: &str) -> (r: bool)
    ensures
        r == (bool_literal(s@) is Some),
{
    let n = s.unicode_len();
    let t = n == 4 && s.get_char(0) == 't' && s.get_char(1) == 'r' && s.get_char(2) == 'u'
        && s.get_char(3) == 'e';
    let f = n == 5 && s.get_char(0) == 'f' && s.get_char(1) == 'a' && s.get_char(2) == 'l'
        && s.get_char(3) == 's' && s.get_char(4) == 'e';
    proof {
        if t {
            assert(s@ =~= seq!['t', 'r', 'u', 'e']);
        }
        if f {
            assert(s@ =~= seq!['f', 'a', 'l', 's', 'e']);
        }
        if s@ == seq!['t', 'r', 'u', 'e'] {
            assert(s@[3] == 'e');
        }
        if s@ == seq!['f', 'a', 'l', 's', 'e'] {
            assert(s@[4] == 'e');
        }
    }
    t || f
}

/// Scans `tokens` (the program name already removed) against `schema`.
/// Scanning never fails: what binds nowhere is left out of the table.
pub fn match_tokens(schema: &Schema, tokens: &Vec<String>) -> (r: MatchTable)
    ensures
        r@ == match_spec(schema.models(), schema.commands(), strings_view(tokens@)),
        forall|j: int| 0 <= j < r.hits@.len() ==> (#[trigger] r.hits@[j]).param < schema.params@.len(),
{
    let ghost ps = schema.models();
    let ghost cs = schema.commands();
    let ghost ts = strings_view(tokens@);
    let n = tokens.len();
    let mut hits: Vec<Hit> = Vec::new();
    let mut npos: usize = 0;
    let mut i: usize = 0;
    assert(hits@.map_values(|h: Hit| h@) =~= seq![]);
    while i < n
        invariant
            ps == schema.models(),
            cs == schema.commands(),
            ts == strings_view(tokens@),
            n == tokens@.len(),
            i <= n + 1,
            npos <= i,
            match_spec(ps, cs, ts) == scan(ps, cs, ts, i as int, hits@.map_values(|h: Hit| h@), npos as int),
            forall|j: int| 0 <= j < hits@.len() ==> (#[trigger] hits@[j]).param < schema.params@.len(),
        decreases n + 1 - i,
    {
        let ghost hv = hits@.map_values(|h: Hit| h@);
        let t = tokens[i].as_str();
        assert(t@ == ts[i as int]);
        match alias_of(&schema.params, t) {
            Some(k) => {
                let kind = schema.params[k].kind;
                if matches!(kind, ParameterKind::OptionArg) {
                    if i + 1 < n {
                        hits.push(Hit { param: k, value: Some(tokens[i + 1].clone()) });
                        proof {
                            assert(hits@.map_values(|h: Hit| h@) =~= hv.push((k as int, Some(ts[i + 1]))));
                        }
                        i = i + 2;
                    } else {
                        i = i + 1;
                    }
                } else if kind == (ParameterKind::Flag { optionally_valued: true }) && i + 1 < n
                    && is_bool_text(tokens[i + 1].as_str()) {
                    hits.push(Hit { param: k, value: Some(tokens[i + 1].clone()) });
                    proof {
                        assert(hits@.map_values(|h: Hit| h@) =~= hv.push((k as int, Some(ts[i + 1]))));
                    }
                    i = i + 2;
                } else {
                    hits.push(Hit { param: k, value: None });
                    proof {
                        assert(hits@.map_values(|h: Hit| h@) =~= hv.push((k as int, None)));
                    }
                    i = i + 1;
                }
            },
            None => {
                match command_index(&schema.children, t) {
                    Some(c) => {
                        let mut rest: Vec<String> = Vec::new();
                        let mut j = i + 1;
                        while j < n
                            invariant
                                ts == strings_view(tokens@),
                                n == tokens@.len(),
                                i + 1 <= j <= n,
                                strings_view(rest@) == ts.subrange(i + 1, j as int),
                            decreases n - j,
                        {
                            let ghost before = rest@;
                            rest.push(tokens[j].clone());
                            proof {
                                assert(strings_view(rest@) =~= strings_view(before).push(ts[j as int]));
                                assert(ts.subrange(i + 1, j + 1) =~= ts.subrange(i + 1, j as int).push(ts[j as int]));
                            }
                            j = j + 1;
                        }
                        let name = schema.children[c].name.clone();
                        return MatchTable {
                            hits,
                            subcommand: Some(SubcommandMatch { name, tokens: rest }),
                        };
                    },
                    None => {
                        match slot(&schema.params, npos) {
                            Some(k) => {
                                hits.push(Hit { param: k, value: Some(tokens[i].clone()) });
                                proof {
                                    assert(hits@.map_values(|h: Hit| h@) =~= hv.push((k as int, Some(ts[i as int]))));
                                }
                            },
                            None => {},
                        }
                        npos = npos + 1;
                        i = i + 1;
                    },
                }
            },
        }
    }
    MatchTable { hits, subcommand: None }
}

} // verus!
