//! Properties that hold of every schema and every argument vector.
use vstd::prelude::*;
use crate::value::{ValueType, Val};
use crate::schema::{Schema, ParamModel};
use crate::matcher::{match_spec, scan, first_alias, TableModel};
use crate::engine::{
    Field, Failure, bind_spec, bind_prefix, bind_field, coerce_all, coerce_occ, values_for, parse_spec,
    lemma_bind_err_stays,
};

verus! {

proof fn lemma_coerce_all_ok(ty: ValueType, os: Seq<Option<Seq<char>>>)
    ensures
        coerce_all(ty, os) is Ok <==> forall|i: int| 0 <= i < os.len() ==> (#[trigger] coerce_occ(ty, os[i])) is Some,
        coerce_all(ty, os) is Ok ==> ({
            let vs = coerce_all(ty, os)->Ok_0;
            vs.len() == os.len() && forall|i: int| 0 <= i < os.len() ==> coerce_occ(ty, #[trigger] os[i]) == Some(vs[i])
        }),
    decreases os.len(),
{
    if os.len() > 0 {
        let pre = os.drop_last();
        lemma_coerce_all_ok(ty, pre);
        assert forall|i: int| 0 <= i < pre.len() implies #[trigger] pre[i] == os[i] by {}
        if coerce_all(ty, os) is Ok {
            let vs = coerce_all(ty, os)->Ok_0;
            assert forall|i: int| 0 <= i < os.len() implies coerce_occ(ty, #[trigger] os[i]) == Some(vs[i]) by {
                if i < os.len() - 1 {
                    assert(pre[i] == os[i]);
                }
            }
        }
        if forall|i: int| 0 <= i < os.len() ==> (#[trigger] coerce_occ(ty, os[i])) is Some {
            assert forall|i: int| 0 <= i < pre.len() implies (#[trigger] coerce_occ(ty, pre[i])) is Some by {
                assert(pre[i] == os[i]);
            }
            assert(coerce_occ(ty, os[os.len() - 1]) is Some);
        }
    }
}

proof fn lemma_bind_prefix_fields(ps: Seq<ParamModel>, hits: Seq<(int, Option<Seq<char>>)>, ai: bool, n: int)
    requires
        0 <= n <= ps.len(),
    ensures
        bind_prefix(ps, hits, ai, n) is Ok <==> forall|j: int|
            0 <= j < n ==> (#[trigger] bind_field(ps[j], values_for(hits, j), ai)) is Ok,
        bind_prefix(ps, hits, ai, n) is Ok ==> ({
            let fs = bind_prefix(ps, hits, ai, n)->Ok_0;
            fs.len() == n && forall|j: int|
                0 <= j < n ==> #[trigger] bind_field(ps[j], values_for(hits, j), ai) == Ok::<Field, Failure>(fs[j])
        }),
        bind_prefix(ps, hits, ai, n) is Err ==> exists|j: int|
            0 <= j < n && #[trigger] bind_field(ps[j], values_for(hits, j), ai) == Err::<Field, Failure>(
                bind_prefix(ps, hits, ai, n)->Err_0,
            ),
    decreases n,
{
    if n > 0 {
        lemma_bind_prefix_fields(ps, hits, ai, n - 1);
        let last = bind_field(ps[n - 1], values_for(hits, n - 1), ai);
        if bind_prefix(ps, hits, ai, n) is Ok {
            let fs = bind_prefix(ps, hits, ai, n)->Ok_0;
            let prev = bind_prefix(ps, hits, ai, n - 1)->Ok_0;
            assert forall|j: int| 0 <= j < n implies #[trigger] bind_field(ps[j], values_for(hits, j), ai)
                == Ok::<Field, Failure>(fs[j]) by {
                if j < n - 1 {
                    assert(fs[j] == prev[j]);
                }
            }
        }
        if bind_prefix(ps, hits, ai, n) is Err {
            if bind_prefix(ps, hits, ai, n - 1) is Ok {
                assert(last == Err::<Field, Failure>(bind_prefix(ps, hits, ai, n)->Err_0));
            }
        }
    }
}

proof fn lemma_bind_fields(ps: Seq<ParamModel>, hits: Seq<(int, Option<Seq<char>>)>, ai: bool)
    ensures
        bind_spec(ps, hits, ai) is Ok <==> forall|j: int|
            0 <= j < ps.len() ==> (#[trigger] bind_field(ps[j], values_for(hits, j), ai)) is Ok,
        bind_spec(ps, hits, ai) is Ok ==> ({
            let fs = bind_spec(ps, hits, ai)->Ok_0;
            fs.len() == ps.len() && forall|j: int|
                0 <= j < ps.len() ==> #[trigger] bind_field(ps[j], values_for(hits, j), ai) == Ok::<Field, Failure>(fs[j])
        }),
        bind_spec(ps, hits, ai) is Err ==> exists|j: int|
            0 <= j < ps.len() && #[trigger] bind_field(ps[j], values_for(hits, j), ai) == Err::<Field, Failure>(
                bind_spec(ps, hits, ai)->Err_0,
            ),
{
    lemma_bind_prefix_fields(ps, hits, ai, ps.len() as int);
}

/// Every supplied value of every parameter converts.
pub open spec fn all_supplied_convert(ps: Seq<ParamModel>, hits: Seq<(int, Option<Seq<char>>)>) -> bool {
    forall|j: int|
        0 <= j < ps.len() && values_for(hits, j).len() > 0 ==> (#[trigger] coerce_all(ps[j].ty, values_for(hits, j))) is Ok
}

/// A required parameter that no token binds makes a complete parse fail; when every
/// supplied value converts, that failure is a missing-required error and the same parse
/// with `allow_incomplete` succeeds.
pub proof fn missing_required_fails(s: Schema, toks: Seq<Seq<char>>, k: int)
    requires
        0 <= k < s.models().len(),
        s.models()[k].required,
        values_for(match_spec(s.models(), s.commands(), toks).hits, k).len() == 0,
    ensures
        parse_spec(s, toks, false) is Err,
        all_supplied_convert(s.models(), match_spec(s.models(), s.commands(), toks).hits) ==> {
            &&& parse_spec(s, toks, false)->Err_0 is Missing
            &&& parse_spec(s, toks, true) is Ok
        },
{
    let ps = s.models();
    let hits = match_spec(ps, s.commands(), toks).hits;
    lemma_bind_fields(ps, hits, false);
    lemma_bind_fields(ps, hits, true);
    assert(bind_field(ps[k], values_for(hits, k), false) is Err);
    if all_supplied_convert(ps, hits) {
        let e = bind_spec(ps, hits, false)->Err_0;
        let j = choose|j: int|
            0 <= j < ps.len() && #[trigger] bind_field(ps[j], values_for(hits, j), false) == Err::<Field, Failure>(e);
        if values_for(hits, j).len() > 0 {
            assert(coerce_all(ps[j].ty, values_for(hits, j)) is Ok);
        }
        assert forall|j: int| 0 <= j < ps.len() implies (#[trigger] bind_field(ps[j], values_for(hits, j), true)) is Ok by {
            if values_for(hits, j).len() > 0 {
                assert(coerce_all(ps[j].ty, values_for(hits, j)) is Ok);
            }
        }
    }
}

/// When required parameter `k` captured nothing and every parameter before it binds,
/// a complete bind fails naming `k`; when every supplied value converts, a bind with
/// `allow_incomplete` succeeds and leaves `k` absent.
pub proof fn missing_required_is_named(ps: Seq<ParamModel>, hits: Seq<(int, Option<Seq<char>>)>, k: int)
    requires
        0 <= k < ps.len(),
        ps[k].required,
        values_for(hits, k).len() == 0,
        forall|j: int| 0 <= j < k ==> (#[trigger] bind_field(ps[j], values_for(hits, j), false)) is Ok,
    ensures
        bind_spec(ps, hits, false) == Err::<Seq<Field>, Failure>(Failure::Missing(ps[k].id)),
        all_supplied_convert(ps, hits) ==> {
            &&& bind_spec(ps, hits, true) is Ok
            &&& bind_spec(ps, hits, true)->Ok_0[k] is Absent
        },
{
    lemma_bind_prefix_fields(ps, hits, false, k);
    assert(bind_prefix(ps, hits, false, k + 1) == Err::<Seq<Field>, Failure>(Failure::Missing(ps[k].id)));
    lemma_bind_err_stays(ps, hits, false, k + 1, ps.len() as int);
    lemma_bind_fields(ps, hits, true);
    if all_supplied_convert(ps, hits) {
        assert forall|j: int| 0 <= j < ps.len() implies (#[trigger] bind_field(ps[j], values_for(hits, j), true)) is Ok by {
            if values_for(hits, j).len() > 0 {
                assert(coerce_all(ps[j].ty, values_for(hits, j)) is Ok);
            }
        }
        assert(bind_field(ps[k], values_for(hits, k), true) == Ok::<Field, Failure>(Field::Absent));
    }
}

/// A repeating parameter binds to the list of its values, one per occurrence, each the
/// conversion of its token, in the order the tokens were captured.
pub proof fn repeated_values_in_order(ps: Seq<ParamModel>, hits: Seq<(int, Option<Seq<char>>)>, allow_incomplete: bool, k: int)
    requires
        0 <= k < ps.len(),
        ps[k].multiple,
        values_for(hits, k).len() > 0,
        bind_spec(ps, hits, allow_incomplete) is Ok,
    ensures
        ({
            let f = bind_spec(ps, hits, allow_incomplete)->Ok_0[k];
            let os = values_for(hits, k);
            &&& f is Many
            &&& f->Many_0.len() == os.len()
            &&& forall|i: int| 0 <= i < os.len() ==> coerce_occ(ps[k].ty, #[trigger] os[i]) == Some(f->Many_0[i])
        }),
{
    lemma_bind_fields(ps, hits, allow_incomplete);
    assert(bind_field(ps[k], values_for(hits, k), allow_incomplete) is Ok);
    lemma_coerce_all_ok(ps[k].ty, values_for(hits, k));
}

/// The tokens `a v0 a v1 ...`: each of `vs` preceded by the alias `a`.
pub open spec fn option_pairs(a: Seq<char>, vs: Seq<Seq<char>>) -> Seq<Seq<char>>
    decreases vs.len(),
{
    if vs.len() == 0 {
        seq![]
    } else {
        option_pairs(a, vs.drop_last()).push(a).push(vs.last())
    }
}

spec fn pair_at(a: Seq<char>, vs: Seq<Seq<char>>, i: int) -> bool {
    option_pairs(a, vs)[2 * i] == a && option_pairs(a, vs)[2 * i + 1] == vs[i]
}

proof fn lemma_option_pairs(a: Seq<char>, vs: Seq<Seq<char>>)
    ensures
        option_pairs(a, vs).len() == 2 * vs.len(),
        forall|i: int| 0 <= i < vs.len() ==> #[trigger] pair_at(a, vs, i),
    decreases vs.len(),
{
    if vs.len() > 0 {
        let pre = vs.drop_last();
        lemma_option_pairs(a, pre);
        let t = option_pairs(a, vs);
        let tp = option_pairs(a, pre);
        assert(t == tp.push(a).push(vs.last()));
        assert forall|i: int| 0 <= i < vs.len() implies #[trigger] pair_at(a, vs, i) by {
            if i < vs.len() - 1 {
                assert(pre[i] == vs[i]);
                assert(pair_at(a, pre, i));
                assert(tp[2 * i] == a && tp[2 * i + 1] == pre[i]);
                assert(t[2 * i] == tp[2 * i]);
                assert(t[2 * i + 1] == tp[2 * i + 1]);
            } else {
                assert(t[2 * i] == a);
                assert(t[2 * i + 1] == vs.last());
            }
        }
        assert(t.len() == 2 * vs.len());
    }
}

pub open spec fn option_hits(k: int, vs: Seq<Seq<char>>, j: int) -> Seq<(int, Option<Seq<char>>)> {
    Seq::new(j as nat, |i: int| (k, Some(vs[i])))
}

proof fn lemma_scan_pairs(
    ps: Seq<ParamModel>,
    cs: Seq<Seq<char>>,
    a: Seq<char>,
    vs: Seq<Seq<char>>,
    k: int,
    j: int,
)
    requires
        0 <= k < ps.len(),
        first_alias(ps, a, 0) == Some(k),
        ps[k].kind is OptionArg,
        0 <= j <= vs.len(),
    ensures
        scan(ps, cs, option_pairs(a, vs), 2 * j, option_hits(k, vs, j), 0) == (TableModel {
            hits: option_hits(k, vs, vs.len() as int),
            sub: None,
        }),
    decreases vs.len() - j,
{
    lemma_option_pairs(a, vs);
    if j < vs.len() {
        lemma_scan_pairs(ps, cs, a, vs, k, j + 1);
        assert(option_hits(k, vs, j).push((k, Some(vs[j]))) =~= option_hits(k, vs, j + 1));
        assert(pair_at(a, vs, j));
    }
}

proof fn lemma_values_for_hits(k: int, vs: Seq<Seq<char>>, j: int)
    requires
        0 <= j <= vs.len(),
    ensures
        values_for(option_hits(k, vs, j), k) == vs.take(j).map_values(|v: Seq<char>| Some(v)),
    decreases j,
{
    if j > 0 {
        lemma_values_for_hits(k, vs, j - 1);
        assert(option_hits(k, vs, j).drop_last() =~= option_hits(k, vs, j - 1));
        assert(vs.take(j).map_values(|v: Seq<char>| Some(v)) =~= vs.take(j - 1).map_values(
            |v: Seq<char>| Some(v),
        ).push(Some(vs[j - 1])));
    } else {
        assert(vs.take(0).map_values(|v: Seq<char>| Some(v)) =~= seq![]);
    }
}

/// Occurrences `a v0 a v1 ...` of an option's alias capture exactly the values
/// `v0 v1 ...`, in that order.
pub proof fn option_occurrences_in_order(
    ps: Seq<ParamModel>,
    cs: Seq<Seq<char>>,
    a: Seq<char>,
    vs: Seq<Seq<char>>,
    k: int,
)
    requires
        0 <= k < ps.len(),
        first_alias(ps, a, 0) == Some(k),
        ps[k].kind is OptionArg,
    ensures
        values_for(match_spec(ps, cs, option_pairs(a, vs)).hits, k) == vs.map_values(|v: Seq<char>| Some(v)),
{
    lemma_scan_pairs(ps, cs, a, vs, k, 0);
    assert(option_hits(k, vs, 0) =~= seq![]);
    lemma_values_for_hits(k, vs, vs.len() as int);
    assert(vs.take(vs.len() as int) =~= vs);
}

/// A captured token that does not convert to its parameter's type makes the parse fail
/// whether or not it is incomplete; when every other parameter binds, the failure is
/// the conversion failure of that parameter and token.
pub proof fn conversion_failure_regardless(ps: Seq<ParamModel>, hits: Seq<(int, Option<Seq<char>>)>, k: int)
    requires
        0 <= k < ps.len(),
        coerce_all(ps[k].ty, values_for(hits, k)) is Err,
    ensures
        bind_spec(ps, hits, false) is Err,
        bind_spec(ps, hits, true) is Err,
        (forall|j: int| 0 <= j < ps.len() && j != k ==> (#[trigger] bind_field(ps[j], values_for(hits, j), false)) is Ok) ==> {
            let e = Failure::Conversion(ps[k].id, coerce_all(ps[k].ty, values_for(hits, k))->Err_0);
            &&& bind_spec(ps, hits, false) == Err::<Seq<Field>, Failure>(e)
            &&& bind_spec(ps, hits, true) == Err::<Seq<Field>, Failure>(e)
        },
{
    let os = values_for(hits, k);
    assert(os.len() > 0);
    lemma_bind_fields(ps, hits, false);
    lemma_bind_fields(ps, hits, true);
    assert(bind_field(ps[k], os, false) is Err);
    assert(bind_field(ps[k], os, true) is Err);
    if forall|j: int| 0 <= j < ps.len() && j != k ==> (#[trigger] bind_field(ps[j], values_for(hits, j), false)) is Ok {
        assert forall|j: int| 0 <= j < ps.len() && j != k implies (#[trigger] bind_field(ps[j], values_for(hits, j), true)) is Ok by {
            assert(bind_field(ps[j], values_for(hits, j), false) is Ok);
        }
        let e1 = bind_spec(ps, hits, false)->Err_0;
        let j1 = choose|j: int|
            0 <= j < ps.len() && #[trigger] bind_field(ps[j], values_for(hits, j), false) == Err::<Field, Failure>(e1);
        assert(j1 == k);
        let e2 = bind_spec(ps, hits, true)->Err_0;
        let j2 = choose|j: int|
            0 <= j < ps.len() && #[trigger] bind_field(ps[j], values_for(hits, j), true) == Err::<Field, Failure>(e2);
        assert(j2 == k);
    }
}

/// A flag given without a value binds to `true`; a flag not given binds to nothing, so
/// that its getter falls back to the declared default and its presence query is false.
pub proof fn flag_presence(ps: Seq<ParamModel>, hits: Seq<(int, Option<Seq<char>>)>, allow_incomplete: bool, k: int)
    requires
        0 <= k < ps.len(),
        ps[k].kind is Flag,
        ps[k].ty == ValueType::Bool,
        !ps[k].multiple,
        bind_spec(ps, hits, allow_incomplete) is Ok,
    ensures
        values_for(hits, k).len() > 0 && values_for(hits, k).last() is None ==> bind_spec(ps, hits, allow_incomplete)->Ok_0[k]
            == Field::One(Val::Truth(true)),
        values_for(hits, k).len() == 0 ==> bind_spec(ps, hits, allow_incomplete)->Ok_0[k] is Absent,
{
    lemma_bind_fields(ps, hits, allow_incomplete);
    assert(bind_field(ps[k], values_for(hits, k), allow_incomplete) is Ok);
    let os = values_for(hits, k);
    if os.len() > 0 {
        lemma_coerce_all_ok(ps[k].ty, os);
        assert(os[os.len() - 1] == os.last());
    }
}

/// Parsing is a function of the schema, the tokens and the mode: two parses of the same
/// input give field-for-field equal results.
pub proof fn parse_is_deterministic(
    s1: Schema,
    s2: Schema,
    toks: Seq<Seq<char>>,
    allow_incomplete: bool,
)
    requires
        s1.models() == s2.models(),
        s1.commands() == s2.commands(),
    ensures
        parse_spec(s1, toks, allow_incomplete) == parse_spec(s2, toks, allow_incomplete),
{
}

} // verus!
