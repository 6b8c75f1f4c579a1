//! Reading typed fields back out of a configuration.
use vstd::prelude::*;
use crate::value::{Value, ValueType, Val, coerce_spec, digits_value};
use crate::schema::{ParamModel, val_has_type};
use crate::matcher::strings_view;
use crate::engine::{TypedConfig, FieldValue, Field, bind_spec, bind_prefix, coerce_all, values_for, vals_view};

verus! {

/// `f` has the shape and type that parameter `p` produces.
pub open spec fn field_conforms(f: Field, p: ParamModel) -> bool {
    match f {
        Field::Absent => true,
        Field::One(v) => !p.multiple && val_has_type(v, p.ty),
        Field::Many(vs) => p.multiple && forall|i: int| 0 <= i < vs.len() ==> val_has_type(#[trigger] vs[i], p.ty),
    }
}

/// `fs` is a possible typed result for parameters `ps`.
pub open spec fn conforms(fs: Seq<Field>, ps: Seq<ParamModel>) -> bool {
    fs.len() == ps.len() && forall|i: int| 0 <= i < fs.len() ==> field_conforms(#[trigger] fs[i], ps[i])
}

/// A scalar or every element of a list has type `ty`.
pub open spec fn field_has_type(f: Field, ty: ValueType) -> bool {
    match f {
        Field::Absent => true,
        Field::One(v) => val_has_type(v, ty),
        Field::Many(vs) => forall|i: int| 0 <= i < vs.len() ==> val_has_type(#[trigger] vs[i], ty),
    }
}

pub open spec fn is_present(f: Field) -> bool {
    !(f is Absent)
}

pub open spec fn int_or(f: Field, d: int) -> int {
    match f {
        Field::One(Val::Int(n)) => n,
        _ => d,
    }
}

pub open spec fn truth_or(f: Field, d: bool) -> bool {
    match f {
        Field::One(Val::Truth(b)) => b,
        _ => d,
    }
}

pub open spec fn text_or(f: Field, d: Seq<char>) -> Seq<char> {
    match f {
        Field::One(Val::Text(s)) => s,
        Field::One(Val::Real(s)) => s,
        _ => d,
    }
}

pub open spec fn list_of(f: Field) -> Seq<Val> {
    match f {
        Field::Many(vs) => vs,
        _ => seq![],
    }
}

pub open spec fn truth_of(v: Val) -> bool {
    match v {
        Val::Truth(b) => b,
        _ => false,
    }
}

pub open spec fn int_of(v: Val) -> int {
    match v {
        Val::Int(n) => n,
        _ => 0,
    }
}

pub open spec fn text_of(v: Val) -> Seq<char> {
    match v {
        Val::Text(s) => s,
        _ => seq![],
    }
}

proof fn lemma_digits_nonneg(s: Seq<char>)
    requires
        crate::value::all_digits(s),
    ensures
        digits_value(s) >= 0,
    decreases s.len(),
{
    if s.len() > 0 {
        assert(crate::value::is_digit(s[s.len() - 1]));
        assert forall|i: int| 0 <= i < s.drop_last().len() implies crate::value::is_digit(
            #[trigger] s.drop_last()[i],
        ) by {
            assert(s.drop_last()[i] == s[i]);
        }
        lemma_digits_nonneg(s.drop_last());
    }
}

proof fn lemma_coerce_typed(ty: ValueType, s: Seq<char>)
    ensures
        coerce_spec(ty, s) is Some ==> val_has_type(coerce_spec(ty, s)->Some_0, ty),
{
    let body = if s.len() > 0 && s[0] == '+' { s.drop_first() } else { s };
    if body.len() > 0 && crate::value::all_digits(body) {
        lemma_digits_nonneg(body);
    }
}

proof fn lemma_coerce_all_typed(ty: ValueType, os: Seq<Option<Seq<char>>>)
    ensures
        coerce_all(ty, os) is Ok ==> ({
            let vs = coerce_all(ty, os)->Ok_0;
            vs.len() == os.len() && forall|i: int| 0 <= i < vs.len() ==> val_has_type(#[trigger] vs[i], ty)
        }),
    decreases os.len(),
{
    if os.len() > 0 {
        lemma_coerce_all_typed(ty, os.drop_last());
        match os.last() {
            Some(s) => lemma_coerce_typed(ty, s),
            None => {},
        }
    }
}

proof fn lemma_bind_prefix_conforms(
    ps: Seq<ParamModel>,
    hits: Seq<(int, Option<Seq<char>>)>,
    ai: bool,
    n: int,
)
    requires
        0 <= n <= ps.len(),
    ensures
        bind_prefix(ps, hits, ai, n) is Ok ==> conforms(bind_prefix(ps, hits, ai, n)->Ok_0, ps.take(n)),
    decreases n,
{
    if n > 0 {
        lemma_bind_prefix_conforms(ps, hits, ai, n - 1);
        lemma_coerce_all_typed(ps[n - 1].ty, values_for(hits, n - 1));
        if bind_prefix(ps, hits, ai, n) is Ok {
            let fs = bind_prefix(ps, hits, ai, n)->Ok_0;
            let prev = bind_prefix(ps, hits, ai, n - 1)->Ok_0;
            assert forall|i: int| 0 <= i < fs.len() implies field_conforms(#[trigger] fs[i], ps.take(n)[i]) by {
                if i < n - 1 {
                    assert(fs[i] == prev[i]);
                    assert(ps.take(n - 1)[i] == ps.take(n)[i]);
                }
            }
        }
    }
}

/// A successful bind yields one conforming field per parameter.
pub proof fn lemma_bind_conforms(ps: Seq<ParamModel>, hits: Seq<(int, Option<Seq<char>>)>, ai: bool)
    ensures
        bind_spec(ps, hits, ai) is Ok ==> conforms(bind_spec(ps, hits, ai)->Ok_0, ps),
{
    lemma_bind_prefix_conforms(ps, hits, ai, ps.len() as int);
    assert(ps.take(ps.len() as int) =~= ps);
}

impl TypedConfig {
    /// Whether field `i` captured anything.
    pub fn present(&self, i: usize) -> (r: bool)
        requires
            i < self@.len(),
        ensures
            r == is_present(self@[i as int]),
    {
        !matches!(self.fields[i], FieldValue::Absent)
    }

    /// Field `i` as a `u64`, or `d` when absent.
    pub fn u64_or(&self, i: usize, d: u64) -> (r: u64)
        requires
            i < self@.len(),
            field_has_type(self@[i as int], ValueType::U64),
        ensures
            r as int == int_or(self@[i as int], d as int),
    {
        match &self.fields[i] {
            FieldValue::Scalar(Value::U64(n)) => *n,
            FieldValue::Scalar(Value::U32(n)) => *n as u64,
            FieldValue::Scalar(Value::I32(n)) => *n as u64,
            _ => d,
        }
    }

    /// Field `i` as a `u32`, or `d` when absent.
    pub fn u32_or(&self, i: usize, d: u32) -> (r: u32)
        requires
            i < self@.len(),
            field_has_type(self@[i as int], ValueType::U32),
        ensures
            r as int == int_or(self@[i as int], d as int),
    {
        match &self.fields[i] {
            FieldValue::Scalar(Value::U64(n)) => *n as u32,
            FieldValue::Scalar(Value::U32(n)) => *n,
            FieldValue::Scalar(Value::I32(n)) => *n as u32,
            _ => d,
        }
    }

    /// Field `i` as an `i32`, or `d` when absent.
    pub fn i32_or(&self, i: usize, d: i32) -> (r: i32)
        requires
            i < self@.len(),
            field_has_type(self@[i as int], ValueType::I32),
        ensures
            r as int == int_or(self@[i as int], d as int),
    {
        match &self.fields[i] {
            FieldValue::Scalar(Value::U64(n)) => *n as i32,
            FieldValue::Scalar(Value::U32(n)) => *n as i32,
            FieldValue::Scalar(Value::I32(n)) => *n,
            _ => d,
        }
    }

    /// Field `i` as a `bool`, or `d` when absent.
    pub fn bool_or(&self, i: usize, d: bool) -> (r: bool)
        requires
            i < self@.len(),
        ensures
            r == truth_or(self@[i as int], d),
    {
        match &self.fields[i] {
            FieldValue::Scalar(Value::Bool(b)) => *b,
            _ => d,
        }
    }

    /// Field `i` as text (a string, or a float's literal), or `d` when absent.
    pub fn text_or(&self, i: usize, d: &str) -> (r: String)
        requires
            i < self@.len(),
        ensures
            r@ == text_or(self@[i as int], d@),
    {
        match &self.fields[i] {
            FieldValue::Scalar(Value::Str(s)) => s.clone(),
            FieldValue::Scalar(Value::Float(s)) => s.clone(),
            _ => d.to_owned(),
        }
    }

    /// The booleans of list field `i` (empty when absent).
    pub fn bools(&self, i: usize) -> (r: Vec<bool>)
        requires
            i < self@.len(),
        ensures
            r@ == list_of(self@[i as int]).map_values(|v: Val| truth_of(v)),
    {
        let mut out: Vec<bool> = Vec::new();
        match &self.fields[i] {
            FieldValue::List(vs) => {
                let mut j: usize = 0;
                while j < vs.len()
                    invariant
                        j <= vs@.len(),
                        out@ == vals_view(vs@).take(j as int).map_values(|v: Val| truth_of(v)),
                    decreases vs@.len() - j,
                {
                    let b = match &vs[j] {
                        Value::Bool(b) => *b,
                        _ => false,
                    };
                    proof {
                        let all = vals_view(vs@);
                        assert(all.take(j + 1) =~= all.take(j as int).push(all[j as int]));
                    }
                    out.push(b);
                    proof {
                        let all = vals_view(vs@);
                        assert(out@ =~= all.take(j + 1).map_values(|v: Val| truth_of(v)));
                    }
                    j = j + 1;
                }
                proof {
                    assert(vals_view(vs@).take(j as int) =~= vals_view(vs@));
                }
            },
            _ => {
                assert(out@ =~= list_of(self@[i as int]).map_values(|v: Val| truth_of(v)));
            },
        }
        out
    }

    /// The integers of list field `i` (empty when absent).
    pub fn i32s(&self, i: usize) -> (r: Vec<i32>)
        requires
            i < self@.len(),
            field_has_type(self@[i as int], ValueType::I32),
        ensures
            r@.map_values(|x: i32| x as int) == list_of(self@[i as int]).map_values(|v: Val| int_of(v)),
    {
        let mut out: Vec<i32> = Vec::new();
        match &self.fields[i] {
            FieldValue::List(vs) => {
                let mut j: usize = 0;
                while j < vs.len()
                    invariant
                        j <= vs@.len(),
                        i < self@.len(),
                        field_has_type(self@[i as int], ValueType::I32),
                        self@[i as int] == Field::Many(vals_view(vs@)),
                        out@.map_values(|x: i32| x as int) == vals_view(vs@).take(j as int).map_values(|v: Val| int_of(v)),
                    decreases vs@.len() - j,
                {
                    let ghost all = vals_view(vs@);
                    proof {
                        let f = self@[i as int];
                        assert(f == Field::Many(all));
                        assert(field_has_type(f, ValueType::I32));
                        assert(forall|k: int| 0 <= k < all.len() ==> val_has_type(#[trigger] all[k], ValueType::I32));
                        assert(val_has_type(all[j as int], ValueType::I32));
                    }
                    let x = match &vs[j] {
                        Value::I32(n) => *n,
                        Value::U32(n) => *n as i32,
                        Value::U64(n) => *n as i32,
                        _ => 0,
                    };
                    let ghost before = out@;
                    out.push(x);
                    proof {
                        assert(all.take(j + 1) =~= all.take(j as int).push(all[j as int]));
                        assert(out@.map_values(|x: i32| x as int) =~= before.map_values(|x: i32| x as int).push(x as int));
                    }
                    j = j + 1;
                }
                proof {
                    assert(vals_view(vs@).take(j as int) =~= vals_view(vs@));
                }
            },
            _ => {
                assert(out@.map_values(|x: i32| x as int) =~= list_of(self@[i as int]).map_values(|v: Val| int_of(v)));
            },
        }
        out
    }

    /// The texts of list field `i` (empty when absent).
    pub fn texts(&self, i: usize) -> (r: Vec<String>)
        requires
            i < self@.len(),
        ensures
            strings_view(r@) == list_of(self@[i as int]).map_values(|v: Val| text_of(v)),
    {
        let mut out: Vec<String> = Vec::new();
        match &self.fields[i] {
            FieldValue::List(vs) => {
                let mut j: usize = 0;
                while j < vs.len()
                    invariant
                        j <= vs@.len(),
                        strings_view(out@) == vals_view(vs@).take(j as int).map_values(|v: Val| text_of(v)),
                    decreases vs@.len() - j,
                {
                    let ghost all = vals_view(vs@);
                    let x = match &vs[j] {
                        Value::Str(s) => s.clone(),
                        _ => String::new(),
                    };
                    let ghost before = out@;
                    out.push(x);
                    proof {
                        assert(all.take(j + 1) =~= all.take(j as int).push(all[j as int]));
                        assert(strings_view(out@) =~= strings_view(before).push(x@));
                    }
                    j = j + 1;
                }
                proof {
                    assert(vals_view(vs@).take(j as int) =~= vals_view(vs@));
                }
            },
            _ => {
                assert(strings_view(out@) =~= list_of(self@[i as int]).map_values(|v: Val| text_of(v)));
            },
        }
        out
    }
}

} // verus!
