//! Value types and the literal grammars that tokens are converted by.
use vstd::prelude::*;

verus! {

/// The type a parameter's tokens are converted to.
#[derive(Clone, Copy, Debug, PartialEq, Eq, Structural)]
pub enum ValueType {
    Str,
    Bool,
    U32,
    U64,
    I32,
    F32,
    F64,
}

/// A converted token. A floating-point value is kept as its validated literal text:
/// the library does no floating-point arithmetic, and the text converts without loss
/// wherever a float is needed.
#[derive(Debug)]
pub enum Value {
    Str(String),
    Bool(bool),
    U32(u32),
    U64(u64),
    I32(i32),
    Float(String),
}

/// The mathematical content of a `Value`.
pub enum Val {
    Text(Seq<char>),
    Truth(bool),
    Int(int),
    Real(Seq<char>),
}

impl View for Value {
    type V = Val;

    open spec fn view(&self) -> Val {
        match self {
            Value::Str(s) => Val::Text(s@),
            Value::Bool(b) => Val::Truth(*b),
            Value::U32(n) => Val::Int(*n as int),
            Value::U64(n) => Val::Int(*n as int),
            Value::I32(n) => Val::Int(*n as int),
            Value::Float(s) => Val::Real(s@),
        }
    }
}

/// Whether `v` is a value of type `ty` (used for declared defaults).
pub open spec fn value_has_type(v: Value, ty: ValueType) -> bool {
    match ty {
        ValueType::Str => v is Str,
        ValueType::Bool => v is Bool,
        ValueType::U32 => v is U32,
        ValueType::U64 => v is U64,
        ValueType::I32 => v is I32,
        ValueType::F32 | ValueType::F64 => v is Float && float_literal(v->Float_0@),
    }
}

pub open spec fn is_digit(c: char) -> bool {
    '0' <= c && c <= '9'
}

pub open spec fn all_digits(s: Seq<char>) -> bool {
    forall|i: int| 0 <= i < s.len() ==> is_digit(#[trigger] s[i])
}

/// The number that a run of decimal digits denotes.
pub open spec fn digits_value(s: Seq<char>) -> int
    decreases s.len(),
{
    if s.len() == 0 {
        0
    } else {
        digits_value(s.drop_last()) * 10 + (s.last() as int - '0' as int)
    }
}

/// Decimal grammar of unsigned integers: an optional `+`, then one or more digits.
pub open spec fn unsigned_literal(s: Seq<char>) -> Option<int> {
    let body = if s.len() > 0 && s[0] == '+' { s.drop_first() } else { s };
    if body.len() > 0 && all_digits(body) {
        Some(digits_value(body))
    } else {
        None
    }
}

/// Decimal grammar of signed integers: an optional `+` or `-`, then one or more digits.
pub open spec fn signed_literal(s: Seq<char>) -> Option<int> {
    if s.len() > 0 && s[0] == '-' {
        let body = s.drop_first();
        if body.len() > 0 && all_digits(body) {
            Some(-digits_value(body))
        } else {
            None
        }
    } else {
        unsigned_literal(s)
    }
}

/// `b` spells the word whose lower-case letters are `lo` and upper-case letters `up`,
/// in any mix of cases.
pub open spec fn ci_word(b: Seq<char>, lo: Seq<char>, up: Seq<char>) -> bool {
    b.len() == lo.len() && forall|i: int| 0 <= i < b.len() ==> b[i] == lo[i] || b[i] == up[i]
}

/// Number of consecutive digits in `s` from position `i` on.
pub open spec fn digit_run(s: Seq<char>, i: int) -> int
    decreases s.len() - i,
{
    if i < 0 || i >= s.len() || !is_digit(s[i]) {
        0
    } else {
        1 + digit_run(s, i + 1)
    }
}

/// An exponent part: `e` or `E`, an optional sign, one or more digits.
pub open spec fn exponent_part(s: Seq<char>) -> bool {
    s.len() >= 2 && (s[0] == 'e' || s[0] == 'E') && {
        let t = s.drop_first();
        let d = if t[0] == '+' || t[0] == '-' { t.drop_first() } else { t };
        d.len() > 0 && all_digits(d)
    }
}

/// Decimal number: digits, optionally a point and more digits (at least one digit in
/// all), optionally an exponent.
pub open spec fn decimal_number(s: Seq<char>) -> bool {
    let k1 = digit_run(s, 0);
    let has_point = k1 < s.len() && s[k1] == '.';
    let k2 = if has_point { k1 + 1 + digit_run(s, k1 + 1) } else { k1 };
    let ndigits = if has_point { k2 - 1 } else { k2 };
    ndigits > 0 && (k2 == s.len() || exponent_part(s.subrange(k2, s.len() as int)))
}

/// The literal grammar of `f32`/`f64` text: an optional sign, then `inf`, `infinity`,
/// `nan` (in any case) or a decimal number.
pub open spec fn float_literal(s: Seq<char>) -> bool {
    let body = if s.len() > 0 && (s[0] == '+' || s[0] == '-') { s.drop_first() } else { s };
    ci_word(body, seq!['i', 'n', 'f'], seq!['I', 'N', 'F']) || ci_word(
        body,
        seq!['i', 'n', 'f', 'i', 'n', 'i', 't', 'y'],
        seq!['I', 'N', 'F', 'I', 'N', 'I', 'T', 'Y'],
    ) || ci_word(body, seq!['n', 'a', 'n'], seq!['N', 'A', 'N']) || decimal_number(body)
}

pub open spec fn bool_literal(s: Seq<char>) -> Option<bool> {
    if s == seq!['t', 'r', 'u', 'e'] {
        Some(true)
    } else if s == seq!['f', 'a', 'l', 's', 'e'] {
        Some(false)
    } else {
        None
    }
}

/// What a raw token converts to under a declared type, if it converts at all.
pub open spec fn coerce_spec(ty: ValueType, s: Seq<char>) -> Option<Val> {
    match ty {
        ValueType::Str => Some(Val::Text(s)),
        ValueType::Bool => match bool_literal(s) {
            Some(b) => Some(Val::Truth(b)),
            None => None,
        },
        ValueType::U32 => match unsigned_literal(s) {
            Some(n) => if n <= u32::MAX {
                Some(Val::Int(n))
            } else {
                None
            },
            None => None,
        },
        ValueType::U64 => match unsigned_literal(s) {
            Some(n) => if n <= u64::MAX {
                Some(Val::Int(n))
            } else {
                None
            },
            None => None,
        },
        ValueType::I32 => match signed_literal(s) {
            Some(n) => if i32::MIN <= n <= i32::MAX {
                Some(Val::Int(n))
            } else {
                None
            },
            None => None,
        },
        ValueType::F32 | ValueType::F64 => if float_literal(s) {
            Some(Val::Real(s))
        } else {
            None
        },
    }
}

pub open spec fn opt_view(o: Option<Value>) -> Option<Val> {
    match o {
        Some(v) => Some(v@),
        None => None,
    }
}

impl Value {
    /// A copy of the value.
    pub fn duplicate(&self) -> (r: Value)
        ensures
            r@ == self@,
            self is Str ==> r is Str,
            self is Bool ==> r is Bool,
            self is U32 ==> r is U32,
            self is U64 ==> r is U64,
            self is I32 ==> r is I32,
            self is Float ==> r is Float,
    {
        match self {
            Value::Str(s) => Value::Str(s.clone()),
            Value::Bool(b) => Value::Bool(*b),
            Value::U32(n) => Value::U32(*n),
            Value::U64(n) => Value::U64(*n),
            Value::I32(n) => Value::I32(*n),
            Value::Float(s) => Value::Float(s.clone()),
        }
    }
}

proof fn lemma_digits_push(s: Seq<char>, c: char)
    ensures
        digits_value(s.push(c)) == digits_value(s) * 10 + (c as int - '0' as int),
{
    assert(s.push(c).drop_last() =~= s);
}

/// Reads `s[from..]` as a run of digits: `Some(value)` when it is non-empty, all digits,
/// and fits in `u64`; `None` otherwise, with the reason in the second component
/// (`true`: a non-digit or nothing; `false`: too large).
fn read_digits(s: &str, from: usize) -> (r: (Option<u64>, bool))
    requires
        from <= s@.len(),
    ensures
        ({
            let body = s@.subrange(from as int, s@.len() as int);
            match r.0 {
                Some(v) => body.len() > 0 && all_digits(body) && v as int == digits_value(body),
                None => !(body.len() > 0 && all_digits(body)) || digits_value(body) > u64::MAX,
            }
        }),
{
    let n = s.unicode_len();
    if from >= n {
        return (None, true);
    }
    let mut v: u64 = 0;
    let mut over = false;
    let mut i = from;
    while i < n
        invariant
            n == s@.len(),
            from <= i <= n,
            all_digits(s@.subrange(from as int, i as int)),
            !over ==> v as int == digits_value(s@.subrange(from as int, i as int)),
            over ==> digits_value(s@.subrange(from as int, i as int)) > u64::MAX,
            digits_value(s@.subrange(from as int, i as int)) >= 0,
        decreases n - i,
    {
        let c = s.get_char(i);
        if !('0' <= c && c <= '9') {
            proof {
                let body = s@.subrange(from as int, n as int);
                assert(body[i - from] == c);
            }
            return (None, true);
        }
        let d = (c as u32 - '0' as u32) as u64;
        proof {
            let pre = s@.subrange(from as int, i as int);
            assert(s@.subrange(from as int, i + 1) =~= pre.push(c));
            lemma_digits_push(pre, c);
        }
        if !over {
            if v > 1844674407370955161 || (v == 1844674407370955161 && d > 5) {
                over = true;
                proof {
                    let pre = s@.subrange(from as int, i as int);
                    assert(digits_value(pre) * 10 + d > u64::MAX) by (nonlinear_arith)
                        requires
                            digits_value(pre) == v,
                            v > 1844674407370955161 || (v == 1844674407370955161 && d > 5),
                    ;
                }
            } else {
                assert(v * 10 + d <= u64::MAX) by (nonlinear_arith)
                    requires
                        v <= 1844674407370955161,
                        v == 1844674407370955161 ==> d <= 5,
                        d <= 9,
                ;
                v = v * 10 + d;
            }
        } else {
            proof {
                let pre = s@.subrange(from as int, i as int);
                assert(digits_value(pre) * 10 + d > u64::MAX) by (nonlinear_arith)
                    requires
                        digits_value(pre) > u64::MAX,
                        d >= 0,
                ;
            }
        }
        i = i + 1;
    }
    if over {
        (None, false)
    } else {
        (Some(v), false)
    }
}

fn parse_unsigned(s: &str) -> (r: Option<u64>)
    ensures
        match r {
            Some(v) => unsigned_literal(s@) == Some(v as int),
            None => unsigned_literal(s@) is None || unsigned_literal(s@)->Some_0 > u64::MAX,
        },
{
    let n = s.unicode_len();
    let from: usize = if n > 0 && s.get_char(0) == '+' {
        1
    } else {
        0
    };
    proof {
        if from == 1 {
            assert(s@.drop_first() =~= s@.subrange(1, s@.len() as int));
        } else {
            assert(s@ =~= s@.subrange(0, s@.len() as int));
        }
    }
    read_digits(s, from).0
}

fn parse_signed(s: &str) -> (r: Option<i32>)
    ensures
        match r {
            Some(v) => signed_literal(s@) == Some(v as int),
            None => match signed_literal(s@) {
                Some(n) => !(i32::MIN <= n <= i32::MAX),
                None => true,
            },
        },
{
    let n = s.unicode_len();
    if n > 0 && s.get_char(0) == '-' {
        proof {
            assert(s@.drop_first() =~= s@.subrange(1, s@.len() as int));
        }
        match read_digits(s, 1).0 {
            Some(v) => if v <= 2147483648 {
                Some((0 - v as i64) as i32)
            } else {
                None
            },
            None => None,
        }
    } else {
        match parse_unsigned(s) {
            Some(v) => if v <= 2147483647 {
                Some(v as i32)
            } else {
                None
            },
            None => None,
        }
    }
}

fn parse_bool(s: &str) -> (r: Option<bool>)
    ensures
        r == bool_literal(s@),
{
    let n = s.unicode_len();
    if n == 4 && s.get_char(0) == 't' && s.get_char(1) == 'r' && s.get_char(2) == 'u'
        && s.get_char(3) == 'e' {
        assert(s@ =~= seq!['t', 'r', 'u', 'e']);
        Some(true)
    } else if n == 5 && s.get_char(0) == 'f' && s.get_char(1) == 'a' && s.get_char(2) == 'l'
        && s.get_char(3) == 's' && s.get_char(4) == 'e' {
        assert(s@ =~= seq!['f', 'a', 'l', 's', 'e']);
        Some(false)
    } else {
        proof {
            if s@ == seq!['t', 'r', 'u', 'e'] {
                assert(s@[3] == 'e');
            }
            if s@ == seq!['f', 'a', 'l', 's', 'e'] {
                assert(s@[4] == 'e');
            }
        }
        None
    }
}

proof fn lemma_digit_run_all(s: Seq<char>, i: int)
    requires
        0 <= i <= s.len(),
    ensures
        (digit_run(s, i) == s.len() - i) == all_digits(s.subrange(i, s.len() as int)),
        0 <= digit_run(s, i) <= s.len() - i,
    decreases s.len() - i,
{
    if i < s.len() {
        lemma_digit_run_all(s, i + 1);
        let t = s.subrange(i, s.len() as int);
        let u = s.subrange(i + 1, s.len() as int);
        assert(t[0] == s[i]);
        if all_digits(t) {
            assert forall|k: int| 0 <= k < u.len() implies is_digit(#[trigger] u[k]) by {
                assert(u[k] == t[k + 1]);
            }
        }
        if is_digit(s[i]) && all_digits(u) {
            assert forall|k: int| 0 <= k < t.len() implies is_digit(#[trigger] t[k]) by {
                if k > 0 {
                    assert(t[k] == u[k - 1]);
                }
            }
        }
    } else {
        assert(s.subrange(i, s.len() as int).len() == 0);
    }
}

fn digit_run_exec(s: &str, i: usize) -> (r: usize)
    requires
        i <= s@.len(),
    ensures
        r as int == digit_run(s@, i as int),
        i + r <= s@.len(),
{
    proof {
        lemma_digit_run_all(s@, i as int);
    }
    let n = s.unicode_len();
    let mut j = i;
    while j < n && is_digit_char(s.get_char(j))
        invariant
            i <= j <= n,
            n == s@.len(),
            digit_run(s@, i as int) == (j - i) + digit_run(s@, j as int),
        decreases n - j,
    {
        j = j + 1;
    }
    j - i
}

fn is_digit_char(c: char) -> (r: bool)
    ensures
        r == is_digit(c),
{
    '0' <= c && c <= '9'
}

fn ci_at(s: &str, i: usize, lo: char, up: char) -> (r: bool)
    requires
        i < s@.len(),
    ensures
        r == (s@[i as int] == lo || s@[i as int] == up),
{
    let c = s.get_char(i);
    c == lo || c == up
}

fn is_exponent(t: &str) -> (r: bool)
    ensures
        r == exponent_part(t@),
{
    let n = t.unicode_len();
    if n < 2 {
        return false;
    }
    let c = t.get_char(0);
    if !(c == 'e' || c == 'E') {
        return false;
    }
    let c1 = t.get_char(1);
    let from: usize = if c1 == '+' || c1 == '-' {
        2
    } else {
        1
    };
    proof {
        let u = t@.drop_first();
        assert(u[0] == c1);
        let d = if u[0] == '+' || u[0] == '-' { u.drop_first() } else { u };
        assert(d =~= t@.subrange(from as int, n as int));
        lemma_digit_run_all(t@, from as int);
    }
    from < n && digit_run_exec(t, from) == n - from
}

fn is_decimal_number(s: &str) -> (r: bool)
    ensures
        r == decimal_number(s@),
{
    let n = s.unicode_len();
    let k1 = digit_run_exec(s, 0);
    let has_point = k1 < n && s.get_char(k1) == '.';
    let k2 = if has_point {
        k1 + 1 + digit_run_exec(s, k1 + 1)
    } else {
        k1
    };
    let ndigits = if has_point {
        k2 - 1
    } else {
        k2
    };
    ndigits > 0 && (k2 == n || is_exponent(s.substring_char(k2, n)))
}

/// Whether `s` is a floating-point literal (see `float_literal`).
pub fn is_float_text(s: &str) -> (r: bool)
    ensures
        r == float_literal(s@),
{
    let n = s.unicode_len();
    let signed = n > 0 && (s.get_char(0) == '+' || s.get_char(0) == '-');
    let body = if signed {
        s.substring_char(1, n)
    } else {
        s
    };
    proof {
        if signed {
            assert(body@ =~= s@.drop_first());
        }
    }
    let m = body.unicode_len();
    let inf = m == 3 && ci_at(body, 0, 'i', 'I') && ci_at(body, 1, 'n', 'N') && ci_at(
        body,
        2,
        'f',
        'F',
    );
    let infinity = m == 8 && ci_at(body, 0, 'i', 'I') && ci_at(body, 1, 'n', 'N') && ci_at(
        body,
        2,
        'f',
        'F',
    ) && ci_at(body, 3, 'i', 'I') && ci_at(body, 4, 'n', 'N') && ci_at(body, 5, 'i', 'I')
        && ci_at(body, 6, 't', 'T') && ci_at(body, 7, 'y', 'Y');
    let nan = m == 3 && ci_at(body, 0, 'n', 'N') && ci_at(body, 1, 'a', 'A') && ci_at(
        body,
        2,
        'n',
        'N',
    );
    proof {
        let b = body@;
        let w1 = ci_word(b, seq!['i', 'n', 'f'], seq!['I', 'N', 'F']);
        let w2 = ci_word(
            b,
            seq!['i', 'n', 'f', 'i', 'n', 'i', 't', 'y'],
            seq!['I', 'N', 'F', 'I', 'N', 'I', 'T', 'Y'],
        );
        let w3 = ci_word(b, seq!['n', 'a', 'n'], seq!['N', 'A', 'N']);
        if w1 {
            assert(b[0] == 'i' || b[0] == 'I');
            assert(b[1] == 'n' || b[1] == 'N');
            assert(b[2] == 'f' || b[2] == 'F');
        }
        if w2 {
            assert(b[0] == 'i' || b[0] == 'I');
            assert(b[1] == 'n' || b[1] == 'N');
            assert(b[2] == 'f' || b[2] == 'F');
            assert(b[3] == 'i' || b[3] == 'I');
            assert(b[4] == 'n' || b[4] == 'N');
            assert(b[5] == 'i' || b[5] == 'I');
            assert(b[6] == 't' || b[6] == 'T');
            assert(b[7] == 'y' || b[7] == 'Y');
        }
        if w3 {
            assert(b[0] == 'n' || b[0] == 'N');
            assert(b[1] == 'a' || b[1] == 'A');
            assert(b[2] == 'n' || b[2] == 'N');
        }
    }
    inf || infinity || nan || is_decimal_number(body)
}

/// Converts a raw token to the declared type.
pub fn coerce(ty: ValueType, raw: &str) -> (r: Option<Value>)
    ensures
        opt_view(r) == coerce_spec(ty, raw@),
        r is Some ==> value_has_type(r->Some_0, ty),
{
    match ty {
        ValueType::Str => Some(Value::Str(raw.to_owned())),
        ValueType::Bool => match parse_bool(raw) {
            Some(b) => Some(Value::Bool(b)),
            None => None,
        },
        ValueType::U32 => match parse_unsigned(raw) {
            Some(v) => if v <= 4294967295 {
                Some(Value::U32(v as u32))
            } else {
                None
            },
            None => None,
        },
        ValueType::U64 => match parse_unsigned(raw) {
            Some(v) => Some(Value::U64(v)),
            None => None,
        },
        ValueType::I32 => match parse_signed(raw) {
            Some(v) => Some(Value::I32(v)),
            None => None,
        },
        ValueType::F32 | ValueType::F64 => if is_float_text(raw) {
            Some(Value::Float(raw.to_owned()))
        } else {
            None
        },
    }
}

} // verus!
