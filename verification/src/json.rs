//! JSON, the canonical serialization of document values: a verified
//! serializer, used to hand context bindings to the expression evaluator,
//! and a verified reader of scalar result tokens. Non-integer numbers are
//! carried as their literal tokens, so they serialize verbatim.

use crate::value::{lemma_view_fields, lemma_view_items, view_fields, view_items, SpecValue, Value};
use vstd::prelude::*;

verus! {

broadcast use vstd::std_specs::vec::group_vec_axioms, vstd::seq::group_seq_axioms;

pub open spec fn digit_char(d: int) -> char {
    if d == 0 {
        '0'
    } else if d == 1 {
        '1'
    } else if d == 2 {
        '2'
    } else if d == 3 {
        '3'
    } else if d == 4 {
        '4'
    } else if d == 5 {
        '5'
    } else if d == 6 {
        '6'
    } else if d == 7 {
        '7'
    } else if d == 8 {
        '8'
    } else {
        '9'
    }
}

/// The decimal digits of a natural number, most significant first.
pub open spec fn dec_digits(n: nat) -> Seq<char>
    decreases n,
{
    if n < 10 {
        seq![digit_char(n as int)]
    } else {
        dec_digits(n / 10).push(digit_char((n % 10) as int))
    }
}

/// The decimal text of an integer.
pub open spec fn int_text(i: int) -> Seq<char> {
    if i < 0 {
        seq!['-'] + dec_digits((-i) as nat)
    } else {
        dec_digits(i as nat)
    }
}

/// A character inside a JSON string: quote, backslash, newline, return
/// and tab are escaped; everything else stands as itself.
pub open spec fn esc_char(c: char) -> Seq<char> {
    if c == '"' {
        seq!['\\', '"']
    } else if c == '\\' {
        seq!['\\', '\\']
    } else if c == '\n' {
        seq!['\\', 'n']
    } else if c == '\r' {
        seq!['\\', 'r']
    } else if c == '\t' {
        seq!['\\', 't']
    } else {
        seq![c]
    }
}

pub open spec fn esc_string(s: Seq<char>) -> Seq<char>
    decreases s.len(),
{
    if s.len() == 0 {
        Seq::empty()
    } else {
        esc_char(s[0]) + esc_string(s.drop_first())
    }
}

/// The JSON text of a value. Object fields keep document order; a
/// non-integer number is its own token.
pub open spec fn json_of(v: SpecValue) -> Seq<char>
    decreases v,
{
    match v {
        SpecValue::Null => seq!['n', 'u', 'l', 'l'],
        SpecValue::Bool(b) => if b {
            seq!['t', 'r', 'u', 'e']
        } else {
            seq!['f', 'a', 'l', 's', 'e']
        },
        SpecValue::Int(i) => int_text(i),
        SpecValue::Float(t) => t,
        SpecValue::Text(s) => seq!['"'] + esc_string(s) + seq!['"'],
        SpecValue::Array(items) => {
            proof {
                assert(decreases_to!(v => items));
            }
            seq!['['] + json_items(items) + seq![']']
        },
        SpecValue::Object(fields) => {
            proof {
                assert(decreases_to!(v => fields));
            }
            seq!['{'] + json_fields(fields) + seq!['}']
        },
    }
}

pub open spec fn json_items(items: Seq<SpecValue>) -> Seq<char>
    decreases items,
{
    if items.len() == 0 {
        Seq::empty()
    } else {
        proof {
            assert(decreases_to!(items => items[0]));
            assert(decreases_to!(items => items.subrange(1, items.len() as int)));
        }
        if items.len() == 1 {
            json_of(items[0])
        } else {
            json_of(items[0]) + seq![','] + json_items(items.drop_first())
        }
    }
}

pub open spec fn json_fields(fields: Seq<(Seq<char>, SpecValue)>) -> Seq<char>
    decreases fields,
{
    if fields.len() == 0 {
        Seq::empty()
    } else {
        proof {
            assert(decreases_to!(fields => fields[0]));
            assert(decreases_to!(fields[0] => fields[0].1));
            assert(decreases_to!(fields => fields.subrange(1, fields.len() as int)));
        }
        let entry = seq!['"'] + esc_string(fields[0].0) + seq!['"', ':'] + json_of(fields[0].1);
        if fields.len() == 1 {
            entry
        } else {
            entry + seq![','] + json_fields(fields.drop_first())
        }
    }
}

fn digit_exec(d: u64) -> (r: char)
    requires
        d < 10,
    ensures
        r == digit_char(d as int),
{
    if d == 0 {
        '0'
    } else if d == 1 {
        '1'
    } else if d == 2 {
        '2'
    } else if d == 3 {
        '3'
    } else if d == 4 {
        '4'
    } else if d == 5 {
        '5'
    } else if d == 6 {
        '6'
    } else if d == 7 {
        '7'
    } else if d == 8 {
        '8'
    } else {
        '9'
    }
}

fn dec_digits_exec(n: u64) -> (r: Vec<char>)
    ensures
        r@ == dec_digits(n as nat),
    decreases n,
{
    if n < 10 {
        let mut out: Vec<char> = Vec::new();
        out.push(digit_exec(n));
        proof {
            assert(out@ =~= dec_digits(n as nat));
        }
        out
    } else {
        let mut out = dec_digits_exec(n / 10);
        out.push(digit_exec(n % 10));
        out
    }
}

fn int_text_exec(i: i64) -> (r: Vec<char>)
    ensures
        r@ == int_text(i as int),
{
    if i >= 0 {
        dec_digits_exec(i as u64)
    } else {
        let magnitude: u64 = (-(i as i128)) as u64;
        proof {
            assert(magnitude as nat == (-(i as int)) as nat);
        }
        let digits = dec_digits_exec(magnitude);
        let mut out: Vec<char> = Vec::new();
        out.push('-');
        let n = digits.len();
        let mut k: usize = 0;
        while k < n
            invariant
                0 <= k <= n,
                n == digits@.len(),
                out@ =~= seq!['-'] + digits@.subrange(0, k as int),
            decreases n - k,
        {
            out.push(digits[k]);
            proof {
                assert(out@ =~= seq!['-'] + digits@.subrange(0, k as int + 1));
            }
            k = k + 1;
        }
        proof {
            assert(digits@.subrange(0, n as int) =~= digits@);
        }
        out
    }
}

fn push_escaped(out: &mut Vec<char>, s: &str)
    ensures
        final(out)@ == old(out)@ + esc_string(s@),
{
    let chars = crate::yaml::str_chars(s);
    let ghost sv = chars@;
    let n = chars.len();
    let mut k: usize = 0;
    proof {
        assert(out@ + esc_string(sv.subrange(0, 0)) =~= out@);
    }
    let ghost base = out@;
    while k < n
        invariant
            0 <= k <= n,
            n == sv.len(),
            chars@ == sv,
            out@ == base + esc_string(sv.subrange(0, k as int)),
        decreases n - k,
    {
        let ghost prefix = sv.subrange(0, k as int);
        proof {
            assert(sv.subrange(0, k as int + 1) =~= prefix.push(sv[k as int]));
            lemma_esc_snoc(prefix, sv[k as int]);
        }
        let c = chars[k];
        if c == '"' {
            out.push('\\');
            out.push('"');
        } else if c == '\\' {
            out.push('\\');
            out.push('\\');
        } else if c == '\n' {
            out.push('\\');
            out.push('n');
        } else if c == '\r' {
            out.push('\\');
            out.push('r');
        } else if c == '\t' {
            out.push('\\');
            out.push('t');
        } else {
            out.push(c);
        }
        proof {
            assert(out@ =~= base + esc_string(sv.subrange(0, k as int + 1)));
        }
        k = k + 1;
    }
    proof {
        assert(sv.subrange(0, n as int) =~= sv);
    }
}

/// Escaping distributes over appending one character.
proof fn lemma_esc_snoc(s: Seq<char>, c: char)
    ensures
        esc_string(s.push(c)) == esc_string(s) + esc_char(c),
    decreases s.len(),
{
    if s.len() == 0 {
        assert(s.push(c)[0] == c);
        assert(s.push(c).len() == 1);
        assert(s.push(c).drop_first() =~= Seq::<char>::empty());
        assert(esc_string(s.push(c)) == esc_char(c) + esc_string(Seq::<char>::empty()));
        assert(esc_string(s.push(c)) =~= esc_string(s) + esc_char(c));
    } else {
        assert(s.push(c).drop_first() =~= s.drop_first().push(c));
        lemma_esc_snoc(s.drop_first(), c);
        assert(esc_string(s.push(c)) =~= esc_string(s) + esc_char(c));
    }
}

/// Serialize a value to its JSON text.
pub fn to_json(v: &Value) -> (r: Vec<char>)
    ensures
        r@ == json_of(v@),
    decreases *v, 0int,
{
    match v {
        Value::Null => {
            let out: Vec<char> = vec!['n', 'u', 'l', 'l'];
            proof {
                assert(out@ =~= json_of(v@));
            }
            out
        },
        Value::Bool(b) => {
            let out: Vec<char> = if *b {
                vec!['t', 'r', 'u', 'e']
            } else {
                vec!['f', 'a', 'l', 's', 'e']
            };
            proof {
                assert(out@ =~= json_of(v@));
            }
            out
        },
        Value::Int(i) => int_text_exec(*i),
        Value::Float(t) => crate::yaml::str_chars(t.as_str()),
        Value::Text(s) => {
            let mut out: Vec<char> = Vec::new();
            out.push('"');
            push_escaped(&mut out, s.as_str());
            out.push('"');
            proof {
                assert(out@ =~= json_of(v@));
            }
            out
        },
        Value::Array(items) => {
            proof {
                lemma_view_items(items@);
                assert(decreases_to!(*v => *items));
            }
            let mut out: Vec<char> = Vec::new();
            out.push('[');
            let mut body = json_items_exec(items, 0);
            out.append(&mut body);
            out.push(']');
            proof {
                assert(view_items(items@).skip(0) =~= view_items(items@));
                assert(out@ =~= json_of(v@));
            }
            out
        },
        Value::Object(fields) => {
            proof {
                lemma_view_fields(fields@);
                assert(decreases_to!(*v => *fields));
            }
            let mut out: Vec<char> = Vec::new();
            out.push('{');
            let mut body = json_fields_exec(fields, 0);
            out.append(&mut body);
            out.push('}');
            proof {
                assert(view_fields(fields@).skip(0) =~= view_fields(fields@));
                assert(out@ =~= json_of(v@));
            }
            out
        },
    }
}

fn json_items_exec(items: &Vec<Value>, k: usize) -> (r: Vec<char>)
    requires
        k <= items@.len(),
    ensures
        r@ == json_items(view_items(items@).skip(k as int)),
    decreases *items, items@.len() - k,
{
    let ghost tail = view_items(items@).skip(k as int);
    proof {
        lemma_view_items(items@);
    }
    if k == items.len() {
        proof {
            assert(tail =~= Seq::<SpecValue>::empty());
        }
        Vec::new()
    } else {
        proof {
            assert(tail[0] == items@[k as int]@);
            assert(tail.drop_first() =~= view_items(items@).skip(k as int + 1));
            assert(decreases_to!(*items => items[k as int]));
        }
        let item = &items[k];
        let mut out = to_json(item);
        if k + 1 < items.len() {
            out.push(',');
            let mut rest = json_items_exec(items, k + 1);
            out.append(&mut rest);
            proof {
                assert(out@ =~= json_of(tail[0]) + seq![','] + json_items(tail.drop_first()));
            }
        } else {
            proof {
                assert(tail.len() == 1);
            }
        }
        out
    }
}

fn json_fields_exec(fields: &Vec<(String, Value)>, k: usize) -> (r: Vec<char>)
    requires
        k <= fields@.len(),
    ensures
        r@ == json_fields(view_fields(fields@).skip(k as int)),
    decreases *fields, fields@.len() - k,
{
    let ghost tail = view_fields(fields@).skip(k as int);
    proof {
        lemma_view_fields(fields@);
    }
    if k == fields.len() {
        proof {
            assert(tail =~= Seq::<(Seq<char>, SpecValue)>::empty());
        }
        Vec::new()
    } else {
        proof {
            assert(tail[0] == (fields@[k as int].0@, fields@[k as int].1@));
            assert(tail.drop_first() =~= view_fields(fields@).skip(k as int + 1));
            assert(decreases_to!(*fields => fields[k as int]));
            assert(decreases_to!(fields[k as int] => fields[k as int].1));
        }
        let entry = &fields[k];
        let mut out: Vec<char> = Vec::new();
        out.push('"');
        push_escaped(&mut out, entry.0.as_str());
        out.push('"');
        out.push(':');
        let mut val = to_json(&entry.1);
        out.append(&mut val);
        proof {
            assert(out@ =~= seq!['"'] + esc_string(tail[0].0) + seq!['"', ':'] + json_of(
                tail[0].1,
            ));
        }
        if k + 1 < fields.len() {
            out.push(',');
            let mut rest = json_fields_exec(fields, k + 1);
            out.append(&mut rest);
            proof {
                assert(out@ =~= (seq!['"'] + esc_string(tail[0].0) + seq!['"', ':'] + json_of(
                    tail[0].1,
                )) + seq![','] + json_fields(tail.drop_first()));
            }
        } else {
            proof {
                assert(tail.len() == 1);
            }
        }
        out
    }
}


pub open spec fn is_digit(c: char) -> bool {
    '0' <= c && c <= '9'
}

pub open spec fn digit_val(c: char) -> int {
    c as int - '0' as int
}

/// The value of a run of decimal digits.
pub open spec fn digits_val(s: Seq<char>) -> int
    decreases s.len(),
{
    if s.len() == 0 {
        0
    } else {
        digits_val(s.drop_last()) * 10 + digit_val(s.last())
    }
}

pub open spec fn all_digits(s: Seq<char>) -> bool {
    forall|i: int| 0 <= i < s.len() ==> is_digit(#[trigger] s[i])
}

/// A character a JSON number token may hold.
pub open spec fn is_num_char(c: char) -> bool {
    is_digit(c) || c == '-' || c == '+' || c == '.' || c == 'e' || c == 'E'
}

pub open spec fn all_num_chars(s: Seq<char>) -> bool {
    forall|i: int| 0 <= i < s.len() ==> is_num_char(#[trigger] s[i])
}

/// A JSON string body read back: the escapes the serializer writes, plus
/// the solidus; anything else, a stray quote included, is refused.
pub open spec fn unesc(s: Seq<char>) -> Option<Seq<char>>
    decreases s.len(),
{
    if s.len() == 0 {
        Some(Seq::empty())
    } else if s[0] == '\\' {
        if s.len() < 2 {
            None
        } else {
            let rep = if s[1] == '"' {
                Some('"')
            } else if s[1] == '\\' {
                Some('\\')
            } else if s[1] == '/' {
                Some('/')
            } else if s[1] == 'n' {
                Some('\n')
            } else if s[1] == 'r' {
                Some('\r')
            } else if s[1] == 't' {
                Some('\t')
            } else {
                None
            };
            match (rep, unesc(s.subrange(2, s.len() as int))) {
                (Some(ch), Some(rest)) => Some(seq![ch] + rest),
                _ => None,
            }
        }
    } else if s[0] == '"' {
        None
    } else {
        match unesc(s.drop_first()) {
            Some(rest) => Some(seq![s[0]] + rest),
            None => None,
        }
    }
}

pub open spec fn pow10(k: nat) -> int
    decreases k,
{
    if k == 0 {
        1
    } else {
        10 * pow10((k - 1) as nat)
    }
}

proof fn lemma_digits_val_bound(s: Seq<char>)
    requires
        all_digits(s),
    ensures
        0 <= digits_val(s) < pow10(s.len()),
    decreases s.len(),
{
    if s.len() > 0 {
        assert(all_digits(s.drop_last())) by {
            assert forall|i: int| 0 <= i < s.len() - 1 implies is_digit(
                #[trigger] s.drop_last()[i],
            ) by {
                assert(s.drop_last()[i] == s[i]);
            }
        }
        lemma_digits_val_bound(s.drop_last());
        assert(is_digit(s.last()));
    }
}

/// The reading of a scalar evaluator result: null, a boolean, a quoted
/// string, an integer that fits the engine's number type, or any other
/// number token kept as a non-integer number. Anything else is refused.
pub open spec fn scalar_of(s: Seq<char>) -> Option<SpecValue> {
    if s == seq!['n', 'u', 'l', 'l'] {
        Some(SpecValue::Null)
    } else if s == seq!['t', 'r', 'u', 'e'] {
        Some(SpecValue::Bool(true))
    } else if s == seq!['f', 'a', 'l', 's', 'e'] {
        Some(SpecValue::Bool(false))
    } else if s.len() >= 2 && s[0] == '"' && s[s.len() - 1] == '"' {
        match unesc(s.subrange(1, s.len() - 1)) {
            Some(t) => Some(SpecValue::Text(t)),
            None => None,
        }
    } else if 1 <= s.len() <= 18 && all_digits(s) {
        Some(SpecValue::Int(digits_val(s)))
    } else if 2 <= s.len() <= 19 && s[0] == '-' && all_digits(s.subrange(1, s.len() as int)) {
        Some(SpecValue::Int(-digits_val(s.subrange(1, s.len() as int))))
    } else if s.len() >= 1 && all_num_chars(s) && (exists|i: int|
        0 <= i < s.len() && is_digit(#[trigger] s[i])) {
        Some(SpecValue::Float(s))
    } else {
        None
    }
}

/// Accumulate the value of a digit run.
#[verifier::loop_isolation(false)]
fn digits_val_exec(s: &Vec<char>, from: usize, to: usize) -> (r: i64)
    requires
        from <= to <= s@.len(),
        to - from <= 18,
        all_digits(s@.subrange(from as int, to as int)),
    ensures
        r as int == digits_val(s@.subrange(from as int, to as int)),
        r >= 0,
{
    let ghost whole = s@.subrange(from as int, to as int);
    proof {
        lemma_digits_val_bound(whole);
        assert(pow10(18) == 1000000000000000000) by {
            reveal_with_fuel(pow10, 19);
        }
    }
    let mut acc: i64 = 0;
    let mut k: usize = from;
    proof {
        assert(s@.subrange(from as int, from as int) =~= Seq::<char>::empty());
    }
    while k < to
        invariant
            from <= k <= to,
            acc as int == digits_val(s@.subrange(from as int, k as int)),
            0 <= acc as int,
            (acc as int) < pow10((k as int - from as int) as nat),
        decreases to - k,
    {
        let ghost prefix = s@.subrange(from as int, k as int);
        proof {
            assert(s@.subrange(from as int, k as int + 1).drop_last() =~= prefix);
            assert(s@.subrange(from as int, k as int + 1).last() == s@[k as int]);
            assert(is_digit(s@[k as int])) by {
                assert(whole[k as int - from as int] == s@[k as int]);
            }
            lemma_pow10_mono((k - from) as nat, 17);
            assert(pow10(17) * 10 == pow10(18));
        }
        let c = s[k];
        let d: i64 = (c as u32 as i64) - ('0' as u32 as i64);
        acc = acc * 10 + d;
        k = k + 1;
    }
    acc
}

proof fn lemma_pow10_mono(a: nat, b: nat)
    requires
        a <= b,
    ensures
        pow10(a) <= pow10(b),
        pow10(a) >= 1,
    decreases b,
{
    if b > 0 {
        if a == b {
            lemma_pow10_mono((a - 1) as nat, (b - 1) as nat);
        } else {
            lemma_pow10_mono(a, (b - 1) as nat);
        }
    }
}

/// Read a scalar evaluator result.
#[verifier::loop_isolation(false)]
pub fn parse_scalar(s: &Vec<char>) -> (r: Option<Value>)
    ensures
        match r {
            Some(v) => scalar_of(s@) == Some(v@),
            None => scalar_of(s@) is None,
        },
{
    let lit_null: Vec<char> = vec!['n', 'u', 'l', 'l'];
    let lit_true: Vec<char> = vec!['t', 'r', 'u', 'e'];
    let lit_false: Vec<char> = vec!['f', 'a', 'l', 's', 'e'];
    proof {
        assert(lit_null@ =~= seq!['n', 'u', 'l', 'l']);
        assert(lit_true@ =~= seq!['t', 'r', 'u', 'e']);
        assert(lit_false@ =~= seq!['f', 'a', 'l', 's', 'e']);
    }
    if crate::yaml::chars_eq(s, &lit_null) {
        return Some(Value::Null);
    }
    if crate::yaml::chars_eq(s, &lit_true) {
        return Some(Value::Bool(true));
    }
    if crate::yaml::chars_eq(s, &lit_false) {
        return Some(Value::Bool(false));
    }
    let n = s.len();
    if n >= 2 && s[0] == '"' && s[n - 1] == '"' {
        return match unesc_exec(s, 1, n - 1) {
            Some(t) => Some(Value::Text(crate::yaml::chars_to_string(&t))),
            None => None,
        };
    }
    let digits_from = if n >= 1 && s[0] == '-' {
        1
    } else {
        0
    };
    let mut all_dig: bool = n > digits_from;
    let mut k: usize = digits_from;
    while k < n
        invariant
            digits_from <= k <= n,
            all_dig ==> (n > digits_from && forall|j: int|
                digits_from <= j < k ==> is_digit(#[trigger] s@[j])),
            !all_dig ==> !(n > digits_from && all_digits(
                s@.subrange(digits_from as int, n as int),
            )),
        decreases n - k,
    {
        if all_dig && !(s[k] >= '0' && s[k] <= '9') {
            proof {
                assert(s@.subrange(digits_from as int, n as int)[k as int - digits_from as int]
                    == s@[k as int]);
            }
            all_dig = false;
        }
        k = k + 1;
    }
    proof {
        if all_dig {
            assert forall|j: int| 0 <= j < n - digits_from implies is_digit(
                #[trigger] s@.subrange(digits_from as int, n as int)[j],
            ) by {
                assert(s@.subrange(digits_from as int, n as int)[j] == s@[j + digits_from]);
            }
        }
    }
    if all_dig && digits_from == 0 && n >= 1 && n <= 18 {
        let v = digits_val_exec(s, 0, n);
        proof {
            assert(s@.subrange(0, n as int) =~= s@);
        }
        return Some(Value::Int(v));
    }
    if all_dig && digits_from == 1 && n >= 2 && n <= 19 {
        let v = digits_val_exec(s, 1, n);
        return Some(Value::Int(-v));
    }
    // a number token that is not an engine integer
    let mut numeric: bool = n >= 1;
    let mut has_digit: bool = false;
    let mut k2: usize = 0;
    while k2 < n
        invariant
            0 <= k2 <= n,
            numeric ==> (n >= 1 && forall|j: int|
                0 <= j < k2 ==> is_num_char(#[trigger] s@[j])),
            !numeric ==> !(n >= 1 && all_num_chars(s@)),
            has_digit ==> exists|j: int| 0 <= j < s@.len() && is_digit(#[trigger] s@[j]),
            !has_digit ==> forall|j: int| 0 <= j < k2 ==> !is_digit(#[trigger] s@[j]),
        decreases n - k2,
    {
        let c = s[k2];
        if c >= '0' && c <= '9' {
            has_digit = true;
        } else if !(c == '-' || c == '+' || c == '.' || c == 'e' || c == 'E') {
            numeric = false;
        }
        k2 = k2 + 1;
    }
    if numeric && has_digit {
        proof {
            assert(!(1 <= s@.len() <= 18 && all_digits(s@)));
            assert(!(2 <= s@.len() <= 19 && s@[0] == '-' && all_digits(
                s@.subrange(1, s@.len() as int),
            )));
        }
        let text = crate::yaml::chars_to_string(s);
        return Some(Value::Float(text));
    }
    None
}

/// Read a JSON string body back.
#[verifier::loop_isolation(false)]
fn unesc_exec(s: &Vec<char>, from: usize, to: usize) -> (r: Option<Vec<char>>)
    requires
        from <= to <= s@.len(),
    ensures
        match r {
            Some(t) => unesc(s@.subrange(from as int, to as int)) == Some(t@),
            None => unesc(s@.subrange(from as int, to as int)) is None,
        },
    decreases to - from,
{
    let ghost whole = s@.subrange(from as int, to as int);
    if from == to {
        proof {
            assert(whole =~= Seq::<char>::empty());
        }
        return Some(Vec::new());
    }
    proof {
        assert(whole[0] == s@[from as int]);
    }
    let c = s[from];
    if c == '\\' {
        if to - from < 2 {
            return None;
        }
        proof {
            assert(whole[1] == s@[from as int + 1]);
            assert(whole.subrange(2, whole.len() as int) =~= s@.subrange(
                from as int + 2,
                to as int,
            ));
        }
        let e = s[from + 1];
        let rep: Option<char> = if e == '"' {
            Some('"')
        } else if e == '\\' {
            Some('\\')
        } else if e == '/' {
            Some('/')
        } else if e == 'n' {
            Some('\n')
        } else if e == 'r' {
            Some('\r')
        } else if e == 't' {
            Some('\t')
        } else {
            None
        };
        match (rep, unesc_exec(s, from + 2, to)) {
            (Some(ch), Some(rest)) => {
                let mut out: Vec<char> = Vec::new();
                out.push(ch);
                let mut r2 = rest;
                out.append(&mut r2);
                proof {
                    assert(out@ =~= seq![ch] + unesc(
                        whole.subrange(2, whole.len() as int),
                    ).unwrap());
                }
                Some(out)
            },
            _ => None,
        }
    } else if c == '"' {
        None
    } else {
        proof {
            assert(whole.drop_first() =~= s@.subrange(from as int + 1, to as int));
        }
        match unesc_exec(s, from + 1, to) {
            Some(rest) => {
                let mut out: Vec<char> = Vec::new();
                out.push(c);
                let mut r2 = rest;
                out.append(&mut r2);
                proof {
                    assert(out@ =~= seq![c] + unesc(whole.drop_first()).unwrap());
                }
                Some(out)
            },
            None => None,
        }
    }
}

} // verus!
