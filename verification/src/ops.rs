//! The operation registry: the built-in step handlers.
//!
//! An operation takes a step's resolved input value and its optional
//! parameters and produces an output value or an error message. Each
//! built-in is specified exactly by a spec function over value models,
//! and the executable handler is proved to match it. Numbers are the
//! library's integers; sums saturate at the integer bounds.

use vstd::arithmetic::div_mod::lemma_div_nonincreasing;
use vstd::arithmetic::div_mod::lemma_div_pos_is_pos;
use vstd::prelude::*;
use vstd::string::StringExecFns;

use crate::value::fields_of;
use crate::value::lemma_fields_of;
use crate::value::lemma_vals_of;
use crate::value::str_eq;
use crate::value::val_lookup;
use crate::value::val_of;
use crate::value::vals_of;
use crate::value::Field;
use crate::value::Val;
use crate::value::Value;

verus! {

/// The model of an optional borrowed parameter value.
pub open spec fn opt_view(params: Option<&Value>) -> Option<Val> {
    match params {
        Some(p) => Some(p@),
        None => None,
    }
}

/// The field of the parameter object under a key, if the parameters are
/// present, are an object, and have it.
pub open spec fn popt_lookup(params: Option<Val>, key: Seq<char>) -> Option<Val> {
    match params {
        Some(p) => val_lookup(p, key),
        None => None,
    }
}

/// The text under a parameter key, if it is there and is text.
pub open spec fn popt_text(params: Option<Val>, key: Seq<char>) -> Option<Seq<char>> {
    match popt_lookup(params, key) {
        Some(Val::Text(s)) => Some(s),
        _ => None,
    }
}

/// The integer under a parameter key, if it is there and is an integer.
pub open spec fn popt_int(params: Option<Val>, key: Seq<char>) -> Option<int> {
    match popt_lookup(params, key) {
        Some(Val::Int(i)) => Some(i),
        _ => None,
    }
}

/// The integer a value holds, a non-integer counting as zero.
pub open spec fn int_or_zero(v: Val) -> int {
    match v {
        Val::Int(i) => i,
        _ => 0,
    }
}

/// The names of the built-in operations, in registration order.
pub open spec fn builtin_ops() -> Seq<Seq<char>> {
    seq!["data_transform"@, "file_operation"@, "conditional"@, "delay"@]
}

/// Whether a name is a built-in operation's.
pub open spec fn is_builtin(op: Seq<char>) -> bool {
    builtin_ops().contains(op)
}

/// An integer clamped into the machine integer range.
pub open spec fn sat_i64(x: int) -> int {
    if x > i64::MAX {
        i64::MAX as int
    } else if x < i64::MIN {
        i64::MIN as int
    } else {
        x
    }
}

/// A list length clamped into the machine integer range.
pub open spec fn len_i64(n: nat) -> int {
    if n > i64::MAX {
        i64::MAX as int
    } else {
        n as int
    }
}

/// The saturating sum of the integers in a list; non-integers count as
/// zero.
pub open spec fn sat_sum(items: Seq<Val>) -> int
    decreases items.len(),
{
    if items.len() == 0 {
        0
    } else {
        sat_i64(sat_sum(items.drop_last()) + int_or_zero(items.last()))
    }
}

/// How many items of a list are integers.
pub open spec fn count_ints(items: Seq<Val>) -> int
    decreases items.len(),
{
    if items.len() == 0 {
        0
    } else {
        count_ints(items.drop_last()) + if items.last() is Int {
            1int
        } else {
            0int
        }
    }
}

/// The saturating sum of a list's integers divided by their number,
/// rounded toward zero; zero for a list without integers.
pub open spec fn avg_of(items: Seq<Val>) -> int {
    let c = count_ints(items);
    if c == 0 {
        0
    } else {
        let s = sat_sum(items);
        if s >= 0 {
            s / c
        } else {
            -((-s) / c)
        }
    }
}

/// The items whose integer (zero for non-integers) exceeds the
/// threshold, in order.
pub open spec fn filter_gt(items: Seq<Val>, threshold: int) -> Seq<Val>
    decreases items.len(),
{
    if items.len() == 0 {
        Seq::empty()
    } else {
        let rest = filter_gt(items.drop_last(), threshold);
        if int_or_zero(items.last()) > threshold {
            rest.push(items.last())
        } else {
            rest
        }
    }
}

/// Keys compare before (or equal to) one another in the requested
/// direction.
pub open spec fn key_le(a: Val, b: Val, desc: bool) -> bool {
    if desc {
        int_or_zero(a) >= int_or_zero(b)
    } else {
        int_or_zero(a) <= int_or_zero(b)
    }
}

/// Insert a value in front of the maximal suffix of strictly later keys:
/// a stable insertion.
pub open spec fn insert_by_key(s: Seq<Val>, v: Val, desc: bool) -> Seq<Val>
    decreases s.len(),
{
    if s.len() == 0 {
        seq![v]
    } else if key_le(s.last(), v, desc) {
        s.push(v)
    } else {
        insert_by_key(s.drop_last(), v, desc).push(s.last())
    }
}

/// A stable insertion sort by integer key, ascending or descending.
pub open spec fn sort_by_key(s: Seq<Val>, desc: bool) -> Seq<Val>
    decreases s.len(),
{
    if s.len() == 0 {
        Seq::empty()
    } else {
        insert_by_key(sort_by_key(s.drop_last(), desc), s.last(), desc)
    }
}

/// The conditional handler's output object.
pub open spec fn cond_obj(c: Seq<char>, v: int, t: int, b: bool) -> Val {
    Val::Object(
        seq![
            ("condition"@, Val::Text(c)),
            ("value"@, Val::Int(v)),
            ("threshold"@, Val::Int(t)),
            ("result"@, Val::Bool(b)),
        ],
    )
}

/// What the `data_transform` operation returns: `filter`, `sort` or
/// `aggregate` over a list of numbers.
pub open spec fn data_transform_spec(input: Val, params: Option<Val>) -> Result<
    Val,
    Seq<char>,
> {
    match popt_text(params, "operation"@) {
        None => Err("Data transform requires 'operation' parameter"@),
        Some(op) => {
            if op == "filter"@ {
                match input {
                    Val::List(items) => {
                        let threshold = match popt_int(params, "threshold"@) {
                            Some(t) => t,
                            None => 0,
                        };
                        let kept = filter_gt(items, threshold);
                        Ok(
                            Val::Object(
                                seq![
                                    ("filtered_data"@, Val::List(kept)),
                                    ("original_count"@, Val::Int(len_i64(items.len()))),
                                    ("filtered_count"@, Val::Int(len_i64(kept.len()))),
                                    ("threshold"@, Val::Int(threshold)),
                                ],
                            ),
                        )
                    },
                    _ => Err("Data must be an array"@),
                }
            } else if op == "sort"@ {
                match input {
                    Val::List(items) => {
                        let order = match popt_text(params, "order"@) {
                            Some(o) => o,
                            None => "asc"@,
                        };
                        let sorted = sort_by_key(items, order == "desc"@);
                        Ok(
                            Val::Object(
                                seq![
                                    ("sorted_data"@, Val::List(sorted)),
                                    ("order"@, Val::Text(order)),
                                    ("count"@, Val::Int(len_i64(sorted.len()))),
                                ],
                            ),
                        )
                    },
                    _ => Err("Data must be an array"@),
                }
            } else if op == "aggregate"@ {
                match popt_text(params, "function"@) {
                    None => Err("Aggregate requires 'function' parameter"@),
                    Some(f) => match input {
                        Val::List(items) => {
                            if f == "sum"@ {
                                Ok(Val::Object(seq![("sum"@, Val::Int(sat_sum(items)))]))
                            } else if f == "average"@ {
                                Ok(
                                    Val::Object(
                                        seq![
                                            ("average"@, Val::Int(avg_of(items))),
                                            ("count"@, Val::Int(sat_i64(count_ints(items)))),
                                        ],
                                    ),
                                )
                            } else if f == "count"@ {
                                Ok(
                                    Val::Object(
                                        seq![("count"@, Val::Int(len_i64(items.len())))],
                                    ),
                                )
                            } else {
                                Err("Unknown aggregate function: "@ + f)
                            }
                        },
                        _ => Err("Data must be an array"@),
                    },
                }
            } else {
                Err("Unknown data transform operation: "@ + op)
            }
        },
    }
}

/// What the `file_operation` operation returns: a simulated CSV read or
/// JSON write.
pub open spec fn file_operation_spec(params: Option<Val>) -> Result<Val, Seq<char>> {
    match popt_text(params, "operation"@) {
        None => Err("File operation requires 'operation' parameter"@),
        Some(op) => {
            if op == "read_csv"@ || op == "write_json"@ {
                match popt_text(params, "file_path"@) {
                    None => Err("File operation requires 'file_path' parameter"@),
                    Some(path) => Ok(
                        Val::Object(
                            seq![
                                ("operation"@, Val::Text(op)),
                                ("file_path"@, Val::Text(path)),
                                ("status"@, Val::Text("success"@)),
                                (
                                    "message"@,
                                    Val::Text(
                                        if op == "read_csv"@ {
                                            "CSV file read successfully (simulated)"@
                                        } else {
                                            "JSON file written successfully (simulated)"@
                                        },
                                    ),
                                ),
                            ],
                        ),
                    ),
                }
            } else {
                Err("Unknown file operation: "@ + op)
            }
        },
    }
}

/// What the `conditional` operation returns: a numeric comparison of the
/// input against a threshold.
pub open spec fn conditional_spec(input: Val, params: Option<Val>) -> Result<
    Val,
    Seq<char>,
> {
    match popt_text(params, "condition"@) {
        None => Err("Conditional requires 'condition' parameter"@),
        Some(c) => {
            let v = int_or_zero(input);
            let t = match popt_int(params, "threshold"@) {
                Some(t) => t,
                None => 0,
            };
            if c == "greater_than"@ {
                Ok(cond_obj(c, v, t, v > t))
            } else if c == "less_than"@ {
                Ok(cond_obj(c, v, t, v < t))
            } else if c == "equals"@ {
                Ok(cond_obj(c, v, t, v == t))
            } else if c == "not_equals"@ {
                Ok(cond_obj(c, v, t, v != t))
            } else {
                Err("Unknown condition: "@ + c)
            }
        },
    }
}

/// What the `delay` operation returns: an acknowledged duration, one
/// second when none is given.
pub open spec fn delay_spec(params: Option<Val>) -> Result<Val, Seq<char>> {
    let d = match popt_int(params, "duration_ms"@) {
        Some(i) => if i >= 0 {
            i
        } else {
            1000
        },
        None => 1000,
    };
    Ok(
        Val::Object(
            seq![
                ("operation"@, Val::Text("delay"@)),
                ("duration_ms"@, Val::Int(d)),
                ("status"@, Val::Text("completed"@)),
            ],
        ),
    )
}

/// What applying a named operation returns; an unregistered name is an
/// error naming itself.
pub open spec fn apply_op_spec(op: Seq<char>, input: Val, params: Option<Val>) -> Result<
    Val,
    Seq<char>,
> {
    if op == "data_transform"@ {
        data_transform_spec(input, params)
    } else if op == "file_operation"@ {
        file_operation_spec(params)
    } else if op == "conditional"@ {
        conditional_spec(input, params)
    } else if op == "delay"@ {
        delay_spec(params)
    } else {
        Err("unknown operation: "@ + op)
    }
}


/// The parameter value under a key.
fn param_get<'a>(params: Option<&'a Value>, key: &str) -> (r: Option<&'a Value>)
    ensures
        match r {
            Some(v) => popt_lookup(opt_view(params), key@) == Some(v@),
            None => popt_lookup(opt_view(params), key@) is None,
        },
{
    match params {
        Some(p) => p.get(key),
        None => None,
    }
}

/// The text under a parameter key.
fn param_text<'a>(params: Option<&'a Value>, key: &str) -> (r: Option<&'a String>)
    ensures
        match r {
            Some(s) => popt_text(opt_view(params), key@) == Some(s@),
            None => popt_text(opt_view(params), key@) is None,
        },
{
    match param_get(params, key) {
        Some(v) => v.as_text(),
        None => None,
    }
}

/// The integer under a parameter key.
fn param_int(params: Option<&Value>, key: &str) -> (r: Option<i64>)
    ensures
        match r {
            Some(i) => popt_int(opt_view(params), key@) == Some(i as int),
            None => popt_int(opt_view(params), key@) is None,
        },
{
    match param_get(params, key) {
        Some(v) => v.as_int(),
        None => None,
    }
}

/// An object of one entry.
fn obj1(k1: &str, v1: Value) -> (r: Value)
    ensures
        r@ == Val::Object(seq![(k1@, v1@)]),
{
    let mut pairs: Vec<Field> = Vec::new();
    pairs.push(Field { key: k1.to_owned(), val: v1 });
    proof {
        lemma_fields_of(pairs@);
        assert(fields_of(pairs@) =~= seq![(k1@, v1@)]);
    }
    Value::Object(pairs)
}

/// An object of two entries.
fn obj2(k1: &str, v1: Value, k2: &str, v2: Value) -> (r: Value)
    ensures
        r@ == Val::Object(seq![(k1@, v1@), (k2@, v2@)]),
{
    let mut pairs: Vec<Field> = Vec::new();
    pairs.push(Field { key: k1.to_owned(), val: v1 });
    pairs.push(Field { key: k2.to_owned(), val: v2 });
    proof {
        lemma_fields_of(pairs@);
        assert(fields_of(pairs@) =~= seq![(k1@, v1@), (k2@, v2@)]);
    }
    Value::Object(pairs)
}

/// An object of three entries.
fn obj3(k1: &str, v1: Value, k2: &str, v2: Value, k3: &str, v3: Value) -> (r: Value)
    ensures
        r@ == Val::Object(seq![(k1@, v1@), (k2@, v2@), (k3@, v3@)]),
{
    let mut pairs: Vec<Field> = Vec::new();
    pairs.push(Field { key: k1.to_owned(), val: v1 });
    pairs.push(Field { key: k2.to_owned(), val: v2 });
    pairs.push(Field { key: k3.to_owned(), val: v3 });
    proof {
        lemma_fields_of(pairs@);
        assert(fields_of(pairs@) =~= seq![(k1@, v1@), (k2@, v2@), (k3@, v3@)]);
    }
    Value::Object(pairs)
}

/// An object of four entries.
fn obj4(
    k1: &str,
    v1: Value,
    k2: &str,
    v2: Value,
    k3: &str,
    v3: Value,
    k4: &str,
    v4: Value,
) -> (r: Value)
    ensures
        r@ == Val::Object(seq![(k1@, v1@), (k2@, v2@), (k3@, v3@), (k4@, v4@)]),
{
    let mut pairs: Vec<Field> = Vec::new();
    pairs.push(Field { key: k1.to_owned(), val: v1 });
    pairs.push(Field { key: k2.to_owned(), val: v2 });
    pairs.push(Field { key: k3.to_owned(), val: v3 });
    pairs.push(Field { key: k4.to_owned(), val: v4 });
    proof {
        lemma_fields_of(pairs@);
        assert(fields_of(pairs@) =~= seq![(k1@, v1@), (k2@, v2@), (k3@, v3@), (k4@, v4@)]);
    }
    Value::Object(pairs)
}

/// A message made of a fixed text and a tail.
fn msg_with(prefix: &str, tail: &str) -> (r: String)
    ensures
        r@ == prefix@ + tail@,
{
    let mut m = prefix.to_owned();
    m.append(tail);
    m
}

/// The simulated `file_operation` handler.
fn run_file_operation(params: Option<&Value>) -> (r: Result<Value, String>)
    ensures
        ({
            let expected = file_operation_spec(opt_view(params));
            match (r, expected) {
                (Ok(v), Ok(ev)) => v@ == ev,
                (Err(m), Err(em)) => m@ == em,
                _ => false,
            }
        }),
{
    let op = match param_text(params, "operation") {
        Some(op) => op,
        None => {
            return Err("File operation requires 'operation' parameter".to_owned());
        },
    };
    let is_read = str_eq(op.as_str(), "read_csv");
    if is_read || str_eq(op.as_str(), "write_json") {
        let path = match param_text(params, "file_path") {
            Some(p) => p,
            None => {
                return Err("File operation requires 'file_path' parameter".to_owned());
            },
        };
        let message = if is_read {
            "CSV file read successfully (simulated)"
        } else {
            "JSON file written successfully (simulated)"
        };
        Ok(
            obj4(
                "operation",
                Value::Text(op.clone()),
                "file_path",
                Value::Text(path.clone()),
                "status",
                Value::Text("success".to_owned()),
                "message",
                Value::Text(message.to_owned()),
            ),
        )
    } else {
        Err(msg_with("Unknown file operation: ", op.as_str()))
    }
}

/// The `conditional` handler: numeric comparison against a threshold.
fn run_conditional(input: &Value, params: Option<&Value>) -> (r: Result<Value, String>)
    ensures
        ({
            let expected = conditional_spec(input@, opt_view(params));
            match (r, expected) {
                (Ok(v), Ok(ev)) => v@ == ev,
                (Err(m), Err(em)) => m@ == em,
                _ => false,
            }
        }),
{
    let c = match param_text(params, "condition") {
        Some(c) => c,
        None => {
            return Err("Conditional requires 'condition' parameter".to_owned());
        },
    };
    let v: i64 = match input.as_int() {
        Some(i) => i,
        None => 0,
    };
    let t: i64 = match param_int(params, "threshold") {
        Some(i) => i,
        None => 0,
    };
    let outcome: bool;
    if str_eq(c.as_str(), "greater_than") {
        outcome = v > t;
    } else if str_eq(c.as_str(), "less_than") {
        outcome = v < t;
    } else if str_eq(c.as_str(), "equals") {
        outcome = v == t;
    } else if str_eq(c.as_str(), "not_equals") {
        outcome = v != t;
    } else {
        return Err(msg_with("Unknown condition: ", c.as_str()));
    }
    Ok(
        obj4(
            "condition",
            Value::Text(c.clone()),
            "value",
            Value::Int(v),
            "threshold",
            Value::Int(t),
            "result",
            Value::Bool(outcome),
        ),
    )
}

/// The `delay` handler: acknowledges a millisecond duration without
/// sleeping.
fn run_delay(params: Option<&Value>) -> (r: Result<Value, String>)
    ensures
        ({
            let expected = delay_spec(opt_view(params));
            match (r, expected) {
                (Ok(v), Ok(ev)) => v@ == ev,
                (Err(m), Err(em)) => m@ == em,
                _ => false,
            }
        }),
{
    let d: i64 = match param_int(params, "duration_ms") {
        Some(i) => if i >= 0 {
            i
        } else {
            1000
        },
        None => 1000,
    };
    Ok(
        obj3(
            "operation",
            Value::Text("delay".to_owned()),
            "duration_ms",
            Value::Int(d),
            "status",
            Value::Text("completed".to_owned()),
        ),
    )
}


/// The integer a value holds, zero for any other value.
fn key_of(v: &Value) -> (k: i64)
    ensures
        k as int == int_or_zero(v@),
{
    match v {
        Value::Int(i) => *i,
        _ => 0,
    }
}

/// Addition clamped at the machine integer bounds.
fn sat_add(a: i64, b: i64) -> (r: i64)
    ensures
        r as int == sat_i64(a as int + b as int),
{
    match a.checked_add(b) {
        Some(s) => s,
        None => if a >= 0 {
            i64::MAX
        } else {
            i64::MIN
        },
    }
}

/// A list length clamped into the machine integer range.
fn len_to_i64(n: usize) -> (r: i64)
    ensures
        r as int == len_i64(n as nat),
{
    if n as u64 > i64::MAX as u64 {
        i64::MAX
    } else {
        n as i64
    }
}

/// The saturating sum of a list's integers.
fn sum_values(items: &Vec<Value>) -> (s: i64)
    ensures
        s as int == sat_sum(vals_of(items@)),
{
    let ghost gv = vals_of(items@);
    proof {
        lemma_vals_of(items@);
    }
    let mut acc: i64 = 0;
    let mut i: usize = 0;
    while i < items.len()
        invariant
            gv == vals_of(items@),
            gv.len() == items@.len(),
            forall|k: int| 0 <= k < items@.len() ==> gv[k] == val_of(#[trigger] items@[k]),
            0 <= i <= items@.len(),
            acc as int == sat_sum(gv.take(i as int)),
        decreases items@.len() - i,
    {
        let k = key_of(&items[i]);
        acc = sat_add(acc, k);
        proof {
            assert(gv.take(i + 1).drop_last() =~= gv.take(i as int));
            assert(gv.take(i + 1).last() == gv[i as int]);
        }
        i += 1;
    }
    proof {
        assert(gv.take(gv.len() as int) =~= gv);
    }
    acc
}

/// How many items of a list are integers.
fn count_int_values(items: &Vec<Value>) -> (c: usize)
    ensures
        c as int == count_ints(vals_of(items@)),
        c <= items@.len(),
{
    let ghost gv = vals_of(items@);
    proof {
        lemma_vals_of(items@);
    }
    let mut c: usize = 0;
    let mut i: usize = 0;
    while i < items.len()
        invariant
            gv == vals_of(items@),
            gv.len() == items@.len(),
            forall|k: int| 0 <= k < items@.len() ==> gv[k] == val_of(#[trigger] items@[k]),
            0 <= i <= items@.len(),
            c <= i,
            c as int == count_ints(gv.take(i as int)),
        decreases items@.len() - i,
    {
        let is_int = match &items[i] {
            Value::Int(_) => true,
            _ => false,
        };
        if is_int {
            c += 1;
        }
        proof {
            assert(gv.take(i + 1).drop_last() =~= gv.take(i as int));
            assert(gv.take(i + 1).last() == gv[i as int]);
        }
        i += 1;
    }
    proof {
        assert(gv.take(gv.len() as int) =~= gv);
    }
    c
}

/// The truncated average of a list's integers, zero when there are none.
fn avg_values(items: &Vec<Value>) -> (a: i64)
    ensures
        a as int == avg_of(vals_of(items@)),
{
    let s = sum_values(items);
    let c = count_int_values(items);
    if c == 0 {
        0
    } else if s >= 0 {
        let q = (s as u64) / (c as u64);
        proof {
            lemma_div_nonincreasing(s as int, c as int);
            lemma_div_pos_is_pos(s as int, c as int);
        }
        q as i64
    } else {
        let m: u64 = (-(s as i128)) as u64;
        let q = m / (c as u64);
        proof {
            lemma_div_nonincreasing(m as int, c as int);
            lemma_div_pos_is_pos(m as int, c as int);
        }
        if q > i64::MAX as u64 {
            proof {
                assert(q == 0x8000_0000_0000_0000u64);
            }
            i64::MIN
        } else {
            -(q as i64)
        }
    }
}

/// The items whose integer exceeds the threshold, copied in order.
fn filter_values(items: &Vec<Value>, threshold: i64) -> (out: Vec<Value>)
    ensures
        vals_of(out@) == filter_gt(vals_of(items@), threshold as int),
{
    let ghost gv = vals_of(items@);
    proof {
        lemma_vals_of(items@);
    }
    let mut out: Vec<Value> = Vec::new();
    let mut i: usize = 0;
    while i < items.len()
        invariant
            gv == vals_of(items@),
            gv.len() == items@.len(),
            forall|k: int| 0 <= k < items@.len() ==> gv[k] == val_of(#[trigger] items@[k]),
            0 <= i <= items@.len(),
            vals_of(out@) == filter_gt(gv.take(i as int), threshold as int),
        decreases items@.len() - i,
    {
        let ghost old_out = out@;
        if key_of(&items[i]) > threshold {
            out.push(items[i].deep_copy());
            proof {
                assert(out@.drop_last() =~= old_out);
            }
        }
        proof {
            assert(gv.take(i + 1).drop_last() =~= gv.take(i as int));
            assert(gv.take(i + 1).last() == gv[i as int]);
        }
        i += 1;
    }
    proof {
        assert(gv.take(gv.len() as int) =~= gv);
    }
    out
}

/// Inserting in front of the maximal strictly-later suffix realizes the
/// stable insertion.
proof fn lemma_insert_at(s: Seq<Val>, v: Val, desc: bool, p: int)
    requires
        0 <= p <= s.len(),
        forall|t: int| p <= t < s.len() ==> !key_le(#[trigger] s[t], v, desc),
        p > 0 ==> key_le(s[p - 1], v, desc),
    ensures
        insert_by_key(s, v, desc) == s.take(p) + seq![v] + s.skip(p),
    decreases s.len(),
{
    if s.len() == 0 {
        assert(insert_by_key(s, v, desc) =~= s.take(p) + seq![v] + s.skip(p));
    } else if p == s.len() {
        assert(key_le(s.last(), v, desc));
        assert(insert_by_key(s, v, desc) =~= s.take(p) + seq![v] + s.skip(p));
    } else {
        assert(!key_le(s[s.len() - 1], v, desc));
        lemma_insert_at(s.drop_last(), v, desc, p);
        assert(s.drop_last().take(p) =~= s.take(p));
        assert(s.drop_last().skip(p) =~= s.skip(p).drop_last());
        assert(insert_by_key(s, v, desc) =~= s.take(p) + seq![v] + s.skip(p));
    }
}

/// A stable insertion sort of the list by integer key.
fn sort_values(items: &Vec<Value>, desc: bool) -> (out: Vec<Value>)
    ensures
        vals_of(out@) == sort_by_key(vals_of(items@), desc),
{
    let ghost gv = vals_of(items@);
    proof {
        lemma_vals_of(items@);
    }
    let mut out: Vec<Value> = Vec::new();
    let mut i: usize = 0;
    while i < items.len()
        invariant
            gv == vals_of(items@),
            gv.len() == items@.len(),
            forall|k: int| 0 <= k < items@.len() ==> gv[k] == val_of(#[trigger] items@[k]),
            0 <= i <= items@.len(),
            out@.len() == i,
            vals_of(out@) == sort_by_key(gv.take(i as int), desc),
        decreases items@.len() - i,
    {
        let v = items[i].deep_copy();
        let ghost old_out = out@;
        let ghost old_vals = vals_of(out@);
        proof {
            lemma_vals_of(out@);
        }
        let vk = key_of(&v);
        let mut p: usize = out.len();
        while p > 0 && after_key(&out[p - 1], vk, desc)
            invariant
                out@ == old_out,
                old_vals == vals_of(out@),
                old_vals.len() == out@.len(),
                forall|k: int|
                    0 <= k < out@.len() ==> old_vals[k] == val_of(#[trigger] out@[k]),
                vk as int == int_or_zero(v@),
                0 <= p <= out@.len(),
                forall|t: int|
                    p <= t < out@.len() ==> !key_le(#[trigger] old_vals[t], v@, desc),
            decreases p,
        {
            p -= 1;
        }
        proof {
            lemma_insert_at(old_vals, v@, desc, p as int);
        }
        out.insert(p, v);
        proof {
            lemma_vals_of(out@);
            assert(vals_of(out@) =~= old_vals.take(p as int) + seq![v@] + old_vals.skip(
                p as int,
            ));
            assert(gv.take(i + 1).drop_last() =~= gv.take(i as int));
            assert(gv.take(i + 1).last() == gv[i as int]);
        }
        i += 1;
    }
    proof {
        assert(gv.take(gv.len() as int) =~= gv);
    }
    out
}

/// Whether a value's key comes strictly after the given key in the
/// requested direction.
fn after_key(a: &Value, vk: i64, desc: bool) -> (r: bool)
    ensures
        r == !key_le(a@, Val::Int(vk as int), desc),
{
    let ak = key_of(a);
    if desc {
        ak < vk
    } else {
        ak > vk
    }
}

/// The `data_transform` handler: `filter`, `sort` or `aggregate` over a
/// list of numbers.
fn run_data_transform(input: &Value, params: Option<&Value>) -> (r: Result<Value, String>)
    ensures
        ({
            let expected = data_transform_spec(input@, opt_view(params));
            match (r, expected) {
                (Ok(v), Ok(ev)) => v@ == ev,
                (Err(m), Err(em)) => m@ == em,
                _ => false,
            }
        }),
{
    let op = match param_text(params, "operation") {
        Some(o) => o,
        None => {
            return Err("Data transform requires 'operation' parameter".to_owned());
        },
    };
    if str_eq(op.as_str(), "filter") {
        let items = match input.as_list() {
            Some(l) => l,
            None => {
                return Err("Data must be an array".to_owned());
            },
        };
        let threshold: i64 = match param_int(params, "threshold") {
            Some(t) => t,
            None => 0,
        };
        let kept = filter_values(items, threshold);
        proof {
            lemma_vals_of(items@);
            lemma_vals_of(kept@);
        }
        let n1 = len_to_i64(items.len());
        let n2 = len_to_i64(kept.len());
        Ok(
            obj4(
                "filtered_data",
                Value::List(kept),
                "original_count",
                Value::Int(n1),
                "filtered_count",
                Value::Int(n2),
                "threshold",
                Value::Int(threshold),
            ),
        )
    } else if str_eq(op.as_str(), "sort") {
        let items = match input.as_list() {
            Some(l) => l,
            None => {
                return Err("Data must be an array".to_owned());
            },
        };
        let order: String = match param_text(params, "order") {
            Some(o) => o.clone(),
            None => "asc".to_owned(),
        };
        let desc = str_eq(order.as_str(), "desc");
        let sorted = sort_values(items, desc);
        proof {
            lemma_vals_of(items@);
            lemma_vals_of(sorted@);
        }
        let n = len_to_i64(sorted.len());
        Ok(
            obj3(
                "sorted_data",
                Value::List(sorted),
                "order",
                Value::Text(order),
                "count",
                Value::Int(n),
            ),
        )
    } else if str_eq(op.as_str(), "aggregate") {
        let f = match param_text(params, "function") {
            Some(f) => f,
            None => {
                return Err("Aggregate requires 'function' parameter".to_owned());
            },
        };
        let items = match input.as_list() {
            Some(l) => l,
            None => {
                return Err("Data must be an array".to_owned());
            },
        };
        if str_eq(f.as_str(), "sum") {
            let s = sum_values(items);
            Ok(obj1("sum", Value::Int(s)))
        } else if str_eq(f.as_str(), "average") {
            let a = avg_values(items);
            let c = count_int_values(items);
            let cn = len_to_i64(c);
            proof {
                lemma_vals_of(items@);
                assert(cn as int == sat_i64(count_ints(vals_of(items@))));
            }
            Ok(obj2("average", Value::Int(a), "count", Value::Int(cn)))
        } else if str_eq(f.as_str(), "count") {
            proof {
                lemma_vals_of(items@);
            }
            let n = len_to_i64(items.len());
            Ok(obj1("count", Value::Int(n)))
        } else {
            Err(msg_with("Unknown aggregate function: ", f.as_str()))
        }
    } else {
        Err(msg_with("Unknown data transform operation: ", op.as_str()))
    }
}

/// Apply a named operation to an input value and parameters; an
/// unregistered name is reported in the error.
pub fn apply_operation(op: &str, input: &Value, params: Option<&Value>) -> (r: Result<
    Value,
    String,
>)
    ensures
        ({
            let expected = apply_op_spec(op@, input@, opt_view(params));
            match (r, expected) {
                (Ok(v), Ok(ev)) => v@ == ev,
                (Err(m), Err(em)) => m@ == em,
                _ => false,
            }
        }),
{
    if str_eq(op, "data_transform") {
        run_data_transform(input, params)
    } else if str_eq(op, "file_operation") {
        run_file_operation(params)
    } else if str_eq(op, "conditional") {
        run_conditional(input, params)
    } else if str_eq(op, "delay") {
        run_delay(params)
    } else {
        Err(msg_with("unknown operation: ", op))
    }
}

/// The names of the built-in operations, in registration order.
pub fn builtin_operation_names() -> (r: Vec<String>)
    ensures
        r@.len() == builtin_ops().len(),
        forall|k: int| 0 <= k < r@.len() ==> r@[k]@ == builtin_ops()[k],
{
    let mut names: Vec<String> = Vec::new();
    names.push("data_transform".to_owned());
    names.push("file_operation".to_owned());
    names.push("conditional".to_owned());
    names.push("delay".to_owned());
    names
}


/// Adjacent-free ordering by key in the requested direction.
pub open spec fn sorted_by_key(s: Seq<Val>, desc: bool) -> bool {
    forall|i: int, j: int| 0 <= i < j < s.len() ==> key_le(#[trigger] s[i], #[trigger] s[j], desc)
}

/// Law: a stable insertion adds exactly the inserted value to the
/// list's contents.
pub proof fn lemma_insert_by_key_multiset(s: Seq<Val>, v: Val, desc: bool)
    ensures
        insert_by_key(s, v, desc).to_multiset() == s.to_multiset().insert(v),
    decreases s.len(),
{
    broadcast use vstd::seq_lib::group_to_multiset_ensures;

    if s.len() == 0 {
        assert(seq![v] =~= Seq::<Val>::empty().push(v));
        assert(insert_by_key(s, v, desc).to_multiset() =~= s.to_multiset().insert(v));
    } else if key_le(s.last(), v, desc) {
    } else {
        lemma_insert_by_key_multiset(s.drop_last(), v, desc);
        assert(s =~= s.drop_last().push(s.last()));
        assert(s.to_multiset() == s.drop_last().to_multiset().insert(s.last()));
        assert(insert_by_key(s, v, desc).to_multiset() == s.drop_last().to_multiset().insert(
            v,
        ).insert(s.last()));
        assert(s.drop_last().to_multiset().insert(v).insert(s.last())
            =~= s.drop_last().to_multiset().insert(s.last()).insert(v));
    }
}

/// Law: a stable insertion into a key-ordered list leaves it
/// key-ordered.
proof fn lemma_insert_by_key_sorted(s: Seq<Val>, v: Val, desc: bool)
    requires
        sorted_by_key(s, desc),
    ensures
        sorted_by_key(insert_by_key(s, v, desc), desc),
    decreases s.len(),
{
    broadcast use vstd::seq_lib::group_to_multiset_ensures;

    let r = insert_by_key(s, v, desc);
    if s.len() == 0 {
    } else if key_le(s.last(), v, desc) {
        assert forall|i: int, j: int|
            0 <= i < j < r.len() implies key_le(#[trigger] r[i], #[trigger] r[j], desc) by {
            if j == r.len() - 1 {
                if i < s.len() - 1 {
                    assert(key_le(s[i], s[s.len() - 1], desc));
                }
            }
        }
    } else {
        let dl = s.drop_last();
        assert(sorted_by_key(dl, desc)) by {
            assert forall|i: int, j: int|
                0 <= i < j < dl.len() implies key_le(#[trigger] dl[i], #[trigger] dl[j], desc) by {
                assert(s[i] == dl[i]);
                assert(s[j] == dl[j]);
            }
        }
        lemma_insert_by_key_sorted(dl, v, desc);
        lemma_insert_by_key_multiset(dl, v, desc);
        let r0 = insert_by_key(dl, v, desc);
        assert forall|k: int| 0 <= k < r0.len() implies key_le(
            #[trigger] r0[k],
            s.last(),
            desc,
        ) by {
            assert(r0.contains(r0[k]));
            assert(r0.to_multiset().contains(r0[k]));
            if r0[k] == v {
                assert(!key_le(s.last(), v, desc));
            } else {
                assert(dl.to_multiset().contains(r0[k]));
                assert(dl.contains(r0[k]));
                let t = choose|t: int| 0 <= t < dl.len() && dl[t] == r0[k];
                assert(key_le(s[t], s[s.len() - 1], desc));
            }
        }
        assert forall|i: int, j: int|
            0 <= i < j < r.len() implies key_le(#[trigger] r[i], #[trigger] r[j], desc) by {
            if j < r.len() - 1 {
                assert(r[i] == r0[i]);
                assert(r[j] == r0[j]);
            } else {
                assert(r[i] == r0[i]);
                assert(r[j] == s.last());
            }
        }
    }
}

/// Law: the sort orders the list by key in the requested direction.
pub proof fn lemma_sort_by_key_sorted(s: Seq<Val>, desc: bool)
    ensures
        sorted_by_key(sort_by_key(s, desc), desc),
    decreases s.len(),
{
    if s.len() > 0 {
        let dl = s.drop_last();
        assert(sorted_by_key(sort_by_key(dl, desc), desc)) by {
            lemma_sort_by_key_sorted(dl, desc);
        }
        lemma_insert_by_key_sorted(sort_by_key(dl, desc), s.last(), desc);
    }
}

/// Law: the sort permutes the list: its output holds exactly the input's
/// values.
pub proof fn lemma_sort_by_key_permutes(s: Seq<Val>, desc: bool)
    ensures
        sort_by_key(s, desc).to_multiset() == s.to_multiset(),
    decreases s.len(),
{
    broadcast use vstd::seq_lib::group_to_multiset_ensures;

    if s.len() > 0 {
        let dl = s.drop_last();
        lemma_sort_by_key_permutes(dl, desc);
        lemma_insert_by_key_multiset(sort_by_key(dl, desc), s.last(), desc);
        assert(s =~= dl.push(s.last()));
        assert(s.to_multiset() == dl.to_multiset().insert(s.last()));
    }
}

} // verus!
