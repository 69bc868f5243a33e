//! Descriptor-driven merge for aggregate values.
//!
//! An aggregate is described field by field: each field carries an identity
//! (a name or an ordinal position), a skip flag, and an optional reference to
//! a named strategy. Merging two aggregates of the same shape resolves every
//! field in declaration order: a skipped field keeps the left-hand value and
//! is never touched by the right-hand one; a field with a strategy hands both
//! field values to the caller-supplied strategy; any other field is merged
//! recursively through its own default merge. The first field to fail aborts
//! the whole merge, and its error is returned unchanged; fields after it are
//! never evaluated.
//!
//! Strategies are supplied as one resolver closure: it receives the
//! strategy's name and the two field values, and returns the merged field
//! value or an error.

use vstd::prelude::*;

use crate::MergeError;
use vstd::pervasive::VecAdditionalExecFns;

verus! {

/// How a field is addressed: by name in a record with named fields, by
/// ordinal position in a tuple-like record. The identity has no effect on the
/// merged value; it exists so a descriptor can be traced back to its field.
#[derive(Debug, PartialEq, Eq)]
pub enum FieldId {
    Named(String),
    Pos(usize),
}

/// The per-field merge descriptor: identity, skip flag, and an optional
/// reference to a named strategy. A list of these, in declaration order,
/// describes one aggregate type.
#[derive(Debug, PartialEq, Eq)]
pub struct FieldRule {
    pub id: FieldId,
    pub skip: bool,
    pub strategy: Option<String>,
}

/// One field of an aggregate value: its descriptor and its current value.
#[derive(Debug, PartialEq, Eq)]
pub struct Field {
    pub rule: FieldRule,
    pub value: Value,
}

/// A dynamic value: an unsigned scalar, a text, or a nested aggregate. The
/// scalar and text kinds have no default merge of their own — a field holding
/// one must either be skipped or name a strategy, or the merge reports
/// [`MergeError::NotMergeable`].
#[derive(Debug, PartialEq, Eq)]
pub enum Value {
    Uint(u64),
    Text(String),
    Rec(Record),
}

/// An aggregate value: its fields, in declaration order, each with its own
/// descriptor.
#[derive(Debug, PartialEq, Eq)]
pub struct Record {
    pub fields: Vec<Field>,
}

/// Whether two field identities agree.
pub open spec fn same_id(a: FieldId, b: FieldId) -> bool {
    match (a, b) {
        (FieldId::Named(x), FieldId::Named(y)) => x@ == y@,
        (FieldId::Pos(i), FieldId::Pos(j)) => i == j,
        _ => false,
    }
}

/// Whether two field descriptors agree.
pub open spec fn same_rule(a: FieldRule, b: FieldRule) -> bool {
    &&& same_id(a.id, b.id)
    &&& a.skip == b.skip
    &&& match (a.strategy, b.strategy) {
        (Some(x), Some(y)) => x@ == y@,
        (None, None) => true,
        _ => false,
    }
}

/// Whether two values are equal, comparing text by its characters.
pub open spec fn same_value(a: Value, b: Value) -> bool
    decreases a,
{
    match (a, b) {
        (Value::Uint(x), Value::Uint(y)) => x == y,
        (Value::Text(x), Value::Text(y)) => x@ == y@,
        (Value::Rec(x), Value::Rec(y)) => same_record(x, y),
        _ => false,
    }
}

/// Whether two fields are equal: equal descriptors and equal values.
pub open spec fn same_field(a: Field, b: Field) -> bool
    decreases a,
{
    same_rule(a.rule, b.rule) && same_value(a.value, b.value)
}

/// Whether two aggregate values are equal field by field.
pub open spec fn same_record(a: Record, b: Record) -> bool
    decreases a,
{
    &&& a.fields.len() == b.fields.len()
    &&& forall|i: int|
        0 <= i < a.fields.len() ==> same_field(#[trigger] a.fields@[i], b.fields@[i])
}

/// Whether two values share the same shape: the same kind of value, and for
/// aggregates the same descriptors and, field by field, the same shape again.
pub open spec fn same_shape_value(a: Value, b: Value) -> bool
    decreases a,
{
    match (a, b) {
        (Value::Uint(_), Value::Uint(_)) => true,
        (Value::Text(_), Value::Text(_)) => true,
        (Value::Rec(x), Value::Rec(y)) => same_shape_record(x, y),
        _ => false,
    }
}

/// Whether two aggregate values share the same shape.
pub open spec fn same_shape_record(a: Record, b: Record) -> bool
    decreases a,
{
    &&& a.fields.len() == b.fields.len()
    &&& forall|i: int|
        0 <= i < a.fields.len() ==> same_rule((#[trigger] a.fields@[i]).rule, b.fields@[i].rule)
            && same_shape_value(a.fields@[i].value, b.fields@[i].value)
}

/// Whether the resolver accepts every strategy name and every pair of field
/// values it may be handed.
pub open spec fn strategies_callable<F: Fn(&String, &Value, &Value) -> Result<
    Value,
    MergeError,
>>(f: F) -> bool {
    forall|args: (&String, &Value, &Value)| #[trigger] call_requires(f, args)
}

/// What a non-failing field resolves to: a skipped field keeps the left-hand
/// value; a field with a strategy holds an output of the resolver for that
/// strategy's name; any other field holds a default merge of the two values.
pub open spec fn field_merge_ok<F: Fn(&String, &Value, &Value) -> Result<Value, MergeError>>(
    f: F,
    rule: FieldRule,
    l: Value,
    r: Value,
    out: Value,
) -> bool
    decreases l, 1int,
{
    if rule.skip {
        same_value(l, out)
    } else {
        match rule.strategy {
            Some(name) => call_ensures(f, (&name, &l, &r), Ok::<Value, MergeError>(out)),
            None => default_merge_ok(f, l, r, out),
        }
    }
}

/// What a default (recursive) merge of two values produces: for two
/// aggregates, a field-by-field merge; a scalar or a text has no default
/// merge, so no value qualifies.
pub open spec fn default_merge_ok<F: Fn(&String, &Value, &Value) -> Result<Value, MergeError>>(
    f: F,
    l: Value,
    r: Value,
    out: Value,
) -> bool
    decreases l, 0int,
{
    match (l, r) {
        (Value::Rec(x), Value::Rec(y)) => match out {
            Value::Rec(z) => record_merge_ok(f, x, y, z),
            _ => false,
        },
        _ => false,
    }
}

/// What a successful field-by-field merge of two aggregates produces: one
/// field per left-hand field, each keeping its descriptor and holding that
/// field's resolution.
pub open spec fn record_merge_ok<F: Fn(&String, &Value, &Value) -> Result<Value, MergeError>>(
    f: F,
    l: Record,
    r: Record,
    out: Record,
) -> bool
    decreases l, 0int,
{
    &&& out.fields.len() == l.fields.len()
    &&& forall|i: int|
        0 <= i < l.fields.len() ==> same_rule((#[trigger] out.fields@[i]).rule, l.fields@[i].rule)
            && field_merge_ok(
            f,
            l.fields@[i].rule,
            l.fields@[i].value,
            r.fields@[i].value,
            out.fields@[i].value,
        )
}

/// How one field fails: a skipped field never fails; a field with a strategy
/// fails when the resolver reports this error for it; any other field fails
/// when its default merge does — with [`MergeError::NotMergeable`] on a
/// scalar or text, or recursively inside a nested aggregate.
pub open spec fn field_merge_err<F: Fn(&String, &Value, &Value) -> Result<Value, MergeError>>(
    f: F,
    rule: FieldRule,
    l: Value,
    r: Value,
    e: MergeError,
) -> bool
    decreases l, 1int,
{
    &&& !rule.skip
    &&& match rule.strategy {
        Some(name) => call_ensures(f, (&name, &l, &r), Err::<Value, MergeError>(e)),
        None => default_merge_err(f, l, r, e),
    }
}

/// How a default merge of two values fails.
pub open spec fn default_merge_err<F: Fn(&String, &Value, &Value) -> Result<Value, MergeError>>(
    f: F,
    l: Value,
    r: Value,
    e: MergeError,
) -> bool
    decreases l, 0int,
{
    match (l, r) {
        (Value::Rec(x), Value::Rec(y)) => record_merge_err(f, x, y, e),
        _ => e == MergeError::NotMergeable,
    }
}

/// How a field-by-field merge of two aggregates fails: some field, in
/// declaration order, is the first to fail; every field before it resolved,
/// and the failing field's error is the whole merge's error, unchanged.
pub open spec fn record_merge_err<F: Fn(&String, &Value, &Value) -> Result<Value, MergeError>>(
    f: F,
    l: Record,
    r: Record,
    e: MergeError,
) -> bool
    decreases l, 0int,
{
    exists|i: int|
        {
            &&& 0 <= i < l.fields.len()
            &&& field_merge_err(
                f,
                (#[trigger] l.fields@[i]).rule,
                l.fields@[i].value,
                r.fields@[i].value,
                e,
            )
            &&& forall|j: int|
                0 <= j < i ==> exists|v: Value|
                    field_merge_ok(
                        f,
                        (#[trigger] l.fields@[j]).rule,
                        l.fields@[j].value,
                        r.fields@[j].value,
                        v,
                    )
        }
}

/// Every identity agrees with itself.
pub proof fn lemma_same_id_refl(a: FieldId)
    ensures
        same_id(a, a),
{
    match a {
        FieldId::Named(_) => {},
        FieldId::Pos(_) => {},
    }
}

/// Every descriptor agrees with itself.
pub proof fn lemma_same_rule_refl(a: FieldRule)
    ensures
        same_rule(a, a),
{
    lemma_same_id_refl(a.id);
}

/// Every value equals itself under [`same_value`].
pub proof fn lemma_same_value_refl(a: Value)
    ensures
        same_value(a, a),
    decreases a,
{
    match a {
        Value::Rec(r) => lemma_same_record_refl(r),
        _ => {},
    }
}

/// Every aggregate value equals itself under [`same_record`].
pub proof fn lemma_same_record_refl(a: Record)
    ensures
        same_record(a, a),
    decreases a,
{
    assert forall|i: int| 0 <= i < a.fields.len() implies same_field(
        #[trigger] a.fields@[i],
        a.fields@[i],
    ) by {
        lemma_same_rule_refl(a.fields@[i].rule);
        lemma_same_value_refl(a.fields@[i].value);
    }
}

impl Clone for FieldId {
    /// An identity clones to an agreeing identity.
    fn clone(&self) -> (res: Self)
        ensures
            same_id(*self, res),
    {
        match self {
            FieldId::Named(s) => FieldId::Named(s.clone()),
            FieldId::Pos(i) => FieldId::Pos(*i),
        }
    }
}

impl Clone for FieldRule {
    /// A descriptor clones to an agreeing descriptor.
    fn clone(&self) -> (res: Self)
        ensures
            same_rule(*self, res),
    {
        FieldRule {
            id: self.id.clone(),
            skip: self.skip,
            strategy: match &self.strategy {
                Some(s) => Some(s.clone()),
                None => None,
            },
        }
    }
}

impl Clone for Value {
    /// A value clones to an equal value.
    fn clone(&self) -> (res: Self)
        ensures
            same_value(*self, res),
        decreases self,
    {
        match self {
            Value::Uint(x) => Value::Uint(*x),
            Value::Text(s) => Value::Text(s.clone()),
            Value::Rec(r) => Value::Rec(r.clone()),
        }
    }
}

impl Clone for Field {
    /// A field clones to an equal field.
    fn clone(&self) -> (res: Self)
        ensures
            same_field(*self, res),
        decreases self,
    {
        Field { rule: self.rule.clone(), value: self.value.clone() }
    }
}

impl Clone for Record {
    /// An aggregate value clones to an equal aggregate value.
    fn clone(&self) -> (res: Self)
        ensures
            same_record(*self, res),
        decreases self,
    {
        let mut fields: Vec<Field> = Vec::new();
        let mut i: usize = 0;
        while i < self.fields.len()
            invariant
                i <= self.fields.len(),
                fields.len() == i,
                forall|j: int| 0 <= j < i ==> same_field(self.fields@[j], #[trigger] fields@[j]),
            decreases self.fields.len() - i,
        {
            fields.push(self.fields[i].clone());
            i += 1;
        }
        Record { fields }
    }
}

/// Default merge of two values of the same shape: two aggregates merge field
/// by field; a scalar or a text offers no default merge and reports
/// [`MergeError::NotMergeable`].
pub fn merge_value<F: Fn(&String, &Value, &Value) -> Result<Value, MergeError>>(
    f: &F,
    left: &Value,
    right: &Value,
) -> (r: Result<Value, MergeError>)
    requires
        same_shape_value(*left, *right),
        strategies_callable(*f),
    ensures
        match r {
            Ok(v) => default_merge_ok(*f, *left, *right, v),
            Err(e) => default_merge_err(*f, *left, *right, e),
        },
    decreases *left,
{
    match (left, right) {
        (Value::Rec(x), Value::Rec(y)) => match merge_record(f, x, y) {
            Ok(z) => Ok(Value::Rec(z)),
            Err(e) => Err(e),
        },
        _ => Err(MergeError::NotMergeable),
    }
}

/// Produce-new merge of two aggregates of the same shape: every field is
/// resolved in declaration order — skip keeps the left-hand value, a named
/// strategy is asked through the resolver, anything else merges recursively —
/// and the first failing field aborts the merge with its error unchanged;
/// fields after it are never evaluated. An aggregate with no fields always
/// merges successfully. Neither input is changed.
pub fn merge_record<F: Fn(&String, &Value, &Value) -> Result<Value, MergeError>>(
    f: &F,
    left: &Record,
    right: &Record,
) -> (r: Result<Record, MergeError>)
    requires
        same_shape_record(*left, *right),
        strategies_callable(*f),
    ensures
        match r {
            Ok(v) => record_merge_ok(*f, *left, *right, v),
            Err(e) => record_merge_err(*f, *left, *right, e),
        },
    decreases *left,
{
    let mut fields: Vec<Field> = Vec::new();
    let mut i: usize = 0;
    while i < left.fields.len()
        invariant
            same_shape_record(*left, *right),
            strategies_callable(*f),
            i <= left.fields.len(),
            fields.len() == i,
            forall|j: int|
                0 <= j < i ==> same_rule((#[trigger] fields@[j]).rule, left.fields@[j].rule)
                    && field_merge_ok(
                    *f,
                    left.fields@[j].rule,
                    left.fields@[j].value,
                    right.fields@[j].value,
                    fields@[j].value,
                ),
        decreases left.fields.len() - i,
    {
        let fld = &left.fields[i];
        if fld.rule.skip {
            fields.push(Field { rule: fld.rule.clone(), value: fld.value.clone() });
        } else {
            let merged = match &fld.rule.strategy {
                Some(name) => (*f)(name, &fld.value, &right.fields[i].value),
                None => merge_value(f, &fld.value, &right.fields[i].value),
            };
            match merged {
                Ok(v) => {
                    fields.push(Field { rule: fld.rule.clone(), value: v });
                },
                Err(e) => {
                    proof {
                        assert(field_merge_err(
                            *f,
                            left.fields@[i as int].rule,
                            left.fields@[i as int].value,
                            right.fields@[i as int].value,
                            e,
                        ));
                        assert(forall|j: int|
                            0 <= j < i ==> field_merge_ok(
                                *f,
                                (#[trigger] left.fields@[j]).rule,
                                left.fields@[j].value,
                                right.fields@[j].value,
                                fields@[j].value,
                            ));
                    }
                    return Err(e);
                },
            }
        }
        i += 1;
    }
    Ok(Record { fields })
}

/// What is left of the left-hand aggregate when an in-place merge fails:
/// some field, in declaration order, is the first to fail and the whole
/// merge's error is that field's error, unchanged; every field before it has
/// already been updated to its resolution and is not rolled back; the failing
/// field and every field after it are exactly as they were.
pub open spec fn record_merge_mut_err<
    F: Fn(&String, &Value, &Value) -> Result<Value, MergeError>,
>(f: F, l: Record, r: Record, next: Record, e: MergeError) -> bool {
    &&& next.fields.len() == l.fields.len()
    &&& exists|i: int|
        {
            &&& 0 <= i < l.fields.len()
            &&& field_merge_err(
                f,
                (#[trigger] l.fields@[i]).rule,
                l.fields@[i].value,
                r.fields@[i].value,
                e,
            )
            &&& forall|j: int|
                0 <= j < i ==> same_rule((#[trigger] next.fields@[j]).rule, l.fields@[j].rule)
                    && field_merge_ok(
                    f,
                    l.fields@[j].rule,
                    l.fields@[j].value,
                    r.fields@[j].value,
                    next.fields@[j].value,
                )
            &&& forall|j: int| i <= j < l.fields.len() ==> next.fields@[j] == l.fields@[j]
        }
}

/// In-place merge of two aggregates of the same shape: the same field-by-field
/// semantics as [`merge_record`], but each resolved field value is written
/// back into the left-hand aggregate, and a skipped field is not touched at
/// all. The first failing field aborts the merge with its error unchanged;
/// fields already updated are not rolled back, and fields after the failing
/// one are never evaluated. The right-hand aggregate is never changed.
pub fn merge_record_mut<F: Fn(&String, &Value, &Value) -> Result<Value, MergeError>>(
    f: &F,
    left: &mut Record,
    right: &Record,
) -> (r: Result<(), MergeError>)
    requires
        same_shape_record(*old(left), *right),
        strategies_callable(*f),
    ensures
        match r {
            Ok(()) => record_merge_ok(*f, *old(left), *right, *final(left)),
            Err(e) => record_merge_mut_err(*f, *old(left), *right, *final(left), e),
        },
{
    let n = left.fields.len();
    let mut i: usize = 0;
    while i < n
        invariant
            same_shape_record(*old(left), *right),
            strategies_callable(*f),
            n == old(left).fields.len(),
            i <= n,
            left.fields.len() == n,
            forall|j: int| i <= j < n ==> left.fields@[j] == old(left).fields@[j],
            forall|j: int|
                0 <= j < i ==> same_rule(
                    (#[trigger] left.fields@[j]).rule,
                    old(left).fields@[j].rule,
                ) && field_merge_ok(
                    *f,
                    old(left).fields@[j].rule,
                    old(left).fields@[j].value,
                    right.fields@[j].value,
                    left.fields@[j].value,
                ),
        decreases n - i,
    {
        if left.fields[i].rule.skip {
            proof {
                lemma_same_rule_refl(left.fields@[i as int].rule);
                lemma_same_value_refl(left.fields@[i as int].value);
            }
        } else {
            let merged = match &left.fields[i].rule.strategy {
                Some(name) => (*f)(name, &left.fields[i].value, &right.fields[i].value),
                None => merge_value(f, &left.fields[i].value, &right.fields[i].value),
            };
            match merged {
                Ok(v) => {
                    let rule = left.fields[i].rule.clone();
                    left.fields.set(i, Field { rule, value: v });
                },
                Err(e) => {
                    return Err(e);
                },
            }
        }
        i += 1;
    }
    Ok(())
}

} // verus!
