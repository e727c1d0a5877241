//! Statements of a compiled query and the pipeline that runs them over one
//! shared sequence of records.
use vstd::prelude::*;

use crate::expression::{eval, is_true, EvaluationError, Expression, Failure, RegistryView, TransformationRegistry};
use crate::object::{lookup, records, GQLObject, Record};
use crate::text::{compare_text, lemma_lex_order, lex_less, text_equal};

verus! {

/// Brings in the records of a table, restricted to the named fields.
pub struct SelectStatement {
    pub table_name: String,
    pub fields: Vec<String>,
}

pub struct WhereStatement {
    pub condition: Box<Expression>,
}

pub struct LimitStatement {
    pub count: usize,
}

pub struct OffsetStatement {
    pub count: usize,
}

pub struct OrderByStatement {
    pub field_name: String,
}

/// One stage of a compiled query.
pub enum Statement {
    Select(SelectStatement),
    Where(WhereStatement),
    Limit(LimitStatement),
    Offset(OffsetStatement),
    OrderBy(OrderByStatement),
}

/// The records of `rs` on which `cond` gives `"true"`, in order, or the
/// failure of the first record on which it fails.
pub open spec fn filtered(rs: Seq<Record>, cond: Expression, reg: RegistryView) -> Result<
    Seq<Record>,
    Failure,
>
    decreases rs.len(),
{
    if rs.len() == 0 {
        Ok(Seq::empty())
    } else {
        match filtered(rs.drop_last(), cond, reg) {
            Err(f) => Err(f),
            Ok(kept) => match eval(cond, rs.last(), reg) {
                Err(f) => Err(f),
                Ok(v) => Ok(
                    if is_true(v) {
                        kept.push(rs.last())
                    } else {
                        kept
                    },
                ),
            },
        }
    }
}

/// The key by which a record is ordered: the field's value, or the empty
/// text where the record lacks the field.
pub open spec fn sort_key(r: Record, field: Seq<char>) -> Seq<char> {
    match lookup(r, field) {
        Some(v) => v,
        None => Seq::empty(),
    }
}

/// `x` placed into `sorted` after every record whose key is not greater.
pub open spec fn insert_sorted(sorted: Seq<Record>, x: Record, field: Seq<char>) -> Seq<Record>
    decreases sorted.len(),
{
    if sorted.len() == 0 {
        seq![x]
    } else if lex_less(sort_key(x, field), sort_key(sorted.last(), field)) {
        insert_sorted(sorted.drop_last(), x, field).push(sorted.last())
    } else {
        sorted.push(x)
    }
}

/// `rs` stably sorted by the key of `field`, ascending.
pub open spec fn sorted_by(rs: Seq<Record>, field: Seq<char>) -> Seq<Record>
    decreases rs.len(),
{
    if rs.len() == 0 {
        rs
    } else {
        insert_sorted(sorted_by(rs.drop_last(), field), rs.last(), field)
    }
}

/// What ordering by `field` makes of `rs`: sorted when the first record has
/// the field, unchanged otherwise.
pub open spec fn ordered(rs: Seq<Record>, field: Seq<char>) -> Seq<Record> {
    if rs.len() > 0 && lookup(rs[0], field) is Some {
        sorted_by(rs, field)
    } else {
        rs
    }
}

pub open spec fn limited(rs: Seq<Record>, n: usize) -> Seq<Record> {
    if n < rs.len() {
        rs.take(n as int)
    } else {
        rs
    }
}

pub open spec fn offset(rs: Seq<Record>, n: usize) -> Seq<Record> {
    if n < rs.len() {
        rs.skip(n as int)
    } else {
        Seq::empty()
    }
}

/// What one statement makes of the records `rs`; `fetched` are the records
/// that the source gives for a select.
pub open spec fn step(s: Statement, fetched: Seq<Record>, rs: Seq<Record>, reg: RegistryView) -> Result<
    Seq<Record>,
    Failure,
> {
    match s {
        Statement::Select(_) => Ok(rs + fetched),
        Statement::Where(w) => filtered(rs, *w.condition, reg),
        Statement::Limit(l) => Ok(limited(rs, l.count)),
        Statement::Offset(o) => Ok(offset(rs, o.count)),
        Statement::OrderBy(b) => Ok(ordered(rs, b.field_name@)),
    }
}

/// What the statements make of `rs`, in order, stopping at the first failure.
pub open spec fn run(stmts: Seq<Statement>, fetched: Seq<Record>, rs: Seq<Record>, reg: RegistryView) -> Result<
    Seq<Record>,
    Failure,
>
    decreases stmts.len(),
{
    if stmts.len() == 0 {
        Ok(rs)
    } else {
        match step(stmts[0], fetched, rs, reg) {
            Err(f) => Err(f),
            Ok(next) => run(stmts.drop_first(), fetched, next, reg),
        }
    }
}

proof fn lemma_records_push(v: Seq<GQLObject>, x: GQLObject)
    ensures
        records(v.push(x)) == records(v).push(x@),
{
    assert(records(v.push(x)) =~= records(v).push(x@));
}

proof fn lemma_filtered_failure(rs: Seq<Record>, i: int, cond: Expression, reg: RegistryView)
    requires
        0 <= i <= rs.len(),
        filtered(rs.take(i), cond, reg) is Err,
    ensures
        filtered(rs, cond, reg) == filtered(rs.take(i), cond, reg),
    decreases rs.len(),
{
    if i < rs.len() {
        assert(rs.drop_last().take(i) =~= rs.take(i));
        lemma_filtered_failure(rs.drop_last(), i, cond, reg);
    } else {
        assert(rs.take(i) =~= rs);
    }
}

/// The key of `object` for ordering by `field`.
fn key_of(object: &GQLObject, field: &str) -> (r: String)
    ensures
        r@ == sort_key(object@, field@),
{
    match object.get(field) {
        Some(v) => v,
        None => String::new(),
    }
}

impl SelectStatement {
    /// Appends the records that the source gave for this table and fields.
    pub fn execute(&self, fetched: &Vec<GQLObject>, objects: &mut Vec<GQLObject>)
        ensures
            records(final(objects)@) == records(old(objects)@) + records(fetched@),
    {
        let mut i: usize = 0;
        while i < fetched.len()
            invariant
                i <= fetched@.len(),
                records(objects@) == records(old(objects)@) + records(fetched@).take(i as int),
            decreases fetched@.len() - i,
        {
            let x = fetched[i].duplicate();
            proof {
                lemma_records_push(objects@, x);
                assert(records(fetched@).take(i + 1) =~= records(fetched@).take(i as int).push(
                    x@,
                ));
                assert(records(old(objects)@) + records(fetched@).take(i + 1) =~= (records(
                    old(objects)@,
                ) + records(fetched@).take(i as int)).push(x@));
            }
            objects.push(x);
            i += 1;
        }
        assert(records(fetched@).take(i as int) =~= records(fetched@));
    }
}

impl WhereStatement {
    /// Keeps, in order, the records on which the condition gives `"true"`;
    /// on a failed evaluation leaves the records as they were.
    pub fn execute(&self, objects: &mut Vec<GQLObject>, registry: &TransformationRegistry) -> (r:
        Result<(), EvaluationError>)
        ensures
            match filtered(records(old(objects)@), *self.condition, registry@) {
                Ok(kept) => r is Ok && records(final(objects)@) == kept,
                Err(f) => r is Err && r->Err_0@ == f && final(objects)@ == old(objects)@,
            },
    {
        let ghost rs = records(objects@);
        let mut kept: Vec<GQLObject> = Vec::new();
        let mut i: usize = 0;
        assert(rs.take(0) =~= Seq::<Record>::empty());
        assert(records(kept@) =~= Seq::<Record>::empty());
        while i < objects.len()
            invariant
                i <= objects@.len(),
                rs == records(objects@),
                filtered(rs.take(i as int), *self.condition, registry@) == Ok::<
                    Seq<Record>,
                    Failure,
                >(records(kept@)),
            decreases objects@.len() - i,
        {
            assert(rs.take(i + 1).drop_last() =~= rs.take(i as int));
            assert(rs.take(i + 1).last() == objects@[i as int]@);
            match self.condition.evaluate(&objects[i], registry) {
                Ok(v) => {
                    if text_equal(v.as_str(), "true") {
                        let x = objects[i].duplicate();
                        proof {
                            lemma_records_push(kept@, x);
                        }
                        kept.push(x);
                    }
                },
                Err(e) => {
                    proof {
                        lemma_filtered_failure(rs, i + 1, *self.condition, registry@);
                    }
                    return Err(e);
                },
            }
            i += 1;
        }
        assert(rs.take(i as int) =~= rs);
        *objects = kept;
        Ok(())
    }
}

impl LimitStatement {
    /// Keeps at most the first `count` records.
    pub fn execute(&self, objects: &mut Vec<GQLObject>)
        ensures
            final(objects)@ == (if self.count < old(objects)@.len() {
                old(objects)@.take(self.count as int)
            } else {
                old(objects)@
            }),
    {
        objects.truncate(self.count);
    }
}

impl OffsetStatement {
    /// Drops the first `count` records, or all of them when there are fewer.
    pub fn execute(&self, objects: &mut Vec<GQLObject>)
        ensures
            final(objects)@ == (if self.count < old(objects)@.len() {
                old(objects)@.skip(self.count as int)
            } else {
                Seq::empty()
            }),
    {
        let at = if self.count < objects.len() {
            self.count
        } else {
            objects.len()
        };
        let rest = objects.split_off(at);
        *objects = rest;
        assert(self.count >= old(objects)@.len() ==> final(objects)@ =~= Seq::<GQLObject>::empty());
    }
}

/// Moves `x` into the stably sorted `sorted`, after every record whose key is
/// not greater than its own.
fn insert_by_key(sorted: &mut Vec<GQLObject>, x: GQLObject, field: &str)
    ensures
        records(final(sorted)@) == insert_sorted(records(old(sorted)@), x@, field@),
{
    let ghost xr = x@;
    let ghost rs = records(sorted@);
    let kx = key_of(&x, field);
    let mut j: usize = sorted.len();
    assert(rs.take(j as int) =~= rs);
    assert(rs.skip(j as int) + Seq::empty() =~= Seq::<Record>::empty());
    assert(insert_sorted(rs, xr, field@) =~= insert_sorted(rs.take(j as int), xr, field@) + rs.skip(
        j as int,
    ));
    while j > 0 && matches!(compare_text(kx.as_str(), key_of(&sorted[j - 1], field).as_str()), core::cmp::Ordering::Less)
        invariant
            j <= sorted@.len(),
            rs == records(sorted@),
            sorted@ == old(sorted)@,
            kx@ == sort_key(xr, field@),
            insert_sorted(rs, xr, field@) == insert_sorted(rs.take(j as int), xr, field@) + rs.skip(
                j as int,
            ),
        decreases j,
    {
        proof {
            let t = rs.take(j as int);
            assert(t.drop_last() =~= rs.take(j - 1));
            assert(t.last() == rs[j - 1]);
            assert(insert_sorted(rs.take(j - 1), xr, field@).push(rs[j - 1]) + rs.skip(j as int)
                =~= insert_sorted(rs.take(j - 1), xr, field@) + rs.skip(j - 1));
        }
        j -= 1;
    }
    proof {
        if j > 0 {
            let t = rs.take(j as int);
            assert(t.last() == rs[j - 1]);
            assert(t.push(xr) + rs.skip(j as int) =~= rs.insert(j as int, xr));
        } else {
            assert(seq![xr] + rs.skip(0) =~= rs.insert(0, xr));
        }
    }
    sorted.insert(j, x);
    assert(records(sorted@) =~= rs.insert(j as int, xr));
}

impl OrderByStatement {
    /// Stably sorts the records by the field's value when the first record
    /// has the field; otherwise leaves them as they are. A later record that
    /// lacks the field sorts as if its value were empty.
    pub fn execute(&self, objects: &mut Vec<GQLObject>)
        ensures
            records(final(objects)@) == ordered(records(old(objects)@), self.field_name@),
    {
        if objects.len() == 0 {
            return;
        }
        if !objects[0].contains_key(self.field_name.as_str()) {
            return;
        }
        let ghost rs = records(objects@);
        let mut input: Vec<GQLObject> = Vec::new();
        core::mem::swap(objects, &mut input);
        let ghost all = input@;
        let n = input.len();
        let mut i: usize = 0;
        assert(rs.take(0) =~= Seq::<Record>::empty());
        assert(records(objects@) =~= Seq::<Record>::empty());
        while i < n
            invariant
                n == all.len(),
                i <= n,
                rs == records(all),
                input@ == all.skip(i as int),
                records(objects@) == sorted_by(rs.take(i as int), self.field_name@),
            decreases n - i,
        {
            let x = input.remove(0);
            proof {
                assert(input@ =~= all.skip(i + 1));
                assert(rs.take(i + 1).drop_last() =~= rs.take(i as int));
                assert(x == all[i as int]);
            }
            insert_by_key(objects, x, self.field_name.as_str());
            i += 1;
        }
        assert(rs.take(n as int) =~= rs);
    }
}

impl Statement {
    /// Runs this statement on the shared records; `fetched` are the records
    /// that the source gave for a select, and other statements ignore them.
    /// On a failure the records are left as they were.
    pub fn execute(
        &self,
        fetched: &Vec<GQLObject>,
        objects: &mut Vec<GQLObject>,
        registry: &TransformationRegistry,
    ) -> (r: Result<(), EvaluationError>)
        ensures
            match step(*self, records(fetched@), records(old(objects)@), registry@) {
                Ok(rs) => r is Ok && records(final(objects)@) == rs,
                Err(f) => r is Err && r->Err_0@ == f && final(objects)@ == old(objects)@,
            },
    {
        match self {
            Statement::Select(s) => {
                s.execute(fetched, objects);
                Ok(())
            },
            Statement::Where(s) => s.execute(objects, registry),
            Statement::Limit(s) => {
                s.execute(objects);
                assert(s.count < old(objects)@.len() ==> records(objects@) =~= records(
                    old(objects)@,
                ).take(s.count as int));
                Ok(())
            },
            Statement::Offset(s) => {
                s.execute(objects);
                assert(s.count < old(objects)@.len() ==> records(objects@) =~= records(
                    old(objects)@,
                ).skip(s.count as int));
                assert(s.count >= old(objects)@.len() ==> records(objects@) =~= Seq::<
                    Record,
                >::empty());
                Ok(())
            },
            Statement::OrderBy(s) => {
                s.execute(objects);
                Ok(())
            },
        }
    }
}

/// Runs the statements in the order given over the shared records, and stops
/// at the first failure.
pub fn execute_statements(
    statements: &Vec<Statement>,
    fetched: &Vec<GQLObject>,
    objects: &mut Vec<GQLObject>,
    registry: &TransformationRegistry,
) -> (r: Result<(), EvaluationError>)
    ensures
        match run(statements@, records(fetched@), records(old(objects)@), registry@) {
            Ok(rs) => r is Ok && records(final(objects)@) == rs,
            Err(f) => r is Err && r->Err_0@ == f,
        },
{
    let ghost all = statements@;
    let ghost fr = records(fetched@);
    let mut i: usize = 0;
    assert(all.skip(0) =~= all);
    while i < statements.len()
        invariant
            i <= all.len(),
            all == statements@,
            fr == records(fetched@),
            run(all, fr, records(old(objects)@), registry@) == run(
                all.skip(i as int),
                fr,
                records(objects@),
                registry@,
            ),
        decreases all.len() - i,
    {
        assert(all.skip(i as int).drop_first() =~= all.skip(i + 1));
        assert(all.skip(i as int)[0] == all[i as int]);
        match statements[i].execute(fetched, objects, registry) {
            Ok(()) => {},
            Err(e) => {
                return Err(e);
            },
        }
        i += 1;
    }
    assert(all.skip(i as int) =~= Seq::<Statement>::empty());
    Ok(())
}

/// Whether the keys of `rs` for `field` never decrease.
pub open spec fn ascending(rs: Seq<Record>, field: Seq<char>) -> bool {
    forall|i: int, j: int|
        #![trigger rs[i], rs[j]]
        0 <= i < j < rs.len() ==> !lex_less(sort_key(rs[j], field), sort_key(rs[i], field))
}

proof fn lemma_le_trans(a: Seq<char>, b: Seq<char>, c: Seq<char>)
    requires
        !lex_less(b, a),
        !lex_less(c, b),
    ensures
        !lex_less(c, a),
{
    lemma_lex_order(a, b, c);
    lemma_lex_order(c, a, b);
}

proof fn lemma_insert_bound(s: Seq<Record>, x: Record, field: Seq<char>, k: Seq<char>)
    requires
        forall|i: int| 0 <= i < s.len() ==> !lex_less(k, #[trigger] sort_key(s[i], field)),
        !lex_less(k, sort_key(x, field)),
    ensures
        forall|i: int|
            0 <= i < insert_sorted(s, x, field).len() ==> !lex_less(
                k,
                #[trigger] sort_key(insert_sorted(s, x, field)[i], field),
            ),
        insert_sorted(s, x, field).len() == s.len() + 1,
    decreases s.len(),
{
    if s.len() > 0 && lex_less(sort_key(x, field), sort_key(s.last(), field)) {
        let p = s.drop_last();
        assert forall|i: int| 0 <= i < p.len() implies !lex_less(k, #[trigger] sort_key(p[i], field)) by {
            assert(p[i] == s[i]);
        }
        lemma_insert_bound(p, x, field, k);
        let t = insert_sorted(p, x, field);
        assert forall|i: int| 0 <= i < t.len() + 1 implies !lex_less(
            k,
            #[trigger] sort_key(t.push(s.last())[i], field),
        ) by {
            if i < t.len() {
                assert(t.push(s.last())[i] == t[i]);
            }
        }
    } else if s.len() > 0 {
        assert forall|i: int| 0 <= i < s.len() + 1 implies !lex_less(
            k,
            #[trigger] sort_key(s.push(x)[i], field),
        ) by {
            if i < s.len() {
                assert(s.push(x)[i] == s[i]);
            }
        }
    }
}

proof fn lemma_insert_sorted(s: Seq<Record>, x: Record, field: Seq<char>)
    requires
        ascending(s, field),
    ensures
        ascending(insert_sorted(s, x, field), field),
        insert_sorted(s, x, field).to_multiset() == s.to_multiset().insert(x),
    decreases s.len(),
{
    broadcast use vstd::seq_lib::group_to_multiset_ensures;

    let kx = sort_key(x, field);
    if s.len() == 0 {
        assert(seq![x] =~= s.push(x));
    } else {
        let last = s.last();
        let kl = sort_key(last, field);
        let p = s.drop_last();
        assert(s =~= p.push(last));
        if lex_less(kx, kl) {
            assert(ascending(p, field)) by {
                assert forall|i: int, j: int| #![trigger p[i], p[j]] 0 <= i < j < p.len() implies !lex_less(
                    sort_key(p[j], field),
                    sort_key(p[i], field),
                ) by {
                    assert(p[i] == s[i] && p[j] == s[j]);
                }
            }
            lemma_insert_sorted(p, x, field);
            lemma_lex_order(kx, kl, kl);
            assert forall|i: int| 0 <= i < p.len() implies !lex_less(kl, #[trigger] sort_key(p[i], field)) by {
                assert(p[i] == s[i]);
                assert(s[s.len() - 1] == last);
            }
            lemma_insert_bound(p, x, field, kl);
            let t = insert_sorted(p, x, field);
            let u = t.push(last);
            assert forall|i: int, j: int| #![trigger u[i], u[j]] 0 <= i < j < u.len() implies !lex_less(
                sort_key(u[j], field),
                sort_key(u[i], field),
            ) by {
                assert(u[i] == t[i]);
                if j < t.len() {
                    assert(u[j] == t[j]);
                }
            }
            assert(u.to_multiset() =~= s.to_multiset().insert(x));
        } else {
            let u = s.push(x);
            assert forall|i: int, j: int| #![trigger u[i], u[j]] 0 <= i < j < u.len() implies !lex_less(
                sort_key(u[j], field),
                sort_key(u[i], field),
            ) by {
                assert(u[i] == s[i]);
                if j < s.len() {
                    assert(u[j] == s[j]);
                } else {
                    if i < s.len() - 1 {
                        assert(s[s.len() - 1] == last);
                        lemma_le_trans(sort_key(s[i], field), kl, kx);
                    }
                }
            }
        }
    }
}

proof fn lemma_sorted_by(rs: Seq<Record>, field: Seq<char>)
    ensures
        ascending(sorted_by(rs, field), field),
        sorted_by(rs, field).to_multiset() == rs.to_multiset(),
    decreases rs.len(),
{
    broadcast use vstd::seq_lib::group_to_multiset_ensures;

    if rs.len() > 0 {
        lemma_sorted_by(rs.drop_last(), field);
        lemma_insert_sorted(sorted_by(rs.drop_last(), field), rs.last(), field);
        assert(rs =~= rs.drop_last().push(rs.last()));
    }
}

/// Ordering by a field keeps the same records, and when the first record has
/// the field, puts them in ascending order of its value.
pub proof fn lemma_ordered_is_sorted_permutation(rs: Seq<Record>, field: Seq<char>)
    ensures
        ordered(rs, field).to_multiset() == rs.to_multiset(),
        rs.len() > 0 && lookup(rs[0], field) is Some ==> ascending(ordered(rs, field), field),
{
    lemma_sorted_by(rs, field);
}

/// An offset of at least the number of records leaves none, and a limit of at
/// least the number of records keeps them all.
pub proof fn lemma_offset_limit_past_end(rs: Seq<Record>, n: usize)
    requires
        rs.len() <= n,
    ensures
        offset(rs, n) == Seq::<Record>::empty(),
        limited(rs, n) == rs,
{
}

} // verus!
