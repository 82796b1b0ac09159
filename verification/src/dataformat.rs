//! The report of a run, as it is written out.

use vstd::prelude::*;
use std::collections::BTreeSet;
use crate::diff_answers::disagreements::{
    each_has_query, models, pairs, Disagreement, DisagreementView, Disagreements,
};
use crate::diff_answers::Audit;
use crate::matcher::Field;
use crate::sets::{ascending_keys, lemma_ascending_keys, sorted_u32};
use crate::QKey;

verus! {

/// The report of a run.
#[derive(Debug, Clone, PartialEq, Eq)]
pub struct Report {
    /// When the transceiver started, in seconds since the epoch.
    pub start_time: u32,
    /// When the transceiver ended, in seconds since the epoch.
    pub end_time: u32,
    /// How many queries were stored.
    pub total_queries: u64,
    /// How many response lists were stored.
    pub total_answers: u64,
    pub other_disagreements: OtherDisagreements,
    pub target_disagreements: TargetDisagreements,
    pub summary: Option<()>,
    pub reprodata: Option<()>,
}

/// The queries on which the servers other than the target disagree.
#[derive(Debug, Clone, PartialEq, Eq)]
pub struct OtherDisagreements {
    pub queries: BTreeSet<QKey>,
}

/// The mismatches of the target, field by field.
#[derive(Debug, Clone, PartialEq, Eq)]
pub struct TargetDisagreements {
    pub fields: Vec<FieldDisagreements>,
}

/// The mismatches of the target in one field.
#[derive(Debug, Clone, PartialEq, Eq)]
pub struct FieldDisagreements {
    pub field: Field,
    pub mismatches: Vec<MismatchQueries>,
}

/// Collection of queries that share the same mismatch.
#[derive(Debug, Clone, PartialEq, Eq)]
pub struct MismatchQueries {
    pub exp_val: String,
    pub got_val: String,
    pub queries: Vec<QKey>,
}

/// What a [`MismatchQueries`] stands for.
pub struct MismatchQueriesView {
    pub exp_val: Seq<char>,
    pub got_val: Seq<char>,
    pub queries: Seq<QKey>,
}

/// What a [`FieldDisagreements`] stands for.
pub struct FieldView {
    pub field: Field,
    pub mismatches: Seq<MismatchQueriesView>,
}

impl View for MismatchQueries {
    type V = MismatchQueriesView;

    open spec fn view(&self) -> MismatchQueriesView {
        MismatchQueriesView { exp_val: self.exp_val@, got_val: self.got_val@, queries: self.queries@ }
    }
}

/// What each row of a list stands for.
pub open spec fn row_views(rows: Seq<MismatchQueries>) -> Seq<MismatchQueriesView> {
    rows.map_values(|r: MismatchQueries| r@)
}

impl View for FieldDisagreements {
    type V = FieldView;

    open spec fn view(&self) -> FieldView {
        FieldView { field: self.field, mismatches: row_views(self.mismatches@) }
    }
}

/// What each field of a list stands for.
pub open spec fn field_views(fields: Seq<FieldDisagreements>) -> Seq<FieldView> {
    fields.map_values(|f: FieldDisagreements| f@)
}

/// The row of the report for one disagreement: the two texts of the
/// mismatch and the queries in ascending order.
pub open spec fn row(entry: DisagreementView) -> MismatchQueriesView {
    MismatchQueriesView {
        exp_val: entry.shown.expected,
        got_val: entry.shown.got,
        queries: ascending_keys(entry.queries),
    }
}

/// The rows for those of the first `n` disagreements that lie in `field`.
pub open spec fn rows_below(model: Seq<DisagreementView>, field: Field, n: nat) -> Seq<
    MismatchQueriesView,
>
    decreases n,
{
    if n == 0 {
        Seq::empty()
    } else {
        let before = rows_below(model, field, (n - 1) as nat);
        if model[n - 1].shown.view.field() == field {
            before.push(row(model[n - 1]))
        } else {
            before
        }
    }
}

/// The part of the report for one field: nothing if no disagreement lies
/// in it, else the field with a row for each that does.
pub open spec fn field_part(model: Seq<DisagreementView>, field: Field) -> Seq<FieldView> {
    let rows = rows_below(model, field, model.len());
    if rows.len() == 0 {
        Seq::empty()
    } else {
        seq![FieldView { field, mismatches: rows }]
    }
}

/// The disagreements of the target laid out for the report: field by
/// field in the order of the fields, and within a field in the order of
/// the disagreements.
pub open spec fn report_fields(model: Seq<DisagreementView>) -> Seq<FieldView> {
    field_part(model, Field::Timeout) + field_part(model, Field::Malformed) + field_part(
        model,
        Field::Opcode,
    ) + field_part(model, Field::Rcode) + field_part(model, Field::Flags) + field_part(
        model,
        Field::Question,
    ) + field_part(model, Field::AnswerTypes) + field_part(model, Field::AnswerRrsigs)
}

/// Whether each row lists the queries of one of the disagreements.
pub open spec fn rows_sourced(rows: Seq<MismatchQueriesView>, model: Seq<DisagreementView>) -> bool {
    forall|k: int|
        0 <= k < rows.len() ==> exists|e: int|
            0 <= e < model.len() && (#[trigger] rows[k]).queries.to_set() == (
            #[trigger] model[e]).queries
}

/// Whether each row of each field lists the queries of one of the disagreements.
pub open spec fn sourced(fields: Seq<FieldView>, model: Seq<DisagreementView>) -> bool {
    forall|f: int| 0 <= f < fields.len() ==> rows_sourced((#[trigger] fields[f]).mismatches, model)
}

/// Whether every row of every field lists a query at least.
pub open spec fn each_row_has_query(fields: Seq<FieldView>) -> bool {
    forall|f: int, k: int|
        0 <= f < fields.len() && 0 <= k < fields[f].mismatches.len() ==> (
        #[trigger] fields[f].mismatches[k]).queries.len() > 0
}

/// Rows that list the queries of disagreements with a query at least each
/// list a query at least each.
proof fn lemma_rows_have_queries(fields: Seq<FieldView>, model: Seq<DisagreementView>)
    requires
        sourced(fields, model),
        each_has_query(model),
    ensures
        each_row_has_query(fields),
{
    assert forall|f: int, k: int|
        0 <= f < fields.len() && 0 <= k < fields[f].mismatches.len() implies (
    #[trigger] fields[f].mismatches[k]).queries.len() > 0 by {
        let row = fields[f].mismatches[k];
        assert(rows_sourced(fields[f].mismatches, model));
        let e = choose|e: int|
            0 <= e < model.len() && (#[trigger] fields[f].mismatches[k]).queries.to_set() == (
            #[trigger] model[e]).queries;
        assert(model[e].queries != Set::<QKey>::empty());
        if row.queries.len() == 0 {
            assert(row.queries.to_set() =~= Set::<QKey>::empty());
        }
    }
}

/// The queries that the rows of a report list.
pub open spec fn queries_in(fields: Seq<FieldView>) -> Set<QKey> {
    Set::new(
        |key: QKey|
            exists|f: int, k: int|
                0 <= f < fields.len() && 0 <= k < fields[f].mismatches.len() && (
                #[trigger] fields[f].mismatches[k]).queries.contains(key),
    )
}

/// The rows of the report for the disagreements that lie in `field`.
fn rows_for(entries: &Vec<Disagreement>, field: Field) -> (r: Vec<MismatchQueries>)
    ensures
        row_views(r@) == rows_below(models(entries@), field, entries@.len()),
        rows_sourced(row_views(r@), models(entries@)),
{
    let ghost model = models(entries@);
    let mut items: Vec<MismatchQueries> = Vec::new();
    let mut i: usize = 0;
    while i < entries.len()
        invariant
            i <= entries.len(),
            model == models(entries@),
            row_views(items@) == rows_below(model, field, i as nat),
            rows_sourced(row_views(items@), model),
        decreases entries.len() - i,
    {
        let entry = &entries[i];
        if entry.mismatch.field() == field {
            let ghost before = items@;
            let queries = sorted_u32(&entry.queries);
            proof {
                lemma_ascending_keys(queries@);
            }
            let mmqueries = MismatchQueries {
                exp_val: entry.mismatch.expected(),
                got_val: entry.mismatch.got(),
                queries,
            };
            items.push(mmqueries);
            proof {
                let rows = row_views(before).push(mmqueries@);
                assert(row_views(before.push(mmqueries)) =~= rows);
                assert forall|k: int| 0 <= k < rows.len() implies exists|e: int|
                    0 <= e < model.len() && (#[trigger] rows[k]).queries.to_set() == (
                    #[trigger] model[e]).queries by {
                    if k < before.len() {
                    } else {
                        assert(rows[k].queries.to_set() == model[i as int].queries);
                    }
                }
            }
        }
        i += 1;
    }
    items
}

/// Appends the part of the report for one field.
fn push_field(fields: &mut Vec<FieldDisagreements>, entries: &Vec<Disagreement>, field: Field)
    requires
        sourced(field_views(old(fields)@), models(entries@)),
    ensures
        field_views(final(fields)@) == field_views(old(fields)@) + field_part(models(entries@), field),
        sourced(field_views(final(fields)@), models(entries@)),
{
    let mismatches = rows_for(entries, field);
    if mismatches.len() > 0 {
        let part = FieldDisagreements { field, mismatches };
        fields.push(part);
    }
}

impl Report {
    /// The queries on which the other servers disagree among themselves.
    pub open spec fn others(&self) -> Set<QKey> {
        self.other_disagreements.queries@
    }

    /// The mismatches of the target, field by field.
    pub open spec fn fields(&self) -> Seq<FieldView> {
        field_views(self.target_disagreements.fields@)
    }

    /// Whether two reports agree in all but the disagreements of the others.
    pub open spec fn same_but_others(&self, other: &Report) -> bool {
        &&& self.start_time == other.start_time
        &&& self.end_time == other.end_time
        &&& self.total_queries == other.total_queries
        &&& self.total_answers == other.total_answers
        &&& self.fields() == other.fields()
        &&& self.summary == other.summary
        &&& self.reprodata == other.reprodata
    }

    /// Whether two reports agree in all but the disagreements of the target.
    pub open spec fn same_but_fields(&self, other: &Report) -> bool {
        &&& self.start_time == other.start_time
        &&& self.end_time == other.end_time
        &&& self.total_queries == other.total_queries
        &&& self.total_answers == other.total_answers
        &&& self.others() == other.others()
        &&& self.summary == other.summary
        &&& self.reprodata == other.reprodata
    }

    /// Create new Report
    pub fn new() -> (r: Report)
        ensures
            r.start_time == 0,
            r.end_time == 0,
            r.total_queries == 0,
            r.total_answers == 0,
            r.others() == Set::<QKey>::empty(),
            r.fields() == Seq::<FieldView>::empty(),
            r.summary is None,
            r.reprodata is None,
    {
        let r = Report {
            start_time: 0,
            end_time: 0,
            total_queries: 0,
            total_answers: 0,
            other_disagreements: OtherDisagreements { queries: BTreeSet::new() },
            target_disagreements: TargetDisagreements { fields: Vec::new() },
            summary: None,
            reprodata: None,
        };
        r
    }

    /// Return a set of queries on which other servers (besides target) disagree
    /// (upstream_unstable)
    pub fn others_disagree(&self) -> (r: BTreeSet<QKey>)
        ensures
            r@ == self.others(),
    {
        self.other_disagreements.queries.clone()
    }

    /// Set a set of queries that others disagree on
    pub fn set_others_disagree(&mut self, queries: &BTreeSet<QKey>)
        ensures
            final(self).others() == queries@,
            final(self).same_but_others(old(self)),
    {
        self.other_disagreements.queries = queries.clone();
    }

    /// The mismatches of the target, field by field.
    pub fn target_disagrees(&self) -> (r: &Vec<FieldDisagreements>)
        ensures
            field_views(r@) == self.fields(),
    {
        &self.target_disagreements.fields
    }

    /// Sets the mismatches of the target from its disagreements: a part for
    /// each field in which one lies, and in it a row for each of them.
    pub fn set_target_disagrees(&mut self, dis: &Disagreements)
        ensures
            final(self).fields() == report_fields(dis@),
            sourced(final(self).fields(), dis@),
            each_row_has_query(final(self).fields()),
            final(self).same_but_fields(old(self)),
    {
        let entries = dis.entries();
        let mut fields: Vec<FieldDisagreements> = Vec::new();
        push_field(&mut fields, entries, Field::Timeout);
        push_field(&mut fields, entries, Field::Malformed);
        push_field(&mut fields, entries, Field::Opcode);
        push_field(&mut fields, entries, Field::Rcode);
        push_field(&mut fields, entries, Field::Flags);
        push_field(&mut fields, entries, Field::Question);
        push_field(&mut fields, entries, Field::AnswerTypes);
        push_field(&mut fields, entries, Field::AnswerRrsigs);
        proof {
            lemma_rows_have_queries(field_views(fields@), dis@);
        }
        self.target_disagreements.fields = fields;
    }

    /// Composes the report of a run from what the audit found, the times
    /// at which the transceiver started and ended, and the numbers of
    /// queries and of response lists stored. Where the audit counts no
    /// query against the target on which the others disagree, the report
    /// lists no query on both sides either.
    pub fn compose(
        audit: &Audit,
        start_time: u32,
        end_time: u32,
        total_queries: u64,
        total_answers: u64,
    ) -> (r: Report)
        ensures
            r.start_time == start_time,
            r.end_time == end_time,
            r.total_queries == total_queries,
            r.total_answers == total_answers,
            r.others() == audit.others_disagreements@,
            r.fields() == report_fields(audit.target_disagreements@),
            each_row_has_query(r.fields()),
            r.summary is None,
            r.reprodata is None,
            audit.apart() ==> r.others().disjoint(queries_in(r.fields())),
    {
        let mut report = Report::new();
        report.set_others_disagree(&audit.others_disagreements);
        report.set_target_disagrees(&audit.target_disagreements);
        report.start_time = start_time;
        report.end_time = end_time;
        report.total_queries = total_queries;
        report.total_answers = total_answers;
        proof {
            if audit.apart() {
                let model = audit.target_disagreements@;
                assert forall|key: QKey|
                    !(report.others().contains(key) && queries_in(report.fields()).contains(key)) by {
                    if queries_in(report.fields()).contains(key) {
                        let (f, k) = choose|f: int, k: int|
                            0 <= f < report.fields().len() && 0 <= k
                                < report.fields()[f].mismatches.len() && (
                            #[trigger] report.fields()[f].mismatches[k]).queries.contains(key);
                        let e = choose|e: int|
                            0 <= e < model.len() && (
                            #[trigger] report.fields()[f].mismatches[k]).queries.to_set() == (
                            #[trigger] model[e]).queries;
                        assert(pairs(model).contains((model[e].shown.view, key)));
                    }
                }
            }
        }
        report
    }
}

} // verus!
