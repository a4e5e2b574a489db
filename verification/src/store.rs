//! A store held in memory, and its edge resolver.
//!
//! The store keeps edge records, each with the kind of the edge, its two
//! ends and the time over which it holds on both axes, and a payload for
//! each vertex. Its resolver answers a request with one row for each pair of
//! a source and a record such that the record is of the kind asked for,
//! starts at the source (or, followed backwards, ends there), holds at the
//! pinned timestamp, and holds at some time of the source's interval.

use vstd::prelude::*;
use crate::driver::{Request, RequestView};
use crate::edges::{EdgeDirection, EdgeKind};
use crate::frontier::{rows_of, EdgeRow, RowKey};
use crate::identifier::{EntityIdWithInterval, VertexId, VertexKey};
use crate::temporal::{BitemporalValidity, TemporalInterval};

verus! {

/// One stored edge.
#[derive(Debug, Clone)]
pub struct EdgeRecord {
    pub kind: EdgeKind,
    pub source: VertexId,
    pub target: VertexId,
    pub validity: BitemporalValidity,
}

/// The view of an [`EdgeRecord`].
pub struct RecordView {
    pub kind: EdgeKind,
    pub source: VertexKey,
    pub target: VertexKey,
    pub validity: BitemporalValidity,
}

impl View for EdgeRecord {
    type V = RecordView;

    open spec fn view(&self) -> RecordView {
        RecordView {
            kind: self.kind,
            source: self.source@,
            target: self.target@,
            validity: self.validity,
        }
    }
}

/// The views of a list of records, in order.
pub open spec fn records_of(records: Seq<EdgeRecord>) -> Seq<RecordView> {
    records.map_values(|r: EdgeRecord| r@)
}

impl RecordView {
    /// The end at which an edge followed in `direction` starts.
    pub open spec fn near_end(self, direction: EdgeDirection) -> VertexKey {
        match direction {
            EdgeDirection::Outgoing => self.source,
            EdgeDirection::Incoming => self.target,
        }
    }

    /// The end to which an edge followed in `direction` leads.
    pub open spec fn far_end(self, direction: EdgeDirection) -> VertexKey {
        match direction {
            EdgeDirection::Outgoing => self.target,
            EdgeDirection::Incoming => self.source,
        }
    }

    /// The record with its two ends exchanged.
    pub open spec fn transposed(self) -> RecordView {
        RecordView { source: self.target, target: self.source, ..self }
    }

    /// Whether the record answers source `i` of a request: it is of the
    /// kind asked for, its near end and the source stand for the same
    /// thing, it holds at the pinned timestamp, and it holds at some
    /// timestamp of the source's interval.
    pub open spec fn answers(self, q: RequestView, i: int) -> bool {
        &&& self.kind == q.kind
        &&& self.near_end(q.direction).anchor() == q.sources[i].anchor()
        &&& self.validity.pinned_spec(q.variable_axis).contains_spec(q.pinned as int)
        &&& self.validity.variable_spec(q.variable_axis).overlaps_spec(q.intervals[i])
    }

    /// The row with which the record answers source `i` of a request.
    pub open spec fn row_for(self, q: RequestView, i: int) -> RowKey {
        RowKey {
            source_index: i,
            target: across(
                self.far_end(q.direction),
                self.validity.variable_spec(q.variable_axis),
            ),
        }
    }
}

/// A vertex as the target of an edge that holds over `interval`: an entity
/// is named across the interval, an ontology type by itself.
pub open spec fn across(v: VertexKey, interval: TemporalInterval) -> VertexKey {
    match v.entity_id() {
        Some(entity_id) => VertexKey::EntityInterval(EntityIdWithInterval { entity_id, interval }),
        None => v,
    }
}

/// The rows with which the records, in order, answer source `i`.
pub open spec fn rows_for_source(records: Seq<RecordView>, q: RequestView, i: int) -> Seq<RowKey>
    decreases records.len(),
{
    if records.len() == 0 {
        Seq::empty()
    } else {
        let front = rows_for_source(records.drop_last(), q, i);
        if records.last().answers(q, i) {
            front.push(records.last().row_for(q, i))
        } else {
            front
        }
    }
}

/// The rows for the first `n` sources, source by source.
pub open spec fn rows_upto(records: Seq<RecordView>, q: RequestView, n: nat) -> Seq<RowKey>
    decreases n,
{
    if n == 0 {
        Seq::empty()
    } else {
        rows_upto(records, q, (n - 1) as nat) + rows_for_source(records, q, n - 1)
    }
}

/// How many sources of a request come with an interval.
pub open spec fn paired(q: RequestView) -> nat {
    if q.sources.len() <= q.intervals.len() {
        q.sources.len()
    } else {
        q.intervals.len()
    }
}

/// The answer of the resolver.
pub open spec fn resolve_spec(records: Seq<RecordView>, q: RequestView) -> Seq<RowKey> {
    rows_upto(records, q, paired(q))
}

/// A row is among those for a source exactly when some record answers the
/// source with it.
pub proof fn lemma_rows_for_source(records: Seq<RecordView>, q: RequestView, i: int, row: RowKey)
    ensures
        rows_for_source(records, q, i).contains(row) <==> exists|j: int|
            0 <= j < records.len() && (#[trigger] records[j]).answers(q, i) && records[j].row_for(
                q,
                i,
            ) == row,
    decreases records.len(),
{
    if records.len() > 0 {
        let front = records.drop_last();
        let rows = rows_for_source(records, q, i);
        lemma_rows_for_source(front, q, i, row);
        if rows.contains(row) {
            let k = choose|k: int| 0 <= k < rows.len() && rows[k] == row;
            if k < rows_for_source(front, q, i).len() {
                assert(rows_for_source(front, q, i)[k] == row);
                let j = choose|j: int|
                    0 <= j < front.len() && (#[trigger] front[j]).answers(q, i) && front[j].row_for(
                        q,
                        i,
                    ) == row;
                assert(records[j] == front[j]);
            } else {
                assert(records[records.len() - 1] == records.last());
            }
        }
        if exists|j: int|
            0 <= j < records.len() && (#[trigger] records[j]).answers(q, i) && records[j].row_for(
                q,
                i,
            ) == row {
            let j = choose|j: int|
                0 <= j < records.len() && (#[trigger] records[j]).answers(q, i)
                    && records[j].row_for(q, i) == row;
            if j < front.len() {
                assert(front[j] == records[j]);
                let k = choose|k: int|
                    0 <= k < rows_for_source(front, q, i).len() && rows_for_source(front, q, i)[k]
                        == row;
                assert(rows[k] == row);
            } else {
                assert(rows[rows.len() - 1] == row);
            }
        }
    }
}

/// A row is in the answer exactly when some record answers the source that
/// the row names with it. So every row names a source of the request and
/// comes from a record of the kind asked for that holds at the pinned
/// timestamp and overlaps the source's interval, and no such row is missing.
pub proof fn lemma_resolve_rows(records: Seq<RecordView>, q: RequestView, n: nat, row: RowKey)
    ensures
        rows_upto(records, q, n).contains(row) <==> (0 <= row.source_index < n && exists|j: int|
            0 <= j < records.len() && (#[trigger] records[j]).answers(q, row.source_index)
                && records[j].row_for(q, row.source_index) == row),
    decreases n,
{
    if n > 0 {
        let before = rows_upto(records, q, (n - 1) as nat);
        let last = rows_for_source(records, q, n - 1);
        let all = rows_upto(records, q, n);
        lemma_resolve_rows(records, q, (n - 1) as nat, row);
        lemma_rows_for_source(records, q, n - 1, row);
        if all.contains(row) {
            let k = choose|k: int| 0 <= k < all.len() && all[k] == row;
            if k < before.len() {
                assert(before[k] == row);
            } else {
                assert(last[k - before.len()] == row);
                let j = choose|j: int|
                    0 <= j < records.len() && (#[trigger] records[j]).answers(q, n - 1)
                        && records[j].row_for(q, n - 1) == row;
                assert(row.source_index == n - 1);
            }
        }
        if 0 <= row.source_index < n && exists|j: int|
            0 <= j < records.len() && (#[trigger] records[j]).answers(q, row.source_index)
                && records[j].row_for(q, row.source_index) == row {
            if row.source_index < n - 1 {
                let k = choose|k: int| 0 <= k < before.len() && before[k] == row;
                assert(all[k] == row);
            } else {
                let k = choose|k: int| 0 <= k < last.len() && last[k] == row;
                assert(all[before.len() + k] == row);
            }
        }
    }
}

/// What the resolver guarantees: a row is in its answer exactly when some
/// record answers the source that the row names with that row.
pub proof fn lemma_answer_rows(records: Seq<RecordView>, q: RequestView, row: RowKey)
    ensures
        resolve_spec(records, q).contains(row) <==> (0 <= row.source_index < paired(q)
            && exists|j: int|
            0 <= j < records.len() && (#[trigger] records[j]).answers(q, row.source_index)
                && records[j].row_for(q, row.source_index) == row),
{
    lemma_resolve_rows(records, q, paired(q), row);
}

/// The target of a row for an edge that holds over `interval`.
pub fn target_across(v: &VertexId, interval: TemporalInterval) -> (r: VertexId)
    ensures
        r@ == across(v@, interval),
{
    match v.entity_id() {
        Some(entity_id) => VertexId::EntityInterval(EntityIdWithInterval { entity_id, interval }),
        None => v.duplicate(),
    }
}

/// Answers a request from a list of records: for each source in turn, one
/// row for each record, in order, that answers the source.
pub fn resolve(records: &Vec<EdgeRecord>, request: &Request) -> (r: Vec<EdgeRow>)
    ensures
        rows_of(r@) == resolve_spec(records_of(records@), request@),
{
    let ghost q = request@;
    let ghost views = records_of(records@);
    let n = if request.sources.len() <= request.intervals.len() {
        request.sources.len()
    } else {
        request.intervals.len()
    };
    let mut out: Vec<EdgeRow> = Vec::new();
    let mut i: usize = 0;
    assert(rows_of(out@) =~= rows_upto(views, q, 0));
    while i < n
        invariant
            i <= n,
            n == paired(q),
            q == request@,
            views == records_of(records@),
            rows_of(out@) == rows_upto(views, q, i as nat),
        decreases n - i,
    {
        let ghost before = rows_of(out@);
        let mut j: usize = 0;
        assert(views.take(0) =~= Seq::<RecordView>::empty());
        assert(rows_of(out@) =~= before + rows_for_source(views.take(0), q, i as int));
        while j < records.len()
            invariant
                j <= records.len(),
                i < n,
                n == paired(q),
                q == request@,
                views == records_of(records@),
                rows_of(out@) == before + rows_for_source(views.take(j as int), q, i as int),
            decreases records.len() - j,
        {
            let record = &records[j];
            let ghost so_far = rows_for_source(views.take(j as int), q, i as int);
            proof {
                assert(views.take(j as int + 1).drop_last() =~= views.take(j as int));
                assert(views.take(j as int + 1).last() == record@);
                assert(q.sources[i as int] == request.sources@[i as int]@);
            }
            let near = match request.direction {
                EdgeDirection::Outgoing => &record.source,
                EdgeDirection::Incoming => &record.target,
            };
            let variable = record.validity.variable_interval(request.variable_axis);
            if record.kind == request.kind && near.same_anchor(&request.sources[i])
                && record.validity.pinned_interval(request.variable_axis).contains(request.pinned)
                && variable.overlaps(&request.intervals[i]) {
                let far = match request.direction {
                    EdgeDirection::Outgoing => &record.target,
                    EdgeDirection::Incoming => &record.source,
                };
                let row = EdgeRow { source_index: i, target: target_across(far, variable) };
                assert(row@ == record@.row_for(q, i as int));
                let ghost prior = rows_of(out@);
                let ghost key = row@;
                out.push(row);
                assert(rows_of(out@) =~= prior.push(key));
                assert(prior.push(key) =~= before + so_far.push(key));
            }
            j += 1;
        }
        assert(views.take(j as int) =~= views);
        i += 1;
    }
    out
}

} // verus!
