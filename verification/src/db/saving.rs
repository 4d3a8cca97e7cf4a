//! What has to be written when the store has changed.
use crate::db::Database;
use crate::seqs;
use crate::tables;
use crate::tables::{ClipRow, ClipView, EventRow, EventView};
use crate::text::{same, same_bytes};
use vstd::prelude::*;

verus! {

broadcast use vstd::seq_lib::group_seq_properties;

// ---------------------------------------------------------------------------
// Rows
// ---------------------------------------------------------------------------

fn same_opt_text(a: &Option<String>, b: &Option<String>) -> (r: bool)
    ensures
        r == (tables::opt_text(*a) == tables::opt_text(*b)),
{
    match (a, b) {
        (Some(a), Some(b)) => same(a.as_str(), b.as_str()),
        (None, None) => true,
        _ => false,
    }
}

fn same_opt_bytes(a: &Option<Vec<u8>>, b: &Option<Vec<u8>>) -> (r: bool)
    ensures
        r == (tables::opt_bytes(*a) == tables::opt_bytes(*b)),
{
    match (a, b) {
        (Some(a), Some(b)) => same_bytes(a.as_slice(), b.as_slice()),
        (None, None) => true,
        _ => false,
    }
}

fn same_clip(a: &ClipRow, b: &ClipRow) -> (r: bool)
    ensures
        r == (a@ == b@),
{
    a.id == b.id && same_opt_text(&a.uuid, &b.uuid) && same(a.content_type.as_str(), b.content_type.as_str())
        && same_bytes(a.encrypted_payload.as_slice(), b.encrypted_payload.as_slice()) && a.timestamp == b.timestamp
        && a.pinned == b.pinned && a.is_deleted == b.is_deleted && a.is_locked == b.is_locked && same_opt_text(
        &a.payload_hash,
        &b.payload_hash,
    ) && a.has_attachment == b.has_attachment && same_opt_text(&a.attachment_path, &b.attachment_path)
}

fn same_event_row(a: &EventRow, b: &EventRow) -> (r: bool)
    ensures
        r == (a@ == b@),
{
    a.id == b.id && same(a.event_type.as_str(), b.event_type.as_str()) && same(
        a.clip_uuid.as_str(),
        b.clip_uuid.as_str(),
    ) && same(a.device_id.as_str(), b.device_id.as_str()) && a.vector_clock == b.vector_clock && a.timestamp
        == b.timestamp && same_opt_text(&a.content_type, &b.content_type) && same_opt_bytes(&a.payload, &b.payload)
        && a.has_attachment == b.has_attachment && same_opt_text(&a.attachment_path, &b.attachment_path)
}

// ---------------------------------------------------------------------------
// Numbers
// ---------------------------------------------------------------------------

/// Whether numbers increase.
pub open spec fn increasing(ids: Seq<i64>) -> bool {
    forall|i: int, j: int| 0 <= i < j < ids.len() ==> #[trigger] ids[i] < #[trigger] ids[j]
}

/// The numbers that have gone.
fn gone_ids(before: &Vec<i64>, after: &Vec<i64>) -> (r: Vec<i64>)
    requires
        increasing(before@),
        increasing(after@),
    ensures
        r@ == before@.filter(|n: i64| !after@.contains(n)),
{
    let ghost gone = |n: i64| !after@.contains(n);
    let mut out: Vec<i64> = Vec::new();
    let mut i: usize = 0;
    let mut j: usize = 0;
    assert(before@.take(0) =~= Seq::<i64>::empty());
    assert(out@ =~= before@.take(0).filter(gone)) by {
        reveal(Seq::filter);
    }
    while i < before.len()
        invariant
            increasing(before@),
            increasing(after@),
            i <= before@.len(),
            j <= after@.len(),
            gone == (|n: i64| !after@.contains(n)),
            out@ == before@.take(i as int).filter(gone),
            forall|k: int| 0 <= k < j && i < before@.len() ==> #[trigger] after@[k] < before@[i as int],
        decreases before@.len() - i,
    {
        let n = before[i];
        while j < after.len() && after[j] < n
            invariant
                increasing(after@),
                j <= after@.len(),
                forall|k: int| 0 <= k < j ==> #[trigger] after@[k] < n,
            decreases after@.len() - j,
        {
            j += 1;
        }
        proof {
            seqs::filter_step(before@, gone, i as int);
            if j < after@.len() && after@[j as int] == n {
                assert(after@.contains(n));
            } else if after@.contains(n) {
                let k = choose|k: int| 0 <= k < after@.len() && after@[k] == n;
                assert(k >= j);
                if k > j {
                    assert(after@[j as int] < after@[k]);
                }
                assert(false);
            }
        }
        if j >= after.len() || after[j] != n {
            out.push(n);
        }
        i += 1;
        proof {
            assert forall|k: int| 0 <= k < j && i < before@.len() implies #[trigger] after@[k] < before@[i as int] by {
                assert(before@[i as int - 1] < before@[i as int]);
            }
        }
    }
    assert(before@.take(i as int) =~= before@);
    out
}

/// Whether places lead from numbers to the same numbers in another list, where
/// they are there.
spec fn matched(before: Seq<i64>, after: Seq<i64>, places: Seq<Option<usize>>) -> bool {
    forall|j: int|
        0 <= j < places.len() ==> match #[trigger] places[j] {
            Some(i) => i < before.len() && before[i as int] == after[j],
            None => !before.contains(after[j]),
        }
}

/// Where numbers stand in another list.
fn match_up(before: &Vec<i64>, after: &Vec<i64>) -> (r: Vec<Option<usize>>)
    requires
        increasing(before@),
        increasing(after@),
    ensures
        r@.len() == after@.len(),
        matched(before@, after@, r@),
{
    let mut out: Vec<Option<usize>> = Vec::new();
    let mut i: usize = 0;
    while out.len() < after.len()
        invariant
            increasing(before@),
            increasing(after@),
            i <= before@.len(),
            out@.len() <= after@.len(),
            matched(before@, after@, out@),
            forall|k: int| 0 <= k < i && out@.len() < after@.len() ==> #[trigger] before@[k] < after@[out@.len() as int],
        decreases after@.len() - out@.len(),
    {
        let at: usize = out.len();
        let n = after[at];
        while i < before.len() && before[i] < n
            invariant
                increasing(before@),
                i <= before@.len(),
                forall|k: int| 0 <= k < i ==> #[trigger] before@[k] < n,
            decreases before@.len() - i,
        {
            i += 1;
        }
        let place: Option<usize> = if i < before.len() && before[i] == n {
            Some(i)
        } else {
            proof {
                if before@.contains(n) {
                    let k = choose|k: int| 0 <= k < before@.len() && before@[k] == n;
                    assert(k >= i);
                    if k > i {
                        assert(before@[i as int] < before@[k]);
                    }
                    assert(false);
                }
            }
            None
        };
        out.push(place);
        proof {
            assert forall|k: int| 0 <= k < i && out@.len() < after@.len() implies #[trigger] before@[k]
                < after@[out@.len() as int] by {
                assert(after@[at as int] < after@[at as int + 1]);
            }
        }
    }
    out
}

// ---------------------------------------------------------------------------
// Changes
// ---------------------------------------------------------------------------

/// What has to be done to saved rows so that they are those of the store: the
/// numbers of the rows to be deleted, and the places in the store of the rows to
/// be written under their numbers.
pub struct Changes {
    pub gone: Vec<i64>,
    pub written: Vec<usize>,
}

/// The numbers of rows.
pub open spec fn ids_of<V>(rows: Seq<V>, id: spec_fn(V) -> int) -> Seq<int> {
    rows.map_values(id)
}

/// The numbers of the saved rows whose number is not in use any more.
pub open spec fn rows_gone<V>(saved: Seq<V>, rows: Seq<V>, id: spec_fn(V) -> int) -> Seq<int> {
    ids_of(saved, id).filter(|n: int| !ids_of(rows, id).contains(n))
}

/// The places of the rows that were not saved as they are.
pub open spec fn rows_to_write<V>(saved: Seq<V>, rows: Seq<V>) -> Seq<int> {
    Seq::new(rows.len(), |j: int| j).filter(|j: int| !saved.contains(rows[j]))
}

/// Whether changes are those between saved rows and the rows of the store.
pub open spec fn brings_up_to_date<V>(c: Changes, saved: Seq<V>, rows: Seq<V>, id: spec_fn(V) -> int) -> bool {
    &&& c.gone@.map_values(|n: i64| n as int) == rows_gone(saved, rows, id)
    &&& c.written@.map_values(|j: usize| j as int) == rows_to_write(saved, rows)
}

/// The number of a clip.
pub open spec fn clip_id() -> spec_fn(ClipView) -> int {
    |c: ClipView| c.id
}

/// The number of an event.
pub open spec fn event_id() -> spec_fn(EventView) -> int {
    |e: EventView| e.id
}

proof fn same_numbers_gone(before: Seq<i64>, after: Seq<i64>)
    ensures
        before.filter(|n: i64| !after.contains(n)).map_values(|n: i64| n as int) == before.map_values(
            |n: i64| n as int,
        ).filter(|n: int| !after.map_values(|n: i64| n as int).contains(n)),
    decreases before.len(),
{
    reveal(Seq::filter);
    let p = |n: i64| !after.contains(n);
    let q = |n: int| !after.map_values(|n: i64| n as int).contains(n);
    let f = |n: i64| n as int;
    if before.len() > 0 {
        let front = before.drop_last();
        let n = before.last();
        same_numbers_gone(front, after);
        assert(before.map_values(f).drop_last() =~= front.map_values(f));
        assert(p(n) == q(n as int)) by {
            if after.contains(n) {
                let k = choose|k: int| 0 <= k < after.len() && after[k] == n;
                assert(after.map_values(f)[k] == n as int);
            }
            if after.map_values(f).contains(n as int) {
                let k = choose|k: int| 0 <= k < after.len() && after.map_values(f)[k] == n as int;
                assert(after[k] == n);
            }
        }
        assert(before.filter(p).map_values(f) =~= before.map_values(f).filter(q));
    } else {
        assert(before.filter(p).map_values(f) =~= before.map_values(f).filter(q));
    }
}

fn clip_ids(rows: &Vec<ClipRow>) -> (r: Vec<i64>)
    ensures
        r@.map_values(|n: i64| n as int) == ids_of(tables::clip_views(rows@), clip_id()),
        r@.len() == rows@.len(),
        forall|i: int| 0 <= i < rows@.len() ==> #[trigger] r@[i] == rows@[i].id,
{
    let mut out: Vec<i64> = Vec::new();
    while out.len() < rows.len()
        invariant
            out@.len() <= rows@.len(),
            forall|i: int| 0 <= i < out@.len() ==> #[trigger] out@[i] == rows@[i].id,
        decreases rows@.len() - out@.len(),
    {
        out.push(rows[out.len()].id);
    }
    assert(out@.map_values(|n: i64| n as int) =~= ids_of(tables::clip_views(rows@), clip_id()));
    out
}

fn event_ids(rows: &Vec<EventRow>) -> (r: Vec<i64>)
    ensures
        r@.map_values(|n: i64| n as int) == ids_of(tables::event_views(rows@), event_id()),
        r@.len() == rows@.len(),
        forall|i: int| 0 <= i < rows@.len() ==> #[trigger] r@[i] == rows@[i].id,
{
    let mut out: Vec<i64> = Vec::new();
    while out.len() < rows.len()
        invariant
            out@.len() <= rows@.len(),
            forall|i: int| 0 <= i < out@.len() ==> #[trigger] out@[i] == rows@[i].id,
        decreases rows@.len() - out@.len(),
    {
        out.push(rows[out.len()].id);
    }
    assert(out@.map_values(|n: i64| n as int) =~= ids_of(tables::event_views(rows@), event_id()));
    out
}

/// The changes between saved clips and others, both in the order of their
/// numbers.
pub fn clip_changes(saved: &Vec<ClipRow>, rows: &Vec<ClipRow>) -> (r: Changes)
    requires
        in_order(tables::clip_views(saved@), clip_id()),
        in_order(tables::clip_views(rows@), clip_id()),
    ensures
        brings_up_to_date(r, tables::clip_views(saved@), tables::clip_views(rows@), clip_id()),
{
    let before = clip_ids(saved);
    let after = clip_ids(rows);
    let ghost old_rows = tables::clip_views(saved@);
    let ghost new_rows = tables::clip_views(rows@);
    proof {
        ordered_numbers(old_rows, clip_id(), before@);
        ordered_numbers(new_rows, clip_id(), after@);
        same_numbers_gone(before@, after@);
    }
    let gone = gone_ids(&before, &after);
    let places = match_up(&before, &after);
    let ghost all = Seq::new(new_rows.len(), |j: int| j);
    let ghost p = |j: int| !old_rows.contains(new_rows[j]);
    let mut written: Vec<usize> = Vec::new();
    let mut j: usize = 0;
    assert(all.take(0).filter(p) =~= Seq::<int>::empty()) by {
        reveal(Seq::filter);
    }
    assert(written@.map_values(|j: usize| j as int) =~= all.take(0).filter(p));
    while j < rows.len()
        invariant
            j <= rows@.len(),
            old_rows == tables::clip_views(saved@),
            new_rows == tables::clip_views(rows@),
            before@.len() == saved@.len(),
            after@.len() == rows@.len(),
            forall|i: int| 0 <= i < saved@.len() ==> #[trigger] before@[i] == saved@[i].id,
            forall|i: int| 0 <= i < rows@.len() ==> #[trigger] after@[i] == rows@[i].id,
            increasing(before@),
            places@.len() == rows@.len(),
            matched(before@, after@, places@),
            all == Seq::new(new_rows.len(), |j: int| j),
            p == (|j: int| !old_rows.contains(new_rows[j])),
            written@.map_values(|j: usize| j as int) == all.take(j as int).filter(p),
        decreases rows@.len() - j,
    {
        let ghost so_far = written@.map_values(|j: usize| j as int);
        let changed = match places[j] {
            Some(i) => {
                let r = !same_clip(&saved[i], &rows[j]);
                proof {
                    assert(before@[i as int] == after@[j as int]);
                    assert(old_rows[i as int] == saved@[i as int]@);
                    if old_rows.contains(new_rows[j as int]) {
                        let k = choose|k: int| 0 <= k < old_rows.len() && old_rows[k] == new_rows[j as int];
                        assert(before@[k] == saved@[k].id);
                        if k < i {
                            assert(before@[k] < before@[i as int]);
                        } else if k > i {
                            assert(before@[i as int] < before@[k]);
                        }
                    }
                }
                r
            },
            None => {
                proof {
                    if old_rows.contains(new_rows[j as int]) {
                        let k = choose|k: int| 0 <= k < old_rows.len() && old_rows[k] == new_rows[j as int];
                        assert(before@[k] == after@[j as int]);
                    }
                }
                true
            },
        };
        proof {
            assert(new_rows[j as int] == rows@[j as int]@);
            assert(changed == p(j as int));
            seqs::filter_step(all, p, j as int);
            assert(all[j as int] == j as int);
        }
        if changed {
            written.push(j);
            assert(written@.map_values(|j: usize| j as int) =~= so_far.push(j as int));
        }
        j += 1;
    }
    assert(all.take(j as int) =~= all);
    Changes { gone, written }
}

/// The changes between saved events and others, both in the order of their
/// numbers.
pub fn event_changes(saved: &Vec<EventRow>, rows: &Vec<EventRow>) -> (r: Changes)
    requires
        in_order(tables::event_views(saved@), event_id()),
        in_order(tables::event_views(rows@), event_id()),
    ensures
        brings_up_to_date(r, tables::event_views(saved@), tables::event_views(rows@), event_id()),
{
    let before = event_ids(saved);
    let after = event_ids(rows);
    let ghost old_rows = tables::event_views(saved@);
    let ghost new_rows = tables::event_views(rows@);
    proof {
        ordered_numbers(old_rows, event_id(), before@);
        ordered_numbers(new_rows, event_id(), after@);
        same_numbers_gone(before@, after@);
    }
    let gone = gone_ids(&before, &after);
    let places = match_up(&before, &after);
    let ghost all = Seq::new(new_rows.len(), |j: int| j);
    let ghost p = |j: int| !old_rows.contains(new_rows[j]);
    let mut written: Vec<usize> = Vec::new();
    let mut j: usize = 0;
    assert(all.take(0).filter(p) =~= Seq::<int>::empty()) by {
        reveal(Seq::filter);
    }
    assert(written@.map_values(|j: usize| j as int) =~= all.take(0).filter(p));
    while j < rows.len()
        invariant
            j <= rows@.len(),
            old_rows == tables::event_views(saved@),
            new_rows == tables::event_views(rows@),
            before@.len() == saved@.len(),
            after@.len() == rows@.len(),
            forall|i: int| 0 <= i < saved@.len() ==> #[trigger] before@[i] == saved@[i].id,
            forall|i: int| 0 <= i < rows@.len() ==> #[trigger] after@[i] == rows@[i].id,
            increasing(before@),
            places@.len() == rows@.len(),
            matched(before@, after@, places@),
            all == Seq::new(new_rows.len(), |j: int| j),
            p == (|j: int| !old_rows.contains(new_rows[j])),
            written@.map_values(|j: usize| j as int) == all.take(j as int).filter(p),
        decreases rows@.len() - j,
    {
        let ghost so_far = written@.map_values(|j: usize| j as int);
        let changed = match places[j] {
            Some(i) => {
                let r = !same_event_row(&saved[i], &rows[j]);
                proof {
                    assert(before@[i as int] == after@[j as int]);
                    assert(old_rows[i as int] == saved@[i as int]@);
                    if old_rows.contains(new_rows[j as int]) {
                        let k = choose|k: int| 0 <= k < old_rows.len() && old_rows[k] == new_rows[j as int];
                        assert(before@[k] == saved@[k].id);
                        if k < i {
                            assert(before@[k] < before@[i as int]);
                        } else if k > i {
                            assert(before@[i as int] < before@[k]);
                        }
                    }
                }
                r
            },
            None => {
                proof {
                    if old_rows.contains(new_rows[j as int]) {
                        let k = choose|k: int| 0 <= k < old_rows.len() && old_rows[k] == new_rows[j as int];
                        assert(before@[k] == after@[j as int]);
                    }
                }
                true
            },
        };
        proof {
            assert(new_rows[j as int] == rows@[j as int]@);
            assert(changed == p(j as int));
            seqs::filter_step(all, p, j as int);
            assert(all[j as int] == j as int);
        }
        if changed {
            written.push(j);
            assert(written@.map_values(|j: usize| j as int) =~= so_far.push(j as int));
        }
        j += 1;
    }
    assert(all.take(j as int) =~= all);
    Changes { gone, written }
}

/// Whether rows stand in the order of their numbers.
pub open spec fn in_order<V>(rows: Seq<V>, id: spec_fn(V) -> int) -> bool {
    forall|i: int, j: int| 0 <= i < j < rows.len() ==> id(#[trigger] rows[i]) < id(#[trigger] rows[j])
}

proof fn ordered_numbers<V>(rows: Seq<V>, id: spec_fn(V) -> int, ids: Seq<i64>)
    requires
        in_order(rows, id),
        ids.map_values(|n: i64| n as int) == ids_of(rows, id),
    ensures
        increasing(ids),
{
    let numbers = ids.map_values(|n: i64| n as int);
    assert(numbers.len() == ids.len() && ids_of(rows, id).len() == rows.len());
    assert forall|i: int, j: int| 0 <= i < j < ids.len() implies #[trigger] ids[i] < #[trigger] ids[j] by {
        assert(numbers[i] == id(rows[i]) && numbers[j] == id(rows[j]));
        assert(id(rows[i]) < id(rows[j]));
    }
}

impl Database {
    /// What has to be done to saved clips so that they are those of the store.
    pub fn clip_changes_since(&self, saved: &Vec<ClipRow>) -> (r: Changes)
        requires
            self.wf(),
            in_order(tables::clip_views(saved@), clip_id()),
        ensures
            brings_up_to_date(r, tables::clip_views(saved@), self@.clips, clip_id()),
    {
        clip_changes(saved, self.clip_rows())
    }

    /// What has to be done to saved events so that they are those of the store.
    pub fn event_changes_since(&self, saved: &Vec<EventRow>) -> (r: Changes)
        requires
            self.wf(),
            in_order(tables::event_views(saved@), event_id()),
        ensures
            brings_up_to_date(r, tables::event_views(saved@), self@.events, event_id()),
    {
        event_changes(saved, self.event_rows())
    }
}

// ---------------------------------------------------------------------------
// Laws
// ---------------------------------------------------------------------------

/// Whether a row is saved once the changes have been made: it was written, or it
/// had been saved, and its number was neither deleted nor written again.
pub open spec fn saved_after<V>(c: Changes, saved: Seq<V>, rows: Seq<V>, id: spec_fn(V) -> int, row: V) -> bool {
    ||| exists|k: int| 0 <= k < c.written@.len() && rows[(#[trigger] c.written@[k]) as int] == row
    ||| {
        &&& saved.contains(row)
        &&& !c.gone@.map_values(|n: i64| n as int).contains(id(row))
        &&& forall|k: int| 0 <= k < c.written@.len() ==> id(rows[(#[trigger] c.written@[k]) as int]) != id(row)
    }
}

/// Once the changes have been made, the saved rows are those of the store.
pub proof fn changes_bring_up_to_date<V>(c: Changes, saved: Seq<V>, rows: Seq<V>, id: spec_fn(V) -> int, row: V)
    requires
        in_order(saved, id),
        in_order(rows, id),
        brings_up_to_date(c, saved, rows, id),
    ensures
        saved_after(c, saved, rows, id, row) <==> rows.contains(row),
{
    let all = Seq::new(rows.len(), |j: int| j);
    let p = |j: int| !saved.contains(rows[j]);
    let places = c.written@.map_values(|j: usize| j as int);
    let gone = c.gone@.map_values(|n: i64| n as int);
    let ids = ids_of(rows, id);
    let out = |n: int| !ids.contains(n);
    assert forall|k: int| 0 <= k < c.written@.len() implies 0 <= (#[trigger] c.written@[k]) < rows.len() && !saved.contains(
        rows[c.written@[k] as int],
    ) by {
        assert(places[k] == c.written@[k] as int);
        let j = seqs::filter_origin(all, p, k);
    }
    if rows.contains(row) {
        let j = choose|j: int| 0 <= j < rows.len() && rows[j] == row;
        if saved.contains(row) {
            if gone.contains(id(row)) {
                let k = choose|k: int| 0 <= k < gone.len() && gone[k] == id(row);
                let m = seqs::filter_origin(ids_of(saved, id), out, k);
                assert(ids[j] == id(row));
            }
            assert forall|k: int| 0 <= k < c.written@.len() implies id(rows[(#[trigger] c.written@[k]) as int]) != id(
                row,
            ) by {
                let w = c.written@[k] as int;
                if w < j {
                    assert(id(rows[w]) < id(rows[j]));
                } else if w > j {
                    assert(id(rows[j]) < id(rows[w]));
                }
            }
        } else {
            assert(all[j] == j && p(j));
            let k = seqs::filter_keeps(all, p, j);
            assert(places[k] == j);
            assert(rows[c.written@[k] as int] == row);
        }
    } else if saved_after(c, saved, rows, id, row) {
        let i = choose|i: int| 0 <= i < saved.len() && saved[i] == row;
        let numbers = ids_of(saved, id);
        assert(numbers[i] == id(row));
        if out(id(row)) {
            let k = seqs::filter_keeps(numbers, out, i);
            assert(gone[k] == id(row));
        } else {
            let j = choose|j: int| 0 <= j < ids.len() && ids[j] == id(row);
            assert(id(rows[j]) == id(row));
            if saved.contains(rows[j]) {
                let m = choose|m: int| 0 <= m < saved.len() && saved[m] == rows[j];
                if m < i {
                    assert(id(saved[m]) < id(saved[i]));
                } else if i < m {
                    assert(id(saved[i]) < id(saved[m]));
                }
                assert(rows[j] == row);
            } else {
                assert(all[j] == j && p(j));
                let k = seqs::filter_keeps(all, p, j);
                assert(places[k] == j);
                assert(id(rows[c.written@[k] as int]) == id(row));
            }
        }
    }
}

} // verus!
