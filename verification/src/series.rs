//! The time-series assembler: folds the decoded record stream, in decode
//! order, into a mapping from remapped key to an ordered mapping from
//! timestamp to generic value. A later record for the same key and the same
//! timestamp overwrites the earlier value (last write wins).
use vstd::prelude::*;

use crate::reader::decode;
use crate::reader::find_entry;
use crate::reader::find_index;
use crate::reader::records_model;
use crate::reader::spec_decode;
use crate::reader::table_model;
use crate::reader::DecodeModel;
use crate::reader::EntryModel;
use crate::reader::FormatError;
use crate::reader::LogEntry;
use crate::reader::RawRecord;
use crate::reader::RecordModel;
use crate::remap::remap;
use crate::remap::spec_remap;
use crate::value::clone_payload;
use crate::value::coerce;
use crate::value::spec_coerce;
use crate::value::GenericModel;
use crate::value::GenericValue;
use crate::wire::str_eq;

verus! {

/// The remapped key a record lands under: the key name of its entry, run
/// through the namespace rule — or nothing, when no entry in the table
/// carries the record's identifier.
pub open spec fn resolve(table: Seq<EntryModel>, r: RecordModel) -> Option<Seq<char>> {
    let i = find_entry(table, r.entry_id);
    if i >= 0 {
        Some(spec_remap(table[i].name))
    } else {
        None
    }
}

/// Inserts one timestamped value under a key, starting the key's sub-map
/// when the key is new.
pub open spec fn spec_insert(
    m: Map<Seq<char>, Map<u64, GenericModel>>,
    key: Seq<char>,
    t: u64,
    v: GenericModel,
) -> Map<Seq<char>, Map<u64, GenericModel>> {
    let inner = if m.contains_key(key) {
        m[key]
    } else {
        Map::empty()
    };
    m.insert(key, inner.insert(t, v))
}

/// Applies one record: remap its entry's key, coerce its payload, insert at
/// its timestamp; a record bound to no entry is skipped.
pub open spec fn spec_apply_record(
    table: Seq<EntryModel>,
    m: Map<Seq<char>, Map<u64, GenericModel>>,
    r: RecordModel,
) -> Map<Seq<char>, Map<u64, GenericModel>> {
    match resolve(table, r) {
        Some(key) => spec_insert(m, key, r.timestamp, spec_coerce(r.payload)),
        None => m,
    }
}

/// Folds the record stream, in order, into the time series.
pub open spec fn spec_assemble(table: Seq<EntryModel>, recs: Seq<RecordModel>) -> Map<
    Seq<char>,
    Map<u64, GenericModel>,
>
    decreases recs.len(),
{
    if recs.len() == 0 {
        Map::empty()
    } else {
        spec_apply_record(table, spec_assemble(table, recs.drop_last()), recs.last())
    }
}

/// The map a timestamp column stands for: later pairs overwrite earlier
/// ones at the same timestamp.
pub open spec fn inner_model(s: Seq<(u64, GenericValue)>) -> Map<u64, GenericModel>
    decreases s.len(),
{
    if s.len() == 0 {
        Map::empty()
    } else {
        inner_model(s.drop_last()).insert(s.last().0, s.last().1@)
    }
}

/// The map a key column stands for.
pub open spec fn outer_model(s: Seq<(String, Vec<(u64, GenericValue)>)>) -> Map<
    Seq<char>,
    Map<u64, GenericModel>,
>
    decreases s.len(),
{
    if s.len() == 0 {
        Map::empty()
    } else {
        outer_model(s.drop_last()).insert(s.last().0@, inner_model(s.last().1@))
    }
}

/// Timestamps within one column are unique.
pub open spec fn inner_wf(s: Seq<(u64, GenericValue)>) -> bool {
    forall|a: int, b: int| 0 <= a < b < s.len() ==> s[a].0 != s[b].0
}

/// Keys are unique, and every column is itself well formed.
pub open spec fn outer_wf(s: Seq<(String, Vec<(u64, GenericValue)>)>) -> bool {
    &&& forall|a: int, b: int| 0 <= a < b < s.len() ==> s[a].0@ != s[b].0@
    &&& forall|a: int| 0 <= a < s.len() ==> inner_wf(#[trigger] s[a].1@)
}

/// Each pair of a well-formed column is in its map, and every key of the
/// map comes from a pair.
proof fn lemma_inner_index(s: Seq<(u64, GenericValue)>)
    requires
        inner_wf(s),
    ensures
        forall|i: int| 0 <= i < s.len() ==> inner_model(s).contains_key(#[trigger] s[i].0)
            && inner_model(s)[s[i].0] == s[i].1@,
        forall|t: u64| inner_model(s).contains_key(t) ==> exists|i: int|
            0 <= i < s.len() && #[trigger] s[i].0 == t,
    decreases s.len(),
{
    if s.len() > 0 {
        let prefix = s.drop_last();
        assert(forall|i: int| 0 <= i < prefix.len() ==> prefix[i] == s[i]);
        lemma_inner_index(prefix);
        assert forall|i: int| 0 <= i < s.len() implies inner_model(s).contains_key(
            #[trigger] s[i].0,
        ) && inner_model(s)[s[i].0] == s[i].1@ by {
            if i < s.len() - 1 {
                assert(s[i].0 != s.last().0);
            }
        }
        assert forall|t: u64| inner_model(s).contains_key(t) implies exists|i: int|
            0 <= i < s.len() && #[trigger] s[i].0 == t by {
            if t != s.last().0 {
                assert(inner_model(s) == inner_model(prefix).insert(s.last().0, s.last().1@));
                assert(inner_model(prefix).contains_key(t));
                assert(exists|i: int| 0 <= i < prefix.len() && #[trigger] prefix[i].0 == t);
                let i = choose|i: int| 0 <= i < prefix.len() && #[trigger] prefix[i].0 == t;
                assert(s[i].0 == t);
            } else {
                assert(s[s.len() - 1].0 == t);
            }
        }
    }
}

/// Overwriting the pair that holds a timestamp updates the column's map at
/// that timestamp.
proof fn lemma_inner_update(s: Seq<(u64, GenericValue)>, i: int, x: (u64, GenericValue))
    requires
        inner_wf(s),
        0 <= i < s.len(),
        x.0 == s[i].0,
    ensures
        inner_model(s.update(i, x)) =~= inner_model(s).insert(x.0, x.1@),
        inner_wf(s.update(i, x)),
    decreases s.len(),
{
    let su = s.update(i, x);
    if i == s.len() - 1 {
        assert(su.drop_last() =~= s.drop_last());
    } else {
        assert(su.drop_last() =~= s.drop_last().update(i, x));
        lemma_inner_update(s.drop_last(), i, x);
        assert(s.last().0 != x.0);
        assert(su.last() == s.last());
    }
}

/// Each pair of a well-formed key column is in its map, and every key of
/// the map comes from a pair.
proof fn lemma_outer_index(s: Seq<(String, Vec<(u64, GenericValue)>)>)
    requires
        forall|a: int, b: int| 0 <= a < b < s.len() ==> s[a].0@ != s[b].0@,
    ensures
        forall|i: int| 0 <= i < s.len() ==> outer_model(s).contains_key(#[trigger] s[i].0@)
            && outer_model(s)[s[i].0@] == inner_model(s[i].1@),
        forall|k: Seq<char>| outer_model(s).contains_key(k) ==> exists|i: int|
            0 <= i < s.len() && #[trigger] s[i].0@ == k,
    decreases s.len(),
{
    if s.len() > 0 {
        let prefix = s.drop_last();
        assert(forall|i: int| 0 <= i < prefix.len() ==> prefix[i] == s[i]);
        lemma_outer_index(prefix);
        assert forall|i: int| 0 <= i < s.len() implies outer_model(s).contains_key(
            #[trigger] s[i].0@,
        ) && outer_model(s)[s[i].0@] == inner_model(s[i].1@) by {
            if i < s.len() - 1 {
                assert(s[i].0@ != s.last().0@);
            }
        }
        assert forall|k: Seq<char>| outer_model(s).contains_key(k) implies exists|i: int|
            0 <= i < s.len() && #[trigger] s[i].0@ == k by {
            if k != s.last().0@ {
                assert(outer_model(s) == outer_model(prefix).insert(
                    s.last().0@,
                    inner_model(s.last().1@),
                ));
                assert(outer_model(prefix).contains_key(k));
                assert(exists|i: int| 0 <= i < prefix.len() && #[trigger] prefix[i].0@ == k);
                let i = choose|i: int| 0 <= i < prefix.len() && #[trigger] prefix[i].0@ == k;
                assert(s[i].0@ == k);
            } else {
                assert(s[s.len() - 1].0@ == k);
            }
        }
    }
}

/// Replacing the pair that holds a key updates the series' map at that key.
proof fn lemma_outer_update(
    s: Seq<(String, Vec<(u64, GenericValue)>)>,
    i: int,
    x: (String, Vec<(u64, GenericValue)>),
)
    requires
        forall|a: int, b: int| 0 <= a < b < s.len() ==> s[a].0@ != s[b].0@,
        0 <= i < s.len(),
        x.0@ == s[i].0@,
    ensures
        outer_model(s.update(i, x)) =~= outer_model(s).insert(x.0@, inner_model(x.1@)),
    decreases s.len(),
{
    let su = s.update(i, x);
    if i == s.len() - 1 {
        assert(su.drop_last() =~= s.drop_last());
    } else {
        assert(su.drop_last() =~= s.drop_last().update(i, x));
        lemma_outer_update(s.drop_last(), i, x);
        assert(s.last().0@ != x.0@);
        assert(su.last() == s.last());
    }
}

/// The index of the pair holding a key, if any.
fn find_key(out: &Vec<(String, Vec<(u64, GenericValue)>)>, key: &str) -> (r: Option<usize>)
    ensures
        r matches Some(i) ==> i < out@.len() && out@[i as int].0@ == key@,
        r is None ==> forall|i: int| 0 <= i < out@.len() ==> out@[i].0@ != key@,
{
    let n = out.len();
    let mut i: usize = 0;
    while i < n
        invariant
            i <= n,
            n == out@.len(),
            forall|k: int| 0 <= k < i ==> out@[k].0@ != key@,
        decreases n - i,
    {
        if str_eq(out[i].0.as_str(), key) {
            return Some(i);
        }
        i = i + 1;
    }
    None
}

/// The index of the pair holding a timestamp, if any.
fn find_ts(col: &Vec<(u64, GenericValue)>, t: u64) -> (r: Option<usize>)
    ensures
        r matches Some(j) ==> j < col@.len() && col@[j as int].0 == t,
        r is None ==> forall|j: int| 0 <= j < col@.len() ==> col@[j].0 != t,
{
    let n = col.len();
    let mut j: usize = 0;
    while j < n
        invariant
            j <= n,
            n == col@.len(),
            forall|k: int| 0 <= k < j ==> col@[k].0 != t,
        decreases n - j,
    {
        if col[j].0 == t {
            return Some(j);
        }
        j = j + 1;
    }
    None
}

/// Sets one timestamped value within a column, overwriting the value at an
/// existing timestamp.
fn put_ts(col: &mut Vec<(u64, GenericValue)>, t: u64, val: GenericValue)
    requires
        inner_wf(old(col)@),
    ensures
        inner_wf(final(col)@),
        inner_model(final(col)@) == inner_model(old(col)@).insert(t, val@),
{
    let ghost s0 = col@;
    match find_ts(col, t) {
        Some(j) => {
            proof {
                lemma_inner_update(s0, j as int, (t, val));
            }
            col[j] = (t, val);
        },
        None => {
            col.push((t, val));
            proof {
                assert(s0.push((t, val)).drop_last() =~= s0);
                assert(inner_model(col@) =~= inner_model(s0).insert(t, val@));
            }
        },
    }
}

/// Inserts one timestamped value under a key, starting the key's column
/// when the key is new.
fn put(out: &mut Vec<(String, Vec<(u64, GenericValue)>)>, key: String, t: u64, val: GenericValue)
    requires
        outer_wf(old(out)@),
    ensures
        outer_wf(final(out)@),
        outer_model(final(out)@) == spec_insert(outer_model(old(out)@), key@, t, val@),
{
    let ghost s0 = out@;
    match find_key(out, key.as_str()) {
        Some(i) => {
            proof {
                lemma_outer_index(s0);
            }
            let pair = &mut out[i];
            put_ts(&mut pair.1, t, val);
            proof {
                lemma_outer_update(s0, i as int, *pair);
                assert(outer_model(out@) =~= spec_insert(outer_model(s0), key@, t, val@));
                assert forall|a: int, b: int| 0 <= a < b < out@.len() implies out@[a].0@
                    != out@[b].0@ by {
                    assert(out@[a].0 == s0[a].0 || a == i);
                    assert(out@[b].0 == s0[b].0 || b == i);
                }
            }
        },
        None => {
            proof {
                lemma_outer_index(s0);
            }
            let mut col: Vec<(u64, GenericValue)> = Vec::new();
            col.push((t, val));
            proof {
                assert(col@.drop_last() =~= Seq::<(u64, GenericValue)>::empty());
                assert(inner_model(Seq::<(u64, GenericValue)>::empty()) =~= Map::<
                    u64,
                    GenericModel,
                >::empty());
                assert(col@.last() == (t, val));
                assert(inner_model(col@) =~= Map::<u64, GenericModel>::empty().insert(t, val@));
            }
            out.push((key, col));
            proof {
                assert(out@.drop_last() =~= s0);
                assert(outer_model(out@) =~= spec_insert(outer_model(s0), out@.last().0@, t, val@));
            }
        },
    }
}

/// A time series: for each remapped key, the values seen for it, by
/// timestamp. Built fresh by one decode; nothing survives across calls.
pub struct TimeSeries {
    entries: Vec<(String, Vec<(u64, GenericValue)>)>,
}

impl View for TimeSeries {
    type V = Map<Seq<char>, Map<u64, GenericModel>>;

    closed spec fn view(&self) -> Map<Seq<char>, Map<u64, GenericModel>> {
        outer_model(self.entries@)
    }
}

impl TimeSeries {
    /// Well-formedness: keys unique, timestamps unique within a key.
    pub closed spec fn wf(&self) -> bool {
        outer_wf(self.entries@)
    }

    /// The value stored for a key at a timestamp, if any.
    pub fn get(&self, key: &str, timestamp: u64) -> (r: Option<&GenericValue>)
        requires
            self.wf(),
        ensures
            r is Some <==> (self@.contains_key(key@) && self@[key@].contains_key(timestamp)),
            r matches Some(v) ==> v@ == self@[key@][timestamp],
    {
        proof {
            lemma_outer_index(self.entries@);
        }
        match find_key(&self.entries, key) {
            None => None,
            Some(i) => {
                proof {
                    lemma_inner_index(self.entries@[i as int].1@);
                }
                match find_ts(&self.entries[i].1, timestamp) {
                    None => None,
                    Some(j) => Some(&self.entries[i].1[j].1),
                }
            },
        }
    }

    /// The column stored for a key, if any: the timestamped values in
    /// arrival order.
    pub fn series(&self, key: &str) -> (r: Option<&Vec<(u64, GenericValue)>>)
        requires
            self.wf(),
        ensures
            r is Some <==> self@.contains_key(key@),
            r matches Some(v) ==> inner_model(v@) == self@[key@] && inner_wf(v@),
    {
        proof {
            lemma_outer_index(self.entries@);
        }
        match find_key(&self.entries, key) {
            None => None,
            Some(i) => Some(&self.entries[i].1),
        }
    }

    /// Every key of the series, each exactly once.
    pub fn keys(&self) -> (r: Vec<String>)
        requires
            self.wf(),
        ensures
            forall|i: int| 0 <= i < r@.len() ==> self@.contains_key(#[trigger] r@[i]@),
            forall|k: Seq<char>| self@.contains_key(k) ==> exists|i: int|
                0 <= i < r@.len() && #[trigger] r@[i]@ == k,
            forall|a: int, b: int| 0 <= a < b < r@.len() ==> r@[a]@ != r@[b]@,
    {
        proof {
            lemma_outer_index(self.entries@);
        }
        let n = self.entries.len();
        let mut r: Vec<String> = Vec::new();
        let mut i: usize = 0;
        while i < n
            invariant
                i <= n,
                n == self.entries@.len(),
                r@.len() == i,
                forall|k: int| 0 <= k < i ==> r@[k]@ == self.entries@[k].0@,
            decreases n - i,
        {
            r.push(self.entries[i].0.clone());
            i = i + 1;
        }
        proof {
            assert forall|k: Seq<char>| self@.contains_key(k) implies exists|i: int|
                0 <= i < r@.len() && #[trigger] r@[i]@ == k by {
                let i = choose|i: int|
                    0 <= i < self.entries@.len() && #[trigger] self.entries@[i].0@ == k;
                assert(r@[i]@ == k);
            }
        }
        r
    }
}

/// Folds the decoded table and record stream into the time series, in
/// decode order.
pub fn assemble(table: &Vec<LogEntry>, records: &Vec<RawRecord>) -> (r: TimeSeries)
    ensures
        r.wf(),
        r@ == spec_assemble(table_model(table@), records_model(records@)),
{
    let ghost tm = table_model(table@);
    let ghost rm = records_model(records@);
    let n = records.len();
    let mut out: Vec<(String, Vec<(u64, GenericValue)>)> = Vec::new();
    let mut ri: usize = 0;
    proof {
        assert(outer_model(out@) =~= spec_assemble(tm, rm.take(0)));
    }
    while ri < n
        invariant
            ri <= n,
            n == records@.len(),
            tm == table_model(table@),
            rm == records_model(records@),
            outer_wf(out@),
            outer_model(out@) == spec_assemble(tm, rm.take(ri as int)),
        decreases n - ri,
    {
        let ghost prev = outer_model(out@);
        let rec = &records[ri];
        proof {
            assert(rm.take(ri as int + 1).drop_last() =~= rm.take(ri as int));
            assert(rm.take(ri as int + 1).last() == rm[ri as int]);
        }
        match find_index(table, rec.entry_id) {
            Some(ei) => {
                let key = remap(table[ei].name.as_str());
                let val = coerce(clone_payload(&rec.payload));
                put(&mut out, key, rec.timestamp, val);
                proof {
                    assert(resolve(tm, rm[ri as int]) == Some(spec_remap(tm[ei as int].name)));
                    assert(outer_model(out@) == spec_assemble(tm, rm.take(ri as int + 1)));
                }
            },
            None => {
                proof {
                    assert(resolve(tm, rm[ri as int]) is None);
                    assert(outer_model(out@) == spec_assemble(tm, rm.take(ri as int + 1)));
                }
            },
        }
        ri = ri + 1;
    }
    proof {
        assert(rm.take(n as int) =~= rm);
    }
    TimeSeries { entries: out }
}

/// Decodes a whole log and assembles its time series: the externally
/// visible mapping from remapped key to timestamped generic values, or the
/// decode's error — never a partial mapping.
pub fn read_log(bytes: &[u8]) -> (r: Result<TimeSeries, FormatError>)
    ensures
        r matches Ok(ts) ==> ts.wf() && (spec_decode(bytes@) matches Ok(d) && ts@ == spec_assemble(
            d.table,
            d.records,
        )),
        r matches Err(e) ==> spec_decode(bytes@) == Err::<DecodeModel, FormatError>(e),
{
    match decode(bytes) {
        Ok((table, records)) => Ok(assemble(&table, &records)),
        Err(e) => Err(e),
    }
}

/// Last write wins: when a record is the last one, in decode order, that
/// lands on its key and timestamp, the assembled series holds exactly that
/// record's coerced payload there.
pub proof fn lemma_last_write_wins(table: Seq<EntryModel>, recs: Seq<RecordModel>, i: int)
    requires
        0 <= i < recs.len(),
        resolve(table, recs[i]) is Some,
        forall|j: int| i < j < recs.len() ==> !(#[trigger] resolve(table, recs[j]) == resolve(
            table,
            recs[i],
        ) && recs[j].timestamp == recs[i].timestamp),
    ensures
        ({
            let key = resolve(table, recs[i])->Some_0;
            let m = spec_assemble(table, recs);
            &&& m.contains_key(key)
            &&& m[key].contains_key(recs[i].timestamp)
            &&& m[key][recs[i].timestamp] == spec_coerce(recs[i].payload)
        }),
    decreases recs.len(),
{
    let key = resolve(table, recs[i])->Some_0;
    let prefix = recs.drop_last();
    if i == recs.len() - 1 {
    } else {
        assert(prefix[i] == recs[i]);
        lemma_last_write_wins(table, prefix, i);
    }
}


/// Within one decode, every key present in the assembled mapping holds at
/// least one timestamped value: keys never appear empty.
pub proof fn lemma_assembled_keys_inhabited(
    table: Seq<EntryModel>,
    recs: Seq<RecordModel>,
    k: Seq<char>,
)
    requires
        spec_assemble(table, recs).contains_key(k),
    ensures
        exists|t: u64| spec_assemble(table, recs)[k].contains_key(t),
    decreases recs.len(),
{
    if recs.len() == 0 {
    } else {
        let prev = spec_assemble(table, recs.drop_last());
        match resolve(table, recs.last()) {
            Some(key) => {
                if k == key {
                    assert(spec_assemble(table, recs)[k].contains_key(recs.last().timestamp));
                } else {
                    lemma_assembled_keys_inhabited(table, recs.drop_last(), k);
                    let t = choose|t: u64| prev[k].contains_key(t);
                    assert(spec_assemble(table, recs)[k].contains_key(t));
                }
            },
            None => {
                lemma_assembled_keys_inhabited(table, recs.drop_last(), k);
            },
        }
    }
}

} // verus!
