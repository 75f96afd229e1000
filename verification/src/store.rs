//! The in-memory dictionary store: an ordered mapping from headword to
//! entry list, built by merging the parsed records of every configured
//! source in order.

use vstd::prelude::*;

verus! {

use crate::handler::{Entry, EntryView};
use crate::text::str_eq;

/// One parsed dictionary record: a headword and its entries, in source
/// order.
#[verifier::ext_equal]
pub struct RecordView {
    pub headword: Seq<char>,
    pub entries: Seq<EntryView>,
}

/// The view of one parsed record.
pub open spec fn record_view(r: (String, Vec<Entry>)) -> RecordView {
    RecordView { headword: r.0@, entries: r.1.deep_view() }
}

/// The view of a parsed record list.
pub open spec fn records_view(rs: Seq<(String, Vec<Entry>)>) -> Seq<RecordView> {
    rs.map_values(|r: (String, Vec<Entry>)| record_view(r))
}

/// The entries bound to `k` in an association list, first binding wins.
pub open spec fn assoc_lookup(a: Seq<RecordView>, k: Seq<char>) -> Option<Seq<EntryView>>
    decreases a.len(),
{
    if a.len() == 0 {
        None
    } else if a[0].headword == k {
        Some(a[0].entries)
    } else {
        assoc_lookup(a.drop_first(), k)
    }
}

/// True when no headword is bound twice.
pub open spec fn assoc_wf(a: Seq<RecordView>) -> bool {
    forall|i: int, j: int| 0 <= i < j < a.len() ==> a[i].headword != a[j].headword
}

/// One record merged into an association list: its entries are appended to
/// the first binding of the same headword, or a new binding is added at
/// the end.
pub open spec fn assoc_add(a: Seq<RecordView>, r: RecordView) -> Seq<RecordView>
    decreases a.len(),
{
    if a.len() == 0 {
        seq![r]
    } else if a[0].headword == r.headword {
        seq![RecordView { headword: a[0].headword, entries: a[0].entries + r.entries }]
            + a.drop_first()
    } else {
        seq![a[0]] + assoc_add(a.drop_first(), r)
    }
}

/// A record list merged into an association list, record by record.
pub open spec fn assoc_add_all(a: Seq<RecordView>, records: Seq<RecordView>) -> Seq<RecordView>
    decreases records.len(),
{
    if records.len() == 0 {
        a
    } else {
        assoc_add_all(assoc_add(a, records[0]), records.drop_first())
    }
}

/// Source record lists merged into an association list, source by source.
pub open spec fn assoc_merge_from(a: Seq<RecordView>, sources: Seq<Seq<RecordView>>) -> Seq<
    RecordView,
>
    decreases sources.len(),
{
    if sources.len() == 0 {
        a
    } else {
        assoc_merge_from(assoc_add_all(a, sources[0]), sources.drop_first())
    }
}

/// The merge of all sources, in order, into an empty store.
pub open spec fn assoc_merge(sources: Seq<Seq<RecordView>>) -> Seq<RecordView> {
    assoc_merge_from(Seq::empty(), sources)
}

/// The concatenation of the entries that a record list binds to `k`, in
/// record order.
pub open spec fn entries_at(records: Seq<RecordView>, k: Seq<char>) -> Seq<EntryView>
    decreases records.len(),
{
    if records.len() == 0 {
        Seq::empty()
    } else {
        (if records[0].headword == k {
            records[0].entries
        } else {
            Seq::empty()
        }) + entries_at(records.drop_first(), k)
    }
}

/// True when some record binds `k`.
pub open spec fn has_key(records: Seq<RecordView>, k: Seq<char>) -> bool {
    exists|i: int| 0 <= i < records.len() && records[i].headword == k
}

/// The concatenation, in source order, of every source's entries for `k`.
pub open spec fn merged_at(sources: Seq<Seq<RecordView>>, k: Seq<char>) -> Seq<EntryView>
    decreases sources.len(),
{
    if sources.len() == 0 {
        Seq::empty()
    } else {
        entries_at(sources[0], k) + merged_at(sources.drop_first(), k)
    }
}

/// True when some source binds `k`.
pub open spec fn any_has_key(sources: Seq<Seq<RecordView>>, k: Seq<char>) -> bool
    decreases sources.len(),
{
    if sources.len() == 0 {
        false
    } else {
        has_key(sources[0], k) || any_has_key(sources.drop_first(), k)
    }
}

/// What one merged record does to every lookup: the merged headword gains
/// the record's entries, every other headword is untouched.
pub proof fn lemma_add_lookup(a: Seq<RecordView>, r: RecordView, k: Seq<char>)
    ensures
        assoc_lookup(assoc_add(a, r), k) == if k == r.headword {
            Some(
                (match assoc_lookup(a, k) {
                    Some(e) => e,
                    None => Seq::empty(),
                }) + r.entries,
            )
        } else {
            assoc_lookup(a, k)
        },
    decreases a.len(),
{
    if a.len() == 0 {
        if k == r.headword {
            assert(assoc_lookup(seq![r], k) == Some(r.entries));
            assert(Seq::<EntryView>::empty() + r.entries =~= r.entries);
        } else {
            assert(seq![r].drop_first().len() == 0);
            assert(assoc_lookup(seq![r].drop_first(), k) is None);
            assert(assoc_lookup(seq![r], k) is None);
        }
    } else if a[0].headword == r.headword {
        let merged = RecordView { headword: a[0].headword, entries: a[0].entries + r.entries };
        let res = seq![merged] + a.drop_first();
        assert(assoc_add(a, r) == res);
        assert(res[0] == merged);
        assert(res.drop_first() =~= a.drop_first());
        if k == r.headword {
            assert(assoc_lookup(res, k) == Some(merged.entries));
            assert(assoc_lookup(a, k) == Some(a[0].entries));
        } else {
            assert(assoc_lookup(res, k) == assoc_lookup(a.drop_first(), k));
            assert(assoc_lookup(a, k) == assoc_lookup(a.drop_first(), k));
        }
    } else {
        lemma_add_lookup(a.drop_first(), r, k);
        let res = seq![a[0]] + assoc_add(a.drop_first(), r);
        assert(assoc_add(a, r) == res);
        assert(res[0] == a[0]);
        assert(res.drop_first() =~= assoc_add(a.drop_first(), r));
        if k == a[0].headword {
            assert(assoc_lookup(res, k) == Some(a[0].entries));
            assert(assoc_lookup(a, k) == Some(a[0].entries));
        } else {
            assert(assoc_lookup(res, k) == assoc_lookup(assoc_add(a.drop_first(), r), k));
            assert(assoc_lookup(a, k) == assoc_lookup(a.drop_first(), k));
        }
    }
}

/// Merging preserves well-formedness.
pub proof fn lemma_add_wf(a: Seq<RecordView>, r: RecordView)
    requires
        assoc_wf(a),
    ensures
        assoc_wf(assoc_add(a, r)),
    decreases a.len(),
{
    if a.len() == 0 {
    } else if a[0].headword == r.headword {
        let merged = RecordView { headword: a[0].headword, entries: a[0].entries + r.entries };
        let res = seq![merged] + a.drop_first();
        assert forall|i: int, j: int| 0 <= i < j < res.len() implies res[i].headword
            != res[j].headword by {
            assert(a[i] == if i == 0 {
                a[0]
            } else {
                a[i]
            });
        }
    } else {
        assert(assoc_wf(a.drop_first()));
        lemma_add_wf(a.drop_first(), r);
        let rest = assoc_add(a.drop_first(), r);
        let res = seq![a[0]] + rest;
        assert forall|i: int, j: int| 0 <= i < j < res.len() implies res[i].headword
            != res[j].headword by {
            if i == 0 {
                lemma_add_keys_from(a.drop_first(), r, rest[j - 1].headword);
            }
        }
    }
}

/// Every headword bound after a merge was bound before, or is the merged
/// record's headword.
proof fn lemma_add_keys_from(a: Seq<RecordView>, r: RecordView, k: Seq<char>)
    ensures
        has_key(assoc_add(a, r), k) ==> has_key(a, k) || k == r.headword,
    decreases a.len(),
{
    if a.len() == 0 {
    } else if a[0].headword == r.headword {
        let merged = RecordView { headword: a[0].headword, entries: a[0].entries + r.entries };
        let res = seq![merged] + a.drop_first();
        if has_key(res, k) {
            let i = choose|i: int| 0 <= i < res.len() && res[i].headword == k;
            if i == 0 {
                assert(a[0].headword == k);
            } else {
                assert(a[i] == res[i]);
            }
        }
    } else {
        lemma_add_keys_from(a.drop_first(), r, k);
        let rest = assoc_add(a.drop_first(), r);
        let res = seq![a[0]] + rest;
        if has_key(res, k) {
            let i = choose|i: int| 0 <= i < res.len() && res[i].headword == k;
            if i == 0 {
            } else {
                assert(rest[i - 1].headword == k);
                if has_key(a.drop_first(), k) {
                    let j = choose|j: int|
                        0 <= j < a.drop_first().len() && a.drop_first()[j].headword == k;
                    assert(a[j + 1].headword == k);
                }
            }
        }
    }
}

/// What merging a whole record list does to every lookup.
pub proof fn lemma_add_all_lookup(a: Seq<RecordView>, records: Seq<RecordView>, k: Seq<char>)
    ensures
        assoc_lookup(assoc_add_all(a, records), k) == (match assoc_lookup(a, k) {
            Some(e) => Some(e + entries_at(records, k)),
            None => if has_key(records, k) {
                Some(entries_at(records, k))
            } else {
                None
            },
        }),
    decreases records.len(),
{
    if records.len() == 0 {
        match assoc_lookup(a, k) {
            Some(e) => {
                assert(e + entries_at(records, k) =~= e);
            },
            None => {},
        }
    } else {
        let r = records[0];
        let a1 = assoc_add(a, r);
        lemma_add_lookup(a, r, k);
        lemma_add_all_lookup(a1, records.drop_first(), k);
        assert(has_key(records, k) == (r.headword == k || has_key(records.drop_first(), k))) by {
            if has_key(records, k) {
                let i = choose|i: int| 0 <= i < records.len() && records[i].headword == k;
                if i > 0 {
                    assert(records.drop_first()[i - 1].headword == k);
                }
            }
            if has_key(records.drop_first(), k) {
                let i = choose|i: int|
                    0 <= i < records.drop_first().len() && records.drop_first()[i].headword == k;
                assert(records[i + 1].headword == k);
            }
        }
        if k == r.headword {
            match assoc_lookup(a, k) {
                Some(e) => {
                    assert((e + r.entries) + entries_at(records.drop_first(), k) =~= e + (r.entries
                        + entries_at(records.drop_first(), k)));
                },
                None => {
                    assert((Seq::<EntryView>::empty() + r.entries) + entries_at(
                        records.drop_first(),
                        k,
                    ) =~= r.entries + entries_at(records.drop_first(), k));
                },
            }
        } else {
            assert(entries_at(records, k) =~= Seq::<EntryView>::empty() + entries_at(
                records.drop_first(),
                k,
            ));
            assert(entries_at(records, k) == entries_at(records.drop_first(), k));
        }
    }
}

/// Merging a record list preserves well-formedness.
pub proof fn lemma_add_all_wf(a: Seq<RecordView>, records: Seq<RecordView>)
    requires
        assoc_wf(a),
    ensures
        assoc_wf(assoc_add_all(a, records)),
    decreases records.len(),
{
    if records.len() == 0 {
    } else {
        lemma_add_wf(a, records[0]);
        lemma_add_all_wf(assoc_add(a, records[0]), records.drop_first());
    }
}

/// What merging every source does to every lookup.
pub proof fn lemma_merge_from_lookup(a: Seq<RecordView>, sources: Seq<Seq<RecordView>>, k: Seq<
    char,
>)
    ensures
        assoc_lookup(assoc_merge_from(a, sources), k) == (match assoc_lookup(a, k) {
            Some(e) => Some(e + merged_at(sources, k)),
            None => if any_has_key(sources, k) {
                Some(merged_at(sources, k))
            } else {
                None
            },
        }),
    decreases sources.len(),
{
    if sources.len() == 0 {
        match assoc_lookup(a, k) {
            Some(e) => {
                assert(e + merged_at(sources, k) =~= e);
            },
            None => {},
        }
    } else {
        let a1 = assoc_add_all(a, sources[0]);
        lemma_add_all_lookup(a, sources[0], k);
        lemma_merge_from_lookup(a1, sources.drop_first(), k);
        match assoc_lookup(a, k) {
            Some(e) => {
                assert((e + entries_at(sources[0], k)) + merged_at(sources.drop_first(), k) =~= e
                    + (entries_at(sources[0], k) + merged_at(sources.drop_first(), k)));
            },
            None => {
                if has_key(sources[0], k) {
                    assert((entries_at(sources[0], k)) + merged_at(sources.drop_first(), k)
                        =~= merged_at(sources, k));
                } else {
                    assert(entries_at(sources[0], k) =~= Seq::<EntryView>::empty()) by {
                        lemma_no_key_no_entries(sources[0], k);
                    }
                    assert(merged_at(sources, k) =~= merged_at(sources.drop_first(), k));
                }
            },
        }
    }
}

/// A record list that does not bind `k` contributes nothing at `k`.
pub proof fn lemma_no_key_no_entries(records: Seq<RecordView>, k: Seq<char>)
    requires
        !has_key(records, k),
    ensures
        entries_at(records, k) == Seq::<EntryView>::empty(),
    decreases records.len(),
{
    if records.len() == 0 {
        assert(entries_at(records, k) =~= Seq::<EntryView>::empty());
    } else {
        assert(records[0].headword != k);
        assert(!has_key(records.drop_first(), k)) by {
            if has_key(records.drop_first(), k) {
                let i = choose|i: int|
                    0 <= i < records.drop_first().len() && records.drop_first()[i].headword == k;
                assert(records[i + 1].headword == k);
            }
        }
        lemma_no_key_no_entries(records.drop_first(), k);
        assert(entries_at(records, k) =~= Seq::<EntryView>::empty());
    }
}

/// The merged store binds `k` exactly when some source does, to the
/// concatenation, in source order, of every source's entries for `k`.
pub proof fn lemma_merge_lookup(sources: Seq<Seq<RecordView>>, k: Seq<char>)
    ensures
        assoc_lookup(assoc_merge(sources), k) == if any_has_key(sources, k) {
            Some(merged_at(sources, k))
        } else {
            None
        },
{
    lemma_merge_from_lookup(Seq::empty(), sources, k);
}

/// The merged store is well-formed.
pub proof fn lemma_merge_wf(sources: Seq<Seq<RecordView>>)
    ensures
        assoc_wf(assoc_merge(sources)),
{
    lemma_merge_from_wf(Seq::empty(), sources);
}

proof fn lemma_merge_from_wf(a: Seq<RecordView>, sources: Seq<Seq<RecordView>>)
    requires
        assoc_wf(a),
    ensures
        assoc_wf(assoc_merge_from(a, sources)),
    decreases sources.len(),
{
    if sources.len() == 0 {
    } else {
        lemma_add_all_wf(a, sources[0]);
        lemma_merge_from_wf(assoc_add_all(a, sources[0]), sources.drop_first());
    }
}

/// A dictionary source that fails to load contributes no records, and
/// removing it changes nothing at any headword: every entry contributed by
/// the other sources is still there, in the same order.
pub proof fn lemma_failed_source_preserves_others(
    sources: Seq<Seq<RecordView>>,
    i: int,
    k: Seq<char>,
)
    requires
        0 <= i < sources.len(),
        sources[i] == Seq::<RecordView>::empty(),
    ensures
        merged_at(sources, k) == merged_at(sources.remove(i), k),
        any_has_key(sources, k) == any_has_key(sources.remove(i), k),
    decreases sources.len(),
{
    if i == 0 {
        assert(entries_at(sources[0], k) =~= Seq::<EntryView>::empty());
        assert(sources.remove(0) =~~= sources.drop_first());
        assert(merged_at(sources, k) =~= merged_at(sources.drop_first(), k));
        assert(!has_key(sources[0], k));
    } else {
        lemma_failed_source_preserves_others(sources.drop_first(), i - 1, k);
        assert(sources.remove(i).drop_first() =~~= sources.drop_first().remove(i - 1));
        assert(sources.remove(i)[0] == sources[0]);
        assert(merged_at(sources.remove(i), k) == entries_at(sources[0], k) + merged_at(
            sources.drop_first().remove(i - 1),
            k,
        ));
    }
}

/// One loaded dictionary source: its parsed records, or nothing when the
/// source failed to load.
pub enum LoadOutcome {
    Loaded(Vec<(String, Vec<Entry>)>),
    Failed,
}

/// The records a load outcome contributes: a failed source contributes
/// none.
pub open spec fn outcome_records(o: LoadOutcome) -> Seq<RecordView> {
    match o {
        LoadOutcome::Loaded(rs) => records_view(rs@),
        LoadOutcome::Failed => Seq::empty(),
    }
}

/// The record lists of a sequence of load outcomes.
pub open spec fn outcomes_view(os: Seq<LoadOutcome>) -> Seq<Seq<RecordView>> {
    os.map_values(|o: LoadOutcome| outcome_records(o))
}

/// The store: an ordered association from headword to entries, with no
/// headword bound twice.
pub struct DictStore {
    entries: Vec<(String, Vec<Entry>)>,
}

impl DictStore {
    /// The association list this store holds.
    pub closed spec fn assoc(self) -> Seq<RecordView> {
        records_view(self.entries@)
    }

    /// No headword is bound twice.
    pub open spec fn wf(self) -> bool {
        assoc_wf(self.assoc())
    }

    /// The entries bound to a headword.
    pub open spec fn lookup_spec(self, k: Seq<char>) -> Option<Seq<EntryView>> {
        assoc_lookup(self.assoc(), k)
    }

    /// An empty store.
    pub fn new() -> (r: DictStore)
        ensures
            r.wf(),
            r.assoc() == Seq::<RecordView>::empty(),
    {
        let r = DictStore { entries: Vec::new() };
        proof {
            assert(r.assoc() =~~= Seq::<RecordView>::empty());
        }
        r
    }

    /// How many headwords are bound.
    pub fn len(&self) -> (r: usize)
        ensures
            r == self.assoc().len(),
    {
        self.entries.len()
    }

    /// Merge one record: append its entries to the existing binding of the
    /// same headword, or bind it afresh at the end.
    pub fn add_record(&mut self, headword: String, entries: Vec<Entry>)
        ensures
            final(self).assoc() == assoc_add(
                old(self).assoc(),
                RecordView { headword: headword@, entries: entries.deep_view() },
            ),
    {
        let ghost a = self.assoc();
        let ghost r = RecordView { headword: headword@, entries: entries.deep_view() };
        let ghost entries_seq = entries@;
        let n = self.entries.len();
        let mut found: Option<usize> = None;
        let mut i: usize = 0;
        while i < n && found.is_none()
            invariant
                n == self.entries@.len(),
                0 <= i <= n,
                a == records_view(self.entries@),
                match found {
                    Some(f) => 0 <= f < n && a[f as int].headword == headword@ && forall|j: int|
                        0 <= j < f ==> a[j].headword != headword@,
                    None => forall|j: int| 0 <= j < i ==> a[j].headword != headword@,
                },
            decreases n - i, (if found is None { 1int } else { 0int }),
        {
            proof {
                assert(a.len() == self.entries@.len());
                assert(a[i as int] == record_view(self.entries@[i as int]));
            }
            if str_eq(self.entries[i].0.as_str(), headword.as_str()) {
                proof {
                    assert(a[i as int].headword == headword@);
                }
                found = Some(i);
            } else {
                i += 1;
            }
        }
        proof {
            assert(a.len() == self.entries@.len());
        }
        match found {
            Some(f) => {
                let ghost before = self.entries@;
                let mut moved = entries;
                let rec = self.entries.remove(f);
                let (rec_head, mut rec_list) = rec;
                rec_list.append(&mut moved);
                let rec_new = (rec_head, rec_list);
                self.entries.insert(f, rec_new);
                proof {
                    assert(a[f as int].headword == r.headword);
                    lemma_add_at_first_match(a, r, f as int);
                    lemma_remove_insert_is_update(before, f as int, rec_new);
                    assert(rec_new.0@ == before[f as int].0@);
                    assert(rec_new.1@ == before[f as int].1@ + entries_seq);
                    assert(rec_new.1.deep_view() =~~= before[f as int].1.deep_view() + r.entries);
                    assert(record_view(rec_new) =~~= RecordView {
                        headword: a[f as int].headword,
                        entries: a[f as int].entries + r.entries,
                    });
                    assert(records_view(self.entries@) =~~= a.update(
                        f as int,
                        RecordView {
                            headword: a[f as int].headword,
                            entries: a[f as int].entries + r.entries,
                        },
                    ));
                }
            },
            None => {
                self.entries.push((headword, entries));
                proof {
                    lemma_add_no_match(a, r);
                    assert(records_view(self.entries@) =~~= a.push(r));
                }
            },
        }
    }

    /// Look a headword up; the result is exactly the stored binding.
    pub fn lookup(&self, k: &str) -> (r: Option<&Vec<Entry>>)
        ensures
            match r {
                Some(es) => self.lookup_spec(k@) == Some(es.deep_view()),
                None => self.lookup_spec(k@) is None,
            },
    {
        let ghost a = self.assoc();
        let n = self.entries.len();
        let mut i: usize = 0;
        while i < n
            invariant
                n == self.entries@.len(),
                0 <= i <= n,
                a == records_view(self.entries@),
                forall|j: int| 0 <= j < i ==> a[j].headword != k@,
            decreases n - i,
        {
            proof {
                assert(a.len() == self.entries@.len());
                assert(a[i as int] == record_view(self.entries@[i as int]));
            }
            if str_eq(self.entries[i].0.as_str(), k) {
                proof {
                    lemma_lookup_at_first_match(a, k@, i as int);
                }
                return Some(&self.entries[i].1);
            }
            i += 1;
        }
        proof {
            lemma_lookup_no_match(a, k@);
        }
        None
    }

    /// Build a store from the outcome of loading every configured source,
    /// in order.  A failed source contributes nothing; see
    /// [`lemma_failed_source_preserves_others`] for what that means for
    /// the other sources, and [`lemma_merge_lookup`] for what the merge
    /// binds to each headword.
    pub fn build(sources: Vec<LoadOutcome>) -> (r: DictStore)
        ensures
            r.wf(),
            r.assoc() == assoc_merge(outcomes_view(sources@)),
    {
        let ghost target = assoc_merge(outcomes_view(sources@));
        let mut store = DictStore::new();
        let mut rest = sources;
        proof {
            assert(store.assoc() =~~= Seq::<RecordView>::empty());
        }
        while rest.len() > 0
            invariant
                assoc_merge_from(store.assoc(), outcomes_view(rest@)) == target,
            decreases rest@.len(),
        {
            let ghost pre = store.assoc();
            let ghost rest0 = rest@;
            let source = rest.remove(0);
            proof {
                assert(rest@ =~= rest0.drop_first());
                assert(outcomes_view(rest0).drop_first() =~~= outcomes_view(rest@));
                assert(outcomes_view(rest0)[0] == outcome_records(rest0[0]));
            }
            match source {
                LoadOutcome::Loaded(records) => {
                    let ghost recs = records_view(records@);
                    let mut rem = records;
                    while rem.len() > 0
                        invariant
                            assoc_add_all(store.assoc(), records_view(rem@)) == assoc_add_all(
                                pre,
                                recs,
                            ),
                        decreases rem@.len(),
                    {
                        let ghost rem0 = rem@;
                        let rec = rem.remove(0);
                        proof {
                            assert(rem@ =~= rem0.drop_first());
                            assert(records_view(rem0).drop_first() =~~= records_view(rem@));
                            assert(records_view(rem0)[0] == record_view(rem0[0]));
                        }
                        store.add_record(rec.0, rec.1);
                    }
                    proof {
                        assert(records_view(rem@) =~~= Seq::<RecordView>::empty());
                        assert(store.assoc() == assoc_add_all(pre, recs));
                        assert(assoc_add_all(pre, outcome_records(rest0[0])) == store.assoc());
                    }
                },
                LoadOutcome::Failed => {
                    proof {
                        assert(assoc_add_all(pre, outcome_records(rest0[0])) == store.assoc());
                    }
                },
            }
        }
        proof {
            assert(outcomes_view(rest@) =~~= Seq::<Seq<RecordView>>::empty());
            lemma_merge_wf(outcomes_view(sources@));
        }
        store
    }
}

/// Removing an element and inserting another at the same index is an
/// update in place.
proof fn lemma_remove_insert_is_update<T>(s: Seq<T>, i: int, x: T)
    requires
        0 <= i < s.len(),
    ensures
        s.remove(i).insert(i, x) =~= s.update(i, x),
{
    let t = s.remove(i).insert(i, x);
    s.remove_ensures(i);
    s.remove(i).insert_ensures(i, x);
    assert(t.len() == s.len());
    assert forall|j: int| 0 <= j < t.len() implies t[j] == s.update(i, x)[j] by {
        if j < i {
            assert(t[j] == s.remove(i)[j]);
            assert(s.remove(i)[j] == s[j]);
        } else if j == i {
            assert(t[i] == x);
        } else {
            assert(t[j] == s.remove(i)[j - 1]) by {
                assert(t == s.remove(i).subrange(0, i).push(x) + s.remove(i).subrange(
                    i,
                    s.remove(i).len() as int,
                ));
            }
            assert(s.remove(i)[j - 1] == s[j]);
        }
    }
}

/// Merging at the first matching index updates that binding in place.
proof fn lemma_add_at_first_match(a: Seq<RecordView>, r: RecordView, i: int)
    requires
        0 <= i < a.len(),
        a[i].headword == r.headword,
        forall|j: int| 0 <= j < i ==> a[j].headword != r.headword,
    ensures
        assoc_add(a, r) =~~= a.update(
            i,
            RecordView { headword: a[i].headword, entries: a[i].entries + r.entries },
        ),
    decreases a.len(),
{
    if i == 0 {
        assert(assoc_add(a, r) =~~= a.update(
            0,
            RecordView { headword: a[0].headword, entries: a[0].entries + r.entries },
        ));
    } else {
        lemma_add_at_first_match(a.drop_first(), r, i - 1);
        assert(seq![a[0]] + a.drop_first().update(
            i - 1,
            RecordView { headword: a[i].headword, entries: a[i].entries + r.entries },
        ) =~~= a.update(i, RecordView { headword: a[i].headword, entries: a[i].entries + r.entries }));
    }
}

/// Merging a headword bound nowhere appends a new binding.
proof fn lemma_add_no_match(a: Seq<RecordView>, r: RecordView)
    requires
        forall|j: int| 0 <= j < a.len() ==> a[j].headword != r.headword,
    ensures
        assoc_add(a, r) =~~= a.push(r),
    decreases a.len(),
{
    if a.len() == 0 {
        assert(assoc_add(a, r) =~~= a.push(r));
    } else {
        lemma_add_no_match(a.drop_first(), r);
        assert(seq![a[0]] + a.drop_first().push(r) =~~= a.push(r));
    }
}

/// Looking up stops at the first match.
proof fn lemma_lookup_at_first_match(a: Seq<RecordView>, k: Seq<char>, i: int)
    requires
        0 <= i < a.len(),
        a[i].headword == k,
        forall|j: int| 0 <= j < i ==> a[j].headword != k,
    ensures
        assoc_lookup(a, k) == Some(a[i].entries),
    decreases i,
{
    if i == 0 {
    } else {
        lemma_lookup_at_first_match(a.drop_first(), k, i - 1);
    }
}

/// Looking a headword up that is bound nowhere yields nothing.
proof fn lemma_lookup_no_match(a: Seq<RecordView>, k: Seq<char>)
    requires
        forall|j: int| 0 <= j < a.len() ==> a[j].headword != k,
    ensures
        assoc_lookup(a, k) is None,
    decreases a.len(),
{
    if a.len() == 0 {
    } else {
        lemma_lookup_no_match(a.drop_first(), k);
    }
}

} // verus!
