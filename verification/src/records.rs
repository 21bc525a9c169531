//! Structured diagnostic records and identity-keyed sets of them.
//!
//! A diagnostic's identity is `(file, line, column, code)`; two records with
//! the same identity are the same diagnostic, and at most one survives in a
//! set (the later insertion wins for the body).

use vstd::prelude::*;

verus! {

#[derive(Clone, Copy, PartialEq, Eq, Structural, Debug)]
pub enum Severity {
    Warning,
    Error,
}

/// The identity of one diagnostic.
#[derive(Clone, PartialEq, Eq, Hash, Debug)]
pub struct LineNotice {
    pub file: String,
    pub line_number: u32,
    pub column_number: u32,
    pub code: String,
}

/// The mathematical value of a diagnostic record.
#[verifier::ext_equal]
pub ghost struct SpecRecord {
    pub file: Seq<char>,
    pub line_number: u32,
    pub column_number: u32,
    pub code: Seq<char>,
    pub severity: Severity,
    pub body: Seq<char>,
}

impl SpecRecord {
    /// The identity fields alone.
    pub open spec fn key(self) -> (Seq<char>, u32, u32, Seq<char>) {
        (self.file, self.line_number, self.column_number, self.code)
    }
}

impl LineNotice {
    pub open spec fn key(self) -> (Seq<char>, u32, u32, Seq<char>) {
        (self.file@, self.line_number, self.column_number, self.code@)
    }
}

/// One extracted diagnostic: identity, severity and the verbatim block body.
#[derive(Clone, Debug)]
pub struct DiagnosticRecord {
    pub notice: LineNotice,
    pub severity: Severity,
    pub body: String,
}

impl View for DiagnosticRecord {
    type V = SpecRecord;

    open spec fn view(&self) -> SpecRecord {
        SpecRecord {
            file: self.notice.file@,
            line_number: self.notice.line_number,
            column_number: self.notice.column_number,
            code: self.notice.code@,
            severity: self.severity,
            body: self.body@,
        }
    }
}

/// Do `a` and `b` name the same diagnostic?
pub fn same_identity(a: &LineNotice, b: &LineNotice) -> (r: bool)
    ensures
        r == (a.key() == b.key()),
{
    let files_eq: bool = a.file.eq(&b.file);
    files_eq && a.line_number == b.line_number && a.column_number == b.column_number
        && a.code.eq(&b.code)
}

/// The map that a record sequence folds into when records of severity `sev`
/// are inserted in order, keyed by identity: the later record wins.
pub open spec fn sev_map(
    recs: Seq<SpecRecord>,
    sev: Severity,
) -> Map<(Seq<char>, u32, u32, Seq<char>), SpecRecord>
    decreases recs.len(),
{
    if recs.len() == 0 {
        Map::empty()
    } else {
        let m = sev_map(recs.drop_last(), sev);
        if recs.last().severity == sev {
            m.insert(recs.last().key(), recs.last())
        } else {
            m
        }
    }
}

/// No two records of the sequence share an identity.
pub open spec fn distinct_keys(recs: Seq<SpecRecord>) -> bool {
    forall|i: int, j: int|
        0 <= i < j < recs.len() ==> (#[trigger] recs[i]).key() != (#[trigger] recs[j]).key()
}

pub proof fn lemma_sev_map_props(recs: Seq<SpecRecord>, sev: Severity)
    requires
        distinct_keys(recs),
    ensures
        forall|k: int|
            0 <= k < recs.len() && (#[trigger] recs[k]).severity == sev ==> sev_map(
                recs,
                sev,
            ).contains_key(recs[k].key()) && sev_map(recs, sev)[recs[k].key()] == recs[k],
        forall|key: (Seq<char>, u32, u32, Seq<char>)|
            sev_map(recs, sev).contains_key(key) ==> exists|k: int|
                0 <= k < recs.len() && (#[trigger] recs[k]).key() == key && recs[k].severity
                    == sev,
    decreases recs.len(),
{
    if recs.len() > 0 {
        let pre = recs.drop_last();
        assert(distinct_keys(pre)) by {
            assert forall|i: int, j: int| 0 <= i < j < pre.len() implies (#[trigger] pre[i]).key()
                != (#[trigger] pre[j]).key() by {
                assert(pre[i] == recs[i]);
                assert(pre[j] == recs[j]);
            }
        }
        lemma_sev_map_props(pre, sev);
        assert forall|k: int|
            0 <= k < recs.len() && (#[trigger] recs[k]).severity == sev implies sev_map(
            recs,
            sev,
        ).contains_key(recs[k].key()) && sev_map(recs, sev)[recs[k].key()] == recs[k] by {
            if k < recs.len() - 1 {
                assert(pre[k] == recs[k]);
                if recs.last().severity == sev {
                    assert(recs[k].key() != recs.last().key());
                }
            }
        }
        assert forall|key: (Seq<char>, u32, u32, Seq<char>)|
            sev_map(recs, sev).contains_key(key) implies exists|k: int|
            0 <= k < recs.len() && (#[trigger] recs[k]).key() == key && recs[k].severity
                == sev by {
            if recs.last().severity == sev && key == recs.last().key() {
                assert(recs[recs.len() - 1].key() == key);
            } else {
                assert(sev_map(pre, sev).contains_key(key));
                let k = choose|k: int|
                    0 <= k < pre.len() && (#[trigger] pre[k]).key() == key && pre[k].severity
                        == sev;
                assert(recs[k] == pre[k]);
            }
        }
    }
}

/// Order independence: shuffling a sequence of diagnostics with pairwise
/// distinct identities yields the same identity-keyed map.
pub proof fn lemma_order_independence(r1: Seq<SpecRecord>, r2: Seq<SpecRecord>, sev: Severity)
    requires
        r1.to_multiset() == r2.to_multiset(),
        distinct_keys(r1),
    ensures
        distinct_keys(r2),
        sev_map(r1, sev) == sev_map(r2, sev),
{
    broadcast use vstd::seq_lib::group_to_multiset_ensures;

    assert forall|rec: SpecRecord| r1.contains(rec) <==> r2.contains(rec) by {
        assert(r1.contains(rec) <==> r1.to_multiset().count(rec) > 0);
        assert(r2.contains(rec) <==> r2.to_multiset().count(rec) > 0);
    }
    assert(r1.no_duplicates()) by {
        assert forall|i: int, j: int|
            0 <= i < r1.len() && 0 <= j < r1.len() && i != j implies r1[i] != r1[j] by {
            if r1[i] == r1[j] {
                if i < j {
                    assert(r1[i].key() != r1[j].key());
                } else {
                    assert(r1[j].key() != r1[i].key());
                }
            }
        }
    }
    r1.lemma_multiset_has_no_duplicates();
    r2.lemma_multiset_has_no_duplicates_conv();
    assert(distinct_keys(r2)) by {
        assert forall|i: int, j: int| 0 <= i < j < r2.len() implies (#[trigger] r2[i]).key() != (
        #[trigger] r2[j]).key() by {
            if r2[i].key() == r2[j].key() {
                assert(r2[i] != r2[j]);
                assert(r2.contains(r2[i]));
                assert(r2.contains(r2[j]));
                assert(r1.contains(r2[i]));
                assert(r1.contains(r2[j]));
                let k1 = choose|k1: int| 0 <= k1 < r1.len() && r1[k1] == r2[i];
                let k2 = choose|k2: int| 0 <= k2 < r1.len() && r1[k2] == r2[j];
                assert(k1 != k2);
                if k1 < k2 {
                    assert(r1[k1].key() != r1[k2].key());
                } else {
                    assert(r1[k2].key() != r1[k1].key());
                }
            }
        }
    }
    lemma_same_members_same_map(r1, r2, sev);
}

/// Two distinct-identity sequences with the same members fold into the same
/// map, whatever their orders.
proof fn lemma_same_members_same_map(r1: Seq<SpecRecord>, r2: Seq<SpecRecord>, sev: Severity)
    requires
        distinct_keys(r1),
        distinct_keys(r2),
        forall|rec: SpecRecord| r1.contains(rec) <==> r2.contains(rec),
    ensures
        sev_map(r1, sev) == sev_map(r2, sev),
{
    lemma_sev_map_props(r1, sev);
    lemma_sev_map_props(r2, sev);
    let m1 = sev_map(r1, sev);
    let m2 = sev_map(r2, sev);
    assert forall|key: (Seq<char>, u32, u32, Seq<char>)| m1.contains_key(key)
        implies m2.contains_key(key) && m1[key] == m2[key] by {
        let k = choose|k: int|
            0 <= k < r1.len() && (#[trigger] r1[k]).key() == key && r1[k].severity == sev;
        assert(r1.contains(r1[k]));
        assert(r2.contains(r1[k]));
        let k2 = choose|k2: int| 0 <= k2 < r2.len() && r2[k2] == r1[k];
        assert(m2.contains_key(key) && m2[key] == r2[k2]);
        assert(m1[key] == r1[k]);
    }
    assert forall|key: (Seq<char>, u32, u32, Seq<char>)| m2.contains_key(key)
        implies m1.contains_key(key) by {
        let k = choose|k: int|
            0 <= k < r2.len() && (#[trigger] r2[k]).key() == key && r2[k].severity == sev;
        assert(r2.contains(r2[k]));
        assert(r1.contains(r2[k]));
        let k1 = choose|k1: int| 0 <= k1 < r1.len() && r1[k1] == r2[k];
        assert(m1.contains_key(key));
    }
    assert(m1 =~= m2);
}

/// An identity-keyed collection of diagnostic records.
#[derive(Debug)]
pub struct DiagnosticSet {
    pub items: Vec<DiagnosticRecord>,
}

impl DiagnosticSet {
    /// The record sequence, as mathematical values, in insertion order.
    pub open spec fn records(self) -> Seq<SpecRecord> {
        self.items@.map_values(|r: DiagnosticRecord| r@)
    }

    /// At most one record per identity.
    pub open spec fn wf(self) -> bool {
        distinct_keys(self.records())
    }

    /// The identity-keyed contents.
    pub open spec fn as_map(self) -> Map<(Seq<char>, u32, u32, Seq<char>), SpecRecord> {
        sev_map_all(self.records())
    }

    pub fn new() -> (s: Self)
        ensures
            s.wf(),
            s.as_map() == Map::<(Seq<char>, u32, u32, Seq<char>), SpecRecord>::empty(),
            s.records() == Seq::<SpecRecord>::empty(),
    {
        let s = DiagnosticSet { items: Vec::new() };
        proof {
            assert(s.records() =~= Seq::<SpecRecord>::empty());
        }
        s
    }

    pub fn len(&self) -> (n: usize)
        ensures
            n == self.records().len(),
    {
        self.items.len()
    }

    pub fn get(&self, i: usize) -> (r: &DiagnosticRecord)
        requires
            i < self.records().len(),
        ensures
            r@ == self.records()[i as int],
    {
        &self.items[i]
    }

    /// Insert `rec`, replacing any record of the same identity: the newcomer
    /// wins.
    #[verifier::loop_isolation(false)]
    pub fn insert(&mut self, rec: DiagnosticRecord)
        requires
            old(self).wf(),
        ensures
            final(self).wf(),
            final(self).as_map() == old(self).as_map().insert(rec@.key(), rec@),
    {
        let n: usize = self.items.len();
        let mut i: usize = 0;
        while i < n
            invariant
                0 <= i <= n,
                n == self.items@.len(),
                *self == *old(self),
                forall|j: int| 0 <= j < i ==> self.records()[j].key() != rec@.key(),
            decreases n - i,
        {
            if same_identity(&self.items[i].notice, &rec.notice) {
                proof {
                    assert(self.records()[i as int].key() == rec@.key());
                }
                let ghost pre = self.records();
                self.items.set(i, rec);
                proof {
                    assert(self.records() =~= pre.update(i as int, rec@));
                    lemma_replace_same_key(pre, self.records(), i as int, rec@);
                }
                return ;
            }
            i = i + 1;
        }
        let ghost pre = self.records();
        self.items.push(rec);
        proof {
            assert(self.records() =~= pre.push(rec@));
            assert(self.records().drop_last() =~= pre);
            assert forall|a: int, b: int| 0 <= a < b < self.records().len() implies (
            #[trigger] self.records()[a]).key() != (#[trigger] self.records()[b]).key() by {
                if b < self.records().len() - 1 {
                    assert(self.records()[a] == pre[a]);
                    assert(self.records()[b] == pre[b]);
                } else {
                    assert(self.records()[a] == pre[a]);
                    assert(self.records()[b] == rec@);
                }
            }
        }
    }
}

/// A field-by-field copy of a record, with its value known.
pub fn clone_record(r: &DiagnosticRecord) -> (c: DiagnosticRecord)
    ensures
        c@ == r@,
{
    DiagnosticRecord {
        notice: LineNotice {
            file: r.notice.file.clone(),
            line_number: r.notice.line_number,
            column_number: r.notice.column_number,
            code: r.notice.code.clone(),
        },
        severity: r.severity,
        body: r.body.clone(),
    }
}

/// `sev_map` without the severity filter: every record is inserted.
pub open spec fn sev_map_all(
    recs: Seq<SpecRecord>,
) -> Map<(Seq<char>, u32, u32, Seq<char>), SpecRecord>
    decreases recs.len(),
{
    if recs.len() == 0 {
        Map::empty()
    } else {
        sev_map_all(recs.drop_last()).insert(recs.last().key(), recs.last())
    }
}

proof fn lemma_replace_same_key(pre: Seq<SpecRecord>, post: Seq<SpecRecord>, i: int, rec: SpecRecord)
    requires
        distinct_keys(pre),
        0 <= i < pre.len(),
        pre[i].key() == rec.key(),
        post == pre.update(i, rec),
    ensures
        distinct_keys(post),
        sev_map_all(post) == sev_map_all(pre).insert(rec.key(), rec),
    decreases pre.len(),
{
    assert(distinct_keys(post)) by {
        assert forall|a: int, b: int| 0 <= a < b < post.len() implies (#[trigger] post[a]).key()
            != (#[trigger] post[b]).key() by {
            if a != i && b != i {
                assert(post[a] == pre[a]);
                assert(post[b] == pre[b]);
            } else if a == i {
                assert(post[b] == pre[b]);
                assert(pre[i].key() != pre[b].key());
            } else {
                assert(post[a] == pre[a]);
                assert(pre[a].key() != pre[i].key());
            }
        }
    }
    if i == pre.len() - 1 {
        assert(post.drop_last() =~= pre.drop_last());
        assert(post.last() == rec);
        assert(sev_map_all(post) == sev_map_all(pre.drop_last()).insert(rec.key(), rec));
        assert(sev_map_all(pre) == sev_map_all(pre.drop_last()).insert(pre[i].key(), pre[i]));
        assert(sev_map_all(pre).insert(rec.key(), rec) =~= sev_map_all(pre.drop_last()).insert(
            rec.key(),
            rec,
        ));
    } else {
        let pre2 = pre.drop_last();
        let post2 = post.drop_last();
        assert(distinct_keys(pre2)) by {
            assert forall|a: int, b: int| 0 <= a < b < pre2.len() implies (#[trigger] pre2[a]).key()
                != (#[trigger] pre2[b]).key() by {
                assert(pre2[a] == pre[a]);
                assert(pre2[b] == pre[b]);
            }
        }
        assert(post2 =~= pre2.update(i, rec));
        lemma_replace_same_key(pre2, post2, i, rec);
        assert(post.last() == pre.last());
        assert(sev_map_all(post) == sev_map_all(post2).insert(pre.last().key(), pre.last()));
        assert(pre.last().key() != rec.key()) by {
            assert(pre[i].key() != pre[pre.len() - 1].key());
        }
        assert(sev_map_all(pre2).insert(rec.key(), rec).insert(pre.last().key(), pre.last())
            =~= sev_map_all(pre2).insert(pre.last().key(), pre.last()).insert(rec.key(), rec));
    }
}

impl DiagnosticSet {
    /// Merge `other` into `self`: on an identity held by both, `other`'s
    /// record wins.
    #[verifier::loop_isolation(false)]
    pub fn extend_with(&mut self, other: &DiagnosticSet)
        requires
            old(self).wf(),
            other.wf(),
        ensures
            final(self).wf(),
            final(self).as_map() == old(self).as_map().union_prefer_right(other.as_map()),
    {
        let n: usize = other.items.len();
        let mut i: usize = 0;
        proof {
            assert(other.records().subrange(0, 0) =~= Seq::<SpecRecord>::empty());
            assert(self.as_map().union_prefer_right(
                sev_map_all(other.records().subrange(0, 0)),
            ) =~= self.as_map());
        }
        while i < n
            invariant
                0 <= i <= n,
                n == other.records().len(),
                self.wf(),
                self.as_map() == old(self).as_map().union_prefer_right(
                    sev_map_all(other.records().subrange(0, i as int)),
                ),
            decreases n - i,
        {
            let rec = clone_record(&other.items[i]);
            proof {
                assert(rec@ == other.records()[i as int]);
            }
            let ghost pre_map = self.as_map();
            self.insert(rec);
            proof {
                let prefix = other.records().subrange(0, i as int);
                let prefix2 = other.records().subrange(0, i + 1);
                assert(prefix2.drop_last() =~= prefix);
                assert(prefix2.last() == rec@);
                assert(sev_map_all(prefix2) == sev_map_all(prefix).insert(rec@.key(), rec@));
                assert(old(self).as_map().union_prefer_right(sev_map_all(prefix)).insert(
                    rec@.key(),
                    rec@,
                ) =~= old(self).as_map().union_prefer_right(sev_map_all(prefix2)));
            }
            i = i + 1;
        }
        proof {
            assert(other.records().subrange(0, n as int) =~= other.records());
        }
    }
}

/// In a well-formed diagnostic set, two entries that share an identity are one
/// and the same: each identity survives at most once.
pub proof fn lemma_identity_dedup(s: DiagnosticSet, i: int, j: int)
    requires
        s.wf(),
        0 <= i < s.records().len(),
        0 <= j < s.records().len(),
        s.records()[i].key() == s.records()[j].key(),
    ensures
        i == j,
{
}

} // verus!
