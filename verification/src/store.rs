//! What is persisted: one record per probe kind and target identity, and the
//! rule by which a second write for the same key is merged into the first.

use crate::fqdn::{dotted, Fqdn};
use crate::text::{distinct, holds_text, lemma_distinct, lemma_distinct_push, lemma_texts_push, texts};
use vstd::prelude::*;

verus! {

/// The kinds of probe, one table of records each.
#[derive(Debug, Clone, Copy, PartialEq, Eq, Structural)]
pub enum ProbeKind {
    CertSearch,
    DnsResolve,
    Http,
    Https,
}

/// What a record holds besides its key and owning domain.
#[derive(Debug, Clone)]
pub enum RecordPayload {
    /// Nothing: the record's identity is all there is to know.
    Bare,
    /// The addresses a name resolved to.
    Addresses(Vec<String>),
    /// What an HTTP endpoint answered: the URL asked, the status (0 where
    /// there was no answer) and the headers as JSON.
    Response { url: String, status: u16, headers: String },
}

/// One persisted row.
#[derive(Debug, Clone)]
pub struct StoreRecord {
    pub kind: ProbeKind,
    pub identity: String,
    pub domain: String,
    pub payload: RecordPayload,
}

/// The key under which a result is looked up and written.
#[derive(Debug, Clone)]
pub struct DedupKey {
    pub kind: ProbeKind,
    pub identity: String,
}

/// For which kinds of probe the store holds a record of a target.
#[derive(Debug, Clone, Copy, PartialEq, Eq, Structural)]
pub struct KnownKinds {
    pub cert: bool,
    pub dns: bool,
    pub http: bool,
    pub https: bool,
}

/// A payload as plain values.
pub ghost enum PayloadView {
    Bare,
    Addresses(Seq<Seq<char>>),
    Response { url: Seq<char>, status: u16, headers: Seq<char> },
}

/// A record as plain values.
pub ghost struct RecordView {
    pub kind: ProbeKind,
    pub identity: Seq<char>,
    pub domain: Seq<char>,
    pub payload: PayloadView,
}

impl View for RecordPayload {
    type V = PayloadView;

    open spec fn view(&self) -> PayloadView {
        match self {
            RecordPayload::Bare => PayloadView::Bare,
            RecordPayload::Addresses(list) => PayloadView::Addresses(texts(list@)),
            RecordPayload::Response { url, status, headers } => PayloadView::Response {
                url: url@,
                status: *status,
                headers: headers@,
            },
        }
    }
}

impl View for StoreRecord {
    type V = RecordView;

    open spec fn view(&self) -> RecordView {
        RecordView {
            kind: self.kind,
            identity: self.identity@,
            domain: self.domain@,
            payload: self.payload@,
        }
    }
}

impl View for DedupKey {
    type V = (ProbeKind, Seq<char>);

    open spec fn view(&self) -> (ProbeKind, Seq<char>) {
        (self.kind, self.identity@)
    }
}

impl RecordView {
    /// The key of the record.
    pub open spec fn key(self) -> (ProbeKind, Seq<char>) {
        (self.kind, self.identity)
    }

    /// The addresses the record holds; none where it holds another payload.
    pub open spec fn addresses(self) -> Seq<Seq<char>> {
        match self.payload {
            PayloadView::Addresses(list) => list,
            _ => Seq::empty(),
        }
    }
}

impl KnownKinds {
    /// Whether a record of the kind is known.
    pub open spec fn holds(self, kind: ProbeKind) -> bool {
        match kind {
            ProbeKind::CertSearch => self.cert,
            ProbeKind::DnsResolve => self.dns,
            ProbeKind::Http => self.http,
            ProbeKind::Https => self.https,
        }
    }

    /// Nothing is known.
    pub fn none() -> (known: KnownKinds)
        ensures
            forall|kind: ProbeKind| !known.holds(kind),
    {
        KnownKinds { cert: false, dns: false, http: false, https: false }
    }

    /// What the store's answer to "is there a record of this name" tells: a
    /// name is known where the answer is yes, and unknown where the answer
    /// is no, is missing or could not be had.
    pub fn from_exists(exists: Option<bool>) -> (known: KnownKinds)
        ensures
            known.dns == (exists == Some(true)),
            !known.cert && !known.http && !known.https,
    {
        let dns = match exists {
            Some(found) => found,
            None => false,
        };
        KnownKinds { cert: false, dns, http: false, https: false }
    }

    /// What the store's row counts for the two HTTP tables tell: a host is
    /// known to a table where the count is not zero, and unknown where the
    /// count is zero, is missing or could not be had.
    pub fn from_counts(http: Option<i64>, https: Option<i64>) -> (known: KnownKinds)
        ensures
            known.http == (http is Some && http != Some(0i64)),
            known.https == (https is Some && https != Some(0i64)),
            !known.cert && !known.dns,
    {
        let http_known = match http {
            Some(count) => count != 0,
            None => false,
        };
        let https_known = match https {
            Some(count) => count != 0,
            None => false,
        };
        KnownKinds { cert: false, dns: false, http: http_known, https: https_known }
    }

    /// Whether a record of the kind is known.
    pub fn knows(&self, kind: ProbeKind) -> (known: bool)
        ensures
            known == self.holds(kind),
    {
        match kind {
            ProbeKind::CertSearch => self.cert,
            ProbeKind::DnsResolve => self.dns,
            ProbeKind::Http => self.http,
            ProbeKind::Https => self.https,
        }
    }
}

/// The key under which the result of probing a name with `kind` is looked
/// up and written: the kind and the name as text.
pub open spec fn dedup_key(kind: ProbeKind, labels: Seq<Seq<char>>) -> (ProbeKind, Seq<char>) {
    (kind, dotted(labels))
}

/// What `rows` know of a name: for each kind, whether a row stands under
/// the name's key.
pub open spec fn known_in(rows: Seq<RecordView>, labels: Seq<Seq<char>>) -> KnownKinds {
    KnownKinds {
        cert: has_key(rows, dedup_key(ProbeKind::CertSearch, labels)),
        dns: has_key(rows, dedup_key(ProbeKind::DnsResolve, labels)),
        http: has_key(rows, dedup_key(ProbeKind::Http, labels)),
        https: has_key(rows, dedup_key(ProbeKind::Https, labels)),
    }
}

/// The row that stands after `incoming` was written onto `existing`, a row
/// of the same key. Addresses are united, those of the existing row first;
/// in every other case the first writer wins.
pub open spec fn merged(existing: RecordView, incoming: RecordView) -> RecordView {
    match (existing.payload, incoming.payload) {
        (PayloadView::Addresses(old), PayloadView::Addresses(new)) => RecordView {
            payload: PayloadView::Addresses(distinct(old + new)),
            ..existing
        },
        _ => existing,
    }
}

/// The position of the first row of `rows` with the key `key`, or the
/// number of rows where there is none.
pub open spec fn key_index(rows: Seq<RecordView>, key: (ProbeKind, Seq<char>)) -> int
    decreases rows.len(),
{
    if rows.len() == 0 || rows[0].key() == key {
        0
    } else {
        1 + key_index(rows.drop_first(), key)
    }
}

/// Whether a row of `rows` has the key `key`.
pub open spec fn has_key(rows: Seq<RecordView>, key: (ProbeKind, Seq<char>)) -> bool {
    key_index(rows, key) < rows.len()
}

/// The rows after a conflict-safe write of `record`: merged into the row of
/// its key where there is one, added as a new row where there is none.
pub open spec fn upserted(rows: Seq<RecordView>, record: RecordView) -> Seq<RecordView> {
    let at = key_index(rows, record.key());
    if at < rows.len() {
        rows.update(at, merged(rows[at], record))
    } else {
        rows.push(record)
    }
}

/// No two rows share a key.
pub open spec fn keys_unique(rows: Seq<RecordView>) -> bool {
    forall|a: int, b: int| 0 <= a < b < rows.len() ==> rows[a].key() != rows[b].key()
}

/// How many rows of `rows` have the key `key`.
pub open spec fn rows_with_key(rows: Seq<RecordView>, key: (ProbeKind, Seq<char>)) -> nat
    decreases rows.len(),
{
    if rows.len() == 0 {
        0
    } else {
        rows_with_key(rows.drop_last(), key) + if rows.last().key() == key {
            1nat
        } else {
            0nat
        }
    }
}

/// `key_index` points at a row of the key before which there is none.
pub proof fn lemma_key_index(rows: Seq<RecordView>, key: (ProbeKind, Seq<char>))
    ensures
        0 <= key_index(rows, key) <= rows.len(),
        key_index(rows, key) < rows.len() ==> rows[key_index(rows, key)].key() == key,
        forall|j: int| 0 <= j < key_index(rows, key) ==> (#[trigger] rows[j]).key() != key,
    decreases rows.len(),
{
    if rows.len() > 0 && rows[0].key() != key {
        let rest = rows.drop_first();
        lemma_key_index(rest, key);
        assert forall|j: int| 0 <= j < key_index(rows, key) implies (#[trigger] rows[j]).key()
            != key by {
            if j > 0 {
                assert(rest[j - 1] == rows[j]);
            }
        }
    }
}

/// A position before which no row has the key, and which holds such a row
/// or ends the rows, is the key's index.
pub proof fn lemma_key_index_at(rows: Seq<RecordView>, key: (ProbeKind, Seq<char>), at: int)
    requires
        0 <= at <= rows.len(),
        at < rows.len() ==> rows[at].key() == key,
        forall|j: int| 0 <= j < at ==> (#[trigger] rows[j]).key() != key,
    ensures
        key_index(rows, key) == at,
    decreases rows.len(),
{
    if at > 0 {
        let rest = rows.drop_first();
        assert(rows[0].key() != key);
        assert forall|j: int| 0 <= j < at - 1 implies (#[trigger] rest[j]).key() != key by {
            assert(rest[j] == rows[j + 1]);
        }
        lemma_key_index_at(rest, key, at - 1);
    }
}

/// After a write there is a row under the key written.
pub proof fn lemma_upsert_keeps_the_key(rows: Seq<RecordView>, record: RecordView)
    ensures
        has_key(upserted(rows, record), record.key()),
{
    let key = record.key();
    let after = upserted(rows, record);
    let at = key_index(rows, key);
    lemma_key_index(rows, key);
    lemma_key_index(after, key);
    if key_index(after, key) >= after.len() {
        assert(after[at].key() == key);
    }
}

/// Among rows with unique keys, a key has one row or none.
pub proof fn lemma_rows_with_key(rows: Seq<RecordView>, key: (ProbeKind, Seq<char>))
    requires
        keys_unique(rows),
    ensures
        rows_with_key(rows, key) == if has_key(rows, key) {
            1nat
        } else {
            0nat
        },
    decreases rows.len(),
{
    lemma_key_index(rows, key);
    if rows.len() > 0 {
        let front = rows.drop_last();
        assert(keys_unique(front)) by {
            assert forall|a: int, b: int| 0 <= a < b < front.len() implies front[a].key()
                != front[b].key() by {
                assert(front[a] == rows[a] && front[b] == rows[b]);
            }
        }
        lemma_rows_with_key(front, key);
        lemma_key_index(front, key);
        let at = key_index(front, key);
        if at < front.len() {
            assert(front[at] == rows[at]);
            assert forall|j: int| 0 <= j < at implies (#[trigger] rows[j]).key() != key by {
                assert(front[j] == rows[j]);
            }
            lemma_key_index_at(rows, key, at);
            assert(rows.last().key() != key);
        } else {
            assert forall|j: int| 0 <= j < rows.len() - 1 implies (#[trigger] rows[j]).key()
                != key by {
                assert(front[j] == rows[j]);
            }
            lemma_key_index_at(
                rows,
                key,
                if rows.last().key() == key {
                    rows.len() - 1
                } else {
                    rows.len() as int
                },
            );
        }
    }
}

/// A write keeps the keys unique, leaves every other key's row as it was,
/// and leaves exactly one row under the key written.
pub proof fn lemma_upsert_is_idempotent_on_keys(rows: Seq<RecordView>, record: RecordView)
    requires
        keys_unique(rows),
    ensures
        keys_unique(upserted(rows, record)),
        has_key(upserted(rows, record), record.key()),
        rows_with_key(upserted(rows, record), record.key()) == 1,
        upserted(rows, record).len() == rows.len() + if has_key(rows, record.key()) {
            0int
        } else {
            1int
        },
        key_index(upserted(rows, record), record.key()) == key_index(rows, record.key()),
        forall|key: (ProbeKind, Seq<char>)|
            key != record.key() ==> #[trigger] has_key(upserted(rows, record), key) == has_key(
                rows,
                key,
            ) && (has_key(rows, key) ==> key_index(upserted(rows, record), key) == key_index(
                rows,
                key,
            )),
        forall|j: int|
            0 <= j < rows.len() && j != key_index(rows, record.key()) ==> upserted(
                rows,
                record,
            )[j] == rows[j],
{
    let key = record.key();
    let after = upserted(rows, record);
    let at = key_index(rows, key);
    lemma_key_index(rows, key);
    assert forall|j: int| 0 <= j < after.len() implies (#[trigger] after[j]).key() == if j
        < rows.len() {
        rows[j].key()
    } else {
        key
    } by {}
    assert(keys_unique(after)) by {
        assert forall|a: int, b: int| 0 <= a < b < after.len() implies after[a].key()
            != after[b].key() by {
            if b < rows.len() {
                assert(rows[a].key() != rows[b].key());
            } else {
                assert(rows[a].key() != key);
            }
        }
    }
    assert forall|j: int| 0 <= j < at implies (#[trigger] after[j]).key() != key by {
        assert(rows[j].key() != key);
    }
    lemma_key_index_at(after, key, at);
    lemma_rows_with_key(after, key);
    assert forall|other: (ProbeKind, Seq<char>)| other != key implies #[trigger] has_key(
        after,
        other,
    ) == has_key(rows, other) && (has_key(rows, other) ==> key_index(after, other)
        == key_index(rows, other)) by {
        lemma_key_index(rows, other);
        let k = key_index(rows, other);
        assert forall|j: int| 0 <= j < k implies (#[trigger] after[j]).key() != other by {
            assert(rows[j].key() != other);
        }
        if k < rows.len() {
            lemma_key_index_at(after, other, k);
        } else {
            assert forall|j: int| 0 <= j < after.len() implies (#[trigger] after[j]).key()
                != other by {
                if j < rows.len() {
                    assert(rows[j].key() != other);
                }
            }
            lemma_key_index_at(after, other, after.len() as int);
        }
    }
}

/// Two writes of addresses for one key, in either order, leave one row
/// whose addresses are those that stood before together with those of both
/// writes.
pub proof fn lemma_address_writes_unite(rows: Seq<RecordView>, first: RecordView, second: RecordView)
    requires
        keys_unique(rows),
        first.key() == second.key(),
        first.payload is Addresses,
        second.payload is Addresses,
        has_key(rows, first.key()) ==> rows[key_index(rows, first.key())].payload is Addresses,
    ensures
        ({
            let key = first.key();
            let before = if has_key(rows, key) {
                rows[key_index(rows, key)].addresses().to_set()
            } else {
                Set::<Seq<char>>::empty()
            };
            let after = upserted(upserted(rows, first), second);
            let swapped = upserted(upserted(rows, second), first);
            let row = after[key_index(after, key)];
            &&& rows_with_key(after, key) == 1
            &&& row.addresses().no_duplicates()
            &&& row.addresses().to_set() == before.union(first.addresses().to_set()).union(
                second.addresses().to_set(),
            )
            &&& swapped[key_index(swapped, key)].addresses().to_set() == row.addresses().to_set()
        }),
{
    let key = first.key();
    lemma_union_of_writes(rows, first, second);
    lemma_union_of_writes(rows, second, first);
    let before = if has_key(rows, key) {
        rows[key_index(rows, key)].addresses().to_set()
    } else {
        Set::<Seq<char>>::empty()
    };
    assert(before.union(first.addresses().to_set()).union(second.addresses().to_set())
        =~= before.union(second.addresses().to_set()).union(first.addresses().to_set()));
}

/// One order of `lemma_address_writes_unite`.
proof fn lemma_union_of_writes(rows: Seq<RecordView>, first: RecordView, second: RecordView)
    requires
        keys_unique(rows),
        first.key() == second.key(),
        first.payload is Addresses,
        second.payload is Addresses,
        has_key(rows, first.key()) ==> rows[key_index(rows, first.key())].payload is Addresses,
    ensures
        ({
            let key = first.key();
            let before = if has_key(rows, key) {
                rows[key_index(rows, key)].addresses().to_set()
            } else {
                Set::<Seq<char>>::empty()
            };
            let after = upserted(upserted(rows, first), second);
            let row = after[key_index(after, key)];
            &&& rows_with_key(after, key) == 1
            &&& row.addresses().no_duplicates()
            &&& row.addresses().to_set() == before.union(first.addresses().to_set()).union(
                second.addresses().to_set(),
            )
        }),
{
    let key = first.key();
    let once = upserted(rows, first);
    let after = upserted(once, second);
    lemma_key_index(rows, key);
    lemma_upsert_is_idempotent_on_keys(rows, first);
    lemma_upsert_is_idempotent_on_keys(once, second);
    let at = key_index(rows, key);
    let a = first.addresses();
    let b = second.addresses();
    let mid = once[at].addresses();
    if at < rows.len() {
        let old = rows[at].addresses();
        assert(mid == distinct(old + a));
        lemma_distinct(old + a);
        vstd::seq_lib::seq_to_set_distributes_over_add(old, a);
    } else {
        assert(mid == a);
    }
    assert(after[at].addresses() == distinct(mid + b));
    lemma_distinct(mid + b);
    vstd::seq_lib::seq_to_set_distributes_over_add(mid, b);
    let before = if at < rows.len() {
        rows[at].addresses().to_set()
    } else {
        Set::<Seq<char>>::empty()
    };
    assert(mid.to_set() =~= before.union(a.to_set()));
}

/// The second of two writes that hold no addresses changes nothing: the
/// first writer's row stands, and it is the only row of its key.
pub proof fn lemma_first_writer_wins(rows: Seq<RecordView>, first: RecordView, second: RecordView)
    requires
        keys_unique(rows),
        first.key() == second.key(),
        !(second.payload is Addresses),
    ensures
        upserted(upserted(rows, first), second) == upserted(rows, first),
        rows_with_key(upserted(upserted(rows, first), second), first.key()) == 1,
        !has_key(rows, first.key()) ==> upserted(rows, first)[key_index(
            upserted(rows, first),
            first.key(),
        )] == first,
{
    let once = upserted(rows, first);
    lemma_key_index(rows, first.key());
    lemma_upsert_is_idempotent_on_keys(rows, first);
    lemma_key_index(once, first.key());
    let at = key_index(once, first.key());
    assert(once.update(at, once[at]) =~= once);
}

/// The items of `items`, each once, in the order in which they first occur.
pub fn unique(items: &Vec<String>) -> (out: Vec<String>)
    ensures
        texts(out@) == distinct(texts(items@)),
{
    let n = items.len();
    let mut out: Vec<String> = Vec::new();
    let mut i: usize = 0;
    assert(texts(out@) =~= distinct(texts(items@).subrange(0, 0)));
    while i < n
        invariant
            0 <= i <= n,
            n == items@.len(),
            texts(out@) == distinct(texts(items@).subrange(0, i as int)),
        decreases n - i,
    {
        proof {
            let done = texts(items@).subrange(0, i as int);
            lemma_distinct_push(done, items@[i as int]@);
            assert(done.push(items@[i as int]@) =~= texts(items@).subrange(0, i + 1));
        }
        if !holds_text(&out, &items[i]) {
            let item = items[i].clone();
            proof {
                lemma_texts_push(out@, item);
            }
            out.push(item);
        }
        i += 1;
    }
    assert(texts(items@).subrange(0, n as int) =~= texts(items@));
    out
}

/// The addresses of a row after `incoming` was united into `existing`.
pub fn merge_addresses(existing: &Vec<String>, incoming: &Vec<String>) -> (out: Vec<String>)
    ensures
        texts(out@) == distinct(texts(existing@) + texts(incoming@)),
{
    let mut all: Vec<String> = Vec::new();
    let mut i: usize = 0;
    while i < existing.len()
        invariant
            0 <= i <= existing@.len(),
            texts(all@) == texts(existing@).subrange(0, i as int),
        decreases existing@.len() - i,
    {
        let item = existing[i].clone();
        proof {
            lemma_texts_push(all@, item);
            assert(texts(existing@).subrange(0, i as int).push(item@) =~= texts(
                existing@,
            ).subrange(0, i + 1));
        }
        all.push(item);
        i += 1;
    }
    let mut j: usize = 0;
    assert(texts(all@) =~= texts(existing@) + texts(incoming@).subrange(0, 0));
    while j < incoming.len()
        invariant
            0 <= j <= incoming@.len(),
            texts(all@) == texts(existing@) + texts(incoming@).subrange(0, j as int),
        decreases incoming@.len() - j,
    {
        let item = incoming[j].clone();
        proof {
            lemma_texts_push(all@, item);
            assert((texts(existing@) + texts(incoming@).subrange(0, j as int)).push(item@)
                =~= texts(existing@) + texts(incoming@).subrange(0, j + 1));
        }
        all.push(item);
        j += 1;
    }
    assert(texts(incoming@).subrange(0, incoming@.len() as int) =~= texts(incoming@));
    unique(&all)
}

impl DedupKey {
    /// The key under which the result of probing `fqdn` with `kind` is
    /// looked up and written.
    pub fn of(kind: ProbeKind, fqdn: &Fqdn) -> (key: DedupKey)
        ensures
            key@ == dedup_key(kind, fqdn@),
    {
        DedupKey { kind, identity: fqdn.to_text() }
    }
}

impl StoreRecord {
    /// The key of the record.
    pub fn key(&self) -> (key: DedupKey)
        ensures
            key@ == self@.key(),
    {
        DedupKey { kind: self.kind, identity: self.identity.clone() }
    }

    /// The row that stands after `incoming`, a record of the same key, was
    /// written onto this one.
    pub fn merge(self, incoming: &StoreRecord) -> (row: StoreRecord)
        ensures
            row@ == merged(self@, incoming@),
    {
        let StoreRecord { kind, identity, domain, payload } = self;
        match (payload, &incoming.payload) {
            (RecordPayload::Addresses(old), RecordPayload::Addresses(new)) => StoreRecord {
                kind,
                identity,
                domain,
                payload: RecordPayload::Addresses(merge_addresses(&old, new)),
            },
            (payload, _) => StoreRecord { kind, identity, domain, payload },
        }
    }
}

/// Records in memory, written with the store's conflict rule: a stand-in for
/// the persistent store, and the statement of what that store must do.
#[derive(Debug, Clone)]
pub struct RecordTable {
    pub rows: Vec<StoreRecord>,
}

impl View for RecordTable {
    type V = Seq<RecordView>;

    open spec fn view(&self) -> Seq<RecordView> {
        Seq::new(self.rows@.len(), |i: int| self.rows@[i]@)
    }
}

impl RecordTable {
    /// A table is well formed when no two rows share a key.
    pub open spec fn wf(&self) -> bool {
        keys_unique(self@)
    }

    /// A table without rows.
    pub fn new() -> (table: RecordTable)
        ensures
            table@.len() == 0,
            table.wf(),
    {
        RecordTable { rows: Vec::new() }
    }

    /// The position of the first row of the key, or the number of rows.
    pub fn position(&self, key: &DedupKey) -> (at: usize)
        ensures
            at == key_index(self@, key@),
            at <= self@.len(),
    {
        let n = self.rows.len();
        let mut i: usize = 0;
        while i < n
            invariant
                0 <= i <= n,
                n == self.rows@.len(),
                forall|j: int| 0 <= j < i ==> (#[trigger] self@[j]).key() != key@,
            ensures
                i <= n,
                i < n ==> self@[i as int].key() == key@,
            decreases n - i,
        {
            if self.rows[i].kind == key.kind && self.rows[i].identity == key.identity {
                break ;
            }
            i += 1;
        }
        proof {
            lemma_key_index_at(self@, key@, i as int);
        }
        i
    }

    /// Whether a record is stored under the key.
    pub fn contains(&self, key: &DedupKey) -> (known: bool)
        ensures
            known == has_key(self@, key@),
    {
        self.position(key) < self.rows.len()
    }

    /// For which kinds of probe a record of `fqdn` is stored.
    pub fn known(&self, fqdn: &Fqdn) -> (known: KnownKinds)
        ensures
            known == known_in(self@, fqdn@),
    {
        KnownKinds {
            cert: self.contains(&DedupKey::of(ProbeKind::CertSearch, fqdn)),
            dns: self.contains(&DedupKey::of(ProbeKind::DnsResolve, fqdn)),
            http: self.contains(&DedupKey::of(ProbeKind::Http, fqdn)),
            https: self.contains(&DedupKey::of(ProbeKind::Https, fqdn)),
        }
    }

    /// Writes `record` with the conflict rule of the store.
    pub fn upsert(&mut self, record: StoreRecord)
        ensures
            final(self)@ == upserted(old(self)@, record@),
            old(self).wf() ==> final(self).wf(),
    {
        let key = record.key();
        let at = self.position(&key);
        let ghost before = self@;
        proof {
            if keys_unique(before) {
                lemma_upsert_is_idempotent_on_keys(before, record@);
            }
        }
        if at < self.rows.len() {
            let existing = self.rows.remove(at);
            let row = existing.merge(&record);
            self.rows.insert(at, row);
            assert(self@ =~= before.update(at as int, merged(before[at as int], record@)));
        } else {
            self.rows.push(record);
            assert(self@ =~= before.push(record@));
        }
    }
}

} // verus!
