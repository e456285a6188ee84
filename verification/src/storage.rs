//! Object storage: the in-memory store used by tests, and the rules that
//! interpret an S3-compatible endpoint's HTTP status codes.

use vstd::prelude::*;

use crate::error::AppError;
use crate::text::{decimal, push_decimal};

verus! {

/// An in-memory object store (key → bytes). Stands in for S3 in tests.
pub struct MemStore {
    objects: Vec<(String, Vec<u8>)>,
}

pub open spec fn keys_of(s: Seq<(Seq<char>, Seq<u8>)>) -> Seq<Seq<char>> {
    s.map_values(|e: (Seq<char>, Seq<u8>)| e.0)
}

/// Objects left after deleting `keys` one after the other, and how many of
/// those deletions found an object.
pub open spec fn deletions(m: Map<Seq<char>, Seq<u8>>, keys: Seq<Seq<char>>) -> (Map<Seq<char>, Seq<u8>>, nat)
    decreases keys.len(),
{
    if keys.len() == 0 {
        (m, 0)
    } else {
        let k = keys[0];
        let rest = deletions(m.remove(k), keys.drop_first());
        (rest.0, rest.1 + if m.contains_key(k) { 1nat } else { 0nat })
    }
}

pub open spec fn string_seq_views(keys: Seq<String>) -> Seq<Seq<char>> {
    keys.map_values(|k: String| k@)
}

impl MemStore {
    spec fn entries(&self) -> Seq<(Seq<char>, Seq<u8>)> {
        self.objects@.map_values(|e: (String, Vec<u8>)| (e.0@, e.1@))
    }

    /// Every key is stored once.
    pub closed spec fn wf(&self) -> bool {
        keys_of(self.entries()).no_duplicates()
    }

    /// The stored objects.
    pub closed spec fn objects_map(&self) -> Map<Seq<char>, Seq<u8>> {
        Map::new(
            |k: Seq<char>| keys_of(self.entries()).contains(k),
            |k: Seq<char>| self.entries()[keys_of(self.entries()).index_of(k)].1,
        )
    }

    pub fn new() -> (r: MemStore)
        ensures
            r.wf(),
            r.objects_map() == Map::<Seq<char>, Seq<u8>>::empty(),
    {
        let r = MemStore { objects: Vec::new() };
        assert(keys_of(r.entries()) =~= Seq::<Seq<char>>::empty());
        assert(r.objects_map() =~= Map::<Seq<char>, Seq<u8>>::empty());
        r
    }

    /// Number of stored objects.
    pub fn len(&self) -> (r: usize)
        requires
            self.wf(),
        ensures
            r == self.objects_map().dom().len(),
    {
        proof {
            self.lemma_dom_len();
        }
        self.objects.len()
    }

    pub fn is_empty(&self) -> (r: bool)
        requires
            self.wf(),
        ensures
            r == (self.objects_map().dom().len() == 0),
    {
        self.len() == 0
    }

    proof fn lemma_dom_len(&self)
        requires
            self.wf(),
        ensures
            self.objects_map().dom().len() == self.objects@.len(),
            self.objects_map().dom() == keys_of(self.entries()).to_set(),
    {
        let ks = keys_of(self.entries());
        assert(self.objects_map().dom() =~= ks.to_set());
        ks.unique_seq_to_set();
    }

    fn position(&self, key: &str) -> (r: Option<usize>)
        requires
            self.wf(),
        ensures
            match r {
                Some(i) => i < self.objects@.len() && keys_of(self.entries())[i as int] == key@
                    && keys_of(self.entries()).index_of(key@) == i,
                None => !keys_of(self.entries()).contains(key@),
            },
    {
        let mut i: usize = 0;
        while i < self.objects.len()
            invariant
                i <= self.objects@.len(),
                self.wf(),
                forall|j: int| 0 <= j < i ==> keys_of(self.entries())[j] != key@,
            decreases self.objects@.len() - i,
        {
            if crate::text::str_eq(self.objects[i].0.as_str(), key) {
                proof {
                    let ks = keys_of(self.entries());
                    assert(ks[i as int] == key@);
                    lemma_index_of_unique(ks, key@, i as int);
                }
                return Some(i);
            }
            i = i + 1;
        }
        None
    }

    /// Store `body` under `key`, replacing any previous object.
    pub fn put(&mut self, key: &str, body: Vec<u8>, content_type: &str) -> (r: Result<(), AppError>)
        requires
            old(self).wf(),
        ensures
            final(self).wf(),
            r is Ok,
            final(self).objects_map() == old(self).objects_map().insert(key@, body@),
    {
        let ghost old_map = self.objects_map();
        let ghost body_view = body@;
        match self.position(key) {
            Some(i) => {
                let ghost before = self.entries();
                self.objects.set(i, (key.to_owned(), body));
                proof {
                    assert(self.entries() =~= before.update(i as int, (key@, body_view)));
                    assert(keys_of(self.entries()) =~= keys_of(before));
                    assert forall|k: Seq<char>| #[trigger] self.objects_map().contains_key(k) == old_map.insert(key@, body_view).contains_key(k) by {
                    }
                    assert forall|k: Seq<char>| #[trigger] self.objects_map().contains_key(k) implies self.objects_map()[k] == old_map.insert(key@, body_view)[k] by {
                    }
                    assert(self.objects_map() =~= old_map.insert(key@, body_view));
                }
            },
            None => {
                let ghost before = self.entries();
                self.objects.push((key.to_owned(), body));
                proof {
                    let ks = keys_of(self.entries());
                    let ks0 = keys_of(before);
                    assert(self.entries() =~= before.push((key@, body_view)));
                    assert(ks =~= ks0.push(key@));
                    assert(ks.no_duplicates()) by {
                        assert forall|a: int, b: int| 0 <= a < ks.len() && 0 <= b < ks.len() && a != b implies ks[a] != ks[b] by {
                            if a < ks0.len() && b < ks0.len() {
                                assert(ks0[a] != ks0[b]);
                            } else if a == ks0.len() {
                                assert(ks0.contains(ks0[b]));
                            } else {
                                assert(ks0.contains(ks0[a]));
                            }
                        }
                    }
                    assert forall|k: Seq<char>| #[trigger] self.objects_map().contains_key(k) implies self.objects_map()[k] == old_map.insert(key@, body_view)[k] by {
                        if k == key@ {
                            assert(ks[ks0.len() as int] == key@);
                            lemma_index_of_unique(ks, k, ks0.len() as int);
                        } else {
                            let p = choose|p: int| 0 <= p < ks.len() && ks[p] == k;
                            assert(p != ks0.len());
                            assert(ks0[p] == k);
                            lemma_index_of_unique(ks, k, p);
                            lemma_index_of_unique(ks0, k, p);
                        }
                    }
                    assert forall|k: Seq<char>| #[trigger] self.objects_map().contains_key(k) == old_map.insert(key@, body_view).contains_key(k) by {
                        if ks0.contains(k) {
                            let p = choose|p: int| 0 <= p < ks0.len() && ks0[p] == k;
                            assert(ks[p] == k);
                        }
                        if ks.contains(k) && k != key@ {
                            let p = choose|p: int| 0 <= p < ks.len() && ks[p] == k;
                            assert(ks0[p] == k);
                        }
                        if k == key@ {
                            assert(ks[ks0.len() as int] == k);
                        }
                    }
                    assert(self.objects_map() =~= old_map.insert(key@, body_view));
                }
            },
        }
        Ok(())
    }

    /// The object under `key`, or `NotFound("object {key} not found")`.
    pub fn get(&self, key: &str) -> (r: Result<Vec<u8>, AppError>)
        requires
            self.wf(),
        ensures
            self.objects_map().contains_key(key@) ==> (r matches Ok(b) && b@ == self.objects_map()[key@]),
            !self.objects_map().contains_key(key@) ==> (r matches Err(AppError::NotFound(m))
                && m@ == "object "@ + key@ + " not found"@),
    {
        match self.position(key) {
            Some(i) => {
                let b = self.objects[i].1.clone();
                assert(b@ =~= self.objects@[i as int].1@);
                Ok(b)
            },
            None => {
                let mut m = "object ".to_owned();
                m.append(key);
                m.append(" not found");
                Err(AppError::NotFound(m))
            },
        }
    }

    fn remove_one(&mut self, key: &str) -> (found: bool)
        requires
            old(self).wf(),
        ensures
            final(self).wf(),
            found == old(self).objects_map().contains_key(key@),
            final(self).objects_map() == old(self).objects_map().remove(key@),
    {
        let ghost old_map = self.objects_map();
        match self.position(key) {
            Some(i) => {
                let ghost before = self.entries();
                let ghost ks0 = keys_of(before);
                let _ = self.objects.remove(i);
                proof {
                    let ks = keys_of(self.entries());
                    assert(self.entries() =~= before.remove(i as int));
                    assert(ks =~= ks0.remove(i as int));
                    assert(ks.no_duplicates()) by {
                        assert forall|a: int, b: int| 0 <= a < ks.len() && 0 <= b < ks.len() && a != b implies ks[a] != ks[b] by {
                            let a0 = if a < i { a } else { a + 1 };
                            let b0 = if b < i { b } else { b + 1 };
                            assert(ks[a] == ks0[a0] && ks[b] == ks0[b0]);
                        }
                    }
                    assert forall|k: Seq<char>| #[trigger] self.objects_map().contains_key(k) == old_map.remove(key@).contains_key(k) by {
                        if ks.contains(k) {
                            let p = choose|p: int| 0 <= p < ks.len() && ks[p] == k;
                            let p0 = if p < i { p } else { p + 1 };
                            assert(ks0[p0] == k);
                            assert(ks0[i as int] == key@);
                        }
                        if ks0.contains(k) && k != key@ {
                            let p = choose|p: int| 0 <= p < ks0.len() && ks0[p] == k;
                            if p < i {
                                assert(ks[p] == k);
                            } else {
                                assert(p != i);
                                assert(ks[p - 1] == k);
                            }
                        }
                    }
                    assert forall|k: Seq<char>| #[trigger] self.objects_map().contains_key(k) implies self.objects_map()[k] == old_map.remove(key@)[k] by {
                        let p = choose|p: int| 0 <= p < ks.len() && ks[p] == k;
                        let p0 = if p < i { p } else { p + 1 };
                        assert(ks0[p0] == k);
                        assert(self.entries()[p] == before[p0]);
                        lemma_index_of_unique(ks, k, p);
                        lemma_index_of_unique(ks0, k, p0);
                    }
                    assert(self.objects_map() =~= old_map.remove(key@));
                }
                true
            },
            None => {
                assert(self.objects_map() =~= old_map.remove(key@));
                false
            },
        }
    }

    /// Delete each of `keys`; the count is how many deletions found an object
    /// (a count that must fit in a `u32`).
    pub fn delete_many(&mut self, keys: &Vec<String>) -> (r: Result<u32, AppError>)
        requires
            old(self).wf(),
            deletions(old(self).objects_map(), string_seq_views(keys@)).1 <= u32::MAX,
        ensures
            final(self).wf(),
            r matches Ok(n) && n as nat == deletions(old(self).objects_map(), string_seq_views(keys@)).1,
            final(self).objects_map() == deletions(old(self).objects_map(), string_seq_views(keys@)).0,
    {
        let ghost ks = string_seq_views(keys@);
        assert(ks.skip(0) =~= ks);
        let mut n: u32 = 0;
        let mut i: usize = 0;
        while i < keys.len()
            invariant
                i <= keys@.len(),
                deletions(old(self).objects_map(), ks).1 <= u32::MAX,
                ks == string_seq_views(keys@),
                self.wf(),
                deletions(old(self).objects_map(), ks).0 == deletions(self.objects_map(), ks.skip(i as int)).0,
                deletions(old(self).objects_map(), ks).1 == deletions(self.objects_map(), ks.skip(i as int)).1 + n,
            decreases keys@.len() - i,
        {
            let ghost before = self.objects_map();
            let found = self.remove_one(keys[i].as_str());
            proof {
                assert(ks.skip(i as int).drop_first() =~= ks.skip(i + 1));
                assert(ks.skip(i as int)[0] == keys@[i as int]@);
            }
            if found {
                n = n + 1;
            }
            i = i + 1;
        }
        assert(ks.skip(i as int) =~= Seq::<Seq<char>>::empty());
        Ok(n)
    }

    pub fn head_bucket(&self) -> (r: Result<(), AppError>)
        ensures
            r is Ok,
    {
        Ok(())
    }
}

/// A batch delete finds at most one object per key.
pub proof fn lemma_deletions_at_most_keys(m: Map<Seq<char>, Seq<u8>>, keys: Seq<Seq<char>>)
    ensures
        deletions(m, keys).1 <= keys.len(),
    decreases keys.len(),
{
    if keys.len() > 0 {
        lemma_deletions_at_most_keys(m.remove(keys[0]), keys.drop_first());
    }
}

/// Deleting a key that was just stored, with nothing else in between,
/// removes it and counts one; reading a stored key gives back its bytes.
pub proof fn lemma_put_then_delete(m: Map<Seq<char>, Seq<u8>>, k: Seq<char>, body: Seq<u8>)
    ensures
        m.insert(k, body)[k] == body,
        deletions(m.insert(k, body), seq![k]).1 == 1,
        !deletions(m.insert(k, body), seq![k]).0.contains_key(k),
{
    let s = seq![k];
    assert(s.drop_first() =~= Seq::<Seq<char>>::empty());
    reveal_with_fuel(deletions, 2);
}

/// The stored objects after `puts` are written one after the other, each
/// replacing any object under its key: what `MemStore::put` does to
/// `objects_map`.
pub open spec fn put_all(m: Map<Seq<char>, Seq<u8>>, puts: Seq<(Seq<char>, Seq<u8>)>) -> Map<Seq<char>, Seq<u8>>
    decreases puts.len(),
{
    if puts.len() == 0 {
        m
    } else {
        put_all(m, puts.drop_last()).insert(puts.last().0, puts.last().1)
    }
}

/// Written into an empty store, a series of objects leaves exactly their
/// keys stored, so the store's length (`MemStore::len`) is the number of
/// distinct keys: writing a key again replaces its object without adding
/// one. An empty series leaves the store empty.
pub proof fn lemma_put_all_keys(puts: Seq<(Seq<char>, Seq<u8>)>)
    ensures
        put_all(Map::empty(), puts).dom() == keys_of(puts).to_set(),
        put_all(Map::empty(), puts).dom().len() == keys_of(puts).to_set().len(),
        puts.len() == 0 ==> put_all(Map::empty(), puts).dom().len() == 0,
    decreases puts.len(),
{
    if puts.len() > 0 {
        let init = puts.drop_last();
        lemma_put_all_keys(init);
        assert(keys_of(puts) =~= keys_of(init).push(puts.last().0));
        assert(keys_of(puts).to_set() =~= keys_of(init).to_set().insert(puts.last().0)) by {
            assert forall|k: Seq<char>| keys_of(puts).contains(k) <==> (keys_of(init).contains(k) || k == puts.last().0) by {
                if keys_of(puts).contains(k) {
                    let p = choose|p: int| 0 <= p < keys_of(puts).len() && keys_of(puts)[p] == k;
                    if p < init.len() {
                        assert(keys_of(init)[p] == k);
                    }
                }
                if keys_of(init).contains(k) {
                    let p = choose|p: int| 0 <= p < keys_of(init).len() && keys_of(init)[p] == k;
                    assert(keys_of(puts)[p] == k);
                }
                if k == puts.last().0 {
                    assert(keys_of(puts)[puts.len() - 1] == k);
                }
            }
        }
        assert(put_all(Map::empty(), puts).dom() =~= keys_of(puts).to_set());
    } else {
        assert(keys_of(puts).to_set() =~= Set::<Seq<char>>::empty());
        assert(put_all(Map::empty(), puts).dom() =~= Set::<Seq<char>>::empty());
    }
}

/// One write or batch delete on an object store.
pub enum StoreOp {
    Put(Seq<char>, Seq<u8>),
    Delete(Seq<Seq<char>>),
}

/// Whether `op` writes or deletes `key`.
pub open spec fn touches(op: StoreOp, key: Seq<char>) -> bool {
    match op {
        StoreOp::Put(k, _) => k == key,
        StoreOp::Delete(ks) => ks.contains(key),
    }
}

/// Whether `op` writes `key`.
pub open spec fn writes(op: StoreOp, key: Seq<char>) -> bool {
    match op {
        StoreOp::Put(k, _) => k == key,
        StoreOp::Delete(_) => false,
    }
}

/// The stored objects after `op`: `MemStore::put` inserts,
/// `MemStore::delete_many` removes each listed key.
pub open spec fn apply_op(m: Map<Seq<char>, Seq<u8>>, op: StoreOp) -> Map<Seq<char>, Seq<u8>> {
    match op {
        StoreOp::Put(k, b) => m.insert(k, b),
        StoreOp::Delete(ks) => deletions(m, ks).0,
    }
}

/// The stored objects after `ops`, in order.
pub open spec fn apply_ops(m: Map<Seq<char>, Seq<u8>>, ops: Seq<StoreOp>) -> Map<Seq<char>, Seq<u8>>
    decreases ops.len(),
{
    if ops.len() == 0 {
        m
    } else {
        apply_op(apply_ops(m, ops.drop_last()), ops.last())
    }
}

/// A batch delete removes exactly the listed keys and leaves every other
/// object as it was.
pub proof fn lemma_deletions_frame(m: Map<Seq<char>, Seq<u8>>, keys: Seq<Seq<char>>, k: Seq<char>)
    ensures
        deletions(m, keys).0.contains_key(k) <==> (m.contains_key(k) && !keys.contains(k)),
        deletions(m, keys).0.contains_key(k) ==> deletions(m, keys).0[k] == m[k],
    decreases keys.len(),
{
    if keys.len() > 0 {
        let k0 = keys[0];
        let rest = keys.drop_first();
        lemma_deletions_frame(m.remove(k0), rest, k);
        assert(keys.contains(k) <==> (k0 == k || rest.contains(k))) by {
            if keys.contains(k) && k0 != k {
                let p = choose|p: int| 0 <= p < keys.len() && keys[p] == k;
                assert(rest[p - 1] == k);
            }
            if rest.contains(k) {
                let p = choose|p: int| 0 <= p < rest.len() && rest[p] == k;
                assert(keys[p + 1] == k);
            }
            if k0 == k {
                assert(keys[0] == k);
            }
        }
    } else {
        assert(!keys.contains(k));
    }
}

/// An object is read back as last written: after a write of `body` under
/// `key`, followed by operations none of which writes or deletes `key`,
/// `MemStore::get(key)` gives `body`.
pub proof fn lemma_last_write_wins(m: Map<Seq<char>, Seq<u8>>, ops: Seq<StoreOp>, j: int, key: Seq<char>, body: Seq<u8>)
    requires
        0 <= j < ops.len(),
        ops[j] == StoreOp::Put(key, body),
        forall|i: int| j < i < ops.len() ==> !touches(#[trigger] ops[i], key),
    ensures
        apply_ops(m, ops).contains_key(key),
        apply_ops(m, ops)[key] == body,
    decreases ops.len(),
{
    let init = ops.drop_last();
    if j < ops.len() - 1 {
        assert(init[j] == ops[j]);
        assert forall|i: int| j < i < init.len() implies !touches(#[trigger] init[i], key) by {
            assert(init[i] == ops[i]);
        }
        lemma_last_write_wins(m, init, j, key, body);
        let last = ops.last();
        assert(!touches(ops[ops.len() - 1], key));
        match last {
            StoreOp::Put(k, b) => {},
            StoreOp::Delete(ks) => {
                lemma_deletions_frame(apply_ops(m, init), ks, key);
            },
        }
    }
}

/// A key that was never stored, and that no operation writes, stays
/// absent: `MemStore::get` answers `NotFound` for it.
pub proof fn lemma_never_written_absent(m: Map<Seq<char>, Seq<u8>>, ops: Seq<StoreOp>, key: Seq<char>)
    requires
        !m.contains_key(key),
        forall|i: int| 0 <= i < ops.len() ==> !writes(#[trigger] ops[i], key),
    ensures
        !apply_ops(m, ops).contains_key(key),
    decreases ops.len(),
{
    if ops.len() > 0 {
        let init = ops.drop_last();
        assert forall|i: int| 0 <= i < init.len() implies !writes(#[trigger] init[i], key) by {
            assert(init[i] == ops[i]);
        }
        lemma_never_written_absent(m, init, key);
        assert(!writes(ops[ops.len() - 1], key));
        match ops.last() {
            StoreOp::Put(k, b) => {},
            StoreOp::Delete(ks) => {
                lemma_deletions_frame(apply_ops(m, init), ks, key);
            },
        }
    }
}

/// A deleted key stays absent until it is written again: after a batch
/// delete that lists `key`, followed by operations none of which writes
/// `key`, `MemStore::get(key)` answers `NotFound`.
pub proof fn lemma_deleted_stays_absent(m: Map<Seq<char>, Seq<u8>>, ops: Seq<StoreOp>, j: int, key: Seq<char>)
    requires
        0 <= j < ops.len(),
        ops[j] matches StoreOp::Delete(ks) && ks.contains(key),
        forall|i: int| j < i < ops.len() ==> !writes(#[trigger] ops[i], key),
    ensures
        !apply_ops(m, ops).contains_key(key),
    decreases ops.len(),
{
    let init = ops.drop_last();
    if j < ops.len() - 1 {
        assert(init[j] == ops[j]);
        assert forall|i: int| j < i < init.len() implies !writes(#[trigger] init[i], key) by {
            assert(init[i] == ops[i]);
        }
        lemma_deleted_stays_absent(m, init, j, key);
        assert(!writes(ops[ops.len() - 1], key));
        match ops.last() {
            StoreOp::Put(k, b) => {},
            StoreOp::Delete(ks) => {
                lemma_deletions_frame(apply_ops(m, init), ks, key);
            },
        }
    } else {
        match ops.last() {
            StoreOp::Put(k, b) => {},
            StoreOp::Delete(ks) => {
                lemma_deletions_frame(apply_ops(m, init), ks, key);
            },
        }
    }
}

/// In a sequence without duplicates, `index_of` finds the one position.
pub proof fn lemma_index_of_unique<A>(s: Seq<A>, k: A, p: int)
    requires
        s.no_duplicates(),
        0 <= p < s.len(),
        s[p] == k,
    ensures
        s.index_of(k) == p,
{
    assert(s.contains(k));
    let q = s.index_of(k);
    assert(0 <= q < s.len() && s[q] == k);
}

/// An S3 store, as the service's logic sees it: the bucket it writes to.
pub struct S3Store {
    bucket_name: String,
}

impl S3Store {
    pub fn for_bucket(bucket_name: String) -> (r: S3Store)
        ensures
            r.bucket()@ == bucket_name@,
    {
        S3Store { bucket_name }
    }

    pub closed spec fn bucket(&self) -> String {
        self.bucket_name
    }

    pub fn bucket_name(&self) -> (r: &str)
        ensures
            r@ == self.bucket()@,
    {
        self.bucket_name.as_str()
    }
}

/// A 2xx status.
pub fn ok_status(code: u16) -> (r: bool)
    ensures
        r == (200 <= code < 300),
{
    200 <= code && code < 300
}

fn status_error(prefix: &str, code: u16) -> (r: AppError)
    ensures
        r matches AppError::S3 { reason, retryable } && retryable && reason@ == prefix@ + " → HTTP "@
            + decimal(code as nat),
{
    let mut m = prefix.to_owned();
    m.append(" → HTTP ");
    push_decimal(&mut m, code as u64);
    AppError::s3(m)
}

/// The outcome of a PUT answered with `code`.
pub fn put_outcome(key: &str, code: u16) -> (r: Result<(), AppError>)
    ensures
        200 <= code < 300 ==> r is Ok,
        !(200 <= code < 300) ==> (r matches Err(AppError::S3 { reason, retryable }) && retryable
            && reason@ == "put "@ + key@ + " → HTTP "@ + decimal(code as nat)),
{
    if ok_status(code) {
        Ok(())
    } else {
        let mut p = "put ".to_owned();
        p.append(key);
        Err(status_error(p.as_str(), code))
    }
}

/// The outcome of a GET answered with `code` and `body`.
pub fn get_outcome(key: &str, code: u16, body: Vec<u8>) -> (r: Result<Vec<u8>, AppError>)
    ensures
        200 <= code < 300 ==> (r matches Ok(b) && b@ == body@),
        code == 404 ==> (r matches Err(AppError::NotFound(m)) && m@ == "object "@ + key@ + " not found"@),
        !(200 <= code < 300) && code != 404 ==> (r matches Err(AppError::S3 { reason, retryable })
            && retryable && reason@ == "get "@ + key@ + " → HTTP "@ + decimal(code as nat)),
{
    if ok_status(code) {
        Ok(body)
    } else if code == 404 {
        let mut m = "object ".to_owned();
        m.append(key);
        m.append(" not found");
        Err(AppError::NotFound(m))
    } else {
        let mut p = "get ".to_owned();
        p.append(key);
        Err(status_error(p.as_str(), code))
    }
}

/// The outcome of a DELETE answered with `code`: a missing object is fine.
pub fn delete_outcome(key: &str, code: u16) -> (r: Result<(), AppError>)
    ensures
        (200 <= code < 300 || code == 404) ==> r is Ok,
        !(200 <= code < 300 || code == 404) ==> (r matches Err(AppError::S3 { reason, retryable })
            && retryable && reason@ == "delete "@ + key@ + " → HTTP "@ + decimal(code as nat)),
{
    if ok_status(code) || code == 404 {
        Ok(())
    } else {
        let mut p = "delete ".to_owned();
        p.append(key);
        Err(status_error(p.as_str(), code))
    }
}

/// One deletion of a batch answered with `code`, added to the `count` of
/// keys the store reported deleted so far: a 2xx counts, a missing object
/// (404) is no error but was not deleted, anything else fails the batch.
pub fn deletion_tally(count: u32, key: &str, code: u16) -> (r: Result<u32, AppError>)
    requires
        count < u32::MAX,
    ensures
        200 <= code < 300 ==> r == Ok::<u32, AppError>((count + 1) as u32),
        code == 404 ==> r == Ok::<u32, AppError>(count),
        !(200 <= code < 300 || code == 404) ==> (r matches Err(AppError::S3 { reason, retryable })
            && retryable && reason@ == "delete "@ + key@ + " → HTTP "@ + decimal(code as nat)),
{
    delete_outcome(key, code)?;
    if ok_status(code) {
        Ok(count + 1)
    } else {
        Ok(count)
    }
}

/// Bucket reachability from a HEAD status: 2xx, 403 and 404 all prove the
/// bucket answers; only other statuses are failures.
pub fn head_bucket_outcome(code: u16) -> (r: Result<(), AppError>)
    ensures
        (200 <= code < 300 || code == 403 || code == 404) ==> r is Ok,
        !(200 <= code < 300 || code == 403 || code == 404) ==> (r matches Err(AppError::S3 { reason, retryable })
            && retryable && reason@ == "head_bucket → HTTP "@ + decimal(code as nat)),
{
    if ok_status(code) || code == 403 || code == 404 {
        Ok(())
    } else {
        proof {
            reveal_strlit("head_bucket");
            reveal_strlit(" → HTTP ");
            reveal_strlit("head_bucket → HTTP ");
        }
        Err(status_error("head_bucket", code))
    }
}

} // verus!
