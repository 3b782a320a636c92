//! The todo store: tasks kept as encoded records in the key-value engine,
//! under the big-endian keys of their ids, beside a counter of issued ids.
use crate::engine::{scan_of, db_contents, db_durable, db_flush, db_get, db_insert, db_remove, db_scan, open_path, open_temporary};
use crate::keys::{
    be_decode, be_value, key_of, lemma_be_bytes_len, lemma_be_bytes_of_value, lemma_be_round_trip,
    lemma_be_value_bound, pow256, storage_key,
};
use crate::listing::{
    collect_listing, entry_decode, lemma_listed_complete, lemma_listed_sorted, lemma_listed_sound,
    lemma_undecodable_complete, lemma_undecodable_sound, listed, undecodable, undecodable_entry,
    Filter, Listing,
};
use crate::record::{
    decode_spec, encode_spec, lemma_round_trip, result_view, text_fits, Priority, Todo, TodoError,
    TodoModel,
};
use vstd::prelude::*;
use vstd::string::StrSliceExecFns;

verus! {

/// Whether `c` has the Unicode `White_Space` property (PropList.txt), the
/// property that `char::is_whitespace` and `str::trim` go by.
pub open spec fn is_white_space(c: char) -> bool {
    let u = c as u32;
    (0x09 <= u <= 0x0d) || u == 0x20 || u == 0x85 || u == 0xa0 || u == 0x1680 || (0x2000 <= u
        <= 0x200a) || u == 0x2028 || u == 0x2029 || u == 0x202f || u == 0x205f || u == 0x3000
}

/// Whether `c` has the Unicode `White_Space` property.
pub fn white_space(c: char) -> (r: bool)
    ensures
        r == is_white_space(c),
{
    let u = c as u32;
    (0x09 <= u && u <= 0x0d) || u == 0x20 || u == 0x85 || u == 0xa0 || u == 0x1680 || (0x2000 <= u
        && u <= 0x200a) || u == 0x2028 || u == 0x2029 || u == 0x202f || u == 0x205f || u == 0x3000
}

/// `s` is empty once white space is trimmed from it.
pub open spec fn is_blank(s: Seq<char>) -> bool {
    forall|i: int| 0 <= i < s.len() ==> is_white_space(#[trigger] s[i])
}

/// Whether `s` is empty once white space is trimmed from it.
pub fn blank(s: &str) -> (r: bool)
    ensures
        r == is_blank(s@),
{
    let n = s.unicode_len();
    let mut i: usize = 0;
    while i < n
        invariant
            n == s@.len(),
            i <= n,
            forall|j: int| 0 <= j < i ==> is_white_space(#[trigger] s@[j]),
        decreases n - i,
    {
        if !white_space(s.get_char(i)) {
            return false;
        }
        i = i + 1;
    }
    true
}

/// The key of the counter of issued ids: "next_id". It is seven bytes long,
/// so no record key is equal to it.
pub open spec fn counter_key() -> Seq<u8> {
    seq![110u8, 101u8, 120u8, 116u8, 95u8, 105u8, 100u8]
}

fn counter_key_bytes() -> (r: Vec<u8>)
    ensures
        r@ == counter_key(),
{
    let r: Vec<u8> = vec![110u8, 101u8, 120u8, 116u8, 95u8, 105u8, 100u8];
    assert(r@ == counter_key());
    r
}

/// The last id issued by a store holding `c`: none yet where the counter is
/// absent, and `None` where its bytes are not a counter.
pub open spec fn last_issued(c: Map<Seq<u8>, Seq<u8>>) -> Option<nat> {
    if !c.contains_key(counter_key()) {
        Some(0)
    } else if c[counter_key()].len() == 8 {
        Some(be_value(c[counter_key()]))
    } else {
        None
    }
}

/// The bytes of the counter of issued ids in a store holding `c`, if any.
pub open spec fn counter_of(c: Map<Seq<u8>, Seq<u8>>) -> Option<Seq<u8>> {
    if c.contains_key(counter_key()) {
        Some(c[counter_key()])
    } else {
        None
    }
}

/// The id to issue next, given the bytes of the counter: 1 where there is
/// no counter yet, one more than the eight big-endian bytes of the counter
/// otherwise.
pub open spec fn next_id_of(counter: Option<Seq<u8>>) -> Result<u64, TodoError> {
    match counter {
        None => Ok(1),
        Some(b) => if b.len() != 8 {
            Err(TodoError::CorruptRecord)
        } else if be_value(b) >= 0xffff_ffff_ffff_ffff {
            Err(TodoError::IdsExhausted)
        } else {
            Ok((be_value(b) + 1) as u64)
        },
    }
}

/// The bytes that `counter` holds, if any.
pub open spec fn held(counter: Option<&[u8]>) -> Option<Seq<u8>> {
    match counter {
        Some(b) => Some(b@),
        None => None,
    }
}

/// The id to issue next, given the bytes of the counter of issued ids.
pub fn next_id(counter: Option<&[u8]>) -> (r: Result<u64, TodoError>)
    ensures
        r == next_id_of(held(counter)),
{
    match counter {
        None => Ok(1),
        Some(b) => {
            if b.len() != 8 {
                return Err(TodoError::CorruptRecord);
            }
            let n = be_decode(b, 0, 8);
            assert(b@.subrange(0, 8) == b@);
            if n == 0xffff_ffff_ffff_ffff {
                proof {
                    lemma_be_value_bound(b@);
                    reveal_with_fuel(pow256, 9);
                }
                return Err(TodoError::IdsExhausted);
            }
            Ok(n + 1)
        },
    }
}

/// What `add(text, priority)` does to a store holding `c`: the id it issues
/// and what the store holds afterwards. A record already stored under the
/// id to issue means the counter is behind the records: the store is then
/// corrupt, and nothing is overwritten.
pub open spec fn add_outcome(c: Map<Seq<u8>, Seq<u8>>, text: Seq<char>, priority: Priority) -> Result<
    (u64, Map<Seq<u8>, Seq<u8>>),
    TodoError,
> {
    if is_blank(text) || !text_fits(text) {
        Err(TodoError::InvalidInput)
    } else {
        match next_id_of(counter_of(c)) {
            Err(e) => Err(e),
            Ok(id) => if c.contains_key(key_of(id)) {
                Err(TodoError::CorruptRecord)
            } else {
                Ok(
                    (
                        id,
                        c.insert(counter_key(), key_of(id)).insert(
                            key_of(id),
                            encode_spec(TodoModel { id, text, priority, done: false }),
                        ),
                    ),
                )
            },
        }
    }
}

/// What `get(id)` returns from a store holding `c`.
pub open spec fn get_outcome(c: Map<Seq<u8>, Seq<u8>>, id: u64) -> Result<TodoModel, TodoError> {
    if !c.contains_key(key_of(id)) {
        Err(TodoError::NotFound)
    } else {
        decode_spec(id, c[key_of(id)])
    }
}

/// What the store holds after `complete(id)` on a store holding `c`.
pub open spec fn complete_outcome(c: Map<Seq<u8>, Seq<u8>>, id: u64) -> Result<
    Map<Seq<u8>, Seq<u8>>,
    TodoError,
> {
    match get_outcome(c, id) {
        Err(e) => Err(e),
        Ok(t) => if t.done {
            Ok(c)
        } else {
            Ok(c.insert(key_of(id), encode_spec(TodoModel { done: true, ..t })))
        },
    }
}

/// `l` is the listing under `f` of a store holding `c`.
pub open spec fn is_listing(l: Listing, c: Map<Seq<u8>, Seq<u8>>, f: Filter) -> bool {
    &&& forall|i: int, j: int|
        0 <= i < j < l.todos@.len() ==> (#[trigger] l.todos@[i]).id < (#[trigger] l.todos@[j]).id
    &&& forall|i: int|
        0 <= i < l.todos@.len() ==> get_outcome(c, (#[trigger] l.todos@[i]).id) == Ok::<
            TodoModel,
            TodoError,
        >(l.todos@[i]@) && f.accepts(l.todos@[i]@)
    &&& forall|id: u64|
        #[trigger] get_outcome(c, id) is Ok && f.accepts(get_outcome(c, id)->Ok_0) ==> exists|
            i: int,
        | 0 <= i < l.todos@.len() && (#[trigger] l.todos@[i]).id == id
    &&& forall|j: int|
        0 <= j < l.skipped@.len() ==> c.contains_key(key_of(#[trigger] l.skipped@[j]))
            && get_outcome(c, l.skipped@[j]) is Err
    &&& forall|id: u64|
        c.contains_key(key_of(id)) && #[trigger] get_outcome(c, id) is Err ==> exists|j: int|
            0 <= j < l.skipped@.len() && #[trigger] l.skipped@[j] == id
}

/// A store of tasks over one database, which it alone holds.
pub struct TodoStore {
    db: sled::Db,
}

impl TodoStore {
    /// The keys and records that the store holds.
    pub closed spec fn contents(&self) -> Map<Seq<u8>, Seq<u8>> {
        db_contents(self.db)
    }

    /// What the store's disk holds: what a crash would leave.
    pub closed spec fn durable(&self) -> Map<Seq<u8>, Seq<u8>> {
        db_durable(self.db)
    }

    /// A store in a fresh temporary database, which starts empty.
    pub fn temporary() -> (r: Result<TodoStore, TodoError>)
        ensures
            r is Ok ==> r->Ok_0.contents() == Map::<Seq<u8>, Seq<u8>>::empty(),
            r is Err ==> r->Err_0 == TodoError::StorageFailure,
    {
        match open_temporary() {
            Ok(db) => {
                let store = TodoStore { db };
                assert(store.contents() =~= Map::<Seq<u8>, Seq<u8>>::empty());
                Ok(store)
            },
            Err(_) => Err(TodoError::StorageFailure),
        }
    }

    /// A store over `db`. The store's contracts hold while nothing else
    /// writes to the database.
    pub fn from_db(db: sled::Db) -> (r: TodoStore)
        ensures
            r.contents() == db_contents(db),
    {
        TodoStore { db }
    }

    /// The store kept on disk at `path`, created there if there is none.
    pub fn open(path: &str) -> (r: Result<TodoStore, TodoError>)
        ensures
            r is Err ==> r->Err_0 == TodoError::StorageFailure,
    {
        match open_path(path) {
            Ok(db) => Ok(TodoStore { db }),
            Err(_) => Err(TodoError::StorageFailure),
        }
    }

    /// Stores a new task with `text` and `priority`, not done, under a fresh
    /// id, and returns that id once the change is on disk.
    pub fn add(&mut self, text: String, priority: Priority) -> (r: Result<u64, TodoError>)
        ensures
            (is_blank(text@) || !text_fits(text@)) ==> r == Err::<u64, TodoError>(
                TodoError::InvalidInput,
            ) && final(self).contents() == old(self).contents(),
            r != Err::<u64, TodoError>(TodoError::StorageFailure) ==> (match add_outcome(
                old(self).contents(),
                text@,
                priority,
            ) {
                Ok((id, c)) => r == Ok::<u64, TodoError>(id) && final(self).contents() == c,
                Err(e) => r == Err::<u64, TodoError>(e) && final(self).contents() == old(
                    self,
                ).contents(),
            }),
            r is Ok ==> r->Ok_0 == next_id_of(counter_of(old(self).contents()))->Ok_0,
            r is Ok ==> !old(self).contents().contains_key(key_of(r->Ok_0)),
            r is Ok ==> final(self).durable() == final(self).contents(),
    {
        if blank(text.as_str()) {
            return Err(TodoError::InvalidInput);
        }
        let n = text.as_str().as_bytes().len();
        if n > 0xffff_ffff {
            return Err(TodoError::InvalidInput);
        }
        let counter = counter_key_bytes();
        let stored = match db_get(&self.db, counter.as_slice()) {
            Ok(v) => v,
            Err(_) => return Err(TodoError::StorageFailure),
        };
        let id = match &stored {
            Some(v) => next_id(Some(v.as_slice())),
            None => next_id(None),
        }?;
        let key = storage_key(id);
        match db_get(&self.db, key.as_slice()) {
            Ok(Some(_)) => return Err(TodoError::CorruptRecord),
            Ok(None) => {},
            Err(_) => return Err(TodoError::StorageFailure),
        }
        let todo = Todo::new(id, text, priority);
        let record = todo.serialize();
        if db_insert(&mut self.db, counter.as_slice(), key.as_slice()).is_err() {
            return Err(TodoError::StorageFailure);
        }
        if db_insert(&mut self.db, key.as_slice(), record.as_slice()).is_err() {
            return Err(TodoError::StorageFailure);
        }
        if db_flush(&mut self.db).is_err() {
            return Err(TodoError::StorageFailure);
        }
        proof {
            lemma_be_bytes_len(id as nat, 8);
        }
        Ok(id)
    }

    /// The task stored under `id`.
    pub fn get(&self, id: u64) -> (r: Result<Todo, TodoError>)
        ensures
            r != Err::<Todo, TodoError>(TodoError::StorageFailure) ==> result_view(r) == get_outcome(
                self.contents(),
                id,
            ),
    {
        let key = storage_key(id);
        match db_get(&self.db, key.as_slice()) {
            Err(_) => Err(TodoError::StorageFailure),
            Ok(None) => Err(TodoError::NotFound),
            Ok(Some(v)) => Todo::deserialize(id, v.as_slice()),
        }
    }

    /// Marks the task stored under `id` done; a task already done is left
    /// as it is. Returns once the done task is on disk.
    pub fn complete(&mut self, id: u64) -> (r: Result<(), TodoError>)
        ensures
            r != Err::<(), TodoError>(TodoError::StorageFailure) ==> (match complete_outcome(
                old(self).contents(),
                id,
            ) {
                Ok(c) => r is Ok && final(self).contents() == c,
                Err(e) => r == Err::<(), TodoError>(e) && final(self).contents() == old(
                    self,
                ).contents(),
            }),
            r is Ok ==> final(self).durable() == final(self).contents(),
    {
        let mut todo = self.get(id)?;
        if todo.done {
            if db_flush(&mut self.db).is_err() {
                return Err(TodoError::StorageFailure);
            }
            return Ok(());
        }
        todo.done = true;
        proof {
            lemma_decoded_text_fits(id, self.contents()[key_of(id)]);
        }
        let record = todo.serialize();
        let key = storage_key(id);
        if db_insert(&mut self.db, key.as_slice(), record.as_slice()).is_err() {
            return Err(TodoError::StorageFailure);
        }
        if db_flush(&mut self.db).is_err() {
            return Err(TodoError::StorageFailure);
        }
        Ok(())
    }

    /// Deletes the task stored under `id`; returns, once the deletion is on
    /// disk, whether there was one.
    pub fn remove(&mut self, id: u64) -> (r: Result<bool, TodoError>)
        ensures
            r != Err::<bool, TodoError>(TodoError::StorageFailure) ==> r == Ok::<bool, TodoError>(
                old(self).contents().contains_key(key_of(id)),
            ) && final(self).contents() == old(self).contents().remove(key_of(id)),
            r is Ok ==> final(self).durable() == final(self).contents(),
    {
        let key = storage_key(id);
        let existed = match db_remove(&mut self.db, key.as_slice()) {
            Err(_) => return Err(TodoError::StorageFailure),
            Ok(old_value) => old_value.is_some(),
        };
        if db_flush(&mut self.db).is_err() {
            return Err(TodoError::StorageFailure);
        }
        Ok(existed)
    }

    /// The tasks that `filter` keeps, in ascending id order, with the ids of
    /// the records that could not be decoded.
    pub fn list(&self, filter: Filter) -> (r: Result<Listing, TodoError>)
        ensures
            r is Ok ==> is_listing(r->Ok_0, self.contents(), filter),
            r is Err ==> r->Err_0 == TodoError::StorageFailure,
    {
        let entries = match db_scan(&self.db) {
            Ok(es) => es,
            Err(_) => return Err(TodoError::StorageFailure),
        };
        let l = collect_listing(&entries, filter);
        proof {
            lemma_listing_of_scan(entries@, self.contents(), filter, l);
        }
        Ok(l)
    }
}

/// A record that decodes holds a text that fits the record format.
proof fn lemma_decoded_text_fits(id: u64, b: Seq<u8>)
    requires
        decode_spec(id, b) is Ok,
    ensures
        text_fits(decode_spec(id, b)->Ok_0.text),
{
    vstd::utf8::decode_utf8_encode_utf8(b.skip(7));
    lemma_be_value_bound(b.subrange(3, 7));
    reveal_with_fuel(pow256, 5);
}

/// The listing built from a scan of the whole store is the listing of the
/// store.
proof fn lemma_listing_of_scan(
    es: Seq<(Vec<u8>, Vec<u8>)>,
    c: Map<Seq<u8>, Seq<u8>>,
    f: Filter,
    l: Listing,
)
    requires
        scan_of(es, c),
        l.todos@.map_values(|t: Todo| t@) == listed(es, f),
        l.skipped@ == undecodable(es),
    ensures
        is_listing(l, c, f),
{
    let lt = listed(es, f);
    lemma_listed_sorted(es, f);
    lemma_listed_sound(es, f);
    lemma_undecodable_sound(es);
    reveal_with_fuel(pow256, 9);
    assert forall|i: int| 0 <= i < l.todos@.len() implies #[trigger] l.todos@[i]@ == lt[i] by {
        assert(l.todos@.map_values(|t: Todo| t@)[i] == l.todos@[i]@);
    }
    assert forall|i: int, j: int| 0 <= i < j < l.todos@.len() implies (#[trigger] l.todos@[i]).id
        < (#[trigger] l.todos@[j]).id by {
        assert(l.todos@[i]@ == lt[i] && l.todos@[j]@ == lt[j]);
    }
    assert forall|i: int| 0 <= i < l.todos@.len() implies get_outcome(
        c,
        (#[trigger] l.todos@[i]).id,
    ) == Ok::<TodoModel, TodoError>(l.todos@[i]@) && f.accepts(l.todos@[i]@) by {
        assert(l.todos@[i]@ == lt[i]);
        let k = choose|k: int|
            0 <= k < es.len() && #[trigger] entry_decode(es[k]) == Some(
                Ok::<TodoModel, TodoError>(#[trigger] listed(es, f)[i]),
            ) && f.accepts(listed(es, f)[i]);
        let key = es[k].0@;
        lemma_be_value_bound(key);
        lemma_be_bytes_of_value(key);
        assert(key_of(lt[i].id) == key);
    }
    assert forall|id: u64|
        #[trigger] get_outcome(c, id) is Ok && f.accepts(get_outcome(c, id)->Ok_0) implies exists|
            i: int,
        | 0 <= i < l.todos@.len() && (#[trigger] l.todos@[i]).id == id by {
        let key = key_of(id);
        let k = choose|k: int| 0 <= k < es.len() && #[trigger] es[k].0@ == key;
        lemma_be_bytes_len(id as nat, 8);
        lemma_be_round_trip(id as nat, 8);
        assert(entry_decode(es[k]) == Some(get_outcome(c, id)));
        lemma_listed_complete(es, f, k);
        let i = choose|i: int|
            0 <= i < listed(es, f).len() && Some(Ok::<TodoModel, TodoError>(
                #[trigger] listed(es, f)[i],
            )) == entry_decode(es[k]);
        assert(l.todos@[i]@ == lt[i]);
    }
    assert forall|j: int| 0 <= j < l.skipped@.len() implies c.contains_key(
        key_of(#[trigger] l.skipped@[j]),
    ) && get_outcome(c, l.skipped@[j]) is Err by {
        let k = choose|k: int|
            #![trigger es[k]]
            0 <= k < es.len() && undecodable_entry(es[k]) && be_value(es[k].0@)
                == undecodable(es)[j];
        let key = es[k].0@;
        lemma_be_value_bound(key);
        lemma_be_bytes_of_value(key);
        assert(key_of(l.skipped@[j]) == key);
    }
    assert forall|id: u64|
        c.contains_key(key_of(id)) && #[trigger] get_outcome(c, id) is Err implies exists|j: int|
        0 <= j < l.skipped@.len() && #[trigger] l.skipped@[j] == id by {
        let key = key_of(id);
        let k = choose|k: int| 0 <= k < es.len() && #[trigger] es[k].0@ == key;
        lemma_be_bytes_len(id as nat, 8);
        lemma_be_round_trip(id as nat, 8);
        assert(entry_decode(es[k]) == Some(get_outcome(c, id)));
        lemma_undecodable_complete(es, k);
    }
}

/// Each successful `add` issues the id right after the last one issued, and
/// the store then records that id as the last one issued.
pub proof fn lemma_add_issues_next_id(c: Map<Seq<u8>, Seq<u8>>, text: Seq<char>, priority: Priority)
    requires
        add_outcome(c, text, priority) is Ok,
    ensures
        last_issued(c) is Some,
        add_outcome(c, text, priority)->Ok_0.0 == last_issued(c)->Some_0 + 1,
        last_issued(add_outcome(c, text, priority)->Ok_0.1) == Some(
            add_outcome(c, text, priority)->Ok_0.0 as nat,
        ),
{
    let id = add_outcome(c, text, priority)->Ok_0.0;
    lemma_be_bytes_len(id as nat, 8);
    reveal_with_fuel(pow256, 9);
    lemma_be_round_trip(id as nat, 8);
    assert(key_of(id) != counter_key());
}

/// `complete` and `remove` leave the counter of issued ids as it is.
pub proof fn lemma_complete_and_remove_keep_counter(c: Map<Seq<u8>, Seq<u8>>, id: u64)
    ensures
        complete_outcome(c, id) is Ok ==> last_issued(complete_outcome(c, id)->Ok_0) == last_issued(c),
        last_issued(c.remove(key_of(id))) == last_issued(c),
{
    lemma_be_bytes_len(id as nat, 8);
    assert(key_of(id) != counter_key());
}

/// After a successful `add`, `get` of the issued id returns the new task.
pub proof fn lemma_get_after_add(c: Map<Seq<u8>, Seq<u8>>, text: Seq<char>, priority: Priority)
    requires
        add_outcome(c, text, priority) is Ok,
    ensures
        get_outcome(add_outcome(c, text, priority)->Ok_0.1, add_outcome(c, text, priority)->Ok_0.0)
            == Ok::<TodoModel, TodoError>(
            TodoModel {
                id: add_outcome(c, text, priority)->Ok_0.0,
                text,
                priority,
                done: false,
            },
        ),
{
    let id = add_outcome(c, text, priority)->Ok_0.0;
    lemma_round_trip(TodoModel { id, text, priority, done: false });
}

/// One successful call that changes a store: `add`, `complete` or `remove`.
pub ghost enum StoreStep {
    Add(Seq<char>, Priority),
    Complete(u64),
    Remove(u64),
}

/// What a store holding `c` holds after `step`, or the error it fails with.
pub open spec fn step_outcome(c: Map<Seq<u8>, Seq<u8>>, step: StoreStep) -> Result<
    Map<Seq<u8>, Seq<u8>>,
    TodoError,
> {
    match step {
        StoreStep::Add(text, priority) => match add_outcome(c, text, priority) {
            Ok((_, c2)) => Ok(c2),
            Err(e) => Err(e),
        },
        StoreStep::Complete(id) => complete_outcome(c, id),
        StoreStep::Remove(id) => Ok(c.remove(key_of(id))),
    }
}

/// The id that the `add` of `step` issues on a store holding `c`.
pub open spec fn issued_id(c: Map<Seq<u8>, Seq<u8>>, step: StoreStep) -> u64 {
    match step {
        StoreStep::Add(text, priority) => add_outcome(c, text, priority)->Ok_0.0,
        _ => 0,
    }
}

/// `states[k + 1]` is what the store holds after `steps[k]` succeeds on
/// `states[k]`.
pub open spec fn is_history(states: Seq<Map<Seq<u8>, Seq<u8>>>, steps: Seq<StoreStep>) -> bool {
    &&& states.len() == steps.len() + 1
    &&& forall|k: int|
        0 <= k < steps.len() ==> step_outcome(#[trigger] states[k], steps[k]) == Ok::<
            Map<Seq<u8>, Seq<u8>>,
            TodoError,
        >(states[k + 1])
}

/// Along a history the counter of issued ids never goes down.
pub proof fn lemma_counter_never_decreases(
    states: Seq<Map<Seq<u8>, Seq<u8>>>,
    steps: Seq<StoreStep>,
    a: int,
    b: int,
)
    requires
        is_history(states, steps),
        0 <= a <= b < states.len(),
        last_issued(states[a]) is Some,
    ensures
        last_issued(states[b]) is Some,
        last_issued(states[a])->Some_0 <= last_issued(states[b])->Some_0,
    decreases b - a,
{
    if a < b {
        let c = states[a];
        assert(step_outcome(c, steps[a]) == Ok::<Map<Seq<u8>, Seq<u8>>, TodoError>(states[a + 1]));
        match steps[a] {
            StoreStep::Add(text, priority) => {
                lemma_add_issues_next_id(c, text, priority);
            },
            StoreStep::Complete(id) => {
                lemma_complete_and_remove_keep_counter(c, id);
            },
            StoreStep::Remove(id) => {
                lemma_complete_and_remove_keep_counter(c, id);
            },
        }
        lemma_counter_never_decreases(states, steps, a + 1, b);
    }
}

/// Over any history of successful `add`, `complete` and `remove` calls, each
/// `add` issues an id greater than every id issued before it: ids strictly
/// increase in issuance order and none is issued twice, whatever was
/// removed in between.
pub proof fn lemma_ids_increase_over_history(
    states: Seq<Map<Seq<u8>, Seq<u8>>>,
    steps: Seq<StoreStep>,
    i: int,
    j: int,
)
    requires
        is_history(states, steps),
        0 <= i < j < steps.len(),
        steps[i] is Add,
        steps[j] is Add,
    ensures
        issued_id(states[i], steps[i]) < issued_id(states[j], steps[j]),
{
    let ci = states[i];
    let cj = states[j];
    assert(step_outcome(ci, steps[i]) == Ok::<Map<Seq<u8>, Seq<u8>>, TodoError>(states[i + 1]));
    assert(step_outcome(cj, steps[j]) == Ok::<Map<Seq<u8>, Seq<u8>>, TodoError>(states[j + 1]));
    match steps[i] {
        StoreStep::Add(t, p) => lemma_add_issues_next_id(ci, t, p),
        _ => {},
    }
    lemma_counter_never_decreases(states, steps, i + 1, j);
    match steps[j] {
        StoreStep::Add(t, p) => lemma_add_issues_next_id(cj, t, p),
        _ => {},
    }
}

/// Completing a task twice leaves the store as completing it once does.
pub proof fn lemma_complete_idempotent(c: Map<Seq<u8>, Seq<u8>>, id: u64)
    ensures
        complete_outcome(c, id) is Ok ==> complete_outcome(complete_outcome(c, id)->Ok_0, id)
            == complete_outcome(c, id),
{
    if complete_outcome(c, id) is Ok {
        let t = get_outcome(c, id)->Ok_0;
        if !t.done {
            lemma_decoded_text_fits(id, c[key_of(id)]);
            let t1 = TodoModel { done: true, ..t };
            lemma_round_trip(t1);
        }
    }
}

} // verus!
