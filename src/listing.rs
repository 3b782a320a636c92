//! Turning an ordered scan of the store into a listing of tasks.
use crate::keys::{be_value, key_id, lemma_be_value_bound, lemma_lex_lt_be_value, lex_lt, pow256};
use crate::record::{decode_spec, Priority, Todo, TodoError, TodoModel};
use vstd::prelude::*;

verus! {

/// Which tasks a listing keeps.
#[derive(Clone, Copy, Debug, PartialEq, Eq, Structural)]
pub enum Filter {
    /// Every task.
    All,
    /// The tasks not done yet.
    Pending,
    /// The tasks at least as urgent as the given priority.
    AtLeast(Priority),
}

impl Filter {
    pub open spec fn accepts(self, t: TodoModel) -> bool {
        match self {
            Filter::All => true,
            Filter::Pending => !t.done,
            Filter::AtLeast(p) => t.priority.tag() <= p.tag(),
        }
    }

    /// Whether the filter keeps `t`.
    pub fn admits(&self, t: &Todo) -> (r: bool)
        ensures
            r == self.accepts(t@),
    {
        match self {
            Filter::All => true,
            Filter::Pending => !t.done,
            Filter::AtLeast(p) => t.priority.discriminant() <= p.discriminant(),
        }
    }
}

/// The tasks of a listing, in key order, and the ids of the records that
/// could not be decoded and were left out.
pub struct Listing {
    pub todos: Vec<Todo>,
    pub skipped: Vec<u64>,
}

/// What the entry `(key, value)` decodes to, where `key` is a record key
/// (eight bytes); the other keys hold the store's own bookkeeping.
pub open spec fn entry_decode(e: (Vec<u8>, Vec<u8>)) -> Option<Result<TodoModel, TodoError>> {
    if e.0@.len() == 8 {
        Some(decode_spec(be_value(e.0@) as u64, e.1@))
    } else {
        None
    }
}

/// The tasks that the entries `es` hold and `f` keeps, in the entries' order.
pub open spec fn listed(es: Seq<(Vec<u8>, Vec<u8>)>, f: Filter) -> Seq<TodoModel>
    decreases es.len(),
{
    if es.len() == 0 {
        Seq::empty()
    } else {
        let rest = listed(es.drop_last(), f);
        match entry_decode(es.last()) {
            Some(Ok(t)) => if f.accepts(t) {
                rest.push(t)
            } else {
                rest
            },
            _ => rest,
        }
    }
}

/// `e` is a record entry that does not decode.
pub open spec fn undecodable_entry(e: (Vec<u8>, Vec<u8>)) -> bool {
    entry_decode(e) matches Some(Err(_))
}

/// The ids of the record entries of `es` that do not decode, in order.
pub open spec fn undecodable(es: Seq<(Vec<u8>, Vec<u8>)>) -> Seq<u64>
    decreases es.len(),
{
    if es.len() == 0 {
        Seq::empty()
    } else {
        let rest = undecodable(es.drop_last());
        match entry_decode(es.last()) {
            Some(Err(_)) => rest.push(be_value(es.last().0@) as u64),
            _ => rest,
        }
    }
}

/// The listing of the entries `entries` under `filter`: each record entry is
/// decoded; a record that decodes and passes the filter is kept, one that
/// does not decode is reported by id and skipped.
pub fn collect_listing(entries: &Vec<(Vec<u8>, Vec<u8>)>, filter: Filter) -> (r: Listing)
    ensures
        r.todos@.map_values(|t: Todo| t@) == listed(entries@, filter),
        r.skipped@ == undecodable(entries@),
{
    let mut todos: Vec<Todo> = Vec::new();
    let mut skipped: Vec<u64> = Vec::new();
    let n = entries.len();
    let mut i: usize = 0;
    while i < n
        invariant
            n == entries@.len(),
            i <= n,
            todos@.map_values(|t: Todo| t@) == listed(entries@.take(i as int), filter),
            skipped@ == undecodable(entries@.take(i as int)),
        decreases n - i,
    {
        let ghost before = todos@;
        assert(entries@.take(i + 1).drop_last() == entries@.take(i as int));
        assert(entries@.take(i + 1).last() == entries@[i as int]);
        let key = &entries[i].0;
        let value = &entries[i].1;
        if key.len() == 8 {
            let id = key_id(key.as_slice());
            proof {
                lemma_be_value_bound(key@);
                reveal_with_fuel(pow256, 9);
            }
            match Todo::deserialize(id, value.as_slice()) {
                Ok(t) => {
                    if filter.admits(&t) {
                        todos.push(t);
                        assert(todos@.map_values(|t: Todo| t@) =~= before.map_values(
                            |t: Todo| t@,
                        ).push(todos@.last()@));
                    }
                },
                Err(_) => {
                    skipped.push(id);
                },
            }
        }
        i = i + 1;
    }
    assert(entries@.take(n as int) == entries@);
    Listing { todos, skipped }
}

/// Every listed task comes from a record entry that decodes to it.
pub proof fn lemma_listed_sound(es: Seq<(Vec<u8>, Vec<u8>)>, f: Filter)
    ensures
        forall|i: int|
            0 <= i < listed(es, f).len() ==> exists|k: int|
                0 <= k < es.len() && #[trigger] entry_decode(es[k]) == Some(
                    Ok::<TodoModel, TodoError>(#[trigger] listed(es, f)[i]),
                ) && f.accepts(listed(es, f)[i]),
    decreases es.len(),
{
    if es.len() > 0 {
        let es1 = es.drop_last();
        lemma_listed_sound(es1, f);
        assert forall|i: int| 0 <= i < listed(es, f).len() implies exists|k: int|
            0 <= k < es.len() && #[trigger] entry_decode(es[k]) == Some(
                Ok::<TodoModel, TodoError>(#[trigger] listed(es, f)[i]),
            ) && f.accepts(listed(es, f)[i]) by {
            if i < listed(es1, f).len() {
                let k = choose|k: int|
                    0 <= k < es1.len() && #[trigger] entry_decode(es1[k]) == Some(
                        Ok::<TodoModel, TodoError>(#[trigger] listed(es1, f)[i]),
                    ) && f.accepts(listed(es1, f)[i]);
                assert(es[k] == es1[k]);
            } else {
                assert(es[es.len() - 1] == es.last());
            }
        }
    }
}

/// Every record entry that decodes to a task the filter keeps is listed.
pub proof fn lemma_listed_complete(es: Seq<(Vec<u8>, Vec<u8>)>, f: Filter, k: int)
    requires
        0 <= k < es.len(),
        entry_decode(es[k]) matches Some(Ok(t)) && f.accepts(t),
    ensures
        exists|i: int|
            0 <= i < listed(es, f).len() && Some(Ok::<TodoModel, TodoError>(
                #[trigger] listed(es, f)[i],
            )) == entry_decode(es[k]),
    decreases es.len(),
{
    let es1 = es.drop_last();
    if k == es.len() - 1 {
        assert(es.last() == es[k]);
        let i = listed(es1, f).len() as int;
        assert(listed(es, f)[i] == entry_decode(es[k])->Some_0->Ok_0);
    } else {
        assert(es1[k] == es[k]);
        lemma_listed_complete(es1, f, k);
        let i = choose|i: int|
            0 <= i < listed(es1, f).len() && Some(Ok::<TodoModel, TodoError>(
                #[trigger] listed(es1, f)[i],
            )) == entry_decode(es1[k]);
        assert(listed(es, f)[i] == listed(es1, f)[i]);
    }
}

/// Record entries in ascending key order give tasks in ascending id order.
pub proof fn lemma_listed_sorted(es: Seq<(Vec<u8>, Vec<u8>)>, f: Filter)
    requires
        forall|i: int, j: int|
            0 <= i < j < es.len() ==> lex_lt(#[trigger] es[i].0@, #[trigger] es[j].0@),
    ensures
        forall|i: int, j: int|
            0 <= i < j < listed(es, f).len() ==> (#[trigger] listed(es, f)[i]).id
                < (#[trigger] listed(es, f)[j]).id,
    decreases es.len(),
{
    if es.len() > 0 {
        let es1 = es.drop_last();
        let l1 = listed(es1, f);
        let l = listed(es, f);
        assert forall|i: int, j: int| 0 <= i < j < es1.len() implies lex_lt(
            #[trigger] es1[i].0@,
            #[trigger] es1[j].0@,
        ) by {
            assert(es1[i] == es[i] && es1[j] == es[j]);
        }
        lemma_listed_sorted(es1, f);
        lemma_listed_sound(es1, f);
        let last = es.last();
        if l.len() > l1.len() {
            assert forall|i: int, j: int| 0 <= i < j < l.len() implies (#[trigger] l[i]).id
                < (#[trigger] l[j]).id by {
                if j == l.len() - 1 {
                    let k = choose|k: int|
                        0 <= k < es1.len() && #[trigger] entry_decode(es1[k]) == Some(
                            Ok::<TodoModel, TodoError>(#[trigger] l1[i]),
                        ) && f.accepts(l1[i]);
                    assert(es1[k] == es[k]);
                    assert(es[es.len() - 1] == last);
                    lemma_lex_lt_be_value(es[k].0@, last.0@);
                    lemma_be_value_bound(es[k].0@);
                    lemma_be_value_bound(last.0@);
                    reveal_with_fuel(pow256, 9);
                } else {
                    assert(l[i] == l1[i] && l[j] == l1[j]);
                }
            }
        }
    }
}

/// Every id reported as undecodable comes from a record entry that does not
/// decode.
pub proof fn lemma_undecodable_sound(es: Seq<(Vec<u8>, Vec<u8>)>)
    ensures
        forall|j: int|
            #![trigger undecodable(es)[j]]
            0 <= j < undecodable(es).len() ==> exists|k: int|
                #![trigger es[k]]
                0 <= k < es.len() && undecodable_entry(es[k]) && be_value(es[k].0@)
                    == undecodable(es)[j],
    decreases es.len(),
{
    if es.len() > 0 {
        let es1 = es.drop_last();
        lemma_undecodable_sound(es1);
        assert forall|j: int| #![trigger undecodable(es)[j]] 0 <= j < undecodable(es).len() implies exists|k: int|
            #![trigger es[k]]
            0 <= k < es.len() && undecodable_entry(es[k]) && be_value(es[k].0@)
                == undecodable(es)[j] by {
            if j < undecodable(es1).len() {
                let k = choose|k: int|
                    #![trigger es1[k]]
                    0 <= k < es1.len() && undecodable_entry(es1[k]) && be_value(es1[k].0@)
                        == undecodable(es1)[j];
                assert(es[k] == es1[k]);
            } else {
                let k = es.len() - 1;
                assert(es[k] == es.last());
                assert(undecodable_entry(es[k]));
                lemma_be_value_bound(es[k].0@);
                reveal_with_fuel(pow256, 9);
                assert(undecodable(es)[j] == be_value(es[k].0@) as u64);
                assert(be_value(es[k].0@) == undecodable(es)[j]);
            }
        }
    } else {
        assert(undecodable(es).len() == 0);
    }
}

/// Every record entry that does not decode is reported.
pub proof fn lemma_undecodable_complete(es: Seq<(Vec<u8>, Vec<u8>)>, k: int)
    requires
        0 <= k < es.len(),
        undecodable_entry(es[k]),
    ensures
        exists|j: int|
            0 <= j < undecodable(es).len() && #[trigger] undecodable(es)[j] == be_value(es[k].0@),
    decreases es.len(),
{
    let es1 = es.drop_last();
    lemma_be_value_bound(es[k].0@);
    reveal_with_fuel(pow256, 9);
    if k == es.len() - 1 {
        assert(es.last() == es[k]);
        let j = undecodable(es1).len() as int;
        assert(undecodable(es)[j] == be_value(es[k].0@));
    } else {
        assert(es1[k] == es[k]);
        lemma_undecodable_complete(es1, k);
        let j = choose|j: int|
            0 <= j < undecodable(es1).len() && #[trigger] undecodable(es1)[j] == be_value(
                es1[k].0@,
            );
        assert(undecodable(es)[j] == undecodable(es1)[j]);
    }
}

} // verus!
