//! The server's in-memory key-value store. A key holds either a string or a
//! list of strings.
use std::collections::VecDeque;
use vstd::hash_map::StringHashMap;
use vstd::prelude::*;

verus! {

/// The data a key can hold.
#[derive(Debug, Clone, PartialEq, Eq)]
pub enum Value {
    String(String),
    List(VecDeque<String>),
}

/// The mathematical content of a `Value`.
pub enum StoredValue {
    Text(Seq<char>),
    List(Seq<Seq<char>>),
}

impl View for Value {
    type V = StoredValue;

    open spec fn view(&self) -> StoredValue {
        match self {
            Value::String(s) => StoredValue::Text(s@),
            Value::List(l) => StoredValue::List(l.deep_view()),
        }
    }
}

/// Why the store refused an operation.
#[derive(Debug, PartialEq, Eq)]
pub enum StorageError {
    /// A list operation named a key that holds a string.
    WrongType,
}

impl StorageError {
    /// The text of the error, as Redis words it.
    pub open spec fn spec_message(self) -> Seq<char> {
        "WRONGTYPE Operation against a key holding the wrong kind of value"@
    }

    /// The text of the error, as Redis words it.
    pub fn message(&self) -> (r: String)
        ensures
            r@ == self.spec_message(),
    {
        String::from_str("WRONGTYPE Operation against a key holding the wrong kind of value")
    }
}

/// A stored value plus whatever bookkeeping goes with it.
struct Entry {
    value: Value,
}

/// The contents of a store: what each key holds.
pub type StoreView = Map<Seq<char>, StoredValue>;

/// What `key` holds in `m`, if anything.
pub open spec fn lookup(m: StoreView, key: Seq<char>) -> Option<StoredValue> {
    if m.contains_key(key) {
        Some(m[key])
    } else {
        None
    }
}

/// The list that `key` holds; a key that holds nothing holds the empty list.
pub open spec fn list_at(m: StoreView, key: Seq<char>) -> Seq<Seq<char>> {
    match lookup(m, key) {
        Some(StoredValue::List(l)) => l,
        _ => Seq::empty(),
    }
}

/// `values` pushed one by one onto the head (`at_front`) or the tail of the
/// list that `key` holds, creating the list where `key` holds nothing: the
/// store afterwards and the list's new length. A key that holds a string
/// refuses, and the store stays as it is; so does a push of no values.
pub open spec fn push_spec(
    m: StoreView,
    key: Seq<char>,
    values: Seq<Seq<char>>,
    at_front: bool,
) -> (StoreView, Result<nat, StorageError>) {
    match lookup(m, key) {
        Some(StoredValue::Text(_)) => (m, Err(StorageError::WrongType)),
        _ => {
            let list = list_at(m, key);
            let new_list = if at_front {
                values.reverse() + list
            } else {
                list + values
            };
            (
                if values.len() == 0 {
                    m
                } else {
                    m.insert(key, StoredValue::List(new_list))
                },
                Ok(new_list.len()),
            )
        },
    }
}

/// The part of a list of length `len` that `LRANGE start stop` selects, as
/// the bounds `[lo, hi)`: both indices inclusive, a negative index counts
/// from the end, and indices out of range are clamped.
pub open spec fn range_bounds(len: int, start: int, stop: int) -> (int, int) {
    let s0 = if start < 0 {
        start + len
    } else {
        start
    };
    let e0 = if stop < 0 {
        stop + len
    } else {
        stop
    };
    let s = if s0 < 0 {
        0
    } else {
        s0
    };
    if s > e0 || s >= len {
        (0, 0)
    } else {
        (s, if e0 >= len {
            len
        } else {
            e0 + 1
        })
    }
}

/// The elements of `list` that `LRANGE start stop` selects.
pub open spec fn list_range(list: Seq<Seq<char>>, start: int, stop: int) -> Seq<Seq<char>> {
    let (lo, hi) = range_bounds(list.len() as int, start, stop);
    list.subrange(lo, hi)
}

/// `LRANGE key start stop` on `m`: a key that holds nothing acts as the
/// empty list; one that holds a string refuses.
pub open spec fn range_spec(m: StoreView, key: Seq<char>, start: int, stop: int) -> Result<
    Seq<Seq<char>>,
    StorageError,
> {
    match lookup(m, key) {
        Some(StoredValue::Text(_)) => Err(StorageError::WrongType),
        _ => Ok(list_range(list_at(m, key), start, stop)),
    }
}

/// The server's in-memory key-value store.
pub struct KeyValueStore {
    entries: StringHashMap<Entry>,
}

impl View for KeyValueStore {
    type V = StoreView;

    closed spec fn view(&self) -> StoreView {
        self.entries@.map_values(|e: Entry| e.value@)
    }
}

/// A copy of the strings of `l`, in order.
fn copy_list(l: &VecDeque<String>) -> (r: VecDeque<String>)
    ensures
        r.deep_view() == l.deep_view(),
{
    let mut r: VecDeque<String> = VecDeque::new();
    let mut i: usize = 0;
    while i < l.len()
        invariant
            i <= l.len(),
            r.deep_view() == l.deep_view().take(i as int),
        decreases l.len() - i,
    {
        let ghost prev = r.deep_view();
        let ghost prev_r = r@;
        let x = l[i].clone();
        r.push_back(x);
        proof {
            assert(r@ == prev_r.push(x));
            assert(r@.len() == prev_r.len() + 1);
            assert(prev.len() == prev_r.len());
            assert(r.deep_view().len() == r@.len());
            assert(r.deep_view()[0] == r@[0].deep_view());
            assert forall|j: int| 0 <= j < i implies #[trigger] r.deep_view()[j] == prev[j] by {}
        }
        i = i + 1;
        assert(r.deep_view() =~= l.deep_view().take(i as int));
    }
    assert(l.deep_view().take(i as int) =~= l.deep_view());
    r
}

/// A copy of the value `v`.
fn copy_value(v: &Value) -> (r: Value)
    ensures
        r@ == v@,
{
    match v {
        Value::String(s) => Value::String(s.clone()),
        Value::List(l) => Value::List(copy_list(l)),
    }
}

impl Default for KeyValueStore {
    fn default() -> (r: KeyValueStore)
        ensures
            r@ == Map::<Seq<char>, StoredValue>::empty(),
    {
        KeyValueStore::new()
    }
}

impl KeyValueStore {
    /// An empty store.
    pub fn new() -> (r: KeyValueStore)
        ensures
            r@ == Map::<Seq<char>, StoredValue>::empty(),
    {
        let r = KeyValueStore { entries: StringHashMap::new() };
        assert(r@ =~= Map::<Seq<char>, StoredValue>::empty());
        r
    }

    /// Store `value` under `key`, overwriting whatever was there before.
    pub fn set(&mut self, key: String, value: Value)
        ensures
            final(self)@ == old(self)@.insert(key@, value@),
    {
        let ghost k = key@;
        let ghost v = value@;
        self.entries.insert(key, Entry { value });
        assert(self@ =~= old(self)@.insert(k, v));
    }

    /// Look up `key`, returning a copy of its value if present.
    pub fn get(&self, key: &str) -> (r: Option<Value>)
        ensures
            match r {
                Some(v) => lookup(self@, key@) == Some(v@),
                None => lookup(self@, key@) is None,
            },
    {
        match self.entries.get(key) {
            Some(entry) => Some(copy_value(&entry.value)),
            None => None,
        }
    }

    /// The list stored under `key` (empty where `key` holds nothing), or
    /// `WrongType` where `key` holds a string.
    fn list_of(&self, key: &str) -> (r: Result<VecDeque<String>, StorageError>)
        ensures
            match r {
                Ok(l) => !(lookup(self@, key@) matches Some(StoredValue::Text(_))) && l.deep_view()
                    == list_at(self@, key@),
                Err(e) => lookup(self@, key@) matches Some(StoredValue::Text(_)) && e
                    == StorageError::WrongType,
            },
    {
        match self.entries.get(key) {
            Some(entry) => match &entry.value {
                Value::String(_) => Err(StorageError::WrongType),
                Value::List(l) => Ok(copy_list(l)),
            },
            None => {
                let l: VecDeque<String> = VecDeque::new();
                assert(l.deep_view() =~= Seq::<Seq<char>>::empty());
                Ok(l)
            },
        }
    }

    /// Push each of `values`, in order, onto the head of the list at `key`,
    /// creating the list if needed. Returns the list's new length.
    pub fn push_front(&mut self, key: String, values: Vec<String>) -> (r: Result<usize, StorageError>)
        ensures
            (final(self)@, r) == ({
                let (m, res) = push_spec(old(self)@, key@, values.deep_view(), true);
                (m, match res {
                    Ok(n) => Ok(n as usize),
                    Err(e) => Err(e),
                })
            }),
            r matches Ok(n) ==> n == list_at(old(self)@, key@).len() + values.len(),
    {
        let mut list = match self.list_of(key.as_str()) {
            Ok(l) => l,
            Err(e) => return Err(e),
        };
        let ghost old_list = list.deep_view();
        let ghost vals = values.deep_view();
        let mut i: usize = 0;
        while i < values.len()
            invariant
                i <= values.len(),
                vals == values.deep_view(),
                list.deep_view() == vals.take(i as int).reverse() + old_list,
            decreases values.len() - i,
        {
            let ghost prev = list.deep_view();
            let ghost prev_l = list@;
            let x = values[i].clone();
            list.push_front(x);
            proof {
                assert(list@ == seq![x] + prev_l);
                assert(list.deep_view()[0] == x@);
                assert(x@ == vals[i as int]);
                assert forall|j: int| 0 <= j < prev.len() implies #[trigger] list.deep_view()[j + 1]
                    == prev[j] by {}
                assert(vals.take(i + 1).reverse() =~= seq![vals[i as int]] + vals.take(
                    i as int,
                ).reverse());
                assert(list.deep_view() =~= seq![x@] + prev);
                assert(list.deep_view() =~= vals.take(i + 1).reverse() + old_list);
            }
            i = i + 1;
            assert(list.deep_view() =~= vals.take(i as int).reverse() + old_list);
        }
        assert(vals.take(i as int) =~= vals);
        let length = list.len();
        if values.len() > 0 {
            let ghost k = key@;
            let ghost lv = StoredValue::List(list.deep_view());
            self.entries.insert(key, Entry { value: Value::List(list) });
            assert(self@ =~= old(self)@.insert(k, lv));
        }
        Ok(length)
    }

    /// Push each of `values`, in order, onto the tail of the list at `key`,
    /// creating the list if needed. Returns the list's new length.
    pub fn push_back(&mut self, key: String, values: Vec<String>) -> (r: Result<usize, StorageError>)
        ensures
            (final(self)@, r) == ({
                let (m, res) = push_spec(old(self)@, key@, values.deep_view(), false);
                (m, match res {
                    Ok(n) => Ok(n as usize),
                    Err(e) => Err(e),
                })
            }),
            r matches Ok(n) ==> n == list_at(old(self)@, key@).len() + values.len(),
    {
        let mut list = match self.list_of(key.as_str()) {
            Ok(l) => l,
            Err(e) => return Err(e),
        };
        let ghost old_list = list.deep_view();
        let ghost vals = values.deep_view();
        let mut i: usize = 0;
        while i < values.len()
            invariant
                i <= values.len(),
                vals == values.deep_view(),
                list.deep_view() == old_list + vals.take(i as int),
            decreases values.len() - i,
        {
            let ghost prev = list.deep_view();
            let ghost prev_l = list@;
            let x = values[i].clone();
            list.push_back(x);
            proof {
                assert(list@ == prev_l.push(x));
                assert(list.deep_view()[prev_l.len() as int] == x@);
                assert(x@ == vals[i as int]);
                assert forall|j: int| 0 <= j < prev.len() implies #[trigger] list.deep_view()[j]
                    == prev[j] by {}
            }
            i = i + 1;
            assert(list.deep_view() =~= old_list + vals.take(i as int));
        }
        assert(vals.take(i as int) =~= vals);
        let length = list.len();
        if values.len() > 0 {
            let ghost k = key@;
            let ghost lv = StoredValue::List(list.deep_view());
            self.entries.insert(key, Entry { value: Value::List(list) });
            assert(self@ =~= old(self)@.insert(k, lv));
        }
        Ok(length)
    }

    /// The elements of the list at `key` from `start` to `stop`, both
    /// inclusive; negative indices count from the end, and indices out of
    /// range are clamped. A missing key acts as an empty list.
    pub fn range(&self, key: &str, start: i64, stop: i64) -> (r: Result<Vec<String>, StorageError>)
        ensures
            match r {
                Ok(v) => range_spec(self@, key@, start as int, stop as int) == Ok::<
                    Seq<Seq<char>>,
                    StorageError,
                >(v.deep_view()),
                Err(e) => range_spec(self@, key@, start as int, stop as int) == Err::<
                    Seq<Seq<char>>,
                    StorageError,
                >(e),
            },
    {
        let list = match self.list_of(key) {
            Ok(l) => l,
            Err(e) => return Err(e),
        };
        let len: i128 = list.len() as i128;
        let mut s: i128 = start as i128;
        let mut e: i128 = stop as i128;
        if s < 0 {
            s = s + len;
        }
        if e < 0 {
            e = e + len;
        }
        if s < 0 {
            s = 0;
        }
        let mut out: Vec<String> = Vec::new();
        if s > e || s >= len {
            assert(out.deep_view() =~= list_range(list.deep_view(), start as int, stop as int));
            return Ok(out);
        }
        if e >= len {
            e = len - 1;
        }
        let lo: usize = s as usize;
        let hi: usize = (e + 1) as usize;
        let mut i: usize = lo;
        while i < hi
            invariant
                lo <= i <= hi <= list.len(),
                out.deep_view() == list.deep_view().subrange(lo as int, i as int),
            decreases hi - i,
        {
            let ghost prev = out.deep_view();
            let ghost prev_o = out@;
            let x = list[i].clone();
            out.push(x);
            proof {
                assert(out@ == prev_o.push(x));
                assert(out.deep_view()[prev_o.len() as int] == x@);
                assert forall|j: int| 0 <= j < prev.len() implies #[trigger] out.deep_view()[j]
                    == prev[j] by {}
            }
            i = i + 1;
            assert(out.deep_view() =~= list.deep_view().subrange(lo as int, i as int));
        }
        Ok(out)
    }
}

// ---------------------------------------------------------------------------
// Laws of the store.
// ---------------------------------------------------------------------------

/// A read gives back what the last write to its key wrote, and a write
/// leaves every other key as it was.
pub proof fn lemma_get_after_set(m: StoreView, key: Seq<char>, value: StoredValue, other: Seq<char>)
    ensures
        lookup(m.insert(key, value), key) == Some(value),
        other != key ==> lookup(m.insert(key, value), other) == lookup(m, other),
{
}

/// `LRANGE key 0 -1` selects the whole list.
pub proof fn lemma_range_whole(list: Seq<Seq<char>>)
    ensures
        list_range(list, 0, -1) == list,
{
    assert(list.subrange(0, list.len() as int) =~= list);
}

/// `LRANGE` never fails on a list: whatever the indices, it selects a
/// contiguous part of the list that lies within it.
pub proof fn lemma_range_clamped(len: int, start: int, stop: int)
    requires
        len >= 0,
    ensures
        0 <= range_bounds(len, start, stop).0 <= range_bounds(len, start, stop).1 <= len,
{
}

/// A key that holds nothing reads as the empty list.
pub proof fn lemma_missing_key_is_empty_list(m: StoreView, key: Seq<char>, start: int, stop: int)
    requires
        lookup(m, key) is None,
    ensures
        range_spec(m, key, start, stop) == Ok::<Seq<Seq<char>>, StorageError>(Seq::empty()),
{
    assert(list_range(Seq::<Seq<char>>::empty(), start, stop) =~= Seq::<Seq<char>>::empty());
}

/// A list operation on a key that holds a string fails with `WRONGTYPE`
/// and leaves the store as it was.
pub proof fn lemma_wrong_type(
    m: StoreView,
    key: Seq<char>,
    values: Seq<Seq<char>>,
    at_front: bool,
    start: int,
    stop: int,
)
    requires
        lookup(m, key) matches Some(StoredValue::Text(_)),
    ensures
        push_spec(m, key, values, at_front) == (m, Err::<nat, StorageError>(StorageError::WrongType)),
        range_spec(m, key, start, stop) == Err::<Seq<Seq<char>>, StorageError>(
            StorageError::WrongType,
        ),
{
}

/// A push of one or more values makes the key hold the list with the values
/// in front (each pushed onto the head in turn, so in reverse order) or
/// behind; the reply is that list's length, and `LRANGE key 0 -1` reads it
/// back whole.
pub proof fn lemma_push_then_range(
    m: StoreView,
    key: Seq<char>,
    values: Seq<Seq<char>>,
    at_front: bool,
)
    requires
        !(lookup(m, key) matches Some(StoredValue::Text(_))),
        values.len() > 0,
    ensures
        ({
            let new_list = if at_front {
                values.reverse() + list_at(m, key)
            } else {
                list_at(m, key) + values
            };
            let (m2, r) = push_spec(m, key, values, at_front);
            &&& r == Ok::<nat, StorageError>(new_list.len())
            &&& new_list.len() == list_at(m, key).len() + values.len()
            &&& list_at(m2, key) == new_list
            &&& range_spec(m2, key, 0, -1) == Ok::<Seq<Seq<char>>, StorageError>(new_list)
        }),
{
    let new_list = if at_front {
        values.reverse() + list_at(m, key)
    } else {
        list_at(m, key) + values
    };
    lemma_range_whole(new_list);
}

/// What `LRANGE start stop` selects from a list of length `len`, index by
/// index: both indices are inclusive; a non-negative start stays where it
/// is, and a stop past the end is clamped to the last element; a negative
/// index counts from the end (`-1` is the last element), and one that
/// reaches past the front acts as `0`; a start past the end, or behind the
/// stop, selects nothing.
pub proof fn lemma_range_selects(list: Seq<Seq<char>>, start: int, stop: int)
    ensures
        0 <= start <= stop < list.len() ==> list_range(list, start, stop) == list.subrange(
            start,
            stop + 1,
        ),
        0 <= start < list.len() <= stop ==> list_range(list, start, stop) == list.subrange(
            start,
            list.len() as int,
        ),
        -list.len() <= start < 0 ==> list_range(list, start, stop) == list_range(
            list,
            start + list.len(),
            stop,
        ),
        -list.len() <= stop < 0 ==> list_range(list, start, stop) == list_range(
            list,
            start,
            stop + list.len(),
        ),
        start < -list.len() ==> list_range(list, start, stop) == list_range(list, 0, stop),
        start >= list.len() ==> list_range(list, start, stop).len() == 0,
        0 <= stop < start ==> list_range(list, start, stop).len() == 0,
        forall|i: int|
            0 <= i < list_range(list, start, stop).len() ==> #[trigger] list_range(
                list,
                start,
                stop,
            )[i] == list[range_bounds(list.len() as int, start, stop).0 + i],
{
}

} // verus!
