//! The properties of an object, collected into a mapping ordered by name.
//!
//! The names are ordered as strings are: by the bytes of their UTF-8
//! encoding, byte by byte, a proper prefix before what it is a prefix of.

use vstd::prelude::*;
use vstd::string::StringSliceAdditionalSpecFns;
use vstd::utf8::{encode_utf8, encode_utf8_decode_utf8};
use crate::error::NapiError;
use crate::handle::NapiValue;

verus! {

/// Whether `a` comes before `b`, given that the two agree before index
/// `from`: `a` ends at `from` and `b` goes on, or at the first index from
/// there on where the two differ `a` holds the smaller byte.
pub open spec fn bytes_before_from(a: Seq<u8>, b: Seq<u8>, from: int) -> bool
    decreases a.len() - from,
{
    if from < 0 || from >= b.len() {
        false
    } else if from >= a.len() {
        true
    } else if a[from] != b[from] {
        a[from] < b[from]
    } else {
        bytes_before_from(a, b, from + 1)
    }
}

/// Whether `a` comes before `b` in the order of byte strings.
pub open spec fn bytes_before(a: Seq<u8>, b: Seq<u8>) -> bool {
    bytes_before_from(a, b, 0)
}

/// Whether the name `a` comes before the name `b`.
pub open spec fn key_before(a: Seq<char>, b: Seq<char>) -> bool {
    bytes_before(encode_utf8(a), encode_utf8(b))
}

/// Whether `pairs` holds the name `key` at index `i`.
pub open spec fn holds_key(pairs: Seq<(Seq<char>, NapiValue)>, i: int, key: Seq<char>) -> bool {
    0 <= i < pairs.len() && pairs[i].0 == key
}

/// Whether the names of `pairs` ascend strictly.
pub open spec fn strictly_ordered(pairs: Seq<(Seq<char>, NapiValue)>) -> bool {
    forall|i: int, j: int|
        #![trigger pairs[i], pairs[j]]
        0 <= i < j < pairs.len() ==> key_before(pairs[i].0, pairs[j].0)
}

/// The mapping that takes each name of `pairs` to the value beside it.
pub open spec fn map_of(pairs: Seq<(Seq<char>, NapiValue)>) -> Map<Seq<char>, NapiValue> {
    Map::new(
        |key: Seq<char>| exists|i: int| holds_key(pairs, i, key),
        |key: Seq<char>| pairs[choose|i: int| holds_key(pairs, i, key)].1,
    )
}

/// The names and values of `entries`, in the same order.
pub open spec fn pairs_of(entries: Seq<Property>) -> Seq<(Seq<char>, NapiValue)> {
    Seq::new(entries.len(), |i: int| (entries[i].name@, entries[i].value))
}

/// Whether entry `i` of `entries` has a name, and that name is `key`.
pub open spec fn names_key(
    entries: Seq<(Result<String, NapiError>, NapiValue)>,
    i: int,
    key: Seq<char>,
) -> bool {
    &&& 0 <= i < entries.len()
    &&& entries[i].0 matches Ok(name)
    &&& name@ == key
}

/// The mapping that a run over `entries` leaves: each entry with a name
/// sets that name to its value, a later one over an earlier one, and an
/// entry whose name could not be read leaves the mapping as it was.
pub open spec fn collected(entries: Seq<(Result<String, NapiError>, NapiValue)>) -> Map<
    Seq<char>,
    NapiValue,
>
    decreases entries.len(),
{
    if entries.len() == 0 {
        Map::empty()
    } else {
        let earlier = collected(entries.drop_last());
        match entries.last().0 {
            Ok(name) => earlier.insert(name@, entries.last().1),
            Err(_) => earlier,
        }
    }
}

proof fn lemma_before_from_transitive(a: Seq<u8>, b: Seq<u8>, c: Seq<u8>, from: int)
    requires
        bytes_before_from(a, b, from),
        bytes_before_from(b, c, from),
    ensures
        bytes_before_from(a, c, from),
    decreases a.len() - from,
{
    if from < a.len() && a[from] == b[from] && b[from] == c[from] {
        lemma_before_from_transitive(a, b, c, from + 1);
    }
}

proof fn lemma_before_from_asymmetric(a: Seq<u8>, b: Seq<u8>, from: int)
    requires
        bytes_before_from(a, b, from),
    ensures
        !bytes_before_from(b, a, from),
    decreases a.len() - from,
{
    if from < a.len() && a[from] == b[from] {
        lemma_before_from_asymmetric(a, b, from + 1);
    }
}

/// The order of names is transitive.
pub proof fn lemma_key_before_transitive(a: Seq<char>, b: Seq<char>, c: Seq<char>)
    requires
        key_before(a, b),
        key_before(b, c),
    ensures
        key_before(a, c),
{
    lemma_before_from_transitive(encode_utf8(a), encode_utf8(b), encode_utf8(c), 0);
}

/// No name comes before itself, and of two names at most one comes before
/// the other.
pub proof fn lemma_key_before_asymmetric(a: Seq<char>, b: Seq<char>)
    requires
        key_before(a, b),
    ensures
        !key_before(b, a),
        a != b,
{
    lemma_before_from_asymmetric(encode_utf8(a), encode_utf8(b), 0);
}

/// In pairs whose names ascend strictly, each name leads to the value
/// beside it, and to no other.
pub proof fn lemma_map_of_ordered(pairs: Seq<(Seq<char>, NapiValue)>)
    requires
        strictly_ordered(pairs),
    ensures
        forall|i: int|
            0 <= i < pairs.len() ==> map_of(pairs).contains_key((#[trigger] pairs[i]).0) && map_of(
                pairs,
            )[pairs[i].0] == pairs[i].1,
        forall|i: int, j: int|
            #![trigger pairs[i], pairs[j]]
            0 <= i < pairs.len() && 0 <= j < pairs.len() && pairs[i].0 == pairs[j].0 ==> i == j,
{
    assert forall|i: int, j: int|
        #![trigger pairs[i], pairs[j]]
        0 <= i < pairs.len() && 0 <= j < pairs.len() && pairs[i].0 == pairs[j].0 implies i
        == j by {
        if i < j {
            lemma_key_before_asymmetric(pairs[i].0, pairs[j].0);
        } else if j < i {
            lemma_key_before_asymmetric(pairs[j].0, pairs[i].0);
        }
    }
    assert forall|i: int| 0 <= i < pairs.len() implies map_of(pairs).contains_key(
        (#[trigger] pairs[i]).0,
    ) && map_of(pairs)[pairs[i].0] == pairs[i].1 by {
        let key = pairs[i].0;
        assert(holds_key(pairs, i, key));
        let j = choose|j: int| holds_key(pairs, j, key);
        assert(pairs[j].0 == pairs[i].0);
    }
}

proof fn lemma_replace_value(pairs: Seq<(Seq<char>, NapiValue)>, at: int, value: NapiValue)
    requires
        strictly_ordered(pairs),
        0 <= at < pairs.len(),
    ensures
        strictly_ordered(pairs.update(at, (pairs[at].0, value))),
        map_of(pairs.update(at, (pairs[at].0, value))) == map_of(pairs).insert(
            pairs[at].0,
            value,
        ),
{
    let key = pairs[at].0;
    let after = pairs.update(at, (key, value));
    assert forall|i: int, j: int|
        #![trigger after[i], after[j]]
        0 <= i < j < after.len() implies key_before(after[i].0, after[j].0) by {
        assert(after[i].0 == pairs[i].0 && after[j].0 == pairs[j].0);
    }
    lemma_map_of_ordered(pairs);
    lemma_map_of_ordered(after);
    let want = map_of(pairs).insert(key, value);
    assert forall|k: Seq<char>| map_of(after).contains_key(k) <==> want.contains_key(k) by {
        if map_of(after).contains_key(k) {
            let i = choose|i: int| holds_key(after, i, k);
            assert(holds_key(pairs, i, k));
        }
        if want.contains_key(k) && k != key {
            let i = choose|i: int| holds_key(pairs, i, k);
            assert(holds_key(after, i, k));
        }
        assert(holds_key(after, at, key));
    }
    assert forall|k: Seq<char>| map_of(after).contains_key(k) implies map_of(after)[k]
        == want[k] by {
        let i = choose|i: int| holds_key(after, i, k);
        assert(after[i].0 == k);
        assert(pairs[i].0 == k);
    }
    assert(map_of(after) =~= want);
}

proof fn lemma_absent(pairs: Seq<(Seq<char>, NapiValue)>, at: int, key: Seq<char>)
    requires
        0 <= at <= pairs.len(),
        forall|j: int| 0 <= j < at ==> key_before((#[trigger] pairs[j]).0, key),
        forall|j: int| at <= j < pairs.len() ==> key_before(key, (#[trigger] pairs[j]).0),
    ensures
        !map_of(pairs).contains_key(key),
{
    assert forall|i: int| !holds_key(pairs, i, key) by {
        if 0 <= i < at {
            lemma_key_before_asymmetric(pairs[i].0, key);
        } else if at <= i < pairs.len() {
            lemma_key_before_asymmetric(key, pairs[i].0);
        }
    }
}

proof fn lemma_insert_pair(
    pairs: Seq<(Seq<char>, NapiValue)>,
    at: int,
    key: Seq<char>,
    value: NapiValue,
)
    requires
        strictly_ordered(pairs),
        0 <= at <= pairs.len(),
        forall|j: int| 0 <= j < at ==> key_before((#[trigger] pairs[j]).0, key),
        forall|j: int| at <= j < pairs.len() ==> key_before(key, (#[trigger] pairs[j]).0),
    ensures
        !map_of(pairs).contains_key(key),
        strictly_ordered(pairs.insert(at, (key, value))),
        map_of(pairs.insert(at, (key, value))) == map_of(pairs).insert(key, value),
{
    let after = pairs.insert(at, (key, value));
    lemma_absent(pairs, at, key);
    assert forall|i: int, j: int|
        #![trigger after[i], after[j]]
        0 <= i < j < after.len() implies key_before(after[i].0, after[j].0) by {
        if j < at {
            assert(after[i] == pairs[i] && after[j] == pairs[j]);
        } else if j == at {
            assert(after[i] == pairs[i]);
        } else if i < at {
            assert(after[i] == pairs[i] && after[j] == pairs[j - 1]);
        } else if i == at {
            assert(after[j] == pairs[j - 1]);
        } else {
            assert(after[i] == pairs[i - 1] && after[j] == pairs[j - 1]);
        }
    }
    lemma_map_of_ordered(pairs);
    lemma_map_of_ordered(after);
    let want = map_of(pairs).insert(key, value);
    assert forall|k: Seq<char>| map_of(after).contains_key(k) <==> want.contains_key(k) by {
        if map_of(after).contains_key(k) {
            let i = choose|i: int| holds_key(after, i, k);
            if i < at {
                assert(holds_key(pairs, i, k));
            } else if i > at {
                assert(holds_key(pairs, i - 1, k));
            }
        }
        if want.contains_key(k) && k != key {
            let i = choose|i: int| holds_key(pairs, i, k);
            if i < at {
                assert(holds_key(after, i, k));
            } else {
                assert(holds_key(after, i + 1, k));
            }
        }
        assert(holds_key(after, at, key));
    }
    assert forall|k: Seq<char>| map_of(after).contains_key(k) implies map_of(after)[k]
        == want[k] by {
        let i = choose|i: int| holds_key(after, i, k);
        assert(after[i].0 == k);
        if i < at {
            assert(pairs[i].0 == k);
        } else if i > at {
            assert(pairs[i - 1].0 == k);
        }
    }
    assert(map_of(after) =~= want);
}

/// How two byte strings stand to each other.
enum KeyOrder {
    Before,
    Same,
    After,
}

/// Compares two byte strings, byte by byte.
fn key_order(a: &[u8], b: &[u8]) -> (order: KeyOrder)
    ensures
        order is Before <==> bytes_before(a@, b@),
        order is Same <==> a@ == b@,
        order is After <==> bytes_before(b@, a@),
{
    let mut i: usize = 0;
    while i < a.len() && i < b.len()
        invariant
            i <= a.len(),
            i <= b.len(),
            forall|j: int| 0 <= j < i ==> a@[j] == b@[j],
            bytes_before(a@, b@) == bytes_before_from(a@, b@, i as int),
            bytes_before(b@, a@) == bytes_before_from(b@, a@, i as int),
        decreases a.len() - i,
    {
        if a[i] < b[i] {
            return KeyOrder::Before;
        }
        if a[i] > b[i] {
            return KeyOrder::After;
        }
        i += 1;
    }
    if i < b.len() {
        KeyOrder::Before
    } else if i < a.len() {
        KeyOrder::After
    } else {
        assert(a@ =~= b@);
        KeyOrder::Same
    }
}

/// One property: its name and its value.
#[derive(Debug)]
pub struct Property {
    pub name: String,
    pub value: NapiValue,
}

/// The properties of an object, each name once, in ascending order of the
/// names.
#[derive(Debug)]
pub struct PropertyMap {
    entries: Vec<Property>,
}

impl View for PropertyMap {
    type V = Map<Seq<char>, NapiValue>;

    /// The mapping from each name to its value.
    open spec fn view(&self) -> Map<Seq<char>, NapiValue> {
        map_of(self.pairs())
    }
}

impl PropertyMap {
    /// The names and values, in the order in which the mapping holds them.
    pub closed spec fn pairs(&self) -> Seq<(Seq<char>, NapiValue)> {
        pairs_of(self.entries@)
    }

    /// What holds of every mapping: the names ascend strictly, so that none
    /// occurs twice.
    #[verifier::type_invariant]
    pub open spec fn wf(&self) -> bool {
        strictly_ordered(self.pairs())
    }

    /// The mapping without any property.
    pub fn new() -> (map: PropertyMap)
        ensures
            map.wf(),
            map.pairs() == Seq::<(Seq<char>, NapiValue)>::empty(),
            map@ == Map::<Seq<char>, NapiValue>::empty(),
    {
        let map = PropertyMap { entries: Vec::new() };
        assert(map.pairs() =~= Seq::<(Seq<char>, NapiValue)>::empty());
        assert(map@ =~= Map::<Seq<char>, NapiValue>::empty());
        map
    }

    /// The number of properties.
    pub fn len(&self) -> (count: usize)
        ensures
            count == self.pairs().len(),
            self@.dom().finite(),
            count == self@.dom().len(),
    {
        proof {
            use_type_invariant(self);
            self.lemma_len();
        }
        self.entries.len()
    }

    /// The properties in ascending order of their names.
    pub fn entries(&self) -> (entries: &Vec<Property>)
        ensures
            pairs_of(entries@) == self.pairs(),
            self.wf(),
    {
        proof {
            use_type_invariant(self);
        }
        &self.entries
    }

    /// Where `key` stands or would stand, and whether it is there.
    fn find(&self, key: &str) -> (at: (usize, bool))
        ensures
            self.wf(),
            at.0 <= self.pairs().len(),
            forall|j: int| 0 <= j < at.0 ==> key_before((#[trigger] self.pairs()[j]).0, key@),
            at.1 ==> at.0 < self.pairs().len() && self.pairs()[at.0 as int].0 == key@,
            !at.1 ==> forall|j: int|
                at.0 <= j < self.pairs().len() ==> key_before(key@, (#[trigger] self.pairs()[j]).0),
    {
        proof {
            use_type_invariant(self);
        }
        let wanted = key.as_bytes();
        let mut i: usize = 0;
        while i < self.entries.len()
            invariant
                self.wf(),
                i <= self.entries@.len(),
                wanted@ == encode_utf8(key@),
                forall|j: int| 0 <= j < i ==> key_before((#[trigger] self.pairs()[j]).0, key@),
            decreases self.entries@.len() - i,
        {
            let name = self.entries[i].name.as_str().as_bytes();
            assert(name@ == encode_utf8(self.pairs()[i as int].0));
            match key_order(name, wanted) {
                KeyOrder::Before => {
                    i += 1;
                },
                KeyOrder::Same => {
                    proof {
                        encode_utf8_decode_utf8(key@);
                        encode_utf8_decode_utf8(self.pairs()[i as int].0);
                    }
                    return (i, true);
                },
                KeyOrder::After => {
                    proof {
                        assert forall|j: int| i <= j < self.pairs().len() implies key_before(
                            key@,
                            (#[trigger] self.pairs()[j]).0,
                        ) by {
                            if i < j {
                                assert(key_before(self.pairs()[i as int].0, self.pairs()[j].0));
                                lemma_key_before_transitive(
                                    key@,
                                    self.pairs()[i as int].0,
                                    self.pairs()[j].0,
                                );
                            }
                        }
                    }
                    return (i, false);
                },
            }
        }
        (i, false)
    }

    /// The value of the property named `key`, if there is one.
    pub fn get(&self, key: &str) -> (value: Option<NapiValue>)
        ensures
            value == (if self@.contains_key(key@) {
                Some(self@[key@])
            } else {
                None
            }),
    {
        let (at, found) = self.find(key);
        if found {
            proof {
                lemma_map_of_ordered(self.pairs());
                assert(self.pairs()[at as int].1 == self.entries@[at as int].value);
            }
            Some(self.entries[at].value)
        } else {
            proof {
                lemma_absent(self.pairs(), at as int, key@);
            }
            None
        }
    }

    /// Sets the property named `key` to `value` and returns the value that
    /// the name had before, if it had one.
    pub fn insert(&mut self, key: String, value: NapiValue) -> (previous: Option<NapiValue>)
        ensures
            final(self).wf(),
            final(self)@ == old(self)@.insert(key@, value),
            previous == (if old(self)@.contains_key(key@) {
                Some(old(self)@[key@])
            } else {
                None
            }),
    {
        let (at, found) = self.find(key.as_str());
        let ghost before = self.pairs();
        let ghost name = key@;
        let mut entries: Vec<Property> = Vec::new();
        std::mem::swap(&mut entries, &mut self.entries);
        if found {
            let previous = entries[at].value;
            entries.set(at, Property { name: key, value });
            proof {
                assert(pairs_of(entries@) =~= before.update(at as int, (name, value)));
                lemma_replace_value(before, at as int, value);
                lemma_map_of_ordered(before);
            }
            self.entries = entries;
            Some(previous)
        } else {
            entries.insert(at, Property { name: key, value });
            proof {
                assert(pairs_of(entries@) =~= before.insert(at as int, (name, value)));
                lemma_insert_pair(before, at as int, name, value);
            }
            self.entries = entries;
            None
        }
    }

    /// A mapping holds as many properties as it has names.
    pub proof fn lemma_len(&self)
        requires
            self.wf(),
        ensures
            self@.dom().finite(),
            self@.dom().len() == self.pairs().len(),
    {
        let pairs = self.pairs();
        let names = Seq::new(pairs.len(), |i: int| pairs[i].0);
        lemma_map_of_ordered(pairs);
        assert(names.no_duplicates()) by {
            assert forall|i: int, j: int|
                0 <= i < names.len() && 0 <= j < names.len() && i != j implies names[i]
                != names[j] by {
                assert(pairs[i].0 == names[i] && pairs[j].0 == names[j]);
            }
        }
        assert(self@.dom() =~= names.to_set()) by {
            assert forall|k: Seq<char>| self@.dom().contains(k) <==> names.to_set().contains(
                k,
            ) by {
                if self@.dom().contains(k) {
                    let i = choose|i: int| holds_key(pairs, i, k);
                    assert(names[i] == k);
                }
                if names.to_set().contains(k) {
                    let i = choose|i: int| 0 <= i < names.len() && names[i] == k;
                    assert(holds_key(pairs, i, k));
                }
            }
        }
        names.unique_seq_to_set();
        vstd::seq_lib::seq_to_set_is_finite(names);
    }
}

/// Collects the properties of an object.
///
/// `entries` holds, for each own property in the order in which the host
/// names them, what reading the name gave and the value of the property. A
/// property whose name could not be read is left out without a word; the
/// others are kept. A caller that wants to know of such a property looks
/// for it in `entries` before handing them over.
pub fn get_object_map(entries: Vec<(Result<String, NapiError>, NapiValue)>) -> (map: PropertyMap)
    ensures
        map.wf(),
        map@ == collected(entries@),
{
    let ghost all = entries@;
    let mut map = PropertyMap::new();
    for entry in it: entries
        invariant
            it.seq() == all,
            map.wf(),
            map@ == collected(all.take(it.index() as int)),
    {
        let ghost done = all.take(it.index() as int);
        let ghost next = all.take(it.index() + 1);
        assert(next.drop_last() =~= done);
        assert(next.last() == entry);
        let (name, value) = entry;
        match name {
            Ok(key) => {
                map.insert(key, value);
            },
            Err(_) => {},
        }
    }
    assert(all.take(all.len() as int) =~= all);
    map
}

/// A name is in the collected mapping exactly when some entry has it, and
/// it leads to the value of the last entry that has it.
pub proof fn lemma_collected(entries: Seq<(Result<String, NapiError>, NapiValue)>, key: Seq<char>)
    ensures
        collected(entries).contains_key(key) <==> exists|i: int| names_key(entries, i, key),
        forall|i: int|
            names_key(entries, i, key) && (forall|j: int| i < j ==> !names_key(entries, j, key))
                ==> collected(entries)[key] == (#[trigger] entries[i]).1,
    decreases entries.len(),
{
    if entries.len() > 0 {
        let earlier = entries.drop_last();
        let last = entries.len() - 1;
        lemma_collected(earlier, key);
        if names_key(entries, last, key) {
        } else {
            assert(collected(entries).contains_key(key) == collected(earlier).contains_key(key));
        }
        assert forall|i: int| names_key(earlier, i, key) implies names_key(entries, i, key) by {
            assert(earlier[i] == entries[i]);
        }
        if exists|i: int| names_key(entries, i, key) {
            let i = choose|i: int| names_key(entries, i, key);
            if i < last {
                assert(earlier[i] == entries[i]);
                assert(names_key(earlier, i, key));
            }
        }
        assert forall|i: int|
            names_key(entries, i, key) && (forall|j: int|
                i < j ==> !names_key(entries, j, key)) implies collected(entries)[key] == (
        #[trigger] entries[i]).1 by {
            if i < last {
                assert(!names_key(entries, last, key));
                assert(earlier[i] == entries[i]);
                assert(names_key(earlier, i, key));
                assert forall|j: int| i < j implies !names_key(earlier, j, key) by {
                    if names_key(earlier, j, key) {
                        assert(earlier[j] == entries[j]);
                        assert(names_key(entries, j, key));
                    }
                }
            }
        }
    }
}

} // verus!
