//! String-keyed tables.
//!
//! An [`Interner`] numbers strings in the order in which each is first seen. A
//! [`Table`] groups rows under interned keys. Both look a string up in an
//! `FxHashMap`, and keep everything else in vectors, so that walking one is
//! deterministic.
use rustc_hash::{FxBuildHasher, FxHashMap};
use vstd::prelude::*;

verus! {

/// The hasher of every hash table in this crate.
#[verifier::external_type_specification]
#[verifier::external_body]
pub struct ExFxBuildHasher(FxBuildHasher);

/// What an `FxHashMap` from strings to positions holds.
pub uninterp spec fn slots_of(slots: FxHashMap<String, usize>) -> Map<Seq<char>, usize>;

/// `FxHashMap::default`: a map without entries.
#[verifier::external_body]
fn new_slots() -> (slots: FxHashMap<String, usize>)
    ensures
        forall|key: Seq<char>| !#[trigger] slots_of(slots).contains_key(key),
{
    FxHashMap::default()
}

/// `HashMap::get`: the value stored for `key`, if there is one.
#[verifier::external_body]
fn slot_of(slots: &FxHashMap<String, usize>, key: &str) -> (slot: Option<usize>)
    ensures
        slot == (if slots_of(*slots).contains_key(key@) {
            Some(slots_of(*slots)[key@])
        } else {
            None
        }),
{
    slots.get(key).copied()
}

/// `HashMap::insert`: stores `slot` for `key`, in place of what was there.
#[verifier::external_body]
fn set_slot(slots: &mut FxHashMap<String, usize>, key: String, slot: usize)
    ensures
        slots_of(*final(slots)) == slots_of(*old(slots)).insert(key@, slot),
{
    slots.insert(key, slot);
}

/// `HashMap::len`: how many entries the map has.
#[verifier::external_body]
fn slot_count(slots: &FxHashMap<String, usize>) -> (n: usize)
    ensures
        n == slots_of(*slots).dom().len(),
{
    slots.len()
}

/// What an `FxHashMap` from numbers to positions holds.
pub uninterp spec fn numbers_of(numbers: FxHashMap<u32, usize>) -> Map<u32, usize>;

/// `FxHashMap::default`: a map without entries.
#[verifier::external_body]
pub(crate) fn no_numbers() -> (numbers: FxHashMap<u32, usize>)
    ensures
        forall|number: u32| !#[trigger] numbers_of(numbers).contains_key(number),
{
    FxHashMap::default()
}

/// `HashMap::get`: the value stored for `number`, if there is one.
#[verifier::external_body]
pub(crate) fn position_of_number(numbers: &FxHashMap<u32, usize>, number: u32) -> (at: Option<
    usize,
>)
    ensures
        at == (if numbers_of(*numbers).contains_key(number) {
            Some(numbers_of(*numbers)[number])
        } else {
            None
        }),
{
    numbers.get(&number).copied()
}

/// `HashMap::insert`: stores `at` for `number`, in place of what was there.
#[verifier::external_body]
pub(crate) fn set_number(numbers: &mut FxHashMap<u32, usize>, number: u32, at: usize)
    ensures
        numbers_of(*final(numbers)) == numbers_of(*old(numbers)).insert(number, at),
{
    numbers.insert(number, at);
}

/// Where `key` stands in `names`, a sequence without repetitions.
pub open spec fn slot_in(names: Seq<Seq<char>>, key: Seq<char>) -> int {
    names.index_of(key)
}

/// `names` with `key` in it: unchanged where it is there, longer by one where
/// it is not.
pub open spec fn interned(names: Seq<Seq<char>>, key: Seq<char>) -> Seq<Seq<char>> {
    if names.contains(key) {
        names
    } else {
        names.push(key)
    }
}

/// Whether `slots` gives every name its position, and has no other key.
pub open spec fn numbers_names(slots: Map<Seq<char>, usize>, names: Seq<Seq<char>>) -> bool {
    &&& forall|i: int|
        0 <= i < names.len() ==> slots.contains_key(#[trigger] names[i]) && slots[names[i]] == i
    &&& forall|key: Seq<char>| #[trigger]
        slots.contains_key(key) ==> slots[key] < names.len() && names[slots[key] as int] == key
}

/// The numbers that a list gives to names. The last one counts.
pub open spec fn numbering(pairs: Seq<(Seq<char>, usize)>) -> Map<Seq<char>, usize>
    decreases pairs.len(),
{
    if pairs.len() == 0 {
        Map::empty()
    } else {
        numbering(pairs.drop_last()).insert(pairs.last().0, pairs.last().1)
    }
}

/// A list numbers finitely many names.
pub proof fn lemma_numbering(pairs: Seq<(Seq<char>, usize)>)
    ensures
        numbering(pairs).dom().finite(),
    decreases pairs.len(),
{
    if pairs.len() > 0 {
        lemma_numbering(pairs.drop_last());
    }
}

/// Names with the positions that they have.
pub open spec fn positions(names: Seq<Seq<char>>) -> Seq<(Seq<char>, usize)> {
    Seq::new(names.len(), |i: int| (names[i], i as usize))
}

/// Names are numbered by their positions if and only if none is there twice.
pub proof fn lemma_positions(names: Seq<Seq<char>>)
    requires
        names.len() <= usize::MAX,
    ensures
        numbers_names(numbering(positions(names)), names) == names.no_duplicates(),
{
    let slots = numbering(positions(names));
    lemma_positions_upto(names, names.len() as int);
    assert(positions(names).take(names.len() as int) =~= positions(names));
    if numbers_names(slots, names) {
        assert forall|i: int, j: int| 0 <= i < names.len() && 0 <= j < names.len() && i
            != j implies names[i] != names[j] by {
            assert(slots[names[i]] == i && slots[names[j]] == j);
        }
    }
    if names.no_duplicates() {
        assert forall|i: int| 0 <= i < names.len() implies slots.contains_key(
            #[trigger] names[i],
        ) && slots[names[i]] == i by {
            let at = slots[names[i]] as int;
            assert(names[at] == names[i]);
        }
    }
}

proof fn lemma_positions_upto(names: Seq<Seq<char>>, n: int)
    requires
        0 <= n <= names.len() <= usize::MAX,
    ensures
        ({
            let slots = numbering(positions(names).take(n));
            &&& forall|i: int| 0 <= i < n ==> slots.contains_key(#[trigger] names[i])
            &&& forall|key: Seq<char>| #[trigger]
                slots.contains_key(key) ==> slots[key] < n && names[slots[key] as int] == key
        }),
    decreases n,
{
    if n > 0 {
        let before = numbering(positions(names).take(n - 1));
        let slots = numbering(positions(names).take(n));
        lemma_positions_upto(names, n - 1);
        assert(positions(names).take(n).drop_last() =~= positions(names).take(n - 1));
        assert(positions(names).take(n).last() == (names[n - 1], (n - 1) as usize));
        assert(slots == before.insert(names[n - 1], (n - 1) as usize));
        assert forall|i: int| 0 <= i < n implies slots.contains_key(#[trigger] names[i]) by {
            if i < n - 1 {
                assert(before.contains_key(names[i]));
            }
        }
        assert forall|key: Seq<char>| #[trigger] slots.contains_key(key) implies slots[key] < n
            && names[slots[key] as int] == key by {
            if key != names[n - 1] {
                assert(before.contains_key(key));
            }
        }
    } else {
        assert(positions(names).take(n) =~= Seq::empty());
    }
}

/// The number of a name.
pub struct NameNumber {
    pub name: String,
    pub number: usize,
}

/// Names with their numbers.
pub open spec fn number_views(listed: Seq<NameNumber>) -> Seq<(Seq<char>, usize)> {
    Seq::new(listed.len(), |i: int| (listed[i].name@, listed[i].number))
}

/// Distinct strings, numbered from zero in the order of their first use.
pub struct Interner {
    slots: FxHashMap<String, usize>,
    names: Vec<String>,
}

impl View for Interner {
    type V = Seq<Seq<char>>;

    closed spec fn view(&self) -> Seq<Seq<char>> {
        Seq::new(self.names@.len(), |i: int| self.names@[i]@)
    }
}

impl Interner {
    /// Every name has one slot, and the slot names it back.
    pub closed spec fn wf(&self) -> bool {
        &&& forall|i: int|
            0 <= i < self.names@.len() ==> slots_of(self.slots).contains_key(
                #[trigger] self.names@[i]@,
            ) && slots_of(self.slots)[self.names@[i]@] == i
        &&& forall|k: Seq<char>| #[trigger]
            slots_of(self.slots).contains_key(k) ==> {
                &&& slots_of(self.slots)[k] < self.names@.len()
                &&& self.names@[slots_of(self.slots)[k] as int]@ == k
            }
    }

    /// No name is numbered twice.
    pub proof fn lemma_distinct(&self)
        requires
            self.wf(),
        ensures
            self@.no_duplicates(),
    {
        assert forall|i: int, j: int|
            0 <= i < self@.len() && 0 <= j < self@.len() && i != j implies self@[i]
            != self@[j] by {
            assert(self@[i] == self.names@[i]@);
            assert(self@[j] == self.names@[j]@);
        }
    }

    /// An interner without names.
    pub fn new() -> (interner: Self)
        ensures
            interner.wf(),
            interner@ == Seq::<Seq<char>>::empty(),
    {
        let interner = Interner { slots: new_slots(), names: Vec::new() };
        assert(interner@ == Seq::<Seq<char>>::empty());
        interner
    }

    /// The number under which each name is looked up.
    pub closed spec fn numbers(&self) -> Map<Seq<char>, usize> {
        slots_of(self.slots)
    }

    /// The rules are kept where every name is looked up under its position, and
    /// nothing else is.
    pub proof fn lemma_wf(&self)
        ensures
            self.wf() == numbers_names(self.numbers(), self@),
    {
        if self.wf() {
            assert forall|i: int| 0 <= i < self@.len() implies self.numbers().contains_key(
                #[trigger] self@[i],
            ) && self.numbers()[self@[i]] == i by {
                assert(self@[i] == self.names@[i]@);
            }
        }
        if numbers_names(self.numbers(), self@) {
            assert forall|i: int| 0 <= i < self.names@.len() implies slots_of(
                self.slots,
            ).contains_key(#[trigger] self.names@[i]@) && slots_of(self.slots)[self.names@[i]@]
                == i by {
                assert(self@[i] == self.names@[i]@);
            }
            assert forall|k: Seq<char>| #[trigger] slots_of(self.slots).contains_key(k) implies ({
                &&& slots_of(self.slots)[k] < self.names@.len()
                &&& self.names@[slots_of(self.slots)[k] as int]@ == k
            }) by {
                assert(self@[slots_of(self.slots)[k] as int] == k);
            }
        }
    }

    /// Names that are looked up under the numbers listed for them.
    pub fn listed(names: Vec<String>, listed: &Vec<NameNumber>) -> (interner: Interner)
        ensures
            interner@ == crate::text::texts(names@),
            interner.numbers() == numbering(number_views(listed@)),
    {
        let ghost pairs = number_views(listed@);
        let mut slots = new_slots();
        let mut i: usize = 0;
        assert(slots_of(slots) =~= numbering(pairs.take(0)));
        while i < listed.len()
            invariant
                pairs == number_views(listed@),
                i <= listed@.len(),
                slots_of(slots) == numbering(pairs.take(i as int)),
            decreases listed@.len() - i,
        {
            set_slot(&mut slots, listed[i].name.clone(), listed[i].number);
            assert(pairs.take(i + 1).drop_last() =~= pairs.take(i as int));
            assert(pairs.take(i + 1).last() == pairs[i as int]);
            i += 1;
        }
        assert(pairs.take(i as int) =~= pairs);
        let interner = Interner { slots, names };
        assert(interner@ =~= crate::text::texts(names@));
        interner
    }

    /// Names that are looked up under their positions.
    pub fn positioned(names: Vec<String>) -> (interner: Interner)
        ensures
            interner@ == crate::text::texts(names@),
            interner.numbers() == numbering(positions(crate::text::texts(names@))),
            names@.len() <= usize::MAX,
    {
        let ghost pairs = positions(crate::text::texts(names@));
        let mut slots = new_slots();
        let mut i: usize = 0;
        assert(slots_of(slots) =~= numbering(pairs.take(0)));
        while i < names.len()
            invariant
                pairs == positions(crate::text::texts(names@)),
                i <= names@.len(),
                slots_of(slots) == numbering(pairs.take(i as int)),
            decreases names@.len() - i,
        {
            set_slot(&mut slots, names[i].clone(), i);
            assert(pairs.take(i + 1).drop_last() =~= pairs.take(i as int));
            assert(pairs.take(i + 1).last() == pairs[i as int]);
            i += 1;
        }
        assert(pairs.take(i as int) =~= pairs);
        let interner = Interner { slots, names };
        assert(interner@ =~= crate::text::texts(names@));
        interner
    }

    /// The names, each with the number under which it is looked up.
    pub fn name_numbers(&self) -> (listed: Vec<NameNumber>)
        requires
            self.wf(),
        ensures
            number_views(listed@) == positions(self@),
            self@.len() <= usize::MAX,
    {
        let mut listed: Vec<NameNumber> = Vec::new();
        let mut i: usize = 0;
        while i < self.names.len()
            invariant
                i <= self.names@.len(),
                listed@.len() == i,
                forall|k: int|
                    0 <= k < i ==> (#[trigger] listed@[k]).name@ == self.names@[k]@
                        && listed@[k].number == k,
            decreases self.names@.len() - i,
        {
            listed.push(NameNumber { name: self.names[i].clone(), number: i });
            i += 1;
        }
        assert(number_views(listed@) =~= positions(self@));
        listed
    }

    /// Where the rules are kept, finitely many names are looked up.
    pub proof fn lemma_finite(&self)
        requires
            self.wf(),
        ensures
            self.numbers().dom().finite(),
    {
        self.lemma_wf();
        vstd::seq_lib::seq_to_set_is_finite(self@);
        assert(self.numbers().dom().subset_of(self@.to_set())) by {
            assert forall|key: Seq<char>| self.numbers().dom().contains(
                key,
            ) implies self@.to_set().contains(key) by {
                assert(self.numbers().contains_key(key));
                assert(self@[self.numbers()[key] as int] == key);
            }
        }
        vstd::set_lib::lemma_set_subset_finite(self@.to_set(), self.numbers().dom());
    }

    /// Whether every name is looked up under its position, and nothing else is.
    pub fn keeps_rules(&self) -> (kept: bool)
        requires
            self.numbers().dom().finite(),
        ensures
            kept == self.wf(),
    {
        proof {
            self.lemma_wf();
        }
        let n: usize = self.names.len();
        let mut i: usize = 0;
        while i < n
            invariant
                n == self.names@.len(),
                i <= n,
                self.wf() == numbers_names(self.numbers(), self@),
                forall|k: int|
                    0 <= k < i ==> self.numbers().contains_key(#[trigger] self@[k])
                        && self.numbers()[self@[k]] == k,
            decreases n - i,
        {
            assert(self@[i as int] == self.names@[i as int]@);
            match slot_of(&self.slots, self.names[i].as_str()) {
                Some(slot) if slot == i => {},
                _ => {
                    return false;
                },
            }
            i += 1;
        }
        let count: usize = slot_count(&self.slots);
        proof {
            let names = self@.to_set();
            let keys = self.numbers().dom();
            assert(self@.no_duplicates()) by {
                assert forall|a: int, b: int| 0 <= a < self@.len() && 0 <= b < self@.len() && a
                    != b implies self@[a] != self@[b] by {
                    assert(self.numbers()[self@[a]] == a && self.numbers()[self@[b]] == b);
                }
            }
            self@.unique_seq_to_set();
            assert(names.subset_of(keys)) by {
                assert forall|key: Seq<char>| names.contains(key) implies keys.contains(key) by {
                    let k = choose|k: int| 0 <= k < self@.len() && self@[k] == key;
                    assert(self.numbers().contains_key(self@[k]));
                }
            }
            if count == n {
                vstd::set_lib::lemma_subset_equality(names, keys);
                assert forall|key: Seq<char>| #[trigger] self.numbers().contains_key(
                    key,
                ) implies self.numbers()[key] < self@.len() && self@[self.numbers()[key] as int]
                    == key by {
                    assert(names.contains(key));
                    let k = choose|k: int| 0 <= k < self@.len() && self@[k] == key;
                    assert(self.numbers()[self@[k]] == k);
                }
            } else if self.wf() {
                assert(keys =~= names) by {
                    assert forall|key: Seq<char>| keys.contains(key) implies names.contains(
                        key,
                    ) by {
                        assert(self.numbers().contains_key(key));
                        assert(self@[self.numbers()[key] as int] == key);
                    }
                }
            }
        }
        count == n
    }

    /// How many names there are.
    pub fn len(&self) -> (n: usize)
        ensures
            n == self@.len(),
    {
        self.names.len()
    }

    /// The name numbered `i`.
    pub fn name(&self, i: usize) -> (name: &str)
        requires
            i < self@.len(),
        ensures
            name@ == self@[i as int],
    {
        self.names[i].as_str()
    }

    /// All the names, in order.
    pub fn names(&self) -> (names: Vec<String>)
        ensures
            crate::text::texts(names@) == self@,
    {
        let names = crate::text::copy_texts(&self.names);
        assert(self@ =~= crate::text::texts(self.names@));
        names
    }

    /// The number of `name`, where it has one.
    pub fn position(&self, name: &str) -> (at: Option<usize>)
        requires
            self.wf(),
        ensures
            at is Some <==> self@.contains(name@),
            at matches Some(i) ==> i < self@.len() && self@[i as int] == name@ && i == slot_in(
                self@,
                name@,
            ),
    {
        proof {
            self.lemma_distinct();
        }
        match slot_of(&self.slots, name) {
            Some(slot) => {
                assert(self@[slot as int] == name@);
                Some(slot)
            },
            None => {
                assert forall|i: int| 0 <= i < self@.len() implies self@[i] != name@ by {
                    assert(self@[i] == self.names@[i]@);
                }
                None
            },
        }
    }

    /// The number of `name`, which gets the next free one if it has none.
    pub fn intern(&mut self, name: &str) -> (slot: usize)
        requires
            old(self).wf(),
        ensures
            final(self).wf(),
            final(self)@ == interned(old(self)@, name@),
            slot < final(self)@.len(),
            final(self)@[slot as int] == name@,
            slot == slot_in(final(self)@, name@),
    {
        match self.position(name) {
            Some(slot) => slot,
            None => {
                proof {
                    assert(!slots_of(self.slots).contains_key(name@)) by {
                        if slots_of(self.slots).contains_key(name@) {
                            assert(self@[slots_of(self.slots)[name@] as int] == name@);
                        }
                    }
                }
                let slot: usize = self.names.len();
                self.names.push(name.to_owned());
                set_slot(&mut self.slots, name.to_owned(), slot);
                proof {
                    assert(self@ == old(self)@.push(name@));
                    self.lemma_distinct();
                    assert(self@[slot as int] == name@);
                    assert(self@.contains(name@));
                }
                slot
            },
        }
    }
}

/// The rows that `rows` holds under `key`; none where it has no such key.
pub open spec fn row_of<T>(rows: Map<Seq<char>, Seq<T>>, key: Seq<char>) -> Seq<T> {
    if rows.contains_key(key) {
        rows[key]
    } else {
        Seq::empty()
    }
}

/// Rows of `T` grouped under string keys.
pub struct Table<T> {
    keys: Interner,
    rows: Vec<Vec<T>>,
}

impl<T> View for Table<T> {
    type V = Map<Seq<char>, Seq<T>>;

    closed spec fn view(&self) -> Map<Seq<char>, Seq<T>> {
        Map::new(
            |key: Seq<char>| self.keys@.contains(key),
            |key: Seq<char>| self.rows@[slot_in(self.keys@, key)]@,
        )
    }
}

impl<T> Table<T> {
    /// There is a vector of rows for every key.
    pub closed spec fn wf(&self) -> bool {
        &&& self.keys.wf()
        &&& self.keys@.len() == self.rows@.len()
    }

    /// The keys, in the order of their first use.
    pub closed spec fn order(&self) -> Seq<Seq<char>> {
        self.keys@
    }

    /// The order lists each key once.
    pub proof fn lemma_order(&self)
        requires
            self.wf(),
        ensures
            self.order().no_duplicates(),
            forall|key: Seq<char>| self.order().contains(key) <==> #[trigger] self@.contains_key(
                key,
            ),
    {
        self.keys.lemma_distinct();
    }

    /// A table without keys.
    pub fn new() -> (table: Self)
        ensures
            table.wf(),
            table.order() == Seq::<Seq<char>>::empty(),
            table@ == Map::<Seq<char>, Seq<T>>::empty(),
    {
        let table = Table { keys: Interner::new(), rows: Vec::new() };
        assert(table@ == Map::<Seq<char>, Seq<T>>::empty());
        table
    }

    /// How many keys there are.
    pub fn len(&self) -> (n: usize)
        ensures
            n == self.order().len(),
    {
        self.keys.len()
    }

    /// The key at position `i`.
    pub fn key(&self, i: usize) -> (key: &str)
        requires
            i < self.order().len(),
        ensures
            key@ == self.order()[i as int],
    {
        self.keys.name(i)
    }

    /// The rows of the key at position `i`.
    pub fn row_at(&self, i: usize) -> (row: &Vec<T>)
        requires
            self.wf(),
            i < self.order().len(),
        ensures
            self@.contains_key(self.order()[i as int]),
            row@ == self@[self.order()[i as int]],
    {
        proof {
            self.keys.lemma_distinct();
            let key = self.keys@[i as int];
            assert(self.keys@.contains(key));
            assert(slot_in(self.keys@, key) == i);
        }
        &self.rows[i]
    }

    /// The rows under `key`, where there is such a key.
    pub fn get(&self, key: &str) -> (row: Option<&Vec<T>>)
        requires
            self.wf(),
        ensures
            row is Some <==> self@.contains_key(key@),
            row matches Some(row) ==> row@ == self@[key@],
    {
        match self.keys.position(key) {
            Some(slot) => Some(&self.rows[slot]),
            None => None,
        }
    }

    /// The position of `key` in the order, where there is such a key.
    pub fn position(&self, key: &str) -> (at: Option<usize>)
        requires
            self.wf(),
        ensures
            at is Some <==> self@.contains_key(key@),
            at matches Some(i) ==> i < self.order().len() && self.order()[i as int] == key@,
    {
        self.keys.position(key)
    }

    /// Makes `key` one of the keys and returns its position.
    pub fn intern(&mut self, key: &str) -> (slot: usize)
        requires
            old(self).wf(),
        ensures
            final(self).wf(),
            final(self).order() == interned(old(self).order(), key@),
            final(self)@ == old(self)@.insert(key@, row_of(old(self)@, key@)),
            slot < final(self).order().len(),
            final(self).order()[slot as int] == key@,
    {
        let before: usize = self.keys.len();
        let slot: usize = self.keys.intern(key);
        proof {
            self.keys.lemma_distinct();
        }
        if slot == before {
            self.rows.push(Vec::new());
        }
        proof {
            old(self).keys.lemma_distinct();
            if old(self).keys@.contains(key@) {
                assert(slot < before);
            }
            assert forall|k: Seq<char>| #[trigger] old(self)@.contains_key(k) implies slot_in(
                self.keys@,
                k,
            ) == slot_in(old(self).keys@, k) by {
                let i = slot_in(old(self).keys@, k);
                assert(old(self).keys@.contains(k));
                assert(self.keys@[i] == k);
                assert(self.keys@.contains(k));
            }
            assert forall|k: Seq<char>| self@.contains_key(k) <==> (k == key@
                || old(self)@.contains_key(k)) by {
                if self.keys@.contains(k) && k != key@ {
                    let i = slot_in(self.keys@, k);
                    assert(old(self).keys@[i] == k);
                }
                if old(self).keys@.contains(k) {
                    let i = slot_in(old(self).keys@, k);
                    assert(self.keys@[i] == k);
                }
                if k == key@ {
                    assert(self.keys@[slot as int] == k);
                }
            }
            assert(self@ =~= old(self)@.insert(key@, row_of(old(self)@, key@)));
        }
        slot
    }

    /// Adds `item` among the rows of `key`, before position `at`.
    pub fn insert_at(&mut self, key: &str, at: usize, item: T)
        requires
            old(self).wf(),
            at <= row_of(old(self)@, key@).len(),
        ensures
            final(self).wf(),
            final(self).order() == interned(old(self).order(), key@),
            final(self)@ == old(self)@.insert(
                key@,
                row_of(old(self)@, key@).insert(at as int, item),
            ),
    {
        let slot: usize = self.intern(key);
        let ghost before = *self;
        proof {
            before.keys.lemma_distinct();
            assert(before.keys@.contains(key@));
            assert(slot_in(before.keys@, key@) == slot);
            assert(before@[key@] == before.rows@[slot as int]@);
        }
        self.rows[slot].insert(at, item);
        proof {
            assert forall|k: Seq<char>| #[trigger] self@.contains_key(k) && k != key@ implies self@[k]
                == before@[k] by {
                let i = slot_in(before.keys@, k);
                assert(before.keys@[i] == k);
            }
            assert(self@.dom() =~= before@.dom());
            assert(self@[key@] == self.rows@[slot as int]@);
            assert(before@[key@] == row_of(old(self)@, key@));
            assert(self@[key@] =~= row_of(old(self)@, key@).insert(at as int, item));
            assert(self@ =~= old(self)@.insert(
                key@,
                row_of(old(self)@, key@).insert(at as int, item),
            ));
        }
    }

    /// Adds `item` behind the rows of `key`.
    pub fn push(&mut self, key: &str, item: T)
        requires
            old(self).wf(),
        ensures
            final(self).wf(),
            final(self).order() == interned(old(self).order(), key@),
            final(self)@ == old(self)@.insert(key@, row_of(old(self)@, key@).push(item)),
    {
        let at: usize = match self.get(key) {
            Some(row) => row.len(),
            None => 0,
        };
        self.insert_at(key, at, item);
        assert(row_of(old(self)@, key@).insert(at as int, item) == row_of(old(self)@, key@).push(
            item,
        ));
    }

    /// Adds `items` behind the rows of `key`.
    pub fn extend(&mut self, key: &str, items: Vec<T>)
        requires
            old(self).wf(),
        ensures
            final(self).wf(),
            final(self).order() == interned(old(self).order(), key@),
            final(self)@ == old(self)@.insert(key@, row_of(old(self)@, key@) + items@),
    {
        let mut items = items;
        let ghost added = items@;
        let slot: usize = self.intern(key);
        let ghost before = *self;
        proof {
            before.keys.lemma_distinct();
            assert(before.keys@.contains(key@));
            assert(slot_in(before.keys@, key@) == slot);
            assert(before@[key@] == before.rows@[slot as int]@);
        }
        self.rows[slot].append(&mut items);
        proof {
            assert forall|k: Seq<char>| #[trigger] self@.contains_key(k) && k != key@ implies self@[k]
                == before@[k] by {
                let i = slot_in(before.keys@, k);
                assert(before.keys@[i] == k);
            }
            assert(self@.dom() =~= before@.dom());
            assert(self@[key@] == self.rows@[slot as int]@);
            assert(before@[key@] == row_of(old(self)@, key@));
            assert(self@[key@] =~= row_of(old(self)@, key@) + added);
            assert(self@ =~= old(self)@.insert(key@, row_of(old(self)@, key@) + added));
        }
    }
}

} // verus!
