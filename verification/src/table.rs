//! A map from text to values, kept in the order of its keys.
//!
//! Keys are ordered as strings are: byte by byte over their UTF-8 encoding.

use vstd::prelude::*;
use vstd::utf8::encode_utf8;

verus! {

/// Whether `a` comes strictly before `b` in lexicographic order.
pub open spec fn precedes(a: Seq<u8>, b: Seq<u8>) -> bool
    decreases a.len(),
{
    if b.len() == 0 {
        false
    } else if a.len() == 0 {
        true
    } else if a[0] != b[0] {
        a[0] < b[0]
    } else {
        precedes(a.drop_first(), b.drop_first())
    }
}

/// Whether the text `a` comes strictly before the text `b`.
pub open spec fn text_precedes(a: Seq<char>, b: Seq<char>) -> bool {
    precedes(encode_utf8(a), encode_utf8(b))
}

/// Nothing comes before itself.
pub proof fn lemma_precedes_irreflexive(a: Seq<u8>)
    ensures
        !precedes(a, a),
    decreases a.len(),
{
    if a.len() > 0 {
        lemma_precedes_irreflexive(a.drop_first());
    }
}

/// What comes before something that comes before a third comes before the
/// third.
pub proof fn lemma_precedes_transitive(a: Seq<u8>, b: Seq<u8>, c: Seq<u8>)
    requires
        precedes(a, b),
        precedes(b, c),
    ensures
        precedes(a, c),
    decreases a.len(),
{
    if a.len() > 0 && a[0] == b[0] && b[0] == c[0] {
        lemma_precedes_transitive(a.drop_first(), b.drop_first(), c.drop_first());
    }
}

/// Of two different byte strings one comes before the other.
pub proof fn lemma_precedes_total(a: Seq<u8>, b: Seq<u8>)
    requires
        !precedes(a, b),
        !precedes(b, a),
    ensures
        a == b,
    decreases a.len(),
{
    if a.len() > 0 && b.len() > 0 {
        lemma_precedes_total(a.drop_first(), b.drop_first());
        assert(a =~= seq![a[0]] + a.drop_first());
        assert(b =~= seq![b[0]] + b.drop_first());
    } else {
        assert(a =~= b);
    }
}

/// Whether `a` comes strictly before `b`.
pub fn bytes_precede(a: &[u8], b: &[u8]) -> (before: bool)
    ensures
        before == precedes(a@, b@),
{
    let mut i: usize = 0;
    assert(a@.subrange(0, a@.len() as int) =~= a@);
    assert(b@.subrange(0, b@.len() as int) =~= b@);
    while i < a.len() && i < b.len() && a[i] == b[i]
        invariant
            i <= a@.len(),
            i <= b@.len(),
            precedes(a@, b@) == precedes(
                a@.subrange(i as int, a@.len() as int),
                b@.subrange(i as int, b@.len() as int),
            ),
        decreases a@.len() - i,
    {
        assert(a@.subrange(i as int, a@.len() as int).drop_first() =~= a@.subrange(
            i + 1,
            a@.len() as int,
        ));
        assert(b@.subrange(i as int, b@.len() as int).drop_first() =~= b@.subrange(
            i + 1,
            b@.len() as int,
        ));
        i += 1;
    }
    if i >= b.len() {
        false
    } else if i >= a.len() {
        true
    } else {
        a[i] < b[i]
    }
}

/// A map from text to values of `V`.
pub struct Table<V> {
    rows: Vec<(String, V)>,
}

impl<V> Table<V> {
    /// The keys in ascending order.
    pub closed spec fn keys(&self) -> Seq<Seq<char>> {
        Seq::new(self.rows@.len(), |i: int| self.rows@[i].0@)
    }

    /// The values in the order of their keys.
    pub closed spec fn values(&self) -> Seq<V> {
        Seq::new(self.rows@.len(), |i: int| self.rows@[i].1)
    }

    /// The keys ascend strictly, so no key occurs twice.
    pub open spec fn wf(&self) -> bool {
        &&& self.keys().len() == self.values().len()
        &&& forall|i: int, j: int|
            0 <= i < j < self.keys().len() ==> text_precedes(
                #[trigger] self.keys()[i],
                #[trigger] self.keys()[j],
            )
    }

    /// Whether the table has an entry for `key`.
    pub open spec fn contains(&self, key: Seq<char>) -> bool {
        exists|i: int| 0 <= i < self.keys().len() && #[trigger] self.keys()[i] == key
    }

    /// The index of the entry for `key`.
    pub open spec fn index_of(&self, key: Seq<char>) -> int {
        choose|i: int| 0 <= i < self.keys().len() && #[trigger] self.keys()[i] == key
    }

    /// The value that the table holds for `key`.
    pub open spec fn value(&self, key: Seq<char>) -> V
        recommends
            self.contains(key),
    {
        self.values()[self.index_of(key)]
    }

    /// The table as a map.
    pub open spec fn view(&self) -> Map<Seq<char>, V> {
        Map::new(|key: Seq<char>| self.contains(key), |key: Seq<char>| self.value(key))
    }

    /// In a well-formed table a key stands at one index only.
    pub proof fn lemma_unique(&self, i: int, j: int)
        requires
            self.wf(),
            0 <= i < self.keys().len(),
            0 <= j < self.keys().len(),
            self.keys()[i] == self.keys()[j],
        ensures
            i == j,
    {
        lemma_precedes_irreflexive(encode_utf8(self.keys()[i]));
    }

    /// The value for the key at index `i` is the value at index `i`.
    pub proof fn lemma_value_at(&self, i: int)
        requires
            self.wf(),
            0 <= i < self.keys().len(),
        ensures
            self.contains(self.keys()[i]),
            self.value(self.keys()[i]) == self.values()[i],
    {
        self.lemma_unique(i, self.index_of(self.keys()[i]));
    }

    /// A table without entries.
    pub fn new() -> (table: Table<V>)
        ensures
            table.wf(),
            table.keys().len() == 0,
            forall|key: Seq<char>| !table.contains(key),
    {
        Table { rows: Vec::new() }
    }

    /// The number of entries.
    pub fn len(&self) -> (len: usize)
        ensures
            len == self.keys().len(),
            len == self.values().len(),
    {
        self.rows.len()
    }

    /// The key at index `i`, counted in the order of the keys.
    pub fn key_at(&self, i: usize) -> (key: &str)
        requires
            i < self.keys().len(),
        ensures
            key@ == self.keys()[i as int],
    {
        self.rows[i].0.as_str()
    }

    /// The value at index `i`, counted in the order of the keys.
    pub fn value_at(&self, i: usize) -> (value: &V)
        requires
            i < self.keys().len(),
        ensures
            *value == self.values()[i as int],
    {
        &self.rows[i].1
    }

    /// The index of the first key that does not come before `key`.
    fn search(&self, key: &str) -> (at: usize)
        requires
            self.wf(),
        ensures
            at <= self.keys().len(),
            forall|i: int| 0 <= i < at ==> text_precedes(#[trigger] self.keys()[i], key@),
            forall|i: int|
                at <= i < self.keys().len() ==> !text_precedes(#[trigger] self.keys()[i], key@),
    {
        let mut low: usize = 0;
        let mut high: usize = self.rows.len();
        while low < high
            invariant
                self.wf(),
                low <= high <= self.keys().len(),
                self.keys().len() == self.rows@.len(),
                forall|i: int| 0 <= i < low ==> text_precedes(#[trigger] self.keys()[i], key@),
                forall|i: int|
                    high <= i < self.keys().len() ==> !text_precedes(
                        #[trigger] self.keys()[i],
                        key@,
                    ),
            decreases high - low,
        {
            let middle = low + (high - low) / 2;
            let ghost pivot = self.keys()[middle as int];
            if bytes_precede(self.rows[middle].0.as_str().as_bytes(), key.as_bytes()) {
                assert forall|i: int| 0 <= i < middle + 1 implies text_precedes(
                    #[trigger] self.keys()[i],
                    key@,
                ) by {
                    if i < middle {
                        lemma_precedes_transitive(
                            encode_utf8(self.keys()[i]),
                            encode_utf8(pivot),
                            encode_utf8(key@),
                        );
                    }
                }
                low = middle + 1;
            } else {
                assert forall|i: int| middle <= i < self.keys().len() implies !text_precedes(
                    #[trigger] self.keys()[i],
                    key@,
                ) by {
                    if i > middle && text_precedes(self.keys()[i], key@) {
                        lemma_precedes_transitive(
                            encode_utf8(pivot),
                            encode_utf8(self.keys()[i]),
                            encode_utf8(key@),
                        );
                    }
                }
                high = middle;
            }
        }
        low
    }

    /// Where `search` stops without the key there, the key is nowhere.
    proof fn lemma_absent(&self, key: Seq<char>, at: int)
        requires
            self.wf(),
            0 <= at <= self.keys().len(),
            forall|i: int| 0 <= i < at ==> text_precedes(#[trigger] self.keys()[i], key),
            forall|i: int|
                at <= i < self.keys().len() ==> !text_precedes(#[trigger] self.keys()[i], key),
            at < self.keys().len() ==> self.keys()[at] != key,
        ensures
            !self.contains(key),
            forall|i: int| at <= i < self.keys().len() ==> text_precedes(key, #[trigger] self.keys()[i]),
    {
        lemma_precedes_irreflexive(encode_utf8(key));
        vstd::utf8::encode_utf8_decode_utf8(key);
        assert forall|i: int| at <= i < self.keys().len() implies text_precedes(
            key,
            #[trigger] self.keys()[i],
        ) by {
            vstd::utf8::encode_utf8_decode_utf8(self.keys()[at]);
            if !text_precedes(key, self.keys()[at]) {
                lemma_precedes_total(encode_utf8(key), encode_utf8(self.keys()[at]));
            }
            if i > at {
                lemma_precedes_transitive(
                    encode_utf8(key),
                    encode_utf8(self.keys()[at]),
                    encode_utf8(self.keys()[i]),
                );
            }
        }
    }

    /// The value for `key`, if the table has one.
    pub fn get(&self, key: &str) -> (found: Option<&V>)
        requires
            self.wf(),
        ensures
            found is Some <==> self.contains(key@),
            found is Some ==> *found->Some_0 == self.value(key@),
    {
        let at = self.search(key);
        if at < self.rows.len() && self.rows[at].0.as_str().as_bytes().len() == key.as_bytes().len()
            && !bytes_precede(key.as_bytes(), self.rows[at].0.as_str().as_bytes()) {
            proof {
                lemma_precedes_total(encode_utf8(key@), encode_utf8(self.keys()[at as int]));
                vstd::utf8::encode_utf8_decode_utf8(key@);
                vstd::utf8::encode_utf8_decode_utf8(self.keys()[at as int]);
                self.lemma_value_at(at as int);
            }
            Some(&self.rows[at].1)
        } else {
            proof {
                if at < self.keys().len() && self.keys()[at as int] == key@ {
                    lemma_precedes_irreflexive(encode_utf8(key@));
                }
                self.lemma_absent(key@, at as int);
            }
            None
        }
    }

    /// Puts `value` under `key`, in place of the value that was there if there
    /// was one.
    pub fn insert(&mut self, key: String, value: V)
        requires
            old(self).wf(),
        ensures
            final(self).wf(),
            final(self).contains(key@),
            final(self).value(key@) == value,
            forall|other: Seq<char>|
                other != key@ ==> (final(self).contains(other) <==> old(self).contains(other)),
            forall|other: Seq<char>|
                other != key@ && old(self).contains(other) ==> final(self).value(other) == old(
                    self,
                ).value(other),
            final(self).keys().len() == old(self).keys().len() + (if old(self).contains(key@) {
                0int
            } else {
                1int
            }),
    {
        let at = self.search(key.as_str());
        let ghost before = *self;
        let present = at < self.rows.len() && !bytes_precede(
            key.as_str().as_bytes(),
            self.rows[at].0.as_str().as_bytes(),
        );
        if present {
            proof {
                lemma_precedes_total(encode_utf8(key@), encode_utf8(self.keys()[at as int]));
                vstd::utf8::encode_utf8_decode_utf8(key@);
                vstd::utf8::encode_utf8_decode_utf8(self.keys()[at as int]);
            }
            self.rows.set(at, (key, value));
            proof {
                assert(self.keys() =~= before.keys());
                assert(self.values() =~= before.values().update(at as int, value));
                assert(self.keys()[at as int] == key@);
                self.lemma_value_at(at as int);
                assert forall|other: Seq<char>|
                    other != key@ && before.contains(other) implies self.value(other)
                    == before.value(other) by {
                    let i = before.index_of(other);
                    assert(self.keys()[i] == other);
                    self.lemma_value_at(i);
                }
            }
        } else {
            proof {
                if at < self.keys().len() && self.keys()[at as int] == key@ {
                    lemma_precedes_irreflexive(encode_utf8(key@));
                }
                self.lemma_absent(key@, at as int);
            }
            self.rows.insert(at, (key, value));
            proof {
                assert(self.keys() =~= before.keys().insert(at as int, key@));
                assert(self.values() =~= before.values().insert(at as int, value));
                assert forall|i: int, j: int| 0 <= i < j < self.keys().len() implies text_precedes(
                    #[trigger] self.keys()[i],
                    #[trigger] self.keys()[j],
                ) by {
                    if i < at && j > at {
                        assert(text_precedes(before.keys()[i], before.keys()[j - 1]));
                    } else if i > at {
                        assert(text_precedes(before.keys()[i - 1], before.keys()[j - 1]));
                    } else if j < at {
                        assert(text_precedes(before.keys()[i], before.keys()[j]));
                    } else if i == at {
                        assert(text_precedes(key@, before.keys()[j - 1]));
                    } else {
                        assert(text_precedes(before.keys()[i], key@));
                    }
                }
                assert(self.keys()[at as int] == key@);
                self.lemma_value_at(at as int);
                assert forall|other: Seq<char>| other != key@ implies (self.contains(other)
                    <==> before.contains(other)) by {
                    if before.contains(other) {
                        let i = before.index_of(other);
                        if i < at {
                            assert(self.keys()[i] == other);
                        } else {
                            assert(self.keys()[i + 1] == other);
                        }
                    }
                    if self.contains(other) {
                        let i = self.index_of(other);
                        if i < at {
                            assert(before.keys()[i] == other);
                        } else {
                            assert(before.keys()[i - 1] == other);
                        }
                    }
                }
                assert forall|other: Seq<char>|
                    other != key@ && before.contains(other) implies self.value(other)
                    == before.value(other) by {
                    let i = before.index_of(other);
                    if i < at {
                        assert(self.keys()[i] == other);
                        self.lemma_value_at(i);
                    } else {
                        assert(self.keys()[i + 1] == other);
                        self.lemma_value_at(i + 1);
                    }
                }
            }
        }
    }
}

} // verus!
