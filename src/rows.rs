use rand::Rng;
use vstd::prelude::*;

use crate::keyed::{keys_of, unique, KeyError};

verus! {

/// The decimal digit `d`, below ten, as a character.
pub open spec fn digit_char(d: nat) -> char {
    seq!['0', '1', '2', '3', '4', '5', '6', '7', '8', '9'][d as int]
}

/// `n` written in decimal, without leading zeros.
pub open spec fn decimal_text(n: nat) -> Seq<char>
    decreases n,
{
    if n < 10 {
        seq![digit_char(n)]
    } else {
        decimal_text(n / 10).push(digit_char(n % 10))
    }
}

/// Relies on `u8`'s `ToString`, through `Display`: the value in decimal.
#[verifier::external_body]
fn byte_text(b: u8) -> (r: String)
    ensures
        r@ == decimal_text(b as nat),
{
    b.to_string()
}

/// Relies on `rand::random::<u8>`: any byte may come back.
#[verifier::external_body]
fn random_byte() -> (r: u8) {
    rand::random::<u8>()
}

/// Relies on `Rng::gen_range` on `rand::thread_rng()`: a value of the
/// half-open range `low..high`, which must not be empty.
#[verifier::external_body]
fn random_in(low: i32, high: i32) -> (r: i32)
    requires
        low < high,
    ensures
        low <= r < high,
{
    rand::thread_rng().gen_range(low..high)
}

/// A row of mock data: a key and a value.
#[derive(Debug, Clone, PartialEq)]
pub struct DatabaseEntry {
    pub key: String,
    pub value: i32,
}

impl DatabaseEntry {
    /// The row whose key is `key_byte` in decimal.
    pub fn from_parts(key_byte: u8, value: i32) -> (r: DatabaseEntry)
        ensures
            r.key@ == decimal_text(key_byte as nat),
            r.value == value,
    {
        DatabaseEntry { key: byte_text(key_byte), value }
    }

    /// A row with a random byte as key and a random value below 100.
    pub fn new() -> (r: DatabaseEntry)
        ensures
            exists|b: u8| r.key@ == decimal_text(b as nat),
            0 <= r.value < 100,
    {
        let b = random_byte();
        let v = random_in(0, 100);
        DatabaseEntry::from_parts(b, v)
    }
}

/// The rows of `rows` whose key is not `k`, in order.
pub open spec fn without_key(rows: Seq<DatabaseEntry>, k: Seq<char>) -> Seq<DatabaseEntry>
    decreases rows.len(),
{
    if rows.len() == 0 {
        Seq::empty()
    } else if rows.last().key@ == k {
        without_key(rows.drop_last(), k)
    } else {
        without_key(rows.drop_last(), k).push(rows.last())
    }
}

/// The keys of a sequence of rows.
pub open spec fn row_keys(rows: Seq<DatabaseEntry>) -> Seq<Seq<char>> {
    Seq::new(rows.len(), |i: int| rows[i].key@)
}

/// Rows of mock data with distinct keys, in the order they were added.
pub struct Table {
    rows: Vec<DatabaseEntry>,
}

impl Table {
    pub closed spec fn view(&self) -> Seq<DatabaseEntry> {
        self.rows@
    }

    pub open spec fn wf(&self) -> bool {
        unique(row_keys(self.view()))
    }

    /// A table with no rows.
    pub fn new() -> (r: Table)
        ensures
            r.wf(),
            r.view().len() == 0,
    {
        Table { rows: Vec::new() }
    }

    /// Copy of the rows, in order.
    pub fn rows(&self) -> (r: Vec<DatabaseEntry>)
        ensures
            r@ == self.view(),
    {
        let mut out: Vec<DatabaseEntry> = Vec::new();
        let mut i: usize = 0;
        while i < self.rows.len()
            invariant
                i <= self.rows@.len(),
                out@ == self.rows@.subrange(0, i as int),
            decreases self.rows@.len() - i,
        {
            let e = &self.rows[i];
            out.push(DatabaseEntry { key: e.key.clone(), value: e.value });
            i = i + 1;
        }
        assert(self.rows@.subrange(0, i as int) =~= self.rows@);
        out
    }

    /// The keys, in row order.
    pub fn keys(&self) -> (r: Vec<String>)
        ensures
            keys_of(r@) == row_keys(self.view()),
    {
        let mut out: Vec<String> = Vec::new();
        let mut i: usize = 0;
        while i < self.rows.len()
            invariant
                i <= self.rows@.len(),
                out@.len() == i,
                forall|t: int| 0 <= t < i ==> #[trigger] out@[t]@ == self.rows@[t].key@,
            decreases self.rows@.len() - i,
        {
            out.push(self.rows[i].key.clone());
            i = i + 1;
        }
        assert(keys_of(out@) =~= row_keys(self.rows@));
        out
    }

    /// Appends a row, unless its key is already taken.
    pub fn add(&mut self, entry: DatabaseEntry) -> (r: Result<(), KeyError>)
        requires
            old(self).wf(),
        ensures
            final(self).wf(),
            r is Ok <==> !row_keys(old(self).view()).contains(entry.key@),
            r is Ok ==> final(self).view() == old(self).view().push(entry),
            r is Err ==> r->Err_0 == KeyError::DuplicateKey && final(self).view() == old(self).view(),
    {
        let mut i: usize = 0;
        while i < self.rows.len()
            invariant
                self.rows@ == old(self).rows@,
                self.wf(),
                i <= self.rows@.len(),
                forall|t: int| 0 <= t < i ==> self.rows@[t].key@ != entry.key@,
            decreases self.rows@.len() - i,
        {
            if self.rows[i].key == entry.key {
                assert(row_keys(self.rows@)[i as int] == entry.key@);
                return Err(KeyError::DuplicateKey);
            }
            i = i + 1;
        }
        proof {
            if row_keys(self.rows@).contains(entry.key@) {
                let t = choose|t: int| 0 <= t < self.rows@.len() && row_keys(self.rows@)[t] == entry.key@;
                assert(self.rows@[t].key@ == entry.key@);
            }
        }
        self.rows.push(entry);
        assert(row_keys(self.rows@) =~= row_keys(old(self).rows@).push(entry.key@));
        Ok(())
    }

    /// Doubles every value, wrapping around on overflow.
    pub fn double_values(&mut self)
        requires
            old(self).wf(),
        ensures
            final(self).wf(),
            final(self).view().len() == old(self).view().len(),
            forall|i: int|
                0 <= i < old(self).view().len() ==> #[trigger] final(self).view()[i].key
                    == old(self).view()[i].key && final(self).view()[i].value
                    == vstd::wrapping::i32_specs::wrapping_mul(old(self).view()[i].value, 2),
    {
        let mut i: usize = 0;
        while i < self.rows.len()
            invariant
                i <= self.rows@.len(),
                self.rows@.len() == old(self).rows@.len(),
                forall|t: int|
                    0 <= t < i ==> #[trigger] self.rows@[t].key == old(self).rows@[t].key
                        && self.rows@[t].value == vstd::wrapping::i32_specs::wrapping_mul(
                        old(self).rows@[t].value,
                        2,
                    ),
                forall|t: int| i <= t < self.rows@.len() ==> #[trigger] self.rows@[t] == old(self).rows@[t],
            decreases self.rows@.len() - i,
        {
            let k = self.rows[i].key.clone();
            let v = self.rows[i].value;
            let w = v.wrapping_mul(2);
            let ghost before = self.rows@;
            self.rows.set(i, DatabaseEntry { key: k, value: w });
            assert forall|t: int| 0 <= t < i + 1 implies #[trigger] self.rows@[t].key == old(self).rows@[t].key
                && self.rows@[t].value == vstd::wrapping::i32_specs::wrapping_mul(old(self).rows@[t].value, 2) by {
                if t < i {
                    assert(before[t].key == old(self).rows@[t].key);
                }
            }
            i = i + 1;
        }
        assert(row_keys(self.rows@) =~= row_keys(old(self).rows@));
    }

    /// Removes the row with key `key`, if there is one.
    pub fn remove(&mut self, key: &String)
        requires
            old(self).wf(),
        ensures
            final(self).wf(),
            final(self).view() == without_key(old(self).view(), key@),
    {
        let mut kept: Vec<DatabaseEntry> = Vec::new();
        let mut i: usize = 0;
        while i < self.rows.len()
            invariant
                i <= self.rows@.len(),
                kept@ == without_key(self.rows@.subrange(0, i as int), key@),
            decreases self.rows@.len() - i,
        {
            proof {
                let p = self.rows@.subrange(0, i as int + 1);
                assert(p.drop_last() =~= self.rows@.subrange(0, i as int));
            }
            let e = &self.rows[i];
            if e.key != *key {
                kept.push(DatabaseEntry { key: e.key.clone(), value: e.value });
            }
            i = i + 1;
        }
        assert(self.rows@.subrange(0, i as int) =~= self.rows@);
        proof {
            lemma_without_key_sub(self.rows@, key@);
        }
        self.rows = kept;
    }
}

/// Dropping the rows of one key keeps the keys distinct.
proof fn lemma_without_key_sub(rows: Seq<DatabaseEntry>, k: Seq<char>)
    requires
        unique(row_keys(rows)),
    ensures
        unique(row_keys(without_key(rows, k))),
        forall|i: int|
            0 <= i < without_key(rows, k).len() ==> row_keys(rows).contains(
                #[trigger] without_key(rows, k)[i].key@,
            ),
    decreases rows.len(),
{
    if rows.len() > 0 {
        let init = rows.drop_last();
        assert(row_keys(init) =~= row_keys(rows).drop_last());
        lemma_without_key_sub(init, k);
        let w = without_key(init, k);
        assert forall|i: int| 0 <= i < w.len() implies row_keys(rows).contains(#[trigger] w[i].key@) by {
            let t = choose|t: int| 0 <= t < init.len() && row_keys(init)[t] == w[i].key@;
            assert(row_keys(rows)[t] == w[i].key@);
        }
        if rows.last().key@ != k {
            let w2 = without_key(rows, k);
            assert forall|a: int, b: int| 0 <= a < b < w2.len() implies row_keys(w2)[a] != row_keys(w2)[b] by {
                if b == w2.len() - 1 {
                    assert(w2[a] == w[a]);
                    let t = choose|t: int| 0 <= t < init.len() && row_keys(init)[t] == w[a].key@;
                    assert(row_keys(rows)[t] != row_keys(rows)[rows.len() - 1]);
                } else {
                    assert(row_keys(w)[a] != row_keys(w)[b]);
                }
            }
            assert forall|i: int| 0 <= i < w2.len() implies row_keys(rows).contains(#[trigger] w2[i].key@) by {
                if i == w2.len() - 1 {
                    assert(row_keys(rows)[rows.len() - 1] == w2[i].key@);
                } else {
                    assert(w2[i] == w[i]);
                }
            }
        }
    }
}

} // verus!
