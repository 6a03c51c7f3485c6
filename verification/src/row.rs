//! Items as the rows of a table: the stamp as sixteen bytes, highest first, so that rows
//! sort by time as their stamps sort as bytes; and the status as the integer the table
//! holds.

use vstd::prelude::*;
use crate::error::Error;
use crate::item::{reference, text, Item, ItemView, NewItem, NewItemView};

verus! {

/// The number of bytes that a stamp takes.
pub const STAMP_BYTES: usize = 16;

/// 256 to the power of `n`.
pub open spec fn pow256(n: nat) -> nat
    decreases n,
{
    if n == 0 {
        1
    } else {
        256 * pow256((n - 1) as nat)
    }
}

/// The number that `bytes` write in base 256, highest byte first.
pub open spec fn be_value(bytes: Seq<u8>) -> nat
    decreases bytes.len(),
{
    if bytes.len() == 0 {
        0
    } else {
        256 * be_value(bytes.drop_last()) + bytes.last() as nat
    }
}

/// The lowest `n` bytes of `x` in base 256, highest first.
pub open spec fn be_bytes(x: nat, n: nat) -> Seq<u8>
    decreases n,
{
    if n == 0 {
        Seq::empty()
    } else {
        be_bytes(x / 256, (n - 1) as nat).push((x % 256) as u8)
    }
}

/// Whether `a` comes before `b` where byte strings of one length are sorted: at the first
/// place where they differ, `a` has the lower byte.
pub open spec fn sorts_before(a: Seq<u8>, b: Seq<u8>) -> bool {
    exists|k: int| 0 <= k < a.len() && k < b.len() && #[trigger] a.take(k) == b.take(k) && a[k] < b[k]
}

/// A higher power of 256 is no smaller.
pub proof fn lemma_pow256_grows(a: nat, b: nat)
    requires
        a <= b,
    ensures
        pow256(a) <= pow256(b),
    decreases b,
{
    if a < b {
        lemma_pow256_grows(a, (b - 1) as nat);
    }
}

/// `n` bytes write a number below 256 to the power of `n`.
pub proof fn lemma_be_value_bound(bytes: Seq<u8>)
    ensures
        be_value(bytes) < pow256(bytes.len()),
    decreases bytes.len(),
{
    if bytes.len() > 0 {
        lemma_be_value_bound(bytes.drop_last());
    }
}

/// A number is `n` bytes long where it is below 256 to the power of `n`, and those bytes
/// write the number again.
pub proof fn lemma_bytes_write_value(x: nat, n: nat)
    requires
        x < pow256(n),
    ensures
        be_bytes(x, n).len() == n,
        be_value(be_bytes(x, n)) == x,
    decreases n,
{
    if n > 0 {
        lemma_bytes_write_value(x / 256, (n - 1) as nat);
        let bytes = be_bytes(x, n);
        assert(bytes.drop_last() =~= be_bytes(x / 256, (n - 1) as nat));
    }
}

/// The bytes of the number that `bytes` write are `bytes`.
pub proof fn lemma_value_writes_bytes(bytes: Seq<u8>)
    ensures
        be_bytes(be_value(bytes), bytes.len()) == bytes,
    decreases bytes.len(),
{
    if bytes.len() > 0 {
        let front = bytes.drop_last();
        lemma_value_writes_bytes(front);
        let x = be_value(bytes);
        assert(x % 256 == bytes.last() as nat);
        assert(x / 256 == be_value(front));
        assert(be_bytes(x, bytes.len()) =~= bytes);
    }
}

/// The number that bytes write is what the first byte weighs, and what the rest write.
pub proof fn lemma_be_value_front(bytes: Seq<u8>)
    requires
        bytes.len() > 0,
    ensures
        be_value(bytes) == bytes[0] as nat * pow256((bytes.len() - 1) as nat) + be_value(
            bytes.skip(1),
        ),
    decreases bytes.len(),
{
    let b0 = bytes[0] as nat;
    if bytes.len() == 1 {
        assert(bytes.drop_last() =~= Seq::<u8>::empty());
        assert(bytes.skip(1) =~= Seq::<u8>::empty());
        assert(be_value(bytes.drop_last()) == 0);
        assert(bytes.last() == bytes[0]);
        assert(b0 * pow256(0) == b0) by (nonlinear_arith)
            requires
                pow256(0) == 1,
        ;
    } else {
        let front = bytes.drop_last();
        let rest = bytes.skip(1);
        lemma_be_value_front(front);
        assert(front.skip(1) =~= rest.drop_last());
        assert(rest.last() == bytes.last());
        assert(front[0] == bytes[0]);
        let p = pow256((bytes.len() - 2) as nat);
        let v = be_value(front.skip(1));
        assert(pow256((bytes.len() - 1) as nat) == 256 * p);
        assert(be_value(front) == b0 * p + v);
        assert(be_value(rest) == 256 * v + bytes.last() as nat);
        assert(be_value(bytes) == 256 * (b0 * p + v) + bytes.last() as nat);
        assert(256 * (b0 * p + v) == b0 * (256 * p) + 256 * v) by (nonlinear_arith);
    }
}

/// Stamps are stored so that they sort: of two byte strings of one length, the one that
/// writes the lower number is the one that sorts first.
pub proof fn lemma_bytes_sort_as_values(a: Seq<u8>, b: Seq<u8>)
    requires
        a.len() == b.len(),
    ensures
        be_value(a) < be_value(b) <==> sorts_before(a, b),
    decreases a.len(),
{
    if a.len() == 0 {
        assert(!sorts_before(a, b));
    } else {
        let n = (a.len() - 1) as nat;
        let p = pow256(n);
        lemma_be_value_front(a);
        lemma_be_value_front(b);
        lemma_be_value_bound(a.skip(1));
        lemma_be_value_bound(b.skip(1));
        let ra = a.skip(1);
        let rb = b.skip(1);
        if a[0] < b[0] {
            assert(a.take(0) =~= b.take(0));
            assert(sorts_before(a, b));
            assert((a[0] as nat + 1) * p <= b[0] as nat * p) by (nonlinear_arith)
                requires
                    a[0] < b[0],
            ;
            assert((a[0] as nat + 1) * p == a[0] as nat * p + p) by (nonlinear_arith);
        } else if a[0] > b[0] {
            assert((b[0] as nat + 1) * p <= a[0] as nat * p) by (nonlinear_arith)
                requires
                    b[0] < a[0],
            ;
            assert((b[0] as nat + 1) * p == b[0] as nat * p + p) by (nonlinear_arith);
            assert(!sorts_before(a, b)) by {
                if sorts_before(a, b) {
                    let k = choose|k: int|
                        0 <= k < a.len() && k < b.len() && #[trigger] a.take(k) == b.take(k)
                            && a[k] < b[k];
                    if k > 0 {
                        assert(a.take(k)[0] == b.take(k)[0]);
                    }
                }
            }
        } else {
            lemma_bytes_sort_as_values(ra, rb);
            if sorts_before(ra, rb) {
                let k = choose|k: int|
                    0 <= k < ra.len() && k < rb.len() && #[trigger] ra.take(k) == rb.take(k)
                        && ra[k] < rb[k];
                assert(a.take(k + 1) =~= seq![a[0]] + ra.take(k));
                assert(b.take(k + 1) =~= seq![b[0]] + rb.take(k));
                assert(sorts_before(a, b));
            }
            if sorts_before(a, b) {
                let k = choose|k: int|
                    0 <= k < a.len() && k < b.len() && #[trigger] a.take(k) == b.take(k) && a[k]
                        < b[k];
                assert(k > 0);
                assert(ra.take(k - 1) =~= a.take(k).skip(1));
                assert(rb.take(k - 1) =~= b.take(k).skip(1));
                assert(sorts_before(ra, rb));
            }
        }
    }
}

/// Every stamp is below 256 to the power of sixteen.
pub proof fn lemma_stamp_bound(stamp: u128)
    ensures
        stamp < pow256(16),
{
    reveal_with_fuel(pow256, 17);
}

/// The earlier of two stamps is the one whose bytes sort first.
pub proof fn lemma_stamps_sort(a: u128, b: u128)
    ensures
        a < b <==> sorts_before(be_bytes(a as nat, 16), be_bytes(b as nat, 16)),
{
    lemma_stamp_bound(a);
    lemma_stamp_bound(b);
    lemma_bytes_write_value(a as nat, 16);
    lemma_bytes_write_value(b as nat, 16);
    lemma_bytes_sort_as_values(be_bytes(a as nat, 16), be_bytes(b as nat, 16));
}

/// The sixteen bytes of `stamp`, highest first.
pub fn encode_stamp(stamp: u128) -> (bytes: Vec<u8>)
    ensures
        bytes@ == be_bytes(stamp as nat, 16),
        bytes@.len() == STAMP_BYTES,
        be_value(bytes@) == stamp,
{
    let mut bytes: Vec<u8> = vec![0u8; STAMP_BYTES];
    let mut x: u128 = stamp;
    let mut i: usize = STAMP_BYTES;
    assert(bytes@.skip(16) =~= Seq::<u8>::empty());
    assert(be_bytes(x as nat, 16) + bytes@.skip(16) =~= be_bytes(stamp as nat, 16));
    while i > 0
        invariant
            i <= STAMP_BYTES == bytes@.len(),
            be_bytes(x as nat, i as nat) + bytes@.skip(i as int) == be_bytes(stamp as nat, 16),
        decreases i,
    {
        let low = (x % 256) as u8;
        let ghost before = bytes@;
        i = i - 1;
        bytes.set(i, low);
        proof {
            let front = be_bytes(x as nat / 256, i as nat);
            assert(bytes@.skip(i as int) =~= seq![low] + before.skip(i + 1));
            assert(front + bytes@.skip(i as int) =~= front.push(low) + before.skip(i + 1));
        }
        x = x / 256;
    }
    proof {
        assert(be_bytes(x as nat, 0) + bytes@.skip(0) =~= bytes@);
        lemma_stamp_bound(stamp);
        lemma_bytes_write_value(stamp as nat, 16);
    }
    bytes
}

/// The stamp that `bytes` write, where they are sixteen.
pub fn decode_stamp(bytes: &Vec<u8>) -> (stamp: Option<u128>)
    ensures
        stamp is Some <==> bytes@.len() == STAMP_BYTES,
        stamp matches Some(x) ==> x == be_value(bytes@) && bytes@ == be_bytes(x as nat, 16),
{
    if bytes.len() != STAMP_BYTES {
        return None;
    }
    let mut acc: u128 = 0;
    let mut i: usize = 0;
    assert(bytes@.take(0) =~= Seq::<u8>::empty());
    while i < STAMP_BYTES
        invariant
            i <= STAMP_BYTES == bytes@.len(),
            acc == be_value(bytes@.take(i as int)),
        decreases STAMP_BYTES - i,
    {
        proof {
            let read = bytes@.take(i + 1);
            assert(read.drop_last() =~= bytes@.take(i as int));
            assert(read.last() == bytes@[i as int]);
            lemma_be_value_bound(read);
            reveal_with_fuel(pow256, 17);
            assert(pow256(read.len()) <= pow256(16)) by {
                lemma_pow256_grows(read.len(), 16);
            }
        }
        acc = acc * 256 + bytes[i] as u128;
        i = i + 1;
    }
    proof {
        assert(bytes@.take(16) =~= bytes@);
        lemma_value_writes_bytes(bytes@);
    }
    Some(acc)
}

/// The columns of one row of the table, the id apart.
#[derive(Debug, PartialEq, Eq)]
pub struct Record {
    pub topic: String,
    pub attribute: Option<String>,
    /// The stamp as the table holds it: sixteen bytes, highest first.
    pub stamp: Vec<u8>,
    pub source_id: Option<i64>,
    pub parent_id: Option<i64>,
    pub payload: Option<String>,
    pub secondary: Option<String>,
    /// The status as the table holds it.
    pub status: i64,
}

/// The mathematical value of a [`Record`].
pub struct RecordView {
    pub topic: Seq<char>,
    pub attribute: Option<Seq<char>>,
    pub stamp: Seq<u8>,
    pub source_id: Option<int>,
    pub parent_id: Option<int>,
    pub payload: Option<Seq<char>>,
    pub secondary: Option<Seq<char>>,
    pub status: int,
}

impl View for Record {
    type V = RecordView;

    open spec fn view(&self) -> RecordView {
        RecordView {
            topic: self.topic@,
            attribute: text(self.attribute),
            stamp: self.stamp@,
            source_id: reference(self.source_id),
            parent_id: reference(self.parent_id),
            payload: text(self.payload),
            secondary: text(self.secondary),
            status: self.status as int,
        }
    }
}

/// The columns that the store writes for `new` at time `stamp`.
pub open spec fn record_of(new: NewItemView, stamp: nat) -> RecordView {
    RecordView {
        topic: new.topic,
        attribute: new.attribute,
        stamp: be_bytes(stamp, 16),
        source_id: new.source_id,
        parent_id: new.parent_id,
        payload: new.payload,
        secondary: new.secondary,
        status: new.status,
    }
}

/// Whether a row with these columns holds an item: the stamp is sixteen bytes, and the
/// status is one that a process can exit with.
pub open spec fn is_item(record: RecordView) -> bool {
    &&& record.stamp.len() == STAMP_BYTES
    &&& i32::MIN <= record.status <= i32::MAX
}

/// The item that the row with id `id` and the columns `record` holds.
pub open spec fn item_of(id: int, record: RecordView) -> ItemView {
    ItemView {
        id,
        topic: record.topic,
        attribute: record.attribute,
        stamp: be_value(record.stamp),
        source_id: record.source_id,
        parent_id: record.parent_id,
        payload: record.payload,
        secondary: record.secondary,
        status: record.status,
    }
}

/// The columns to write for `new` at time `stamp`.
pub fn add(new: NewItem, stamp: u128) -> (record: Record)
    ensures
        record@ == record_of(new@, stamp as nat),
        is_item(record@),
{
    Record {
        topic: new.topic,
        attribute: new.attribute,
        stamp: encode_stamp(stamp),
        source_id: new.source_id,
        parent_id: new.parent_id,
        payload: new.payload,
        secondary: new.secondary,
        status: new.status as i64,
    }
}

/// The item that a row holds. A row whose stamp is not sixteen bytes, or whose status is
/// none that a process can exit with, is a fault of the store.
pub fn create_item(id: i64, record: Record) -> (r: Result<Item, Error>)
    ensures
        match r {
            Ok(item) => is_item(record@) && item@ == item_of(id as int, record@),
            Err(e) => !is_item(record@) && e == Error::Store,
        },
{
    let stamp = match decode_stamp(&record.stamp) {
        Some(x) => x,
        None => {
            return Err(Error::Store);
        },
    };
    if record.status < i32::MIN as i64 || record.status > i32::MAX as i64 {
        return Err(Error::Store);
    }
    Ok(
        Item {
            id,
            topic: record.topic,
            attribute: record.attribute,
            stamp,
            source_id: record.source_id,
            parent_id: record.parent_id,
            payload: record.payload,
            secondary: record.secondary,
            status: record.status as i32,
        },
    )
}

/// What is written for an item is read back as that item: the row that `add` makes of a
/// request holds exactly the item that the store makes of it.
pub proof fn lemma_row_round_trip(new: NewItemView, id: int, stamp: nat)
    requires
        stamp < pow256(16),
        i32::MIN <= new.status <= i32::MAX,
    ensures
        is_item(record_of(new, stamp)),
        item_of(id, record_of(new, stamp)) == new.stored(id, stamp),
{
    lemma_bytes_write_value(stamp, 16);
}

} // verus!
