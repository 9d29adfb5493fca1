//! The records of a Polyglot book: reading, sorting and searching them.

use vstd::prelude::*;

verus! {

/// One record of a Polyglot book.
#[derive(Clone, Copy, Debug)]
pub struct PolyEntry {
    pub key: u64,
    pub mv: u16,
    pub weight: u16,
    pub learn: u32,
}

/// The number that the bytes stand for, the most significant byte first.
pub open spec fn big_endian(b: Seq<u8>) -> int
    decreases b.len(),
{
    if b.len() == 0 {
        0
    } else {
        big_endian(b.drop_last()) * 256 + b.last()
    }
}

/// The record that 16 bytes stand for.
pub open spec fn record_of(b: Seq<u8>) -> PolyEntry {
    PolyEntry {
        key: big_endian(b.subrange(0, 8)) as u64,
        mv: big_endian(b.subrange(8, 10)) as u16,
        weight: big_endian(b.subrange(10, 12)) as u16,
        learn: big_endian(b.subrange(12, 16)) as u32,
    }
}

/// The whole records of a file, in order; bytes behind the last one are left
/// out.
pub open spec fn records_of(b: Seq<u8>) -> Seq<PolyEntry> {
    Seq::new(b.len() / 16, |i: int| record_of(b.subrange(i * 16, i * 16 + 16)))
}

/// The number in `bytes[from..from + len]`, the most significant byte first.
fn read_number(bytes: &[u8], from: usize, len: usize) -> (r: u64)
    requires
        from + len <= bytes@.len(),
        len <= 8,
    ensures
        r == big_endian(bytes@.subrange(from as int, from + len)),
        len == 2 ==> r <= 0xffff,
        len == 4 ==> r <= 0xffff_ffff,
{
    let size: usize = bytes.len();
    let mut n: u64 = 0;
    let mut i: usize = 0;
    let mut below: u128 = 1;
    while i < len
        invariant
            i <= len <= 8,
            from + len <= size,
            size == bytes@.len(),
            n == big_endian(bytes@.subrange(from as int, from + i)),
            n < below,
            i == 0 ==> below == 1,
            i == 1 ==> below == 0x100,
            i == 2 ==> below == 0x1_0000,
            i == 3 ==> below == 0x100_0000,
            i == 4 ==> below == 0x1_0000_0000,
            i == 5 ==> below == 0x100_0000_0000,
            i == 6 ==> below == 0x1_0000_0000_0000,
            i == 7 ==> below == 0x100_0000_0000_0000,
            i == 8 ==> below == 0x1_0000_0000_0000_0000,
        decreases len - i,
    {
        proof {
            let b = bytes@.subrange(from as int, from + i + 1);
            assert(b.drop_last() =~= bytes@.subrange(from as int, from + i));
        }
        n = n * 256 + bytes[from + i] as u64;
        below = below * 256;
        i += 1;
    }
    n
}

impl PolyEntry {
    /// Read one 16-byte record.
    fn from_bytes(buf: &[u8], from: usize) -> (r: PolyEntry)
        requires
            from + 16 <= buf@.len(),
        ensures
            r == record_of(buf@.subrange(from as int, from + 16)),
    {
        let size: usize = buf.len();
        let ghost b = buf@.subrange(from as int, from + 16);
        proof {
            assert(from + 16 <= size);
            assert(b.subrange(0, 8) =~= buf@.subrange(from as int, from + 8));
            assert(b.subrange(8, 10) =~= buf@.subrange(from + 8, from + 10));
            assert(b.subrange(10, 12) =~= buf@.subrange(from + 10, from + 12));
            assert(b.subrange(12, 16) =~= buf@.subrange(from + 12, from + 16));
        }
        PolyEntry {
            key: read_number(buf, from, 8),
            mv: read_number(buf, from + 8, 2) as u16,
            weight: read_number(buf, from + 10, 2) as u16,
            learn: read_number(buf, from + 12, 4) as u32,
        }
    }
}

/// All records of the bytes of a Polyglot file. Bytes behind the last whole
/// record are ignored.
pub fn read_polyglot(bytes: &[u8]) -> (r: Vec<PolyEntry>)
    ensures
        r@ == records_of(bytes@),
{
    let mut entries: Vec<PolyEntry> = Vec::new();
    let mut i: usize = 0;
    while bytes.len() - i >= 16
        invariant
            i <= bytes@.len(),
            i % 16 == 0,
            entries@.len() == i / 16,
            forall|k: int|
                0 <= k < entries@.len() ==> #[trigger] entries@[k] == record_of(
                    bytes@.subrange(k * 16, k * 16 + 16),
                ),
        decreases bytes@.len() - i,
    {
        entries.push(PolyEntry::from_bytes(bytes, i));
        i += 16;
    }
    proof {
        assert(entries@ =~= records_of(bytes@));
    }
    entries
}

/// The keys never fall.
pub open spec fn sorted(s: Seq<PolyEntry>) -> bool {
    forall|i: int, j: int| 0 <= i <= j < s.len() ==> #[trigger] s[i].key <= #[trigger] s[j].key
}

/// Merge two sorted lists into one.
fn merge(a: &Vec<PolyEntry>, b: &Vec<PolyEntry>) -> (r: Vec<PolyEntry>)
    requires
        sorted(a@),
        sorted(b@),
    ensures
        sorted(r@),
        r@.to_multiset() == (a@ + b@).to_multiset(),
{
    let mut out: Vec<PolyEntry> = Vec::new();
    let mut i: usize = 0;
    let mut j: usize = 0;
    proof {
        assert(a@.take(0) + b@.take(0) =~= out@);
    }
    while i < a.len() || j < b.len()
        invariant
            sorted(a@),
            sorted(b@),
            sorted(out@),
            i <= a@.len(),
            j <= b@.len(),
            out@.to_multiset() == (a@.take(i as int) + b@.take(j as int)).to_multiset(),
            out@.len() > 0 && i < a@.len() ==> out@.last().key <= a@[i as int].key,
            out@.len() > 0 && j < b@.len() ==> out@.last().key <= b@[j as int].key,
        decreases a@.len() - i + b@.len() - j,
    {
        let ghost before = out@;
        let ghost x = a@.take(i as int);
        let ghost y = b@.take(j as int);
        let from_a = j == b.len() || (i < a.len() && a[i].key <= b[j].key);
        if from_a {
            out.push(a[i]);
            i += 1;
            proof {
                let e = a@[i - 1];
                assert(a@.take(i as int) =~= x.push(e));
                lemma_insert(x, y, e);
                assert(out@ == before.push(e));
                before.to_multiset_ensures();
            }
        } else {
            out.push(b[j]);
            j += 1;
            proof {
                let e = b@[j - 1];
                assert(b@.take(j as int) =~= y.push(e));
                assert(x + y.push(e) =~= (x + y).push(e));
                (x + y).to_multiset_ensures();
                assert(out@ == before.push(e));
                before.to_multiset_ensures();
            }
        }
    }
    proof {
        assert(a@.take(i as int) =~= a@);
        assert(b@.take(j as int) =~= b@);
    }
    out
}

proof fn lemma_insert(x: Seq<PolyEntry>, y: Seq<PolyEntry>, e: PolyEntry)
    ensures
        (x.push(e) + y).to_multiset() == (x + y).to_multiset().insert(e),
{
    vstd::seq_lib::lemma_multiset_commutative(x.push(e), y);
    vstd::seq_lib::lemma_multiset_commutative(x, y);
    x.to_multiset_ensures();
    assert((x.push(e) + y).to_multiset() =~= (x + y).to_multiset().insert(e));
}

/// The entries from index `from` up to `to`, sorted by their keys.
fn sort_range(entries: &Vec<PolyEntry>, from: usize, to: usize) -> (r: Vec<PolyEntry>)
    requires
        from <= to <= entries@.len(),
    ensures
        sorted(r@),
        r@.to_multiset() == entries@.subrange(from as int, to as int).to_multiset(),
    decreases to - from,
{
    if to - from <= 1 {
        let mut out: Vec<PolyEntry> = Vec::new();
        if from < to {
            out.push(entries[from]);
        }
        proof {
            assert(out@ =~= entries@.subrange(from as int, to as int));
        }
        return out;
    }
    let mid: usize = from + (to - from) / 2;
    let a = sort_range(entries, from, mid);
    let b = sort_range(entries, mid, to);
    proof {
        let x = entries@.subrange(from as int, mid as int);
        let y = entries@.subrange(mid as int, to as int);
        assert(x + y =~= entries@.subrange(from as int, to as int));
        vstd::seq_lib::lemma_multiset_commutative(x, y);
        vstd::seq_lib::lemma_multiset_commutative(a@, b@);
    }
    merge(&a, &b)
}

/// The entries sorted by their keys.
pub fn sort_entries(entries: &Vec<PolyEntry>) -> (r: Vec<PolyEntry>)
    ensures
        sorted(r@),
        r@.to_multiset() == entries@.to_multiset(),
{
    proof {
        assert(entries@.subrange(0, entries@.len() as int) =~= entries@);
    }
    sort_range(entries, 0, entries.len())
}

/// The first index in `from..s.len()` whose key is not below `key`, if the keys
/// are sorted from there on.
fn lower_bound(s: &[PolyEntry], from: usize, key: u64, strict: bool) -> (r: usize)
    requires
        sorted(s@),
        from <= s@.len(),
    ensures
        from <= r <= s@.len(),
        forall|i: int|
            from <= i < r ==> (if strict {
                #[trigger] s@[i].key <= key
            } else {
                s@[i].key < key
            }),
        forall|i: int|
            r <= i < s@.len() ==> (if strict {
                #[trigger] s@[i].key > key
            } else {
                s@[i].key >= key
            }),
{
    let mut lo: usize = from;
    let mut hi: usize = s.len();
    while lo < hi
        invariant
            from <= lo <= hi <= s@.len(),
            sorted(s@),
            forall|i: int|
                from <= i < lo ==> (if strict {
                    #[trigger] s@[i].key <= key
                } else {
                    s@[i].key < key
                }),
            forall|i: int|
                hi <= i < s@.len() ==> (if strict {
                    #[trigger] s@[i].key > key
                } else {
                    s@[i].key >= key
                }),
        decreases hi - lo,
    {
        let mid: usize = lo + (hi - lo) / 2;
        let k: u64 = s[mid].key;
        if k < key || (strict && k == key) {
            lo = mid + 1;
        } else {
            hi = mid;
        }
    }
    lo
}

/// The entries with the given key.
pub open spec fn with_key(s: Seq<PolyEntry>, key: u64) -> Seq<PolyEntry> {
    s.filter(|e: PolyEntry| e.key == key)
}

proof fn lemma_with_key(s: Seq<PolyEntry>, key: u64, a: int, b: int)
    requires
        0 <= a <= b <= s.len(),
        forall|i: int| 0 <= i < a ==> (#[trigger] s[i]).key != key,
        forall|i: int| a <= i < b ==> (#[trigger] s[i]).key == key,
        forall|i: int| b <= i < s.len() ==> (#[trigger] s[i]).key != key,
    ensures
        with_key(s, key) == s.subrange(a, b),
    decreases s.len(),
{
    reveal(Seq::filter);
    if s.len() > 0 {
        let t = s.drop_last();
        if b == s.len() && a < b {
            lemma_with_key(t, key, a, b - 1);
            assert(s.subrange(a, b) =~= t.subrange(a, b - 1).push(s.last()));
        } else if b == s.len() {
            lemma_with_key(t, key, a - 1, a - 1);
            assert(s.subrange(a, b) =~= t.subrange(a - 1, a - 1));
        } else {
            lemma_with_key(t, key, a, b);
            assert(s.subrange(a, b) =~= t.subrange(a, b));
        }
    } else {
        assert(s.subrange(a, b) =~= Seq::empty());
    }
}

/// All entries whose `key` is `hash`, found by binary search.
pub fn probe_entries<'a>(entries: &'a [PolyEntry], hash: u64) -> (r: &'a [PolyEntry])
    requires
        sorted(entries@),
    ensures
        r@ == with_key(entries@, hash),
{
    let start: usize = lower_bound(entries, 0, hash, false);
    let end: usize = lower_bound(entries, start, hash, true);
    proof {
        lemma_with_key(entries@, hash, start as int, end as int);
    }
    vstd::slice::slice_subrange(entries, start, end)
}

} // verus!
