//! How a batch of rows is split across the sinkers.

use vstd::prelude::*;
use vstd::string::*;

use crate::cdc::find_value;
use crate::codec::{push_value_text, value_text};
use crate::model::{value_of, ColValue, ColValues, RowData};
use crate::sinker::{batch_windows, windows_cut};

verus! {

/// How rows are split across the sinkers.
#[derive(Clone, Copy, Debug, PartialEq, Eq, Structural)]
pub enum ParallelType {
    /// Every row to the first sinker.
    Serial,
    /// Contiguous chunks of equal size, chunk `i` to sinker `i`.
    RoundRobin,
    /// By a hash of the row's key columns.
    Hash,
}

/// The modulus of the key hash, a prime.
pub const KEY_HASH_MODULUS: u64 = 2147483647;

/// A polynomial hash of a text.
pub open spec fn text_hash(s: Seq<char>) -> nat
    decreases s.len(),
{
    if s.len() == 0 {
        0
    } else {
        ((text_hash(s.drop_last()) * 31 + s.last() as nat) % (KEY_HASH_MODULUS as nat)) as nat
    }
}

/// The image a row is keyed by: the after image, or the before image of a
/// delete.
pub open spec fn key_image(r: RowData) -> Seq<(String, ColValue)> {
    match r.after {
        Some(a) => a@,
        None => match r.before {
            Some(b) => b@,
            None => Seq::empty(),
        },
    }
}

/// The text of a row's key: each key column's value text, each followed by
/// a unit separator.
pub open spec fn key_text(img: Seq<(String, ColValue)>, key_cols: Seq<String>) -> Seq<char>
    decreases key_cols.len(),
{
    if key_cols.len() == 0 {
        Seq::empty()
    } else {
        let v = match value_of(img, key_cols.last()@) {
            Some(v) => value_text(v),
            None => Seq::empty(),
        };
        key_text(img, key_cols.drop_last()) + v + seq!['\u{1f}']
    }
}

/// The key columns of a table: those of the first entry for its (schema,
/// table), none if it has no entry.
pub open spec fn keys_for(tb_keys: Seq<(String, String, Vec<String>)>, schema: Seq<char>, tb: Seq<char>) -> Seq<String>
    decreases tb_keys.len(),
{
    if tb_keys.len() == 0 {
        Seq::empty()
    } else if tb_keys[0].0@ == schema && tb_keys[0].1@ == tb {
        tb_keys[0].2@
    } else {
        keys_for(tb_keys.drop_first(), schema, tb)
    }
}

/// The text a row is hashed by: its schema, its table and its key.
pub open spec fn row_key_text(r: RowData, tb_keys: Seq<(String, String, Vec<String>)>) -> Seq<char> {
    r.schema@ + seq!['\u{1f}'] + r.tb@ + seq!['\u{1f}'] + key_text(
        key_image(r),
        keys_for(tb_keys, r.schema@, r.tb@),
    )
}

/// The sinker a row goes to under hash partitioning into `k`.
pub open spec fn hash_target(r: RowData, tb_keys: Seq<(String, String, Vec<String>)>, k: nat) -> nat {
    text_hash(row_key_text(r, tb_keys)) % k
}

/// The rows that go to sinker `j`, in their order.
pub open spec fn hash_bucket(rows: Seq<RowData>, tb_keys: Seq<(String, String, Vec<String>)>, k: nat, j: nat) -> Seq<RowData>
    decreases rows.len(),
{
    if rows.len() == 0 {
        Seq::empty()
    } else if hash_target(rows.last(), tb_keys, k) == j {
        hash_bucket(rows.drop_last(), tb_keys, k, j).push(rows.last())
    } else {
        hash_bucket(rows.drop_last(), tb_keys, k, j)
    }
}

fn key_text_into(out: &mut String, img: &ColValues, key_cols: &Vec<String>)
    ensures
        final(out)@ == old(out)@ + key_text(img@, key_cols@),
{
    let ghost start = out@;
    let mut i: usize = 0;
    assert(key_cols@.subrange(0, 0) =~= Seq::<String>::empty());
    while i < key_cols.len()
        invariant
            i <= key_cols@.len(),
            out@ == start + key_text(img@, key_cols@.subrange(0, i as int)),
        decreases key_cols.len() - i,
    {
        proof {
            reveal_strlit("\u{1f}");
        }
        assert("\u{1f}"@ =~= seq!['\u{1f}']);
        let ghost prev = out@;
        match find_value(img, &key_cols[i]) {
            Some(v) => {
                push_value_text(out, &v);
                proof {
                    crate::codec::lemma_value_text_respects_eq(v, value_of(img@, key_cols@[i as int]@)->0);
                }
            },
            None => {},
        }
        out.append("\u{1f}");
        i = i + 1;
        let ghost sub = key_cols@.subrange(0, i as int);
        assert(sub.drop_last() =~= key_cols@.subrange(0, i - 1));
        assert(sub.last() == key_cols@[i - 1]);
        assert(out@ =~= start + key_text(img@, sub));
    }
    assert(key_cols@.subrange(0, key_cols@.len() as int) =~= key_cols@);
}

fn hash_text(s: &str) -> (r: u64)
    ensures
        r == text_hash(s@),
        r < KEY_HASH_MODULUS,
{
    let n = s.unicode_len();
    let mut h: u64 = 0;
    let mut i: usize = 0;
    assert(s@.subrange(0, 0) =~= Seq::<char>::empty());
    while i < n
        invariant
            n == s@.len(),
            i <= n,
            h < KEY_HASH_MODULUS,
            h == text_hash(s@.subrange(0, i as int)),
        decreases n - i,
    {
        let c = s.get_char(i);
        h = (h * 31 + c as u64) % KEY_HASH_MODULUS;
        i = i + 1;
        let ghost sub = s@.subrange(0, i as int);
        assert(sub.drop_last() =~= s@.subrange(0, i - 1));
    }
    assert(s@.subrange(0, n as int) =~= s@);
    h
}

/// How a batch is split: the strategy and the number of sinkers.
pub struct Parallelizer {
    pub parallel_type: ParallelType,
    pub parallel_size: usize,
    /// The key columns of each table, as (schema, table, columns), for
    /// hash partitioning.
    pub tb_keys: Vec<(String, String, Vec<String>)>,
}

impl Parallelizer {
    /// Where the key columns of a table stand in `tb_keys`.
    fn find_keys(&self, schema: &String, tb: &String) -> (r: Option<usize>)
        ensures
            r matches Some(i) ==> i < self.tb_keys@.len() && keys_for(self.tb_keys@, schema@, tb@)
                == self.tb_keys@[i as int].2@,
            r is None ==> keys_for(self.tb_keys@, schema@, tb@) == Seq::<String>::empty(),
    {
        let mut i: usize = 0;
        assert(self.tb_keys@.subrange(0, self.tb_keys@.len() as int) =~= self.tb_keys@);
        while i < self.tb_keys.len()
            invariant
                i <= self.tb_keys@.len(),
                keys_for(self.tb_keys@, schema@, tb@) == keys_for(
                    self.tb_keys@.subrange(i as int, self.tb_keys@.len() as int),
                    schema@,
                    tb@,
                ),
            decreases self.tb_keys.len() - i,
        {
            assert(self.tb_keys@.subrange(i as int, self.tb_keys@.len() as int).drop_first()
                =~= self.tb_keys@.subrange(i + 1, self.tb_keys@.len() as int));
            if self.tb_keys[i].0 == *schema && self.tb_keys[i].1 == *tb {
                return Some(i);
            }
            i = i + 1;
        }
        None
    }

    /// The sinker a row goes to under hash partitioning.
    pub fn hash_target_of(&self, row: &RowData) -> (r: usize)
        requires
            self.parallel_size > 0,
        ensures
            r == hash_target(*row, self.tb_keys@, self.parallel_size as nat),
            r < self.parallel_size,
    {
        let empty: ColValues = Vec::new();
        let img = match &row.after {
            Some(a) => a,
            None => match &row.before {
                Some(b) => b,
                None => &empty,
            },
        };
        proof {
            reveal_strlit("\u{1f}");
        }
        assert("\u{1f}"@ =~= seq!['\u{1f}']);
        let mut t = String::new();
        t.append(row.schema.as_str());
        t.append("\u{1f}");
        t.append(row.tb.as_str());
        t.append("\u{1f}");
        let no_keys: Vec<String> = Vec::new();
        let keys = match self.find_keys(&row.schema, &row.tb) {
            Some(i) => &self.tb_keys[i].2,
            None => &no_keys,
        };
        key_text_into(&mut t, img, keys);
        assert(t@ =~= row_key_text(*row, self.tb_keys@));
        let h = hash_text(t.as_str());
        (h % self.parallel_size as u64) as usize
    }

    /// Splits rows by the hash of their key columns: one list per sinker,
    /// each in the rows' order.
    pub fn partition_by_hash(&self, rows: Vec<RowData>) -> (r: Vec<Vec<RowData>>)
        requires
            self.parallel_size > 0,
        ensures
            r@.len() == self.parallel_size,
            forall|j: int|
                0 <= j < self.parallel_size ==> (#[trigger] r@[j])@ == hash_bucket(
                    rows@,
                    self.tb_keys@,
                    self.parallel_size as nat,
                    j as nat,
                ),
    {
        let k = self.parallel_size;
        let ghost all = rows@;
        let mut buckets: Vec<Vec<RowData>> = Vec::new();
        let mut j: usize = 0;
        while j < k
            invariant
                j <= k,
                buckets@.len() == j,
                forall|x: int| 0 <= x < j ==> (#[trigger] buckets@[x])@ == Seq::<RowData>::empty(),
            decreases k - j,
        {
            buckets.push(Vec::new());
            j = j + 1;
        }
        assert(all.subrange(0, 0) =~= Seq::<RowData>::empty());
        for row in it: rows
            invariant
                k == self.parallel_size,
                k > 0,
                it.seq() == all,
                buckets@.len() == k,
                forall|x: int|
                    0 <= x < k ==> (#[trigger] buckets@[x])@ == hash_bucket(
                        all.subrange(0, it.index() as int),
                        self.tb_keys@,
                        k as nat,
                        x as nat,
                    ),
        {
            let ghost i = it.index() as int;
            let t = self.hash_target_of(&row);
            let ghost before = buckets@;
            buckets[t].push(row);
            proof {
                let pre = all.subrange(0, i + 1);
                assert(pre.drop_last() =~= all.subrange(0, i));
                assert(pre.last() == row);
                assert forall|x: int| 0 <= x < k implies (#[trigger] buckets@[x])@ == hash_bucket(
                    pre,
                    self.tb_keys@,
                    k as nat,
                    x as nat,
                ) by {
                    if x != t {
                        assert(buckets@[x] == before[x]);
                    }
                }
            }
        }
        assert(all.subrange(0, all.len() as int) =~= all);
        buckets
    }

    /// Cuts a batch of `n` rows into `parallel_size` contiguous chunks of
    /// equal size (the last one holding what is left); chunk `i` goes to
    /// sinker `i`.
    pub fn round_robin_chunks(&self, n: usize) -> (r: Vec<(usize, usize)>)
        requires
            self.parallel_size > 0,
        ensures
            windows_cut(r@, n as nat, ((n as int + self.parallel_size - 1) / self.parallel_size as int) as nat),
    {
        let k = self.parallel_size;
        let q = n / k;
        proof {
            vstd::arithmetic::div_mod::lemma_fundamental_div_mod(n as int, k as int);
            if n % k != 0 {
                assert(q < usize::MAX) by (nonlinear_arith)
                    requires
                        n == k * q + n % k,
                        0 < n % k < k,
                        n <= usize::MAX,
                        q >= 0;
            }
        }
        let chunk = if n % k == 0 {
            q
        } else {
            q + 1
        };
        assert(chunk == (n as int + k - 1) / k as int) by {
            vstd::arithmetic::div_mod::lemma_fundamental_div_mod(n as int, k as int);
            vstd::arithmetic::div_mod::lemma_fundamental_div_mod(n as int + k - 1, k as int);
            assert(chunk == (n as int + k - 1) / k as int) by (nonlinear_arith)
                requires
                    k > 0,
                    n == k * (n / k) + n % k,
                    0 <= n % k < k,
                    n as int + k - 1 == k * ((n as int + k - 1) / k as int) + (n as int + k - 1) % (k as int),
                    0 <= (n as int + k - 1) % (k as int) < k,
                    chunk == (n / k) + if n % k == 0 { 0int } else { 1int },
                    q == n / k;
        }
        batch_windows(n, chunk)
    }
}

proof fn lemma_bucket_prefix(rows: Seq<RowData>, kc: Seq<(String, String, Vec<String>)>, k: nat, j: nat, a: int, b: int)
    requires
        0 <= a <= b <= rows.len(),
    ensures
        hash_bucket(rows.subrange(0, a), kc, k, j).len() <= hash_bucket(rows.subrange(0, b), kc, k, j).len(),
        hash_bucket(rows.subrange(0, a), kc, k, j) == hash_bucket(rows.subrange(0, b), kc, k, j).subrange(
            0,
            hash_bucket(rows.subrange(0, a), kc, k, j).len() as int,
        ),
    decreases b - a,
{
    if a < b {
        lemma_bucket_prefix(rows, kc, k, j, a, b - 1);
        let pre = rows.subrange(0, b);
        assert(pre.drop_last() =~= rows.subrange(0, b - 1));
        let x = hash_bucket(rows.subrange(0, a), kc, k, j);
        let y = hash_bucket(rows.subrange(0, b - 1), kc, k, j);
        let z = hash_bucket(pre, kc, k, j);
        assert(z == y || z == y.push(pre.last()));
        assert(x =~= z.subrange(0, x.len() as int));
    } else {
        let x = hash_bucket(rows.subrange(0, a), kc, k, j);
        assert(x =~= x.subrange(0, x.len() as int));
    }
}

proof fn lemma_bucket_position(rows: Seq<RowData>, kc: Seq<(String, String, Vec<String>)>, k: nat, i: int)
    requires
        0 <= i < rows.len(),
    ensures
        ({
            let j = hash_target(rows[i], kc, k);
            let p = hash_bucket(rows.subrange(0, i), kc, k, j).len();
            &&& p < hash_bucket(rows, kc, k, j).len()
            &&& hash_bucket(rows, kc, k, j)[p as int] == rows[i]
            &&& hash_bucket(rows.subrange(0, i + 1), kc, k, j).len() == p + 1
        }),
{
    let j = hash_target(rows[i], kc, k);
    let pre = rows.subrange(0, i + 1);
    assert(pre.drop_last() =~= rows.subrange(0, i));
    assert(pre.last() == rows[i]);
    lemma_bucket_prefix(rows, kc, k, j, i + 1, rows.len() as int);
    assert(rows.subrange(0, rows.len() as int) =~= rows);
    let p = hash_bucket(rows.subrange(0, i), kc, k, j).len();
    assert(hash_bucket(pre, kc, k, j)[p as int] == rows[i]);
}

/// Under hash partitioning two rows of one table with the same primary key
/// go to the same sinker, and reach it in the order they came in.
pub proof fn lemma_same_key_same_sinker_in_order(
    rows: Seq<RowData>,
    tb_keys: Seq<(String, String, Vec<String>)>,
    k: nat,
    i1: int,
    i2: int,
)
    requires
        0 <= i1 < i2 < rows.len(),
        rows[i1].schema@ == rows[i2].schema@,
        rows[i1].tb@ == rows[i2].tb@,
        key_text(key_image(rows[i1]), keys_for(tb_keys, rows[i1].schema@, rows[i1].tb@)) == key_text(
            key_image(rows[i2]),
            keys_for(tb_keys, rows[i2].schema@, rows[i2].tb@),
        ),
    ensures
        hash_target(rows[i1], tb_keys, k) == hash_target(rows[i2], tb_keys, k),
        exists|pos_a: int, pos_b: int|
            0 <= pos_a < pos_b < hash_bucket(rows, tb_keys, k, hash_target(rows[i1], tb_keys, k)).len()
                && #[trigger] hash_bucket(rows, tb_keys, k, hash_target(rows[i1], tb_keys, k))[pos_a]
                == rows[i1] && #[trigger] hash_bucket(rows, tb_keys, k, hash_target(rows[i1], tb_keys, k))[pos_b]
                == rows[i2],
{
    let j = hash_target(rows[i1], tb_keys, k);
    lemma_bucket_position(rows, tb_keys, k, i1);
    lemma_bucket_position(rows, tb_keys, k, i2);
    lemma_bucket_prefix(rows, tb_keys, k, j, i1 + 1, i2);
    let pos_a = hash_bucket(rows.subrange(0, i1), tb_keys, k, j).len() as int;
    let pos_b = hash_bucket(rows.subrange(0, i2), tb_keys, k, j).len() as int;
    assert(pos_a < pos_b);
    assert(hash_bucket(rows, tb_keys, k, j)[pos_a] == rows[i1]);
    assert(hash_bucket(rows, tb_keys, k, j)[pos_b] == rows[i2]);
}

} // verus!
