//! Values and statements exchanged with the SQL database, and the building blocks
//! of the statements that the metadata store runs.
use vstd::prelude::*;
use crate::text::join_with;

verus! {

/// Most host parameters that one statement binds.
pub const SQLITE_MAX_VARS: usize = 900;

/// A value bound to a statement or read from a result row.
#[derive(Debug, Clone, PartialEq)]
pub enum SqlValue {
    Null,
    Integer(i64),
    /// A floating-point value; no logic here reads its number.
    Real,
    Text(String),
    Blob(Vec<u8>),
}

/// A statement with its bound values, in the order of its `?` placeholders.
#[derive(Debug, Clone, PartialEq)]
pub struct Statement {
    pub sql: String,
    pub params: Vec<SqlValue>,
}

/// Whether `v` is the blob `bytes`.
pub open spec fn is_blob(v: SqlValue, bytes: Seq<u8>) -> bool {
    v matches SqlValue::Blob(b) && b@ == bytes
}

/// Whether `v` is the text `chars`.
pub open spec fn is_text(v: SqlValue, chars: Seq<char>) -> bool {
    v matches SqlValue::Text(s) && s@ == chars
}

/// Whether `params` binds the blobs `items`, in order.
pub open spec fn binds_blobs(params: Seq<SqlValue>, items: Seq<Seq<u8>>) -> bool {
    &&& params.len() == items.len()
    &&& forall|i: int| 0 <= i < items.len() ==> is_blob(#[trigger] params[i], items[i])
}

/// `n` copies of `item` separated by commas.
pub open spec fn repeat_joined(n: nat, item: Seq<char>) -> Seq<char> {
    join_with(Seq::new(n, |_i: int| item), ',')
}

/// `n` placeholders separated by commas: `?,?,...,?`.
pub open spec fn placeholder_list(n: nat) -> Seq<char> {
    repeat_joined(n, seq!['?'])
}

/// Number of chunks of at most `size` items that `n` items make.
pub open spec fn chunk_count(n: nat, size: nat) -> nat {
    if n == 0 {
        0
    } else {
        ((n - 1) / (size as int) + 1) as nat
    }
}

/// Number of items in chunk `k` of `n` items cut in chunks of `size`.
pub open spec fn chunk_len(n: nat, size: nat, k: int) -> nat {
    if n - size * k < size {
        (n - size * k) as nat
    } else {
        size
    }
}

/// Number of occurrences of `c` in `s`.
pub open spec fn count_of(s: Seq<char>, c: char) -> nat
    decreases s.len(),
{
    if s.len() == 0 {
        0
    } else {
        count_of(s.drop_last(), c) + if s.last() == c {
            1nat
        } else {
            0nat
        }
    }
}

/// Counting distributes over concatenation.
proof fn lemma_count_concat(a: Seq<char>, b: Seq<char>, c: char)
    ensures
        count_of(a + b, c) == count_of(a, c) + count_of(b, c),
    decreases b.len(),
{
    if b.len() == 0 {
        assert(a + b =~= a);
    } else {
        assert((a + b).drop_last() =~= a + b.drop_last());
        lemma_count_concat(a, b.drop_last(), c);
    }
}

/// A list of `n` placeholders holds exactly `n` question marks, one per bound value.
pub proof fn lemma_placeholder_count(n: nat)
    ensures
        count_of(placeholder_list(n), '?') == n,
    decreases n,
{
    if n == 1 {
        let items = Seq::new(1, |_i: int| seq!['?']);
        assert(placeholder_list(1) == items[0]);
        assert(seq!['?'].drop_last() =~= Seq::<char>::empty());
        assert(count_of(Seq::<char>::empty(), '?') == 0);
        assert(count_of(seq!['?'], '?') == 1);
    } else if n > 1 {
        lemma_placeholder_count((n - 1) as nat);
        let items = Seq::new(n, |_i: int| seq!['?']);
        assert(items.drop_last() =~= Seq::new((n - 1) as nat, |_i: int| seq!['?']));
        let front = placeholder_list((n - 1) as nat);
        assert(placeholder_list(n) == front.push(',') + seq!['?']);
        lemma_count_concat(front.push(','), seq!['?'], '?');
        assert(front.push(',').drop_last() =~= front);
        assert(seq!['?'].drop_last() =~= Seq::<char>::empty());
        assert(count_of(Seq::<char>::empty(), '?') == 0);
        assert(count_of(seq!['?'], '?') == 1);
        assert(count_of(front.push(','), '?') == count_of(front, '?'));
    } else {
        assert(placeholder_list(0) =~= Seq::<char>::empty());
    }
}

/// `n` copies of `item` separated by commas.
pub fn joined_copies(n: usize, item: &str) -> (list: String)
    ensures
        list@ == repeat_joined(n as nat, item@),
{
    let mut list = String::new();
    let mut i: usize = 0;
    assert(repeat_joined(0, item@) =~= Seq::<char>::empty());
    while i < n
        invariant
            i <= n,
            list@ == repeat_joined(i as nat, item@),
        decreases n - i,
    {
        proof {
            let items = Seq::new((i + 1) as nat, |_i: int| item@);
            assert(items.drop_last() =~= Seq::new(i as nat, |_i: int| item@));
            if i == 0 {
                assert(repeat_joined(1, item@) == item@);
            } else {
                assert(repeat_joined((i + 1) as nat, item@) == repeat_joined(i as nat, item@).push(',')
                    + item@);
            }
        }
        if i > 0 {
            crate::text::push_char(&mut list, ',');
        }
        let ghost before = list@;
        list.append(item);
        proof {
            if i == 0 {
                assert(list@ =~= item@);
            }
        }
        i += 1;
    }
    list
}

/// `n` placeholders separated by commas.
pub fn placeholders(n: usize) -> (list: String)
    ensures
        list@ == placeholder_list(n as nat),
{
    let list = joined_copies(n, "?");
    proof {
        reveal_strlit("?");
        assert("?"@ =~= seq!['?']);
    }
    list
}

/// Copies of the byte strings `items[lo..hi]` as blobs.
pub fn blob_params(items: &Vec<Vec<u8>>, lo: usize, hi: usize) -> (params: Vec<SqlValue>)
    requires
        lo <= hi <= items.len(),
    ensures
        binds_blobs(params@, items@.subrange(lo as int, hi as int).map_values(|b: Vec<u8>| b@)),
{
    let mut params: Vec<SqlValue> = Vec::new();
    let mut i = lo;
    while i < hi
        invariant
            lo <= i <= hi <= items.len(),
            binds_blobs(params@, items@.subrange(lo as int, i as int).map_values(|b: Vec<u8>| b@)),
        decreases hi - i,
    {
        let copy = vstd::slice::slice_to_vec(items[i].as_slice());
        params.push(SqlValue::Blob(copy));
        i += 1;
        proof {
            let views = items@.subrange(lo as int, i as int).map_values(|b: Vec<u8>| b@);
            assert forall|k: int| 0 <= k < views.len() implies is_blob(#[trigger] params@[k], views[k]) by {
                if k < views.len() - 1 {
                    assert(views[k] == items@.subrange(lo as int, i - 1).map_values(|b: Vec<u8>| b@)[k]);
                }
            }
        }
    }
    params
}

/// One statement per chunk of at most `SQLITE_MAX_VARS` items: `prefix`, as many
/// placeholders as the chunk has items, `suffix`; the chunk's items bound as blobs.
pub fn chunked_blob_statements(items: &Vec<Vec<u8>>, prefix: &str, suffix: &str) -> (stmts: Vec<Statement>)
    ensures
        stmts.len() == chunk_count(items.len() as nat, 900),
        forall|k: int|
            0 <= k < stmts.len() ==> {
                let len = chunk_len(items.len() as nat, 900, k);
                &&& #[trigger] stmts[k].sql@ == prefix@ + placeholder_list(len) + suffix@
                &&& binds_blobs(
                    stmts[k].params@,
                    items@.subrange(900 * k, 900 * k + len).map_values(|b: Vec<u8>| b@),
                )
            },
{
    let n = items.len();
    let mut stmts: Vec<Statement> = Vec::new();
    let mut lo: usize = 0;
    while lo < n
        invariant
            lo <= n == items.len(),
            lo < n ==> lo == 900 * stmts.len(),
            lo < n ==> stmts.len() < chunk_count(n as nat, 900),
            lo >= n ==> stmts.len() == chunk_count(n as nat, 900),
            forall|k: int|
                0 <= k < stmts.len() ==> {
                    let len = chunk_len(n as nat, 900, k);
                    &&& #[trigger] stmts[k].sql@ == prefix@ + placeholder_list(len) + suffix@
                    &&& binds_blobs(
                        stmts[k].params@,
                        items@.subrange(900 * k, 900 * k + len).map_values(|b: Vec<u8>| b@),
                    )
                },
        decreases n - lo,
    {
        let hi = if n - lo < SQLITE_MAX_VARS {
            n
        } else {
            lo + SQLITE_MAX_VARS
        };
        let mut sql = prefix.to_owned();
        let list = placeholders(hi - lo);
        sql.append(list.as_str());
        sql.append(suffix);
        let params = blob_params(items, lo, hi);
        let ghost k = stmts.len() as int;
        assert(chunk_len(n as nat, 900, k) == hi - lo);
        stmts.push(Statement { sql, params });
        lo = hi;
    }
    stmts
}

} // verus!
