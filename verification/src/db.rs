//! The metadata store's logic: the statements it runs and what it makes of the rows
//! that come back. Running the statements is left to the caller.
use vstd::prelude::*;
use vstd::utf8::*;
use crate::sql::{
    SQLITE_MAX_VARS, SqlValue, Statement, binds_blobs, chunk_count, chunk_len, chunked_blob_statements,
    is_blob, placeholder_list,
};

verus! {

/// Why a result could not be read.
#[derive(Debug, PartialEq, Eq, Structural)]
pub enum DbError {
    /// A row had fewer columns than the statement selects.
    ColumnOutOfRange,
    /// The row just inserted could not be read back.
    NotCreated(Entity),
    /// The id read back was not an integer.
    UnexpectedIdType(Entity),
}

/// The kinds of rows that are looked up and created on demand.
#[derive(Debug, Clone, Copy, PartialEq, Eq, Structural)]
pub enum Entity {
    User,
    File,
    Db,
}

/// A function's metadata as stored.
#[derive(Debug, Clone, PartialEq)]
pub struct FunctionInfo {
    pub name: String,
    pub len: u32,
    pub data: Vec<u8>,
    pub popularity: u32,
}

/// Database statistics.
#[derive(Debug)]
pub struct DbStats {
    unique_lics: i32,
    unique_hosts_per_lic: i32,
    unique_funcs: i32,
    total_funcs: i32,
    dbs: i32,
    unique_files: i32,
}

/// The content of a `FunctionInfo`.
pub struct FunctionInfoModel {
    pub name: Seq<char>,
    pub len: u32,
    pub data: Seq<u8>,
    pub popularity: u32,
}

impl FunctionInfo {
    /// The content of this record.
    pub open spec fn model(&self) -> FunctionInfoModel {
        FunctionInfoModel { name: self.name@, len: self.len, data: self.data@, popularity: self.popularity }
    }
}

/// The text that `String::from_utf8_lossy` makes of `bytes`.
pub uninterp spec fn utf8_lossy(bytes: Seq<u8>) -> Seq<char>;

/// `String::from_utf8_lossy(..).into_owned()`: the bytes decoded as UTF-8, each
/// invalid sequence replaced by U+FFFD; valid UTF-8 decodes to its own text.
#[verifier::external_body]
fn lossy_string(bytes: &[u8]) -> (text: String)
    ensures
        text@ == utf8_lossy(bytes@),
        valid_utf8(bytes@) ==> text@ == decode_utf8(bytes@),
{
    String::from_utf8_lossy(bytes).into_owned()
}

/// The column of a pulled function's name: text as it is, a blob decoded leniently,
/// anything else empty.
pub open spec fn name_column(v: SqlValue) -> Seq<char> {
    match v {
        SqlValue::Text(s) => s@,
        SqlValue::Blob(b) => utf8_lossy(b@),
        _ => Seq::empty(),
    }
}

/// An integer column cut to its low 32 bits, anything else 0.
pub open spec fn u32_column(v: SqlValue) -> u32 {
    match v {
        SqlValue::Integer(i) => i as u32,
        _ => 0,
    }
}

/// An integer column cut to its low 32 bits as a signed number, anything else 0.
pub open spec fn i32_column(v: SqlValue) -> i32 {
    match v {
        SqlValue::Integer(i) => i as i32,
        _ => 0,
    }
}

/// A blob column, anything else empty.
pub open spec fn blob_column(v: SqlValue) -> Seq<u8> {
    match v {
        SqlValue::Blob(b) => b@,
        _ => Seq::empty(),
    }
}

/// A text column, anything else empty.
pub open spec fn text_column(v: SqlValue) -> Seq<char> {
    match v {
        SqlValue::Text(s) => s@,
        _ => Seq::empty(),
    }
}

/// What one row of a pull query gives: its checksum and metadata, nothing when the
/// checksum column is not a blob, an error when the row has fewer than four columns.
pub open spec fn pulled_row(row: Seq<SqlValue>) -> Result<Option<(Seq<u8>, FunctionInfoModel)>, DbError> {
    if row.len() < 4 {
        Err(DbError::ColumnOutOfRange)
    } else {
        match row[3] {
            SqlValue::Blob(chksum) => Ok(
                Some(
                    (
                        chksum@,
                        FunctionInfoModel {
                            name: name_column(row[0]),
                            len: u32_column(row[1]),
                            data: blob_column(row[2]),
                            popularity: 0,
                        },
                    ),
                ),
            ),
            _ => Ok(None),
        }
    }
}

/// The metadata found by the pull queries, by checksum: a later row replaces an
/// earlier one with the same checksum; the first faulty row is an error.
pub open spec fn pulled_map(rows: Seq<Seq<SqlValue>>) -> Result<Map<Seq<u8>, FunctionInfoModel>, DbError>
    decreases rows.len(),
{
    if rows.len() == 0 {
        Ok(Map::empty())
    } else {
        match pulled_map(rows.drop_last()) {
            Err(e) => Err(e),
            Ok(m) => match pulled_row(rows.last()) {
                Err(e) => Err(e),
                Ok(None) => Ok(m),
                Ok(Some((k, v))) => Ok(m.insert(k, v)),
            },
        }
    }
}

/// Whether `chksums[i]` is the first request for its checksum.
pub open spec fn first_request(chksums: Seq<Seq<u8>>, i: int) -> bool {
    forall|j: int| 0 <= j < i ==> chksums[j] != chksums[i]
}

/// The answer to each requested checksum: its metadata at its first request, nothing
/// at a repeated request or when nothing was found.
pub open spec fn pulled_answers(chksums: Seq<Seq<u8>>, found: Map<Seq<u8>, FunctionInfoModel>) -> Seq<Option<FunctionInfoModel>> {
    Seq::new(
        chksums.len(),
        |i: int|
            if found.contains_key(chksums[i]) && first_request(chksums, i) {
                Some(found[chksums[i]])
            } else {
                None
            },
    )
}

/// The model of an optional record.
pub open spec fn option_model(f: Option<FunctionInfo>) -> Option<FunctionInfoModel> {
    match f {
        Some(info) => Some(info.model()),
        None => None,
    }
}

/// Start of the pull query, up to its list of checksums.
pub open spec fn pull_sql_head() -> Seq<char> {
    "WITH best AS (\n                    SELECT chksum, MAX(rank) AS maxrank FROM funcs\n                    WHERE chksum IN ("@
}

/// End of the pull query, after its list of checksums.
pub open spec fn pull_sql_tail() -> Seq<char> {
    ")\n                    GROUP BY chksum\n                )\n                SELECT f2.name, f2.len, f2.metadata, f2.chksum\n                FROM best\n                LEFT JOIN funcs f2 ON (best.chksum = f2.chksum AND best.maxrank = f2.rank)"@
}

/// The pull query, around its list of checksums: for each requested checksum, the
/// greatest rank over all its rows, and the rows of that checksum with that rank.
pub proof fn lemma_pull_sql_text()
    ensures
        pull_sql_head() == "WITH best AS ("@
            + "\n                    SELECT chksum, MAX(rank) AS maxrank FROM funcs"@
            + "\n                    WHERE chksum IN ("@,
        pull_sql_tail() == ")\n                    GROUP BY chksum\n                )"@
            + "\n                SELECT f2.name, f2.len, f2.metadata, f2.chksum"@
            + "\n                FROM best"@
            + "\n                LEFT JOIN funcs f2 ON (best.chksum = f2.chksum AND best.maxrank = f2.rank)"@,
{
    reveal_strlit("WITH best AS (\n                    SELECT chksum, MAX(rank) AS maxrank FROM funcs\n                    WHERE chksum IN (");
    reveal_strlit("WITH best AS (");
    reveal_strlit("\n                    SELECT chksum, MAX(rank) AS maxrank FROM funcs");
    reveal_strlit("\n                    WHERE chksum IN (");
    reveal_strlit(")\n                    GROUP BY chksum\n                )\n                SELECT f2.name, f2.len, f2.metadata, f2.chksum\n                FROM best\n                LEFT JOIN funcs f2 ON (best.chksum = f2.chksum AND best.maxrank = f2.rank)");
    reveal_strlit(")\n                    GROUP BY chksum\n                )");
    reveal_strlit("\n                SELECT f2.name, f2.len, f2.metadata, f2.chksum");
    reveal_strlit("\n                FROM best");
    reveal_strlit("\n                LEFT JOIN funcs f2 ON (best.chksum = f2.chksum AND best.maxrank = f2.rank)");
    assert(pull_sql_head() =~= "WITH best AS ("@
        + "\n                    SELECT chksum, MAX(rank) AS maxrank FROM funcs"@
        + "\n                    WHERE chksum IN ("@);
    assert(pull_sql_tail() =~= ")\n                    GROUP BY chksum\n                )"@
        + "\n                SELECT f2.name, f2.len, f2.metadata, f2.chksum"@
        + "\n                FROM best"@
        + "\n                LEFT JOIN funcs f2 ON (best.chksum = f2.chksum AND best.maxrank = f2.rank)"@);
}

/// The queries that fetch the best-ranked metadata of each checksum: one per chunk of
/// at most `SQLITE_MAX_VARS` checksums, the chunk bound as blobs.
pub fn pull_statements(chksums: &Vec<Vec<u8>>) -> (stmts: Vec<Statement>)
    ensures
        stmts.len() == chunk_count(chksums.len() as nat, 900),
        forall|k: int|
            0 <= k < stmts.len() ==> {
                let len = chunk_len(chksums.len() as nat, 900, k);
                &&& #[trigger] stmts[k].sql@ == pull_sql_head() + placeholder_list(len)
                    + pull_sql_tail()
                &&& stmts[k].sql@ == ("WITH best AS ("@
                    + "\n                    SELECT chksum, MAX(rank) AS maxrank FROM funcs"@
                    + "\n                    WHERE chksum IN ("@) + placeholder_list(len)
                    + (")\n                    GROUP BY chksum\n                )"@
                    + "\n                SELECT f2.name, f2.len, f2.metadata, f2.chksum"@
                    + "\n                FROM best"@
                    + "\n                LEFT JOIN funcs f2 ON (best.chksum = f2.chksum AND best.maxrank = f2.rank)"@)
                &&& binds_blobs(
                    stmts[k].params@,
                    chksums@.subrange(900 * k, 900 * k + len).map_values(|b: Vec<u8>| b@),
                )
            },
{
    proof {
        lemma_pull_sql_text();
    }
    chunked_blob_statements(
        chksums,
        "WITH best AS (\n                    SELECT chksum, MAX(rank) AS maxrank FROM funcs\n                    WHERE chksum IN (",
        ")\n                    GROUP BY chksum\n                )\n                SELECT f2.name, f2.len, f2.metadata, f2.chksum\n                FROM best\n                LEFT JOIN funcs f2 ON (best.chksum = f2.chksum AND best.maxrank = f2.rank)",
    )
}

/// A copy of a text column, of a blob decoded leniently, or empty.
fn name_from(v: &SqlValue) -> (name: String)
    ensures
        name@ == name_column(*v),
{
    match v {
        SqlValue::Text(s) => s.clone(),
        SqlValue::Blob(b) => lossy_string(b.as_slice()),
        _ => String::new(),
    }
}

/// An integer column cut to 32 bits, or 0.
fn u32_from(v: &SqlValue) -> (n: u32)
    ensures
        n == u32_column(*v),
{
    match v {
        SqlValue::Integer(i) => *i as u32,
        _ => 0,
    }
}

/// An integer column cut to 32 bits as a signed number, or 0.
fn i32_from(v: &SqlValue) -> (n: i32)
    ensures
        n == i32_column(*v),
{
    match v {
        SqlValue::Integer(i) => *i as i32,
        _ => 0,
    }
}

/// A copy of a blob column, or empty.
fn blob_from(v: &SqlValue) -> (bytes: Vec<u8>)
    ensures
        bytes@ == blob_column(*v),
{
    match v {
        SqlValue::Blob(b) => vstd::slice::slice_to_vec(b.as_slice()),
        _ => Vec::new(),
    }
}

/// A copy of a text column, or empty.
fn text_from(v: &SqlValue) -> (text: String)
    ensures
        text@ == text_column(*v),
{
    match v {
        SqlValue::Text(s) => s.clone(),
        _ => String::new(),
    }
}

/// Index of the key `k` among `keys`, or `keys.len()`.
fn find_key(keys: &Vec<Vec<u8>>, k: &[u8]) -> (i: usize)
    ensures
        i <= keys.len(),
        i < keys.len() ==> keys@[i as int]@ == k@,
        i == keys.len() ==> forall|j: int| 0 <= j < keys.len() ==> keys@[j]@ != k@,
{
    let mut i: usize = 0;
    while i < keys.len()
        invariant
            i <= keys.len(),
            forall|j: int| 0 <= j < i ==> keys@[j]@ != k@,
        decreases keys.len() - i,
    {
        if crate::text::bytes_equal(keys[i].as_slice(), k) {
            return i;
        }
        i += 1;
    }
    i
}

/// The answer of a pull request: for each requested checksum, in order, the best
/// metadata that the pull queries' `rows` hold for it at its first request, and
/// nothing at a repeated request or where none was found.
pub fn pulled_functions(chksums: &Vec<Vec<u8>>, rows: &Vec<Vec<SqlValue>>) -> (answers: Result<Vec<Option<FunctionInfo>>, DbError>)
    ensures
        match pulled_map(rows@.map_values(|r: Vec<SqlValue>| r@)) {
            Err(e) => answers == Err::<Vec<Option<FunctionInfo>>, DbError>(e),
            Ok(found) => answers matches Ok(list) && list@.map_values(|f: Option<FunctionInfo>| option_model(f))
                == pulled_answers(chksums@.map_values(|c: Vec<u8>| c@), found),
        },
{
    let ghost row_views = rows@.map_values(|r: Vec<SqlValue>| r@);
    let mut keys: Vec<Vec<u8>> = Vec::new();
    let mut infos: Vec<Option<FunctionInfo>> = Vec::new();
    let mut r: usize = 0;
    while r < rows.len()
        invariant
            r <= rows.len(),
            row_views == rows@.map_values(|r: Vec<SqlValue>| r@),
            keys.len() == infos.len(),
            pulled_map(row_views.take(r as int)) is Ok,
            forall|i: int, j: int| 0 <= i < j < keys.len() ==> keys@[i]@ != keys@[j]@,
            forall|i: int| 0 <= i < keys.len() ==> #[trigger] infos@[i] is Some,
            forall|k: Seq<u8>|
                pulled_map(row_views.take(r as int))->Ok_0.contains_key(k) <==> exists|i: int|
                    0 <= i < keys.len() && #[trigger] keys@[i]@ == k,
            forall|i: int|
                0 <= i < keys.len() ==> option_model(#[trigger] infos@[i]) == Some(
                    pulled_map(row_views.take(r as int))->Ok_0[keys@[i]@],
                ),
        decreases rows.len() - r,
    {
        let row = &rows[r];
        proof {
            assert(row_views.take(r + 1).drop_last() =~= row_views.take(r as int));
            assert(row_views.take(r + 1).last() == row@);
        }
        if row.len() < 4 {
            proof {
                lemma_pulled_map_err_stays(row_views, r as int + 1);
            }
            return Err(DbError::ColumnOutOfRange);
        }
        let ghost before = pulled_map(row_views.take(r as int))->Ok_0;
        let ghost old_keys = keys@;
        match &row[3] {
            SqlValue::Blob(chksum) => {
                let info = FunctionInfo {
                    name: name_from(&row[0]),
                    len: u32_from(&row[1]),
                    data: blob_from(&row[2]),
                    popularity: 0,
                };
                let at = find_key(&keys, chksum.as_slice());
                if at < keys.len() {
                    infos.set(at, Some(info));
                } else {
                    keys.push(vstd::slice::slice_to_vec(chksum.as_slice()));
                    infos.push(Some(info));
                }
                proof {
                    let after = pulled_map(row_views.take(r + 1))->Ok_0;
                    assert(after == before.insert(chksum@, info.model()));
                    assert forall|k: Seq<u8>| after.contains_key(k) <==> exists|i: int|
                        0 <= i < keys.len() && #[trigger] keys@[i]@ == k by {
                        if after.contains_key(k) && k != chksum@ {
                            let i = choose|i: int| 0 <= i < old_keys.len() && #[trigger] old_keys[i]@ == k;
                            assert(keys@[i]@ == k);
                        }
                        if k == chksum@ {
                            if at < keys.len() {
                                assert(keys@[at as int]@ == k);
                            }
                        }
                    }
                    assert forall|i: int| 0 <= i < keys.len() implies option_model(#[trigger] infos@[i])
                        == Some(after[keys@[i]@]) by {
                        if keys@[i]@ != chksum@ {
                            assert(before.contains_key(keys@[i]@));
                        }
                    }
                }
            },
            _ => {
                assert(pulled_map(row_views.take(r + 1)) == pulled_map(row_views.take(r as int)));
            },
        }
        r += 1;
    }
    assert(row_views.take(r as int) =~= row_views);
    let ghost found = pulled_map(row_views)->Ok_0;
    let ghost wanted = chksums@.map_values(|c: Vec<u8>| c@);
    let mut answers: Vec<Option<FunctionInfo>> = Vec::new();
    let mut c: usize = 0;
    while c < chksums.len()
        invariant
            c <= chksums.len(),
            wanted == chksums@.map_values(|c: Vec<u8>| c@),
            keys.len() == infos.len(),
            answers.len() == c,
            forall|i: int, j: int| 0 <= i < j < keys.len() ==> keys@[i]@ != keys@[j]@,
            forall|k: Seq<u8>| found.contains_key(k) <==> exists|i: int| 0 <= i < keys.len() && #[trigger] keys@[i]@ == k,
            forall|i: int|
                0 <= i < keys.len() ==> (#[trigger] infos@[i] is None <==> exists|j: int|
                    0 <= j < c && wanted[j] == keys@[i]@),
            forall|i: int|
                0 <= i < keys.len() && infos@[i] is Some ==> option_model(#[trigger] infos@[i]) == Some(found[keys@[i]@]),
            forall|i: int|
                0 <= i < c ==> option_model(#[trigger] answers@[i]) == pulled_answers(wanted, found)[i],
        decreases chksums.len() - c,
    {
        let at = find_key(&keys, chksums[c].as_slice());
        if at < keys.len() {
            let mut slot: Option<FunctionInfo> = None;
            infos.set_and_swap(at, &mut slot);
            proof {
                assert(wanted[c as int] == keys@[at as int]@);
                if slot is None {
                    let j = choose|j: int| 0 <= j < c && wanted[j] == keys@[at as int]@;
                    assert(!first_request(wanted, c as int));
                } else {
                    assert forall|j: int| 0 <= j < c implies wanted[j] != wanted[c as int] by {
                        if wanted[j] == wanted[c as int] {
                            assert(wanted[j] == keys@[at as int]@);
                        }
                    }
                    assert(found.contains_key(wanted[c as int]));
                }
            }
            answers.push(slot);
        } else {
            proof {
                assert(!found.contains_key(wanted[c as int])) by {
                    if found.contains_key(wanted[c as int]) {
                        let i = choose|i: int| 0 <= i < keys.len() && #[trigger] keys@[i]@ == wanted[c as int];
                    }
                }
            }
            answers.push(None);
        }
        proof {
            assert forall|i: int| 0 <= i < keys.len() implies (#[trigger] infos@[i] is None <==> exists|j: int|
                0 <= j < c + 1 && wanted[j] == keys@[i]@) by {
                if i != at && wanted[c as int] == keys@[i]@ {
                    if at < keys.len() {
                        assert(keys@[at as int]@ == keys@[i]@);
                    }
                }
                if exists|j: int| 0 <= j < c + 1 && wanted[j] == keys@[i]@ {
                    let j = choose|j: int| 0 <= j < c + 1 && wanted[j] == keys@[i]@;
                    if j < c {
                        assert(exists|j: int| 0 <= j < c && wanted[j] == keys@[i]@);
                    }
                }
            }
        }
        c += 1;
    }
    assert(answers@.map_values(|f: Option<FunctionInfo>| option_model(f)) =~= pulled_answers(wanted, found));
    Ok(answers)
}

/// A pull answers each requested checksum once, in order: as many answers as
/// requests, and a repeated request gets nothing.
pub proof fn lemma_pull_answers_each_request(chksums: Seq<Seq<u8>>, found: Map<Seq<u8>, FunctionInfoModel>)
    ensures
        pulled_answers(chksums, found).len() == chksums.len(),
        forall|i: int, j: int|
            0 <= i < j < chksums.len() && #[trigger] chksums[i] == chksums[j] ==> #[trigger] pulled_answers(chksums, found)[j] is None,
        forall|i: int|
            0 <= i < chksums.len() && found.contains_key(chksums[i]) && first_request(chksums, i) ==> #[trigger] pulled_answers(chksums, found)[i] == Some(found[chksums[i]]),
{
}

/// An error among the first rows stays an error with more rows.
proof fn lemma_pulled_map_err_stays(rows: Seq<Seq<SqlValue>>, n: int)
    requires
        0 < n <= rows.len(),
        rows[n - 1].len() < 4,
    ensures
        forall|m: int| n <= m <= rows.len() ==> pulled_map(#[trigger] rows.take(m)) == Err::<Map<Seq<u8>, FunctionInfoModel>, DbError>(DbError::ColumnOutOfRange),
{
    assert forall|m: int| n <= m <= rows.len() implies pulled_map(#[trigger] rows.take(m)) == Err::<Map<Seq<u8>, FunctionInfoModel>, DbError>(DbError::ColumnOutOfRange) by {
        lemma_pulled_map_err_at(rows, n, m);
    }
}

/// Induction step of `lemma_pulled_map_err_stays`.
proof fn lemma_pulled_map_err_at(rows: Seq<Seq<SqlValue>>, n: int, m: int)
    requires
        0 < n <= m <= rows.len(),
        rows[n - 1].len() < 4,
    ensures
        pulled_map(rows.take(m)) == Err::<Map<Seq<u8>, FunctionInfoModel>, DbError>(DbError::ColumnOutOfRange),
    decreases m,
{
    assert(rows.take(m).drop_last() =~= rows.take(m - 1));
    if m == n {
        assert(rows.take(m).last() == rows[n - 1]);
        match pulled_map(rows.take(m - 1)) {
            Err(e) => {
                assert(e == DbError::ColumnOutOfRange) by {
                    lemma_pulled_map_errors_are_short_rows(rows.take(m - 1));
                }
            },
            Ok(_) => {},
        }
    } else {
        lemma_pulled_map_err_at(rows, n, m - 1);
    }
}

/// The only error a pull can meet is a short row.
proof fn lemma_pulled_map_errors_are_short_rows(rows: Seq<Seq<SqlValue>>)
    ensures
        pulled_map(rows) is Err ==> pulled_map(rows) == Err::<Map<Seq<u8>, FunctionInfoModel>, DbError>(DbError::ColumnOutOfRange),
    decreases rows.len(),
{
    if rows.len() > 0 {
        lemma_pulled_map_errors_are_short_rows(rows.drop_last());
    }
}

/// The id in the first column of a lookup row: `Some` for an integer cut to 32 bits,
/// `None` for any other value, an error for a row without columns.
pub open spec fn row_id(row: Seq<SqlValue>) -> Result<Option<i32>, DbError> {
    if row.len() < 1 {
        Err(DbError::ColumnOutOfRange)
    } else {
        match row[0] {
            SqlValue::Integer(id) => Ok(Some(id as i32)),
            _ => Ok(None),
        }
    }
}

/// Where a lookup-or-create stands.
#[derive(Debug, PartialEq, Eq, Structural)]
pub enum Phase {
    /// The lookup runs.
    Looking,
    /// The insert runs.
    Inserting,
    /// The lookup runs again after the insert.
    Rechecking,
    /// The id, or the error, is known.
    Finished,
}

/// What the caller does next for a lookup-or-create.
#[derive(Debug, PartialEq)]
pub enum Step {
    /// Run `lookup` and hand its first row, if any, to `looked_up`.
    RunLookup,
    /// Run `insert` and then call `inserted`.
    RunInsert,
    /// The outcome.
    Done(Result<i32, DbError>),
}

/// Finds the id of a user, file or database row, creating the row when the lookup
/// finds none: lookup, then insert-or-ignore, then the same lookup again.
pub struct GetOrCreate {
    pub entity: Entity,
    pub lookup: Statement,
    pub insert: Statement,
    pub phase: Phase,
}

/// The user lookup compares each column with the placeholder at its position:
/// licence id first, licence data second, host name third; the insert names the
/// columns in the same order.
proof fn lemma_user_sql_text()
    ensures
        "SELECT id FROM users WHERE lic_id = ? AND lic_data = ? AND hostname = ?"@
            == "SELECT id FROM users WHERE "@ + "lic_id = ?"@ + " AND lic_data = ?"@ + " AND hostname = ?"@,
        "INSERT OR IGNORE INTO users (lic_id, lic_data, hostname) VALUES (?, ?, ?)"@
            == "INSERT OR IGNORE INTO users ("@ + "lic_id, lic_data, hostname"@ + ") VALUES (?, ?, ?)"@,
{
    reveal_strlit("SELECT id FROM users WHERE lic_id = ? AND lic_data = ? AND hostname = ?");
    reveal_strlit("SELECT id FROM users WHERE ");
    reveal_strlit("lic_id = ?");
    reveal_strlit(" AND lic_data = ?");
    reveal_strlit(" AND hostname = ?");
    reveal_strlit("INSERT OR IGNORE INTO users (lic_id, lic_data, hostname) VALUES (?, ?, ?)");
    reveal_strlit("INSERT OR IGNORE INTO users (");
    reveal_strlit("lic_id, lic_data, hostname");
    reveal_strlit(") VALUES (?, ?, ?)");
    assert("SELECT id FROM users WHERE lic_id = ? AND lic_data = ? AND hostname = ?"@
        =~= "SELECT id FROM users WHERE "@ + "lic_id = ?"@ + " AND lic_data = ?"@ + " AND hostname = ?"@);
    assert("INSERT OR IGNORE INTO users (lic_id, lic_data, hostname) VALUES (?, ?, ?)"@
        =~= "INSERT OR IGNORE INTO users ("@ + "lic_id, lic_data, hostname"@ + ") VALUES (?, ?, ?)"@);
}

impl GetOrCreate {
    /// The lookup-or-create of the user with licence `lic_id`, licence data
    /// `lic_data` on host `hostname`.
    pub fn user(lic_id: &[u8], lic_data: &[u8], hostname: &str) -> (g: GetOrCreate)
        ensures
            is_user_lookup(g, lic_id@, lic_data@, hostname@),
            g.lookup.sql@ == "SELECT id FROM users WHERE "@ + "lic_id = ?"@ + " AND lic_data = ?"@
                + " AND hostname = ?"@,
            g.lookup.params@.len() == 3,
            is_blob(g.lookup.params@[0], lic_id@),
            is_blob(g.lookup.params@[1], lic_data@),
            crate::sql::is_text(g.lookup.params@[2], hostname@),
            g.insert.sql@ == "INSERT OR IGNORE INTO users ("@ + "lic_id, lic_data, hostname"@
                + ") VALUES (?, ?, ?)"@,
            g.insert.params@.len() == 3,
            is_blob(g.insert.params@[0], lic_id@),
            is_blob(g.insert.params@[1], lic_data@),
            crate::sql::is_text(g.insert.params@[2], hostname@),
    {
        proof {
            lemma_user_sql_text();
        }
        let lookup_params = vec![
            SqlValue::Blob(vstd::slice::slice_to_vec(lic_id)),
            SqlValue::Blob(vstd::slice::slice_to_vec(lic_data)),
            SqlValue::Text(hostname.to_owned()),
        ];
        let insert_params = vec![
            SqlValue::Blob(vstd::slice::slice_to_vec(lic_id)),
            SqlValue::Blob(vstd::slice::slice_to_vec(lic_data)),
            SqlValue::Text(hostname.to_owned()),
        ];
        GetOrCreate {
            entity: Entity::User,
            lookup: Statement {
                sql: "SELECT id FROM users WHERE lic_id = ? AND lic_data = ? AND hostname = ?".to_owned(),
                params: lookup_params,
            },
            insert: Statement {
                sql: "INSERT OR IGNORE INTO users (lic_id, lic_data, hostname) VALUES (?, ?, ?)".to_owned(),
                params: insert_params,
            },
            phase: Phase::Looking,
        }
    }

    /// The lookup-or-create of the file with checksum `md5`.
    pub fn file(md5: &[u8]) -> (g: GetOrCreate)
        ensures
            is_file_lookup(g, md5@),
    {
        GetOrCreate {
            entity: Entity::File,
            lookup: Statement {
                sql: "SELECT id FROM files WHERE chksum = ?".to_owned(),
                params: vec![SqlValue::Blob(vstd::slice::slice_to_vec(md5))],
            },
            insert: Statement {
                sql: "INSERT OR IGNORE INTO files (chksum) VALUES (?)".to_owned(),
                params: vec![SqlValue::Blob(vstd::slice::slice_to_vec(md5))],
            },
            phase: Phase::Looking,
        }
    }

    /// The lookup-or-create of the database `idb_path` of the file `file_id`, pushed
    /// by the user `user_id` from `file_path`. The lookup goes by file, user and
    /// database path; the insert also records the file's path.
    pub fn db(file_id: i32, user_id: i32, file_path: &str, idb_path: &str) -> (g: GetOrCreate)
        ensures
            is_db_lookup(g, file_id, user_id, file_path@, idb_path@),
    {
        GetOrCreate {
            entity: Entity::Db,
            lookup: Statement {
                sql: "SELECT id FROM dbs WHERE file_id = ? AND user_id = ? AND idb_path = ?".to_owned(),
                params: vec![
                    SqlValue::Integer(file_id as i64),
                    SqlValue::Integer(user_id as i64),
                    SqlValue::Text(idb_path.to_owned()),
                ],
            },
            insert: Statement {
                sql: "INSERT OR IGNORE INTO dbs (file_id, user_id, file_path, idb_path) VALUES (?, ?, ?, ?)".to_owned(),
                params: vec![
                    SqlValue::Integer(file_id as i64),
                    SqlValue::Integer(user_id as i64),
                    SqlValue::Text(file_path.to_owned()),
                    SqlValue::Text(idb_path.to_owned()),
                ],
            },
            phase: Phase::Looking,
        }
    }

    /// The outcome of the lookup's first row `row`: an integer id found by the first
    /// lookup is the answer and nothing is inserted; otherwise the insert runs. After
    /// the insert, a missing row or an id that is not an integer is an error.
    pub fn looked_up(&mut self, row: Option<Vec<SqlValue>>) -> (step: Step)
        requires
            old(self).phase == Phase::Looking || old(self).phase == Phase::Rechecking,
        ensures
            final(self).entity == old(self).entity,
            final(self).lookup == old(self).lookup,
            final(self).insert == old(self).insert,
            old(self).phase == Phase::Looking ==> match row {
                None => step == Step::RunInsert && final(self).phase == Phase::Inserting,
                Some(r) => match row_id(r@) {
                    Err(e) => step == Step::Done(Err(e)) && final(self).phase == Phase::Finished,
                    Ok(Some(id)) => step == Step::Done(Ok(id)) && final(self).phase == Phase::Finished,
                    Ok(None) => step == Step::RunInsert && final(self).phase == Phase::Inserting,
                },
            },
            old(self).phase == Phase::Rechecking ==> final(self).phase == Phase::Finished
                && match row {
                None => step == Step::Done(Err(DbError::NotCreated(old(self).entity))),
                Some(r) => match row_id(r@) {
                    Err(e) => step == Step::Done(Err(e)),
                    Ok(Some(id)) => step == Step::Done(Ok(id)),
                    Ok(None) => step == Step::Done(Err(DbError::UnexpectedIdType(old(self).entity))),
                },
            },
    {
        let first_lookup = match self.phase {
            Phase::Looking => true,
            _ => false,
        };
        let id = match row {
            None => None,
            Some(r) => {
                if r.len() < 1 {
                    self.phase = Phase::Finished;
                    return Step::Done(Err(DbError::ColumnOutOfRange));
                }
                match &r[0] {
                    SqlValue::Integer(id) => Some(*id as i32),
                    _ => {
                        if !first_lookup {
                            self.phase = Phase::Finished;
                            return Step::Done(Err(DbError::UnexpectedIdType(self.entity)));
                        }
                        None
                    },
                }
            },
        };
        match id {
            Some(id) => {
                self.phase = Phase::Finished;
                Step::Done(Ok(id))
            },
            None => {
                if first_lookup {
                    self.phase = Phase::Inserting;
                    Step::RunInsert
                } else {
                    self.phase = Phase::Finished;
                    Step::Done(Err(DbError::NotCreated(self.entity)))
                }
            },
        }
    }

    /// After the insert ran: the lookup runs again.
    pub fn inserted(&mut self) -> (step: Step)
        requires
            old(self).phase == Phase::Inserting,
        ensures
            step == Step::RunLookup,
            final(self).phase == Phase::Rechecking,
            final(self).entity == old(self).entity,
            final(self).lookup == old(self).lookup,
            final(self).insert == old(self).insert,
    {
        self.phase = Phase::Rechecking;
        Step::RunLookup
    }
}

/// Whether `g` is the fresh lookup-or-create of the user with licence `lic_id`,
/// licence data `lic_data` on host `hostname`.
pub open spec fn is_user_lookup(g: GetOrCreate, lic_id: Seq<u8>, lic_data: Seq<u8>, hostname: Seq<char>) -> bool {
    &&& g.entity == Entity::User
    &&& g.phase == Phase::Looking
    &&& g.lookup.sql@ == "SELECT id FROM users WHERE lic_id = ? AND lic_data = ? AND hostname = ?"@
    &&& g.insert.sql@ == "INSERT OR IGNORE INTO users (lic_id, lic_data, hostname) VALUES (?, ?, ?)"@
    &&& user_params(g.lookup.params@, lic_id, lic_data, hostname)
    &&& user_params(g.insert.params@, lic_id, lic_data, hostname)
}

/// A fresh user lookup-or-create compares each column with the value bound at its
/// position: `lic_id` with the licence id, `lic_data` with the licence data,
/// `hostname` with the host name; its insert fills the same columns in the same order.
pub proof fn law_user_lookup_binds_in_column_order(g: GetOrCreate, lic_id: Seq<u8>, lic_data: Seq<u8>, hostname: Seq<char>)
    requires
        is_user_lookup(g, lic_id, lic_data, hostname),
    ensures
        g.lookup.sql@ == "SELECT id FROM users WHERE "@ + "lic_id = ?"@ + " AND lic_data = ?"@
            + " AND hostname = ?"@,
        g.lookup.params@.len() == 3,
        is_blob(g.lookup.params@[0], lic_id),
        is_blob(g.lookup.params@[1], lic_data),
        crate::sql::is_text(g.lookup.params@[2], hostname),
        g.insert.sql@ == "INSERT OR IGNORE INTO users ("@ + "lic_id, lic_data, hostname"@
            + ") VALUES (?, ?, ?)"@,
        g.insert.params@.len() == 3,
        is_blob(g.insert.params@[0], lic_id),
        is_blob(g.insert.params@[1], lic_data),
        crate::sql::is_text(g.insert.params@[2], hostname),
{
    lemma_user_sql_text();
}

/// Whether `g` is the fresh lookup-or-create of the file with checksum `md5`.
pub open spec fn is_file_lookup(g: GetOrCreate, md5: Seq<u8>) -> bool {
    &&& g.entity == Entity::File
    &&& g.phase == Phase::Looking
    &&& g.lookup.sql@ == "SELECT id FROM files WHERE chksum = ?"@
    &&& g.insert.sql@ == "INSERT OR IGNORE INTO files (chksum) VALUES (?)"@
    &&& g.lookup.params@.len() == 1 && is_blob(g.lookup.params@[0], md5)
    &&& g.insert.params@.len() == 1 && is_blob(g.insert.params@[0], md5)
}

/// Whether `g` is the fresh lookup-or-create of the database `idb_path` of the file
/// `file_id`, pushed by the user `user_id` from `file_path`.
pub open spec fn is_db_lookup(g: GetOrCreate, file_id: i32, user_id: i32, file_path: Seq<char>, idb_path: Seq<char>) -> bool {
    &&& g.entity == Entity::Db
    &&& g.phase == Phase::Looking
    &&& g.lookup.sql@ == "SELECT id FROM dbs WHERE file_id = ? AND user_id = ? AND idb_path = ?"@
    &&& g.insert.sql@ == "INSERT OR IGNORE INTO dbs (file_id, user_id, file_path, idb_path) VALUES (?, ?, ?, ?)"@
    &&& g.lookup.params@.len() == 3
    &&& g.lookup.params@[0] == SqlValue::Integer(file_id as i64)
    &&& g.lookup.params@[1] == SqlValue::Integer(user_id as i64)
    &&& crate::sql::is_text(g.lookup.params@[2], idb_path)
    &&& g.insert.params@.len() == 4
    &&& g.insert.params@[0] == SqlValue::Integer(file_id as i64)
    &&& g.insert.params@[1] == SqlValue::Integer(user_id as i64)
    &&& crate::sql::is_text(g.insert.params@[2], file_path)
    &&& crate::sql::is_text(g.insert.params@[3], idb_path)
}

/// The stage of finding a pushed database's id.
#[derive(Debug, PartialEq, Eq, Structural)]
pub enum DbChainStage {
    /// The file's id is looked up or created.
    File,
    /// The user's id is looked up or created.
    User,
    /// The database's id is looked up or created.
    Db,
}

/// Finds the id of the database that a push comes from: first the file's id, then
/// the user's, then the database's, each by its own lookup-or-create in `current`.
pub struct DbChain {
    pub stage: DbChainStage,
    pub current: GetOrCreate,
    pub lic_id: Vec<u8>,
    pub lic_data: Vec<u8>,
    pub hostname: String,
    pub file_path: String,
    pub idb_path: String,
    pub file_id: i32,
}

impl DbChain {
    /// The chain for a push of `idb_path` of the file `md5` from `file_path`, by the
    /// user with licence `lic_id` and licence data `lic_data` on host `hostname`.
    pub fn new(md5: &[u8], lic_id: &[u8], lic_data: &[u8], hostname: &str, file_path: &str, idb_path: &str) -> (c: DbChain)
        ensures
            c.stage == DbChainStage::File,
            is_file_lookup(c.current, md5@),
            c.lic_id@ == lic_id@,
            c.lic_data@ == lic_data@,
            c.hostname@ == hostname@,
            c.file_path@ == file_path@,
            c.idb_path@ == idb_path@,
    {
        DbChain {
            stage: DbChainStage::File,
            current: GetOrCreate::file(md5),
            lic_id: vstd::slice::slice_to_vec(lic_id),
            lic_data: vstd::slice::slice_to_vec(lic_data),
            hostname: hostname.to_owned(),
            file_path: file_path.to_owned(),
            idb_path: idb_path.to_owned(),
            file_id: 0,
        }
    }

    /// Takes the id that `current` found: the file's id leads to the user's lookup,
    /// the user's id to the database's lookup by both ids, and the database's id is
    /// the answer.
    pub fn resolved(&mut self, id: i32) -> (db_id: Option<i32>)
        ensures
            final(self).lic_id == old(self).lic_id,
            final(self).lic_data == old(self).lic_data,
            final(self).hostname == old(self).hostname,
            final(self).file_path == old(self).file_path,
            final(self).idb_path == old(self).idb_path,
            old(self).stage == DbChainStage::File ==> {
                &&& db_id is None
                &&& final(self).stage == DbChainStage::User
                &&& final(self).file_id == id
                &&& is_user_lookup(final(self).current, old(self).lic_id@, old(self).lic_data@, old(self).hostname@)
            },
            old(self).stage == DbChainStage::User ==> {
                &&& db_id is None
                &&& final(self).stage == DbChainStage::Db
                &&& final(self).file_id == old(self).file_id
                &&& is_db_lookup(final(self).current, old(self).file_id, id, old(self).file_path@, old(self).idb_path@)
            },
            old(self).stage == DbChainStage::Db ==> db_id == Some(id) && *final(self) == *old(self),
    {
        match self.stage {
            DbChainStage::File => {
                self.file_id = id;
                self.current = GetOrCreate::user(self.lic_id.as_slice(), self.lic_data.as_slice(), self.hostname.as_str());
                self.stage = DbChainStage::User;
                None
            },
            DbChainStage::User => {
                self.current = GetOrCreate::db(self.file_id, id, self.file_path.as_str(), self.idb_path.as_str());
                self.stage = DbChainStage::Db;
                None
            },
            DbChainStage::Db => Some(id),
        }
    }
}

/// Whether `params` binds the licence id, licence data and host name of a user.
pub open spec fn user_params(params: Seq<SqlValue>, lic_id: Seq<u8>, lic_data: Seq<u8>, hostname: Seq<char>) -> bool {
    &&& params.len() == 3
    &&& is_blob(params[0], lic_id)
    &&& is_blob(params[1], lic_data)
    &&& crate::sql::is_text(params[2], hostname)
}

/// A function pushed by a client.
#[derive(Debug, Clone, PartialEq)]
pub struct PushFunc {
    pub name: String,
    pub func_len: u32,
    pub hash: Vec<u8>,
    pub func_data: Vec<u8>,
}

/// Values bound per pushed function.
pub const COLS_PER_ROW: usize = 7;

/// Functions per push round, so that a round's upsert binds fewer than `SQLITE_MAX_VARS` values.
pub const PUSH_CHUNK_SIZE: usize = SQLITE_MAX_VARS / COLS_PER_ROW;

/// Functions pushed per round, so that a round's upsert stays within `SQLITE_MAX_VARS`.
pub open spec fn push_chunk() -> nat {
    128
}

/// Number of push rounds: chunks of functions paired with chunks of scores, as far
/// as both go.
pub open spec fn push_rounds(funcs: nat, scores: nat) -> nat {
    let f = chunk_count(funcs, push_chunk());
    let s = chunk_count(scores, push_chunk());
    if f < s {
        f
    } else {
        s
    }
}

/// Start of the query for the checksums of a round that the database already holds.
pub open spec fn existing_sql_head() -> Seq<char> {
    "SELECT chksum FROM funcs WHERE db_id = ? AND chksum IN ("@
}

/// Start of a round's upsert, up to its rows of placeholders.
pub open spec fn upsert_sql_head() -> Seq<char> {
    "INSERT INTO funcs (name, len, chksum, metadata, rank, db_id, update_dt)\n                 VALUES "@
}

/// End of a round's upsert, after its rows of placeholders.
pub open spec fn upsert_sql_tail() -> Seq<char> {
    "\n                 ON CONFLICT(chksum, db_id) DO UPDATE SET\n                     name = excluded.name,\n                     metadata = excluded.metadata,\n                     rank = excluded.rank,\n                     update_dt = excluded.update_dt"@
}

/// The placeholders of one pushed function.
pub open spec fn upsert_row_placeholders() -> Seq<char> {
    "(?, ?, ?, ?, ?, ?, ?)"@
}

/// The seven values bound for pushed function `i` of a round, from `params`.
pub open spec fn push_row(params: Seq<SqlValue>, i: int) -> Seq<SqlValue> {
    params.subrange(7 * i, 7 * i + 7)
}

/// Whether `row` binds name, length, checksum, metadata, rank, database and time of
/// one pushed function.
pub open spec fn binds_push_row(row: Seq<SqlValue>, f: PushFunc, score: u32, db_id: i32, now: i64) -> bool {
    &&& row.len() == 7
    &&& crate::sql::is_text(row[0], f.name@)
    &&& row[1] == SqlValue::Integer(f.func_len as i64)
    &&& is_blob(row[2], f.hash@)
    &&& is_blob(row[3], f.func_data@)
    &&& row[4] == SqlValue::Integer(score as i64)
    &&& row[5] == SqlValue::Integer(db_id as i64)
    &&& row[6] == SqlValue::Integer(now)
}

/// Whether `stmt` is the upsert of round `k` of `funcs` with `scores` into the
/// database `db_id` at time `now`: a row of placeholders per function of the round,
/// and the values of each function that has a score at its position.
pub open spec fn upsert_binds(stmt: Statement, funcs: Seq<PushFunc>, scores: Seq<u32>, db_id: i32, k: int, now: i64) -> bool {
    let lo = 128 * k;
    let len = chunk_len(funcs.len(), push_chunk(), k);
    let scored = if len < chunk_len(scores.len(), push_chunk(), k) {
        len
    } else {
        chunk_len(scores.len(), push_chunk(), k)
    };
    &&& stmt.sql@ == upsert_sql_head() + crate::sql::repeat_joined(len, upsert_row_placeholders())
        + upsert_sql_tail()
    &&& stmt.params@.len() == 7 * scored
    &&& forall|i: int|
        0 <= i < scored ==> binds_push_row(
            #[trigger] push_row(stmt.params@, i),
            funcs[lo + i],
            scores[lo + i],
            db_id,
            now,
        )
}

/// The checksums that rows of an existing-checksum query name: blobs in the first
/// column; other values add none; a row without columns is an error.
pub open spec fn existing_checksums(rows: Seq<Seq<SqlValue>>) -> Result<Set<Seq<u8>>, DbError>
    decreases rows.len(),
{
    if rows.len() == 0 {
        Ok(Set::empty())
    } else {
        match existing_checksums(rows.drop_last()) {
            Err(e) => Err(e),
            Ok(set) => if rows.last().len() < 1 {
                Err(DbError::ColumnOutOfRange)
            } else {
                match rows.last()[0] {
                    SqlValue::Blob(b) => Ok(set.insert(b@)),
                    _ => Ok(set),
                }
            },
        }
    }
}

/// Number of push rounds for `funcs` functions and `scores` scores.
pub fn push_round_count(funcs: usize, scores: usize) -> (rounds: usize)
    ensures
        rounds == push_rounds(funcs as nat, scores as nat),
{
    let chunk = PUSH_CHUNK_SIZE;
    assert(chunk == 128);
    let f = if funcs == 0 { 0 } else { (funcs - 1) / chunk + 1 };
    let s = if scores == 0 { 0 } else { (scores - 1) / chunk + 1 };
    if f < s {
        f
    } else {
        s
    }
}


/// Bounds of round `k`'s chunk of `n` items.
fn round_bounds(n: usize, k: usize) -> (bounds: (usize, usize))
    requires
        k < chunk_count(n as nat, push_chunk()),
    ensures
        bounds.0 == 128 * k,
        bounds.1 == 128 * k + chunk_len(n as nat, push_chunk(), k as int),
        bounds.0 < bounds.1 <= n,
{
    let size = PUSH_CHUNK_SIZE;
    assert(size == 128);
    let lo = size * k;
    let hi = if n - lo < size { n } else { lo + size };
    (lo, hi)
}

/// The query for the checksums of round `k` that the database `db_id` already holds.
pub fn existing_statement(funcs: &Vec<PushFunc>, db_id: i32, k: usize) -> (stmt: Statement)
    requires
        k < chunk_count(funcs.len() as nat, push_chunk()),
    ensures
        ({
            let lo = 128 * k;
            let len = chunk_len(funcs.len() as nat, push_chunk(), k as int);
            &&& stmt.sql@ == existing_sql_head() + placeholder_list(len) + ")"@
            &&& stmt.params@.len() == len + 1
            &&& stmt.params@[0] == SqlValue::Integer(db_id as i64)
            &&& forall|i: int| 0 <= i < len ==> is_blob(#[trigger] stmt.params@[i + 1], funcs@[lo + i].hash@)
        }),
{
    let (lo, hi) = round_bounds(funcs.len(), k);
    let mut sql = "SELECT chksum FROM funcs WHERE db_id = ? AND chksum IN (".to_owned();
    let list = crate::sql::placeholders(hi - lo);
    sql.append(list.as_str());
    sql.append(")");
    let mut params: Vec<SqlValue> = Vec::new();
    params.push(SqlValue::Integer(db_id as i64));
    let mut i = lo;
    while i < hi
        invariant
            lo <= i <= hi <= funcs.len(),
            params@.len() == i - lo + 1,
            params@[0] == SqlValue::Integer(db_id as i64),
            forall|j: int| 0 <= j < i - lo ==> is_blob(#[trigger] params@[j + 1], funcs@[lo + j].hash@),
        decreases hi - i,
    {
        params.push(SqlValue::Blob(vstd::slice::slice_to_vec(funcs[i].hash.as_slice())));
        i += 1;
    }
    Statement { sql, params }
}

/// The upsert of round `k` into the database `db_id` at time `now`: one row of
/// placeholders per function of the round, and the values of the functions that have
/// a score, each function with the score at its position.
pub fn upsert_statement(funcs: &Vec<PushFunc>, scores: &Vec<u32>, db_id: i32, k: usize, now: i64) -> (stmt: Statement)
    requires
        k < push_rounds(funcs.len() as nat, scores.len() as nat),
    ensures
        upsert_binds(stmt, funcs@, scores@, db_id, k as int, now),
        ({
            let sql = stmt.sql@;
            let insert_head = "INSERT INTO funcs ("@ + "name, len, chksum, metadata, rank, db_id, update_dt"@
                + ")\n                 VALUES "@;
            let set_clause = "\n                 ON CONFLICT(chksum, db_id) DO UPDATE SET"@
                + "\n                     name = excluded.name,"@
                + "\n                     metadata = excluded.metadata,"@
                + "\n                     rank = excluded.rank,"@
                + "\n                     update_dt = excluded.update_dt"@;
            &&& sql.len() >= insert_head.len() + set_clause.len()
            &&& sql.take(insert_head.len() as int) == insert_head
            &&& sql.skip(sql.len() - set_clause.len()) == set_clause
        }),
{
    let (lo, hi) = round_bounds(funcs.len(), k);
    let (slo, shi) = round_bounds(scores.len(), k);
    let mut sql = "INSERT INTO funcs (name, len, chksum, metadata, rank, db_id, update_dt)\n                 VALUES ".to_owned();
    let rows = crate::sql::joined_copies(hi - lo, "(?, ?, ?, ?, ?, ?, ?)");
    sql.append(rows.as_str());
    sql.append("\n                 ON CONFLICT(chksum, db_id) DO UPDATE SET\n                     name = excluded.name,\n                     metadata = excluded.metadata,\n                     rank = excluded.rank,\n                     update_dt = excluded.update_dt");
    let scored = if hi - lo < shi - slo { hi - lo } else { shi - slo };
    let mut params: Vec<SqlValue> = Vec::new();
    let mut i: usize = 0;
    while i < scored
        invariant
            i <= scored,
            lo == slo,
            lo + scored <= funcs.len(),
            lo + scored <= scores.len(),
            params@.len() == 7 * i,
            forall|j: int| 0 <= j < i ==> binds_push_row(#[trigger] push_row(params@, j), funcs@[lo + j], scores@[lo + j], db_id, now),
        decreases scored - i,
    {
        let f = &funcs[lo + i];
        let ghost before = params@;
        params.push(SqlValue::Text(f.name.clone()));
        params.push(SqlValue::Integer(f.func_len as i64));
        params.push(SqlValue::Blob(vstd::slice::slice_to_vec(f.hash.as_slice())));
        params.push(SqlValue::Blob(vstd::slice::slice_to_vec(f.func_data.as_slice())));
        params.push(SqlValue::Integer(scores[lo + i] as i64));
        params.push(SqlValue::Integer(db_id as i64));
        params.push(SqlValue::Integer(now));
        proof {
            assert forall|j: int| 0 <= j < i + 1 implies binds_push_row(#[trigger] push_row(params@, j), funcs@[lo + j], scores@[lo + j], db_id, now) by {
                if j < i {
                    assert(push_row(params@, j) =~= push_row(before, j));
                } else {
                    assert(push_row(params@, j) =~= params@.subrange(7 * i, 7 * i + 7));
                }
            }
        }
        i += 1;
    }
    proof {
        lemma_upsert_sql_text();
        let head = upsert_sql_head();
        let mid = crate::sql::repeat_joined((hi - lo) as nat, upsert_row_placeholders());
        let tail = upsert_sql_tail();
        assert(sql@ == head + mid + tail);
        assert((head + mid + tail).take(head.len() as int) =~= head);
        assert((head + mid + tail).skip((head + mid + tail).len() - tail.len()) =~= tail);
    }
    Statement { sql, params }
}

/// A round's upsert inserts name, length, checksum, metadata, rank, database and time
/// in that order, and where the checksum is already stored under the database it
/// sets every pushed value column, name, metadata, rank and time, to the pushed value.
pub proof fn lemma_upsert_sql_text()
    ensures
        upsert_sql_head() == "INSERT INTO funcs ("@ + "name, len, chksum, metadata, rank, db_id, update_dt"@
            + ")\n                 VALUES "@,
        upsert_sql_tail() == "\n                 ON CONFLICT(chksum, db_id) DO UPDATE SET"@
            + "\n                     name = excluded.name,"@
            + "\n                     metadata = excluded.metadata,"@
            + "\n                     rank = excluded.rank,"@
            + "\n                     update_dt = excluded.update_dt"@,
{
    reveal_strlit("INSERT INTO funcs (name, len, chksum, metadata, rank, db_id, update_dt)\n                 VALUES ");
    reveal_strlit("INSERT INTO funcs (");
    reveal_strlit("name, len, chksum, metadata, rank, db_id, update_dt");
    reveal_strlit(")\n                 VALUES ");
    reveal_strlit("\n                 ON CONFLICT(chksum, db_id) DO UPDATE SET\n                     name = excluded.name,\n                     metadata = excluded.metadata,\n                     rank = excluded.rank,\n                     update_dt = excluded.update_dt");
    reveal_strlit("\n                 ON CONFLICT(chksum, db_id) DO UPDATE SET");
    reveal_strlit("\n                     name = excluded.name,");
    reveal_strlit("\n                     metadata = excluded.metadata,");
    reveal_strlit("\n                     rank = excluded.rank,");
    reveal_strlit("\n                     update_dt = excluded.update_dt");
    assert(upsert_sql_head() =~= "INSERT INTO funcs ("@ + "name, len, chksum, metadata, rank, db_id, update_dt"@
        + ")\n                 VALUES "@);
    assert(upsert_sql_tail() =~= "\n                 ON CONFLICT(chksum, db_id) DO UPDATE SET"@
        + "\n                     name = excluded.name,"@
        + "\n                     metadata = excluded.metadata,"@
        + "\n                     rank = excluded.rank,"@
        + "\n                     update_dt = excluded.update_dt"@);
}

/// Whether `stmt` is the upsert of round `k` at some time that `time` can represent.
pub open spec fn upsert_at_some_time(stmt: Statement, funcs: Seq<PushFunc>, scores: Seq<u32>, db_id: i32, k: int) -> bool {
    exists|now: i64|
        #[trigger] upsert_binds(stmt, funcs, scores, db_id, k, now)
            && crate::clock::representable_timestamp(now as int)
}

/// The upsert of round `k`, stamped with the current time in seconds since 1970;
/// `None` when the clock reads a time that `time` cannot represent.
pub fn upsert_statement_now(funcs: &Vec<PushFunc>, scores: &Vec<u32>, db_id: i32, k: usize) -> (stmt: Option<Statement>)
    requires
        k < push_rounds(funcs.len() as nat, scores.len() as nat),
    ensures
        stmt matches Some(st) ==> upsert_at_some_time(st, funcs@, scores@, db_id, k as int),
{
    match crate::clock::now_unix_timestamp() {
        None => None,
        Some(now) => {
            let st = upsert_statement(funcs, scores, db_id, k, now);
            assert(upsert_binds(st, funcs@, scores@, db_id, k as int, now)
                && crate::clock::representable_timestamp(now as int));
            assert(upsert_at_some_time(st, funcs@, scores@, db_id, k as int));
            Some(st)
        },
    }
}

/// For each function of round `k`, whether it is new to the database: its checksum
/// is not among those that the existing-checksum query's `rows` name.
pub fn new_function_flags(funcs: &Vec<PushFunc>, k: usize, rows: &Vec<Vec<SqlValue>>) -> (flags: Result<Vec<bool>, DbError>)
    requires
        k < chunk_count(funcs.len() as nat, push_chunk()),
    ensures
        match existing_checksums(rows@.map_values(|r: Vec<SqlValue>| r@)) {
            Err(e) => flags == Err::<Vec<bool>, DbError>(e),
            Ok(existing) => flags matches Ok(list) && list@.len() == chunk_len(funcs.len() as nat, push_chunk(), k as int)
                && forall|i: int| 0 <= i < list@.len() ==> #[trigger] list@[i] == !existing.contains(funcs@[128 * k + i].hash@),
        },
{
    let ghost views = rows@.map_values(|r: Vec<SqlValue>| r@);
    let mut existing: Vec<Vec<u8>> = Vec::new();
    let mut r: usize = 0;
    while r < rows.len()
        invariant
            r <= rows.len(),
            views == rows@.map_values(|r: Vec<SqlValue>| r@),
            existing_checksums(views.take(r as int)) is Ok,
            forall|b: Seq<u8>| #[trigger] existing_checksums(views.take(r as int))->Ok_0.contains(b) <==> exists|i: int|
                0 <= i < existing.len() && #[trigger] existing@[i]@ == b,
        decreases rows.len() - r,
    {
        proof {
            assert(views.take(r + 1).drop_last() =~= views.take(r as int));
        }
        let row = &rows[r];
        if row.len() < 1 {
            proof {
                lemma_existing_err_stays(views, r as int + 1, views.len() as int);
                assert(views.take(views.len() as int) =~= views);
            }
            return Err(DbError::ColumnOutOfRange);
        }
        let ghost old_existing = existing@;
        match &row[0] {
            SqlValue::Blob(b) => {
                existing.push(vstd::slice::slice_to_vec(b.as_slice()));
                proof {
                    assert forall|x: Seq<u8>| #[trigger] existing_checksums(views.take(r + 1))->Ok_0.contains(x) <==> exists|i: int|
                        0 <= i < existing.len() && #[trigger] existing@[i]@ == x by {
                        if exists|i: int| 0 <= i < existing.len() && #[trigger] existing@[i]@ == x {
                            let i = choose|i: int| 0 <= i < existing.len() && #[trigger] existing@[i]@ == x;
                            if i < old_existing.len() {
                                assert(old_existing[i]@ == x);
                            }
                        }
                        if existing_checksums(views.take(r as int))->Ok_0.contains(x) {
                            let i = choose|i: int| 0 <= i < old_existing.len() && #[trigger] old_existing[i]@ == x;
                            assert(existing@[i]@ == x);
                        }
                        assert(existing@[existing.len() - 1]@ == b@);
                    }
                }
            },
            _ => {},
        }
        r += 1;
    }
    assert(views.take(r as int) =~= views);
    let (lo, hi) = round_bounds(funcs.len(), k);
    let mut flags: Vec<bool> = Vec::new();
    let mut i = lo;
    while i < hi
        invariant
            lo <= i <= hi <= funcs.len(),
            lo == 128 * k,
            flags@.len() == i - lo,
            forall|b: Seq<u8>| #[trigger] existing_checksums(views)->Ok_0.contains(b) <==> exists|j: int|
                0 <= j < existing.len() && #[trigger] existing@[j]@ == b,
            forall|j: int| 0 <= j < flags@.len() ==> #[trigger] flags@[j] == !existing_checksums(views)->Ok_0.contains(funcs@[lo + j].hash@),
        decreases hi - i,
    {
        let at = find_key(&existing, funcs[i].hash.as_slice());
        proof {
            if at == existing.len() && existing_checksums(views)->Ok_0.contains(funcs@[i as int].hash@) {
                let j = choose|j: int| 0 <= j < existing.len() && #[trigger] existing@[j]@ == funcs@[i as int].hash@;
            }
        }
        flags.push(at == existing.len());
        i += 1;
    }
    Ok(flags)
}

/// The new-function flags of round `k` given the checksums the database already
/// holds: one per function of the round, true where its checksum is not among them.
pub open spec fn round_flags(funcs: Seq<PushFunc>, k: int, existing: Set<Seq<u8>>) -> Seq<bool> {
    Seq::new(
        chunk_len(funcs.len(), push_chunk(), k),
        |i: int| !existing.contains(funcs[128 * k + i].hash@),
    )
}

/// A push in progress: its functions and scores, the database they go to, the
/// rounds done, the new-function flags gathered so far, and what comes next.
pub struct PushRun {
    funcs: Vec<PushFunc>,
    scores: Vec<u32>,
    db_id: i32,
    round: usize,
    is_new: Vec<bool>,
    phase: PushPhase,
}

/// What a push round does next. Its flags come from the database as it stands
/// before the round's upsert: the existing-checksum query is issued first, then the
/// upsert, then the round is finished with the query's rows.
#[derive(Debug, Clone, Copy, PartialEq, Eq, Structural)]
pub enum PushPhase {
    /// The round's existing-checksum query is next.
    Query,
    /// The query was issued; the round's upsert is next.
    Upsert,
    /// The upsert was issued; `finish_round` with the query's rows is next.
    Finish,
}

impl PushRun {
    /// The pushed functions.
    pub closed spec fn funcs(&self) -> Seq<PushFunc> {
        self.funcs@
    }

    /// Their scores.
    pub closed spec fn scores(&self) -> Seq<u32> {
        self.scores@
    }

    /// The database they go to.
    pub closed spec fn db_id(&self) -> i32 {
        self.db_id
    }

    /// The rounds done.
    pub closed spec fn round(&self) -> nat {
        self.round as nat
    }

    /// The new-function flags gathered so far.
    pub closed spec fn is_new(&self) -> Seq<bool> {
        self.is_new@
    }

    /// What this push does next.
    pub closed spec fn phase(&self) -> PushPhase {
        self.phase
    }

    /// Number of rounds of the whole push.
    pub closed spec fn total_rounds(&self) -> nat {
        push_rounds(self.funcs@.len(), self.scores@.len())
    }

    /// A push of `funcs` with `scores` into the database `db_id`: no round done,
    /// no flags, the first round's query next.
    pub fn new(funcs: Vec<PushFunc>, scores: Vec<u32>, db_id: i32) -> (run: PushRun)
        ensures
            run.funcs() == funcs@,
            run.scores() == scores@,
            run.db_id() == db_id,
            run.round() == 0,
            run.is_new() == Seq::<bool>::empty(),
            run.phase() == PushPhase::Query,
            run.total_rounds() == push_rounds(funcs@.len(), scores@.len()),
    {
        PushRun { funcs, scores, db_id, round: 0, is_new: Vec::new(), phase: PushPhase::Query }
    }

    /// Number of rounds of the whole push.
    pub fn rounds(&self) -> (n: usize)
        ensures
            n == self.total_rounds(),
    {
        push_round_count(self.funcs.len(), self.scores.len())
    }

    /// Number of rounds done.
    pub fn rounds_done(&self) -> (n: usize)
        ensures
            n == self.round(),
    {
        self.round
    }

    /// What this push does next.
    pub fn next_phase(&self) -> (p: PushPhase)
        ensures
            p == self.phase(),
    {
        self.phase
    }

    /// The new-function flags gathered, one per function of the rounds done.
    pub fn into_flags(self) -> (flags: Vec<bool>)
        ensures
            flags@ == self.is_new(),
    {
        self.is_new
    }

    /// Issues the query for the checksums of the current round that the database
    /// holds; the round's upsert comes next.
    pub fn existing_query(&mut self) -> (stmt: Statement)
        requires
            old(self).round() < old(self).total_rounds(),
            old(self).phase() == PushPhase::Query,
        ensures
            final(self).funcs() == old(self).funcs(),
            final(self).scores() == old(self).scores(),
            final(self).db_id() == old(self).db_id(),
            final(self).round() == old(self).round(),
            final(self).is_new() == old(self).is_new(),
            final(self).total_rounds() == old(self).total_rounds(),
            final(self).phase() == PushPhase::Upsert,
            ({
                let k = old(self).round() as int;
                let len = chunk_len(old(self).funcs().len(), push_chunk(), k);
                &&& stmt.sql@ == existing_sql_head() + placeholder_list(len) + ")"@
                &&& stmt.params@.len() == len + 1
                &&& stmt.params@[0] == SqlValue::Integer(old(self).db_id() as i64)
                &&& forall|i: int| 0 <= i < len ==> is_blob(#[trigger] stmt.params@[i + 1], old(self).funcs()[128 * k + i].hash@)
            }),
    {
        let stmt = existing_statement(&self.funcs, self.db_id, self.round);
        self.phase = PushPhase::Upsert;
        stmt
    }

    /// Issues the upsert of the current round, stamped with the current time, after
    /// the round's existing-checksum query; finishing the round comes next. `None`
    /// when the clock reads a time that `time` cannot represent, and the push stays
    /// as it was.
    pub fn upsert_now(&mut self) -> (stmt: Option<Statement>)
        requires
            old(self).round() < old(self).total_rounds(),
            old(self).phase() == PushPhase::Upsert,
        ensures
            final(self).funcs() == old(self).funcs(),
            final(self).scores() == old(self).scores(),
            final(self).db_id() == old(self).db_id(),
            final(self).round() == old(self).round(),
            final(self).is_new() == old(self).is_new(),
            final(self).total_rounds() == old(self).total_rounds(),
            stmt is Some ==> final(self).phase() == PushPhase::Finish,
            stmt is None ==> final(self).phase() == PushPhase::Upsert,
            stmt matches Some(st) ==> upsert_at_some_time(st, old(self).funcs(), old(self).scores(), old(self).db_id(), old(self).round() as int),
    {
        let stmt = upsert_statement_now(&self.funcs, &self.scores, self.db_id, self.round);
        if stmt.is_some() {
            self.phase = PushPhase::Finish;
        }
        stmt
    }

    /// Ends the current round, after its upsert, with the rows of its
    /// existing-checksum query: the round's new-function flags are appended and the
    /// next round's query comes next. A row without columns is an error, and the
    /// push stays as it was.
    pub fn finish_round(&mut self, rows: &Vec<Vec<SqlValue>>) -> (r: Result<(), DbError>)
        requires
            old(self).round() < old(self).total_rounds(),
            old(self).phase() == PushPhase::Finish,
        ensures
            final(self).funcs() == old(self).funcs(),
            final(self).scores() == old(self).scores(),
            final(self).db_id() == old(self).db_id(),
            final(self).total_rounds() == old(self).total_rounds(),
            match existing_checksums(rows@.map_values(|r: Vec<SqlValue>| r@)) {
                Err(e) => r == Err::<(), DbError>(e) && *final(self) == *old(self),
                Ok(existing) => {
                    &&& r == Ok::<(), DbError>(())
                    &&& final(self).round() == old(self).round() + 1
                    &&& final(self).phase() == PushPhase::Query
                    &&& final(self).is_new() == old(self).is_new() + round_flags(old(self).funcs(), old(self).round() as int, existing)
                },
            },
    {
        let mut flags = match new_function_flags(&self.funcs, self.round, rows) {
            Ok(flags) => flags,
            Err(e) => return Err(e),
        };
        let ghost added = flags@;
        self.is_new.append(&mut flags);
        self.round = self.round + 1;
        self.phase = PushPhase::Query;
        proof {
            let existing = existing_checksums(rows@.map_values(|r: Vec<SqlValue>| r@))->Ok_0;
            assert(added =~= round_flags(self.funcs@, self.round - 1, existing));
        }
        Ok(())
    }
}

/// A row without columns makes every longer prefix of the rows an error.
proof fn lemma_existing_err_stays(rows: Seq<Seq<SqlValue>>, n: int, m: int)
    requires
        0 < n <= m <= rows.len(),
        rows[n - 1].len() < 1,
    ensures
        existing_checksums(rows.take(m)) == Err::<Set<Seq<u8>>, DbError>(DbError::ColumnOutOfRange),
    decreases m,
{
    assert(rows.take(m).drop_last() =~= rows.take(m - 1));
    if m == n {
        assert(rows.take(m).last() == rows[n - 1]);
        lemma_existing_errors_are_empty_rows(rows.take(m - 1));
    } else {
        lemma_existing_err_stays(rows, n, m - 1);
    }
}

/// The only error of an existing-checksum query is a row without columns.
proof fn lemma_existing_errors_are_empty_rows(rows: Seq<Seq<SqlValue>>)
    ensures
        existing_checksums(rows) is Err ==> existing_checksums(rows) == Err::<Set<Seq<u8>>, DbError>(DbError::ColumnOutOfRange),
    decreases rows.len(),
{
    if rows.len() > 0 {
        lemma_existing_errors_are_empty_rows(rows.drop_last());
    }
}

/// The query for the stored password hash of the web user `username`.
pub fn web_user_statement(username: &str) -> (stmt: Statement)
    ensures
        stmt.sql@ == "SELECT password_hash FROM web_users WHERE username = ?"@,
        stmt.params@.len() == 1,
        crate::sql::is_text(stmt.params@[0], username@),
{
    Statement {
        sql: "SELECT password_hash FROM web_users WHERE username = ?".to_owned(),
        params: vec![SqlValue::Text(username.to_owned())],
    }
}

/// Whether `password` is right for the web user whose lookup gave `row` (its first
/// row, if any): the user exists, the stored hash is text, and the password matches
/// it. A row without columns is an error.
pub fn check_web_user(row: Option<&Vec<SqlValue>>, password: &str) -> (ok: Result<bool, DbError>)
    ensures
        match row {
            None => ok == Ok::<bool, DbError>(false),
            Some(r) => if r@.len() < 1 {
                ok == Err::<bool, DbError>(DbError::ColumnOutOfRange)
            } else {
                match r@[0] {
                    SqlValue::Text(stored) => ok == Ok::<bool, DbError>(
                        crate::credentials::password_matches(encode_utf8(stored@), encode_utf8(password@)),
                    ),
                    _ => ok == Ok::<bool, DbError>(false),
                }
            },
        },
{
    match row {
        None => Ok(false),
        Some(r) => {
            if r.len() < 1 {
                return Err(DbError::ColumnOutOfRange);
            }
            match &r[0] {
                SqlValue::Text(stored) => Ok(crate::credentials::verify_password(stored.as_str(), password)),
                _ => Ok(false),
            }
        },
    }
}

/// The statement that creates the web user `username`, or replaces its password,
/// with `password` hashed under a fresh salt; `None` when the clock stands before 1970.
pub fn upsert_web_user_statement(username: &str, password: &str) -> (stmt: Option<Statement>)
    ensures
        stmt matches Some(st) ==> {
            &&& st.sql@ == "INSERT INTO web_users (username, password_hash) VALUES (?, ?)\n                 ON CONFLICT(username) DO UPDATE SET password_hash = excluded.password_hash"@
            &&& st.params@.len() == 2
            &&& crate::sql::is_text(st.params@[0], username@)
            &&& st.params@[1] matches SqlValue::Text(h) && crate::credentials::password_matches(
                encode_utf8(h@),
                encode_utf8(password@),
            ) && exists|nanos: u128|
                #[trigger] crate::credentials::salted_hash(
                    crate::credentials::hex_of_nat(nanos as nat),
                    password@,
                ) == h@ && crate::credentials::digest_text(
                    crate::credentials::hex_of_nat(nanos as nat),
                    password@,
                ).len() == 64
        },
{
    match crate::credentials::hash_password(password) {
        None => None,
        Some(hash) => Some(
            Statement {
                sql: "INSERT INTO web_users (username, password_hash) VALUES (?, ?)\n                 ON CONFLICT(username) DO UPDATE SET password_hash = excluded.password_hash".to_owned(),
                params: vec![SqlValue::Text(username.to_owned()), SqlValue::Text(hash)],
            },
        ),
    }
}

/// The query that counts the web users.
pub fn count_web_users_statement() -> (stmt: Statement)
    ensures
        stmt.sql@ == "SELECT COUNT(*) FROM web_users"@,
        stmt.params@.len() == 0,
{
    Statement { sql: "SELECT COUNT(*) FROM web_users".to_owned(), params: Vec::new() }
}

/// Whether there are web users, given the first row of the count query: its count is
/// an integer above zero. A row without columns is an error.
pub fn has_web_users_from(row: Option<&Vec<SqlValue>>) -> (any: Result<bool, DbError>)
    ensures
        match row {
            None => any == Ok::<bool, DbError>(false),
            Some(r) => if r@.len() < 1 {
                any == Err::<bool, DbError>(DbError::ColumnOutOfRange)
            } else {
                any == Ok::<bool, DbError>(r@[0] matches SqlValue::Integer(n) && n > 0)
            },
        },
{
    match row {
        None => Ok(false),
        Some(r) => {
            if r.len() < 1 {
                return Err(DbError::ColumnOutOfRange);
            }
            match &r[0] {
                SqlValue::Integer(n) => Ok(*n > 0),
                _ => Ok(false),
            }
        },
    }
}

/// The statements that delete the metadata of the functions `chksums`: one per chunk
/// of at most `SQLITE_MAX_VARS` checksums.
pub fn delete_statements(chksums: &Vec<Vec<u8>>) -> (stmts: Vec<Statement>)
    ensures
        stmts.len() == chunk_count(chksums.len() as nat, 900),
        forall|k: int|
            0 <= k < stmts.len() ==> {
                let len = chunk_len(chksums.len() as nat, 900, k);
                &&& #[trigger] stmts[k].sql@ == "DELETE FROM funcs WHERE chksum IN ("@ + placeholder_list(len) + ")"@
                &&& binds_blobs(
                    stmts[k].params@,
                    chksums@.subrange(900 * k, 900 * k + len).map_values(|b: Vec<u8>| b@),
                )
            },
{
    chunked_blob_statements(chksums, "DELETE FROM funcs WHERE chksum IN (", ")")
}

/// The query for a page of the functions of the file with checksum `md5`.
pub fn file_funcs_statement(md5: &[u8], offset: i64, limit: i64) -> (stmt: Statement)
    ensures
        stmt.sql@ == "SELECT f.name, f.len, f.chksum\n                 FROM funcs f\n                 JOIN dbs d ON d.id = f.db_id\n                 JOIN files fl ON fl.id = d.file_id\n                 WHERE fl.chksum = ?\n                 LIMIT ? OFFSET ?"@,
        stmt.params@.len() == 3,
        is_blob(stmt.params@[0], md5@),
        stmt.params@[1] == SqlValue::Integer(limit),
        stmt.params@[2] == SqlValue::Integer(offset),
{
    Statement {
        sql: "SELECT f.name, f.len, f.chksum\n                 FROM funcs f\n                 JOIN dbs d ON d.id = f.db_id\n                 JOIN files fl ON fl.id = d.file_id\n                 WHERE fl.chksum = ?\n                 LIMIT ? OFFSET ?".to_owned(),
        params: vec![
            SqlValue::Blob(vstd::slice::slice_to_vec(md5)),
            SqlValue::Integer(limit),
            SqlValue::Integer(offset),
        ],
    }
}

/// Whether some row has fewer than `n` columns.
pub open spec fn some_row_shorter(rows: Seq<Seq<SqlValue>>, n: nat) -> bool {
    exists|i: int| 0 <= i < rows.len() && #[trigger] rows[i].len() < n
}

/// A file's functions from the rows of its query: name (text, else empty), length
/// (integer cut to 32 bits, else 0) and checksum (blob, else empty).
pub fn file_funcs_from(rows: &Vec<Vec<SqlValue>>) -> (funcs: Result<Vec<(String, i32, Vec<u8>)>, DbError>)
    ensures
        some_row_shorter(rows@.map_values(|r: Vec<SqlValue>| r@), 3) ==> funcs == Err::<Vec<(String, i32, Vec<u8>)>, DbError>(DbError::ColumnOutOfRange),
        !some_row_shorter(rows@.map_values(|r: Vec<SqlValue>| r@), 3) ==> (funcs matches Ok(list) && list@.len() == rows@.len()
            && forall|i: int| 0 <= i < list@.len() ==> {
                &&& (#[trigger] list@[i]).0@ == text_column(rows@[i]@[0])
                &&& list@[i].1 == i32_column(rows@[i]@[1])
                &&& list@[i].2@ == blob_column(rows@[i]@[2])
            }),
{
    let ghost views = rows@.map_values(|r: Vec<SqlValue>| r@);
    let mut out: Vec<(String, i32, Vec<u8>)> = Vec::new();
    let mut i: usize = 0;
    while i < rows.len()
        invariant
            i <= rows.len(),
            views == rows@.map_values(|r: Vec<SqlValue>| r@),
            out@.len() == i,
            forall|j: int| 0 <= j < i ==> #[trigger] rows@[j]@.len() >= 3,
            forall|j: int| 0 <= j < i ==> {
                &&& (#[trigger] out@[j]).0@ == text_column(rows@[j]@[0])
                &&& out@[j].1 == i32_column(rows@[j]@[1])
                &&& out@[j].2@ == blob_column(rows@[j]@[2])
            },
        decreases rows.len() - i,
    {
        let row = &rows[i];
        if row.len() < 3 {
            assert(views[i as int].len() < 3);
            return Err(DbError::ColumnOutOfRange);
        }
        out.push((text_from(&row[0]), i32_from(&row[1]), blob_from(&row[2])));
        i += 1;
    }
    proof {
        assert forall|j: int| 0 <= j < views.len() implies #[trigger] views[j].len() >= 3 by {
            assert(views[j] == rows@[j]@);
        }
    }
    Ok(out)
}

/// The query for the files that hold the function with checksum `func`.
pub fn files_with_func_statement(func: &[u8]) -> (stmt: Statement)
    ensures
        stmt.sql@ == "SELECT DISTINCT fl.chksum\n                 FROM files fl\n                 JOIN dbs d ON d.file_id = fl.id\n                 JOIN funcs f ON f.db_id = d.id\n                 WHERE f.chksum = ?"@,
        stmt.params@.len() == 1,
        is_blob(stmt.params@[0], func@),
{
    Statement {
        sql: "SELECT DISTINCT fl.chksum\n                 FROM files fl\n                 JOIN dbs d ON d.file_id = fl.id\n                 JOIN funcs f ON f.db_id = d.id\n                 WHERE f.chksum = ?".to_owned(),
        params: vec![SqlValue::Blob(vstd::slice::slice_to_vec(func))],
    }
}

/// The blobs in the first column of `rows`, in order; other values are skipped.
pub open spec fn first_column_blobs(rows: Seq<Seq<SqlValue>>) -> Seq<Seq<u8>>
    decreases rows.len(),
{
    if rows.len() == 0 {
        Seq::empty()
    } else {
        let front = first_column_blobs(rows.drop_last());
        match rows.last()[0] {
            SqlValue::Blob(b) => front.push(b@),
            _ => front,
        }
    }
}

/// The file checksums from the rows of a files-with-function query.
pub fn files_from(rows: &Vec<Vec<SqlValue>>) -> (files: Result<Vec<Vec<u8>>, DbError>)
    ensures
        some_row_shorter(rows@.map_values(|r: Vec<SqlValue>| r@), 1) ==> files == Err::<Vec<Vec<u8>>, DbError>(DbError::ColumnOutOfRange),
        !some_row_shorter(rows@.map_values(|r: Vec<SqlValue>| r@), 1) ==> (files matches Ok(list)
            && list@.map_values(|b: Vec<u8>| b@) == first_column_blobs(rows@.map_values(|r: Vec<SqlValue>| r@))),
{
    let ghost views = rows@.map_values(|r: Vec<SqlValue>| r@);
    let mut out: Vec<Vec<u8>> = Vec::new();
    let mut i: usize = 0;
    while i < rows.len()
        invariant
            i <= rows.len(),
            views == rows@.map_values(|r: Vec<SqlValue>| r@),
            forall|j: int| 0 <= j < i ==> #[trigger] views[j].len() >= 1,
            out@.map_values(|b: Vec<u8>| b@) == first_column_blobs(views.take(i as int)),
        decreases rows.len() - i,
    {
        let row = &rows[i];
        if row.len() < 1 {
            assert(views[i as int].len() < 1);
            return Err(DbError::ColumnOutOfRange);
        }
        proof {
            assert(views.take(i + 1).drop_last() =~= views.take(i as int));
            assert(views.take(i + 1).last() == row@);
        }
        let ghost before = out@.map_values(|b: Vec<u8>| b@);
        match &row[0] {
            SqlValue::Blob(b) => {
                out.push(vstd::slice::slice_to_vec(b.as_slice()));
                assert(out@.map_values(|b: Vec<u8>| b@) =~= before.push(b@));
            },
            _ => {},
        }
        i += 1;
    }
    assert(views.take(i as int) =~= views);
    Ok(out)
}

/// The query for the latest `limit` recorded versions of the function `chksum`.
pub fn func_histories_statement(chksum: &[u8], limit: u32) -> (stmt: Statement)
    ensures
        stmt.sql@ == "SELECT update_dt, name, metadata FROM funcs\n                 WHERE chksum = ? AND update_dt IS NOT NULL\n                 ORDER BY update_dt DESC\n                 LIMIT ?"@,
        stmt.params@.len() == 2,
        is_blob(stmt.params@[0], chksum@),
        stmt.params@[1] == SqlValue::Integer(limit as i64),
{
    Statement {
        sql: "SELECT update_dt, name, metadata FROM funcs\n                 WHERE chksum = ? AND update_dt IS NOT NULL\n                 ORDER BY update_dt DESC\n                 LIMIT ?".to_owned(),
        params: vec![SqlValue::Blob(vstd::slice::slice_to_vec(chksum)), SqlValue::Integer(limit as i64)],
    }
}


/// The time of a history row: an integer timestamp that `time` can represent, else
/// the epoch, 0.
pub open spec fn history_time(v: SqlValue) -> i64 {
    match v {
        SqlValue::Integer(ts) => if crate::clock::representable_timestamp(ts as int) {
            ts
        } else {
            0
        },
        _ => 0,
    }
}


/// A function's history from the rows of its query: time in seconds since 1970 (see
/// `history_time`), name (text, else empty) and metadata (blob, else empty).
pub fn func_histories_from(rows: &Vec<Vec<SqlValue>>) -> (history: Result<Vec<(i64, String, Vec<u8>)>, DbError>)
    ensures
        some_row_shorter(rows@.map_values(|r: Vec<SqlValue>| r@), 3) ==> history == Err::<Vec<(i64, String, Vec<u8>)>, DbError>(DbError::ColumnOutOfRange),
        !some_row_shorter(rows@.map_values(|r: Vec<SqlValue>| r@), 3) ==> (history matches Ok(list) && list@.len() == rows@.len()
            && forall|i: int| 0 <= i < list@.len() ==> {
                &&& (#[trigger] list@[i]).0 == history_time(rows@[i]@[0])
                &&& list@[i].1@ == text_column(rows@[i]@[1])
                &&& list@[i].2@ == blob_column(rows@[i]@[2])
            }),
{
    let ghost views = rows@.map_values(|r: Vec<SqlValue>| r@);
    let mut out: Vec<(i64, String, Vec<u8>)> = Vec::new();
    let mut i: usize = 0;
    while i < rows.len()
        invariant
            i <= rows.len(),
            views == rows@.map_values(|r: Vec<SqlValue>| r@),
            out@.len() == i,
            forall|j: int| 0 <= j < i ==> #[trigger] rows@[j]@.len() >= 3,
            forall|j: int| 0 <= j < i ==> {
                &&& (#[trigger] out@[j]).0 == history_time(rows@[j]@[0])
                &&& out@[j].1@ == text_column(rows@[j]@[1])
                &&& out@[j].2@ == blob_column(rows@[j]@[2])
            },
        decreases rows.len() - i,
    {
        let row = &rows[i];
        if row.len() < 3 {
            assert(views[i as int].len() < 3);
            return Err(DbError::ColumnOutOfRange);
        }
        let ts = match &row[0] {
            SqlValue::Integer(t) => *t,
            _ => 0,
        };
        let time = if crate::clock::timestamp_in_range(ts) {
            ts
        } else {
            0
        };
        out.push((time, text_from(&row[1]), blob_from(&row[2])));
        i += 1;
    }
    proof {
        assert forall|j: int| 0 <= j < views.len() implies #[trigger] views[j].len() >= 3 by {
            assert(views[j] == rows@[j]@);
        }
    }
    Ok(out)
}

} // verus!
