use lumen::credentials::hash_password_with_salt;
use lumen::db::{
    check_web_user, count_web_users_statement, delete_statements, existing_statement,
    file_funcs_from, file_funcs_statement, files_from, files_with_func_statement,
    func_histories_from, func_histories_statement, has_web_users_from, new_function_flags,
    pull_statements, pulled_functions, push_round_count, upsert_statement, upsert_web_user_statement,
    web_user_statement, DbError, Entity, FunctionInfo, GetOrCreate, Phase, PushFunc, Step,
};
use lumen::db::{DbChain, DbChainStage, PushPhase, PushRun};
use lumen::sql::{placeholders, SqlValue};

fn blob(b: &[u8]) -> SqlValue {
    SqlValue::Blob(b.to_vec())
}

fn text(s: &str) -> SqlValue {
    SqlValue::Text(s.to_string())
}

fn info(name: &str, len: u32, data: &[u8]) -> FunctionInfo {
    FunctionInfo { name: name.to_string(), len, data: data.to_vec(), popularity: 0 }
}

#[test]
fn placeholders_are_comma_separated() {
    assert_eq!(placeholders(0), "");
    assert_eq!(placeholders(1), "?");
    assert_eq!(placeholders(3), "?,?,?");
}

#[test]
fn pull_queries_are_chunked_by_nine_hundred() {
    let chksums: Vec<Vec<u8>> = (0..901u32).map(|i| i.to_le_bytes().to_vec()).collect();
    let stmts = pull_statements(&chksums);
    assert_eq!(stmts.len(), 2);
    assert_eq!(stmts[0].params.len(), 900);
    assert_eq!(stmts[1].params, vec![blob(&900u32.to_le_bytes())]);
    assert_eq!(stmts[0].sql.matches('?').count(), 900);
    assert!(stmts[1].sql.contains("WHERE chksum IN (?)"));
    assert!(stmts[1].sql.starts_with("WITH best AS ("));
    assert!(pull_statements(&Vec::new()).is_empty());
}

#[test]
fn pull_answers_follow_the_request_order() {
    let chksums = vec![b"bb".to_vec(), b"aa".to_vec(), b"cc".to_vec()];
    let rows = vec![
        vec![text("fa"), SqlValue::Integer(10), blob(b"ma"), blob(b"aa")],
        vec![blob(b"fb"), SqlValue::Integer(20), blob(b"mb"), blob(b"bb")],
    ];
    let answers = pulled_functions(&chksums, &rows).unwrap();
    assert_eq!(answers, vec![Some(info("fb", 20, b"mb")), Some(info("fa", 10, b"ma")), None]);
}

#[test]
fn a_repeated_checksum_is_answered_once() {
    let chksums = vec![b"aa".to_vec(), b"aa".to_vec()];
    let rows = vec![vec![text("f"), SqlValue::Integer(1), blob(b"m"), blob(b"aa")]];
    assert_eq!(pulled_functions(&chksums, &rows).unwrap(), vec![Some(info("f", 1, b"m")), None]);
}

#[test]
fn a_later_row_replaces_an_earlier_one() {
    let chksums = vec![b"aa".to_vec()];
    let rows = vec![
        vec![text("old"), SqlValue::Integer(1), blob(b"1"), blob(b"aa")],
        vec![text("new"), SqlValue::Integer(2), blob(b"2"), blob(b"aa")],
    ];
    assert_eq!(pulled_functions(&chksums, &rows).unwrap(), vec![Some(info("new", 2, b"2"))]);
}

#[test]
fn odd_columns_get_defaults() {
    let chksums = vec![b"aa".to_vec(), b"bb".to_vec()];
    let rows = vec![
        vec![SqlValue::Null, text("x"), text("y"), blob(b"aa")],
        vec![text("ignored"), SqlValue::Integer(3), blob(b"m"), SqlValue::Null],
        vec![blob(&[0x66, 0xff]), SqlValue::Integer(0x1_0000_0005), SqlValue::Real, blob(b"bb")],
    ];
    assert_eq!(
        pulled_functions(&chksums, &rows).unwrap(),
        vec![Some(info("", 0, b"")), Some(info("f\u{fffd}", 5, b""))]
    );
}

#[test]
fn a_short_pull_row_is_an_error() {
    let chksums = vec![b"aa".to_vec()];
    let rows = vec![vec![text("f"), SqlValue::Integer(1), blob(b"m")]];
    assert_eq!(pulled_functions(&chksums, &rows), Err(DbError::ColumnOutOfRange));
}

#[test]
fn existing_id_is_returned_without_insert() {
    let mut g = GetOrCreate::file(b"0123456789abcdef");
    assert_eq!(g.lookup.sql, "SELECT id FROM files WHERE chksum = ?");
    assert_eq!(g.lookup.params, vec![blob(b"0123456789abcdef")]);
    assert_eq!(g.looked_up(Some(vec![SqlValue::Integer(7)])), Step::Done(Ok(7)));
    assert_eq!(g.phase, Phase::Finished);
}

#[test]
fn missing_row_is_inserted_then_read_back() {
    let mut g = GetOrCreate::user(b"abcdef", b"licence", "host");
    assert_eq!(g.lookup.params, vec![blob(b"abcdef"), blob(b"licence"), text("host")]);
    assert_eq!(g.insert.sql, "INSERT OR IGNORE INTO users (lic_id, lic_data, hostname) VALUES (?, ?, ?)");
    assert_eq!(g.looked_up(None), Step::RunInsert);
    assert_eq!(g.inserted(), Step::RunLookup);
    assert_eq!(g.looked_up(Some(vec![SqlValue::Integer(42)])), Step::Done(Ok(42)));
}

#[test]
fn non_integer_id_is_inserted_then_an_error() {
    let mut g = GetOrCreate::db(3, 4, "/bin/ls", "/tmp/ls.i64");
    assert_eq!(
        g.insert.params,
        vec![SqlValue::Integer(3), SqlValue::Integer(4), text("/bin/ls"), text("/tmp/ls.i64")]
    );
    assert_eq!(g.looked_up(Some(vec![text("7")])), Step::RunInsert);
    assert_eq!(g.inserted(), Step::RunLookup);
    assert_eq!(
        g.looked_up(Some(vec![text("7")])),
        Step::Done(Err(DbError::UnexpectedIdType(Entity::Db)))
    );
}

#[test]
fn row_not_created_is_an_error() {
    let mut g = GetOrCreate::user(b"a", b"b", "c");
    assert_eq!(g.looked_up(None), Step::RunInsert);
    g.inserted();
    assert_eq!(g.looked_up(None), Step::Done(Err(DbError::NotCreated(Entity::User))));
}

#[test]
fn lookup_row_without_columns_is_an_error() {
    let mut g = GetOrCreate::file(b"x");
    assert_eq!(g.looked_up(Some(Vec::new())), Step::Done(Err(DbError::ColumnOutOfRange)));
}

#[test]
fn ids_are_cut_to_32_bits() {
    let mut g = GetOrCreate::file(b"x");
    assert_eq!(g.looked_up(Some(vec![SqlValue::Integer(0x1_0000_0002)])), Step::Done(Ok(2)));
}

fn push_func(i: u32) -> PushFunc {
    PushFunc {
        name: format!("f{}", i),
        func_len: i,
        hash: i.to_be_bytes().to_vec(),
        func_data: vec![i as u8],
    }
}

#[test]
fn push_rounds_hold_128_functions() {
    assert_eq!(push_round_count(0, 0), 0);
    assert_eq!(push_round_count(128, 128), 1);
    assert_eq!(push_round_count(129, 129), 2);
    assert_eq!(push_round_count(300, 100), 1);
}

#[test]
fn existing_query_binds_database_and_checksums() {
    let funcs: Vec<PushFunc> = (0..130).map(push_func).collect();
    let stmt = existing_statement(&funcs, 9, 1);
    assert_eq!(stmt.sql, "SELECT chksum FROM funcs WHERE db_id = ? AND chksum IN (?,?)");
    assert_eq!(stmt.params, vec![SqlValue::Integer(9), blob(&128u32.to_be_bytes()), blob(&129u32.to_be_bytes())]);
}

#[test]
fn upsert_binds_seven_values_per_function() {
    let funcs: Vec<PushFunc> = (0..2).map(push_func).collect();
    let scores = vec![11u32, 12];
    let stmt = upsert_statement(&funcs, &scores, 5, 0, 1_700_000_000);
    assert!(stmt.sql.contains("VALUES (?, ?, ?, ?, ?, ?, ?),(?, ?, ?, ?, ?, ?, ?)\n"));
    assert!(stmt.sql.ends_with("update_dt = excluded.update_dt"));
    assert_eq!(
        stmt.params,
        vec![
            text("f0"), SqlValue::Integer(0), blob(&0u32.to_be_bytes()), blob(&[0]), SqlValue::Integer(11),
            SqlValue::Integer(5), SqlValue::Integer(1_700_000_000),
            text("f1"), SqlValue::Integer(1), blob(&1u32.to_be_bytes()), blob(&[1]), SqlValue::Integer(12),
            SqlValue::Integer(5), SqlValue::Integer(1_700_000_000),
        ]
    );
}

#[test]
fn upsert_with_fewer_scores_binds_fewer_rows() {
    let funcs: Vec<PushFunc> = (0..3).map(push_func).collect();
    let stmt = upsert_statement(&funcs, &vec![1u32], 5, 0, 0);
    assert_eq!(stmt.sql.matches("(?, ?, ?, ?, ?, ?, ?)").count(), 3);
    assert_eq!(stmt.params.len(), 7);
}

#[test]
fn new_flags_mark_unknown_checksums() {
    let funcs: Vec<PushFunc> = (0..3).map(push_func).collect();
    let rows = vec![vec![blob(&1u32.to_be_bytes())], vec![SqlValue::Null]];
    assert_eq!(new_function_flags(&funcs, 0, &rows), Ok(vec![true, false, true]));
    assert_eq!(new_function_flags(&funcs, 0, &vec![vec![]]), Err(DbError::ColumnOutOfRange));
}

#[test]
fn web_user_is_checked_against_its_hash() {
    let stored = hash_password_with_salt("abc", "pw");
    let row = vec![SqlValue::Text(stored)];
    assert_eq!(check_web_user(Some(&row), "pw"), Ok(true));
    assert_eq!(check_web_user(Some(&row), "px"), Ok(false));
    assert_eq!(check_web_user(None, "pw"), Ok(false));
    assert_eq!(check_web_user(Some(&vec![blob(b"abc")]), "pw"), Ok(false));
    assert_eq!(check_web_user(Some(&vec![]), "pw"), Err(DbError::ColumnOutOfRange));
    let stmt = web_user_statement("admin");
    assert_eq!(stmt.params, vec![text("admin")]);
}

#[test]
fn upserted_web_user_hash_verifies() {
    let stmt = upsert_web_user_statement("admin", "admin").expect("clock after 1970");
    assert!(stmt.sql.starts_with("INSERT INTO web_users (username, password_hash) VALUES (?, ?)"));
    assert_eq!(stmt.params[0], text("admin"));
    let row = vec![stmt.params[1].clone()];
    assert_eq!(check_web_user(Some(&row), "admin"), Ok(true));
}

#[test]
fn web_users_exist_when_the_count_is_positive() {
    assert_eq!(count_web_users_statement().sql, "SELECT COUNT(*) FROM web_users");
    assert_eq!(has_web_users_from(Some(&vec![SqlValue::Integer(2)])), Ok(true));
    assert_eq!(has_web_users_from(Some(&vec![SqlValue::Integer(0)])), Ok(false));
    assert_eq!(has_web_users_from(Some(&vec![text("2")])), Ok(false));
    assert_eq!(has_web_users_from(None), Ok(false));
    assert_eq!(has_web_users_from(Some(&vec![])), Err(DbError::ColumnOutOfRange));
}

#[test]
fn delete_statements_cover_every_checksum() {
    let chksums: Vec<Vec<u8>> = (0..1801u32).map(|i| i.to_le_bytes().to_vec()).collect();
    let stmts = delete_statements(&chksums);
    assert_eq!(stmts.len(), 3);
    assert_eq!(stmts.iter().map(|s| s.params.len()).collect::<Vec<_>>(), vec![900, 900, 1]);
    assert_eq!(stmts[2].sql, "DELETE FROM funcs WHERE chksum IN (?)");
}

#[test]
fn file_funcs_rows_are_decoded() {
    let stmt = file_funcs_statement(b"md5", 10, 20);
    assert_eq!(stmt.params, vec![blob(b"md5"), SqlValue::Integer(20), SqlValue::Integer(10)]);
    let rows = vec![
        vec![text("main"), SqlValue::Integer(-1), blob(b"c1")],
        vec![blob(b"x"), SqlValue::Integer(0x1_0000_0003), text("c2")],
    ];
    assert_eq!(
        file_funcs_from(&rows),
        Ok(vec![("main".to_string(), -1, b"c1".to_vec()), (String::new(), 3, Vec::new())])
    );
    assert_eq!(file_funcs_from(&vec![vec![text("a"), SqlValue::Null]]), Err(DbError::ColumnOutOfRange));
}

#[test]
fn files_with_func_keep_blobs_only() {
    assert_eq!(files_with_func_statement(b"f").params, vec![blob(b"f")]);
    let rows = vec![vec![blob(b"a")], vec![text("b")], vec![blob(b"c")]];
    assert_eq!(files_from(&rows), Ok(vec![b"a".to_vec(), b"c".to_vec()]));
    assert_eq!(files_from(&vec![vec![]]), Err(DbError::ColumnOutOfRange));
}

#[test]
fn histories_clamp_unrepresentable_times_to_the_epoch() {
    let stmt = func_histories_statement(b"h", 5);
    assert_eq!(stmt.params, vec![blob(b"h"), SqlValue::Integer(5)]);
    let rows = vec![
        vec![SqlValue::Integer(1_546_300_800), text("a"), blob(b"m")],
        vec![SqlValue::Integer(253_402_300_799), text("b"), blob(b"n")],
        vec![SqlValue::Integer(253_402_300_800), text("c"), blob(b"o")],
        vec![SqlValue::Integer(-377_705_116_800), text("d"), SqlValue::Null],
        vec![SqlValue::Integer(-377_705_116_801), SqlValue::Null, blob(b"p")],
        vec![text("now"), text("e"), blob(b"q")],
    ];
    assert_eq!(
        func_histories_from(&rows),
        Ok(vec![
            (1_546_300_800, "a".to_string(), b"m".to_vec()),
            (253_402_300_799, "b".to_string(), b"n".to_vec()),
            (0, "c".to_string(), b"o".to_vec()),
            (-377_705_116_800, "d".to_string(), Vec::new()),
            (0, String::new(), b"p".to_vec()),
            (0, "e".to_string(), b"q".to_vec()),
        ])
    );
    assert_eq!(func_histories_from(&vec![vec![SqlValue::Integer(1)]]), Err(DbError::ColumnOutOfRange));
}

#[test]
fn db_chain_goes_file_user_db() {
    let mut chain = DbChain::new(b"md5", b"lic", b"data", "host", "/bin/ls", "/tmp/ls.i64");
    assert_eq!(chain.stage, DbChainStage::File);
    assert_eq!(chain.current.lookup.params, vec![blob(b"md5")]);
    assert_eq!(chain.resolved(3), None);
    assert_eq!(chain.stage, DbChainStage::User);
    assert_eq!(chain.current.lookup.params, vec![blob(b"lic"), blob(b"data"), text("host")]);
    assert_eq!(chain.resolved(4), None);
    assert_eq!(chain.stage, DbChainStage::Db);
    assert_eq!(
        chain.current.insert.params,
        vec![SqlValue::Integer(3), SqlValue::Integer(4), text("/bin/ls"), text("/tmp/ls.i64")]
    );
    assert_eq!(chain.resolved(9), Some(9));
}

#[test]
fn push_run_gathers_flags_round_by_round() {
    let funcs: Vec<PushFunc> = (0..130).map(push_func).collect();
    let mut run = PushRun::new(funcs, vec![1u32; 130], 7);
    assert_eq!(run.rounds(), 2);
    assert_eq!(run.next_phase(), PushPhase::Query);
    assert_eq!(run.existing_query().params.len(), 129);
    assert_eq!(run.next_phase(), PushPhase::Upsert);
    let upsert = run.upsert_now().expect("clock within range");
    assert_eq!(upsert.params.len(), 7 * 128);
    assert_eq!(run.next_phase(), PushPhase::Finish);
    run.finish_round(&vec![vec![blob(&0u32.to_be_bytes())]]).unwrap();
    assert_eq!(run.rounds_done(), 1);
    assert_eq!(run.next_phase(), PushPhase::Query);
    assert_eq!(run.existing_query().params.len(), 3);
    let upsert = run.upsert_now().expect("clock within range");
    assert_eq!(upsert.params.len(), 7 * 2);
    assert_eq!(run.finish_round(&vec![vec![]]), Err(DbError::ColumnOutOfRange));
    assert_eq!(run.rounds_done(), 1);
    assert_eq!(run.next_phase(), PushPhase::Finish);
    run.finish_round(&vec![vec![blob(&129u32.to_be_bytes())]]).unwrap();
    assert_eq!(run.rounds_done(), 2);
    let flags = run.into_flags();
    assert_eq!(flags.len(), 130);
    assert!(!flags[0] && flags[1]);
    assert_eq!(&flags[128..], &[true, false]);
}
