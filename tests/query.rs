use russ::sql::build_bulk_insert_query as bulk_insert_query;

#[test]
fn build_bulk_insert_query() {
    let entries = vec!["entry1", "entry2"];
    let query = bulk_insert_query(
        "entries",
        &[
            "feed_id",
            "title",
            "author",
            "pub_date",
            "description",
            "content",
            "link",
            "updated_at",
        ],
        &entries,
    );
    assert_eq!(
        query,
        "INSERT INTO entries(feed_id, title, author, pub_date, description, content, link, updated_at) VALUES (?1, ?2, ?3, ?4, ?5, ?6, ?7, ?8), (?9, ?10, ?11, ?12, ?13, ?14, ?15, ?16)"
    );
}

#[test]
fn bulk_insert_query_numbers_past_nine_rows() {
    let rows = vec![0u8; 11];
    let query = bulk_insert_query("t", &["a"], &rows);
    assert_eq!(
        query,
        "INSERT INTO t(a) VALUES (?1), (?2), (?3), (?4), (?5), (?6), (?7), (?8), (?9), (?10), (?11)"
    );
}

#[test]
fn bulk_insert_query_without_rows_has_no_values() {
    let rows: Vec<u8> = vec![];
    assert_eq!(bulk_insert_query("t", &["a", "b"], &rows), "INSERT INTO t(a, b) VALUES ");
}
