use shortener::radix::format_radix;
use shortener::shorten::create_link;
use shortener::shorten::generate_key;
use shortener::shorten::short_url;
use shortener::store::LinkStore;
use shortener::store::StoreError;

#[test]
fn fresh_store_resolves_to_absence() {
    let store = LinkStore::open_in_memory().expect("open");
    assert_eq!(store.resolve("anything").expect("lookup"), None);
    assert_eq!(store.resolve("").expect("lookup"), None);
}

#[test]
fn created_key_resolves_to_exactly_its_uri() {
    let mut store = LinkStore::open_in_memory().expect("open");
    store.create("k1", "https://example.com/a").expect("create");
    assert_eq!(
        store.resolve("k1").expect("lookup"),
        Some("https://example.com/a".to_string())
    );
    // Still there on a second lookup.
    assert_eq!(
        store.resolve("k1").expect("lookup"),
        Some("https://example.com/a".to_string())
    );
}

#[test]
fn second_create_with_same_key_conflicts_and_keeps_first_uri() {
    let mut store = LinkStore::open_in_memory().expect("open");
    store.create("k", "https://example.com/first").expect("create");
    let second = store.create("k", "https://example.com/second");
    assert_eq!(second, Err(StoreError::KeyConflict));
    assert_eq!(
        store.resolve("k").expect("lookup"),
        Some("https://example.com/first".to_string())
    );
}

#[test]
fn same_key_twice_gives_exactly_one_success() {
    let mut store = LinkStore::open_in_memory().expect("open");
    let outcomes = [
        store.create("dup", "https://example.com/one"),
        store.create("dup", "https://example.com/two"),
    ];
    let successes = outcomes.iter().filter(|r| r.is_ok()).count();
    let conflicts = outcomes
        .iter()
        .filter(|r| **r == Err(StoreError::KeyConflict))
        .count();
    assert_eq!(successes, 1);
    assert_eq!(conflicts, 1);
}

#[test]
fn distinct_keys_all_succeed_with_no_lost_write() {
    let mut store = LinkStore::open_in_memory().expect("open");
    for i in 0..20u32 {
        let key = format_radix(i as u128, 36);
        let uri = format!("https://example.com/{}", i);
        store.create(&key, &uri).expect("create");
    }
    for i in 0..20u32 {
        let key = format_radix(i as u128, 36);
        let uri = format!("https://example.com/{}", i);
        assert_eq!(store.resolve(&key).expect("lookup"), Some(uri));
    }
}

#[test]
fn end_to_end_timestamp_scenario() {
    let key = format_radix(1700000000000, 36);
    assert_eq!(key, "loyw3v28");
    let mut store = LinkStore::open_in_memory().expect("open");
    store.create(&key, "https://example.com/a/b").expect("create");
    assert_eq!(
        store.resolve("loyw3v28").expect("lookup"),
        Some("https://example.com/a/b".to_string())
    );
    assert_eq!(store.resolve("doesnotexist").expect("lookup"), None);
}

#[test]
fn generated_key_is_a_base36_numeral() {
    let key = generate_key().expect("clock");
    assert!(!key.is_empty());
    assert!(key
        .chars()
        .all(|c| c.is_ascii_digit() || ('a'..='z').contains(&c)));
    u128::from_str_radix(&key, 36).expect("a base-36 numeral");
}

#[test]
fn create_link_inserts_under_a_fresh_key() {
    let mut store = LinkStore::open_in_memory().expect("open");
    let key = create_link(&mut store, "https://example.com/x").expect("create");
    assert_eq!(
        store.resolve(&key).expect("lookup"),
        Some("https://example.com/x".to_string())
    );
}

#[test]
fn shortening_an_already_short_url_makes_a_distinct_key() {
    // No reverse deduplication: the same URI may sit under many keys.
    let mut store = LinkStore::open_in_memory().expect("open");
    store.create("k1", "https://example.com/same").expect("create");
    store.create("k2", "https://example.com/same").expect("create");
    assert_eq!(
        store.resolve("k1").expect("lookup"),
        Some("https://example.com/same".to_string())
    );
    assert_eq!(
        store.resolve("k2").expect("lookup"),
        Some("https://example.com/same".to_string())
    );
}

#[test]
fn uri_is_stored_verbatim() {
    let mut store = LinkStore::open_in_memory().expect("open");
    let odd = "not a url at all ??&#  ";
    store.create("k", odd).expect("create");
    assert_eq!(store.resolve("k").expect("lookup"), Some(odd.to_string()));
}

#[test]
fn display_url_concatenates_verbatim() {
    assert_eq!(short_url("example.com", "/", "loyw3v28"), "example.com/loyw3v28");
    assert_eq!(short_url("", "", ""), "");
    assert_eq!(short_url("h", "/base/", "k"), "h/base/k");
}

#[test]
fn unavailable_medium_is_reported_not_swallowed() {
    let conn = rusqlite::Connection::open_in_memory().expect("open");
    conn.execute(
        "CREATE TABLE IF NOT EXISTS links (key TEXT PRIMARY KEY, uri TEXT NOT NULL)",
        (),
    )
    .expect("schema");
    conn.pragma_update(None, "query_only", true).expect("pragma");
    let mut store = LinkStore::new(conn).expect("take over");
    // The medium refuses the write: surfaced as unavailable, not a conflict,
    // and nothing lands.
    assert_eq!(
        store.create("k", "https://example.com"),
        Err(StoreError::StoreUnavailable)
    );
    assert_eq!(store.resolve("k").expect("lookup"), None);
}

#[test]
fn existing_rows_survive_taking_over_a_connection() {
    let conn = rusqlite::Connection::open_in_memory().expect("open");
    conn.execute(
        "CREATE TABLE IF NOT EXISTS links (key TEXT PRIMARY KEY, uri TEXT NOT NULL)",
        (),
    )
    .expect("schema");
    conn.execute(
        "INSERT INTO links (key, uri) VALUES ('old', 'https://example.com/old')",
        (),
    )
    .expect("seed");
    let store = LinkStore::new(conn).expect("take over");
    assert_eq!(
        store.resolve("old").expect("lookup"),
        Some("https://example.com/old".to_string())
    );
}
