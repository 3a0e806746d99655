use sando::models::{parse_i64, parse_id_list, BatchDeleteForm, Connection, ConnectionForm};
use sando::payment::{
    is_accepted_mint, payment_script, ACCEPTED_MINT_PRIMARY, ACCEPTED_MINT_SECONDARY,
    PAYMENT_AMOUNT_SATS, PAYMENT_PAGE_SCRIPT,
};

#[test]
fn id_list_parses_trimmed_pieces() {
    assert_eq!(parse_id_list("1,2,3"), Some(vec![1, 2, 3]));
    assert_eq!(parse_id_list(" 4 , 5 "), Some(vec![4, 5]));
    assert_eq!(parse_id_list("7,,8,"), Some(vec![7, 8]));
    assert_eq!(parse_id_list(""), Some(vec![]));
    assert_eq!(parse_id_list(" , , "), Some(vec![]));
    assert_eq!(parse_id_list("-1,+2"), Some(vec![-1, 2]));
}

#[test]
fn id_list_rejects_malformed_pieces() {
    assert_eq!(parse_id_list("1,a,3"), None);
    assert_eq!(parse_id_list("1.5"), None);
    assert_eq!(parse_id_list("12 34"), None);
    assert_eq!(parse_id_list("99999999999999999999"), None);
}

#[test]
fn i64_parsing_matches_std_semantics() {
    for s in [
        "0",
        "42",
        "-42",
        "+17",
        "9223372036854775807",
        "-9223372036854775808",
        "9223372036854775808",
        "-9223372036854775809",
        "",
        "-",
        "+",
        "12x",
        " 12",
        "0012",
    ] {
        assert_eq!(parse_i64(s), s.parse::<i64>().ok(), "mismatch on {:?}", s);
    }
}

#[test]
fn payment_rules_accept_only_the_primary_mint() {
    assert!(is_accepted_mint(ACCEPTED_MINT_PRIMARY));
    assert!(is_accepted_mint("https://testnut.cashu.space"));
    assert!(!is_accepted_mint(ACCEPTED_MINT_SECONDARY));
    assert!(!is_accepted_mint("https://example.com"));
    assert!(!is_accepted_mint(""));
    assert_eq!(PAYMENT_AMOUNT_SATS, 100);
}

#[test]
fn payment_script_is_the_page_script() {
    let s = payment_script();
    assert_eq!(s, PAYMENT_PAGE_SCRIPT);
    assert!(s.contains("payment-form"));
}

#[test]
fn data_carriers_hold_their_fields() {
    let form = ConnectionForm { connection: "abc".to_string(), port: 8080 };
    assert_eq!(form.connection, "abc");
    assert_eq!(form.port, 8080);

    let record = Connection {
        id: 7,
        connection_string: "abc".to_string(),
        port: 8080,
        created_at: "2024-01-01".to_string(),
    };
    assert_eq!(record.id, 7);
    assert_eq!(record.port, 8080);

    let batch = BatchDeleteForm { connection_ids: "1,2".to_string() };
    assert_eq!(parse_id_list(&batch.connection_ids), Some(vec![1, 2]));
}
