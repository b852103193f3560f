use isitblockedinrussia_bot::dataset::{params_from_iter, parse_dataset, BlockRecord, BlockTable};

fn record(ip: &str, org: &str, date: &str) -> BlockRecord {
    BlockRecord {
        ip: ip.to_string(),
        domain: String::new(),
        url: String::new(),
        decision_org: org.to_string(),
        decision_num: "27-31-2020/Ид2971-20".to_string(),
        decision_date: date.to_string(),
    }
}

fn same(a: &BlockRecord, b: &BlockRecord) -> bool {
    a.ip == b.ip
        && a.domain == b.domain
        && a.url == b.url
        && a.decision_org == b.decision_org
        && a.decision_num == b.decision_num
        && a.decision_date == b.decision_date
}

#[test]
fn lookup_round_trip() {
    let mut table = BlockTable::new();
    let r = record("1.2.3.4", "X", "2020-01-01");
    table.reload(vec![r.clone()]);
    let found = table.lookup("1.2.3.4");
    assert_eq!(found.len(), 1);
    assert!(same(&found[0], &r));
    assert!(table.lookup("5.6.7.8").is_empty());
}

#[test]
fn lookup_by_domain_and_empty_query() {
    let mut table = BlockTable::new();
    let mut r = record("1.2.3.4", "X", "2020-01-01");
    r.domain = "example.com".to_string();
    table.reload(vec![r]);
    assert_eq!(table.lookup("example.com").len(), 1);
    assert!(table.lookup("").is_empty());
    assert!(table.lookup("Example.com").is_empty());
}

#[test]
fn reload_discards_previous_records() {
    let mut table = BlockTable::new();
    table.reload(vec![record("1.1.1.1", "A", "2019-01-01")]);
    table.reload(vec![record("2.2.2.2", "B", "2019-02-02")]);
    assert!(table.lookup("1.1.1.1").is_empty());
    assert_eq!(table.lookup("2.2.2.2").len(), 1);
}

#[test]
fn multi_ip_row_expands() {
    let text = "Updated: 2020-01-01\n1.1.1.1 | 2.2.2.2;example.com;http://example.com/a;Org;N1;2020-01-01\n";
    let records = parse_dataset(text);
    assert_eq!(records.len(), 2);
    assert_eq!(records[0].ip, "1.1.1.1");
    assert_eq!(records[1].ip, "2.2.2.2");
    for r in records.iter() {
        assert_eq!(r.domain, "example.com");
        assert_eq!(r.url, "http://example.com/a");
        assert_eq!(r.decision_org, "Org");
        assert_eq!(r.decision_num, "N1");
        assert_eq!(r.decision_date, "2020-01-01");
    }
    let mut table = BlockTable::new();
    table.refresh(text);
    assert_eq!(table.lookup("1.1.1.1").len(), 1);
    assert_eq!(table.lookup("2.2.2.2").len(), 1);
    assert_eq!(table.lookup("example.com").len(), 2);
}

#[test]
fn malformed_rows_are_skipped() {
    let text = "header\n3.3.3.3;a;b;c\n4.4.4.4;d;u;O;N;D\n5.5.5.5;a;b;c;d;e;f\n\n";
    let records = parse_dataset(text);
    assert_eq!(records.len(), 1);
    assert_eq!(records[0].ip, "4.4.4.4");
    assert_eq!(records[0].decision_date, "D");
}

#[test]
fn header_only_and_empty_addresses_give_nothing() {
    assert!(parse_dataset("").is_empty());
    assert!(parse_dataset("1.1.1.1;a;b;c;d;e").is_empty());
    assert!(parse_dataset("h\n;example.com;;O;N;D").is_empty());
}

#[test]
fn refresh_twice_gives_same_answers() {
    let text = "h\n6.6.6.6;;;O1;N1;D1\n6.6.6.6;;;O2;N2;D2\n";
    let mut table = BlockTable::new();
    table.refresh(text);
    let first = table.lookup("6.6.6.6");
    table.refresh(text);
    let second = table.lookup("6.6.6.6");
    assert_eq!(first.len(), 2);
    assert_eq!(second.len(), 2);
    for i in 0..2 {
        assert!(same(&first[i], &second[i]));
    }
    assert_eq!(second[0].decision_org, "O1");
    assert_eq!(second[1].decision_org, "O2");
}

#[test]
fn params_lists_quoted_rows() {
    let mut dest = String::from("INSERT INTO blocked VALUES ");
    let rows = vec![
        vec!["1.1.1.1".to_string(), "a".to_string()],
        vec!["O'Brien".to_string(), "".to_string()],
    ];
    params_from_iter(&mut dest, &rows);
    assert_eq!(dest, "INSERT INTO blocked VALUES ('1.1.1.1','a'),('O''Brien','')");
}

#[test]
fn params_of_no_rows_appends_nothing() {
    let mut dest = String::from("x");
    params_from_iter(&mut dest, &Vec::new());
    assert_eq!(dest, "x");
}
