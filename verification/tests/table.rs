use ribbit::table::{parse_header, Line, parse_line};
use ribbit::{
    parser, BgdlObject, CdnObject, FieldSpec, ParseError, RibbitFlags, SummaryObject, Table,
    VersionObject,
};

fn strings(items: &[&str]) -> Vec<String> {
    items.iter().map(|s| s.to_string()).collect()
}

#[test]
fn summary_table_with_sequence_number() {
    let text = "Product!STRING|Seqn!DEC|Flags!STRING\n# Seqn = 100\nwow|100|versions\n";
    let (seqn, records) = parser::<SummaryObject>(text).unwrap();
    assert_eq!(seqn, 100);
    assert_eq!(
        records,
        vec![SummaryObject {
            product: "wow".to_string(),
            seqn: 100,
            flags: RibbitFlags::Versions,
        }]
    );
}

#[test]
fn cdn_row_splits_hosts_and_servers() {
    let text = "Name!STRING|Path!STRING|Hosts!STRING|Servers!STRING|ConfigPath!STRING\n\
                us|tpr/wow|cdn1.example.com cdn2.example.com|srv1 srv2|abc123\n";
    let (seqn, records) = parser::<CdnObject>(text).unwrap();
    assert_eq!(seqn, 0);
    assert_eq!(
        records,
        vec![CdnObject {
            name: "us".to_string(),
            path: "tpr/wow".to_string(),
            hosts: strings(&["cdn1.example.com", "cdn2.example.com"]),
            servers: strings(&["srv1", "srv2"]),
            config_path: "abc123".to_string(),
        }]
    );
}

#[test]
fn unrecognized_flag_is_unknown() {
    let text = "Product!STRING|Seqn!DEC|Flags!STRING\nwow|7|weird\n";
    let (_, records) = parser::<SummaryObject>(text).unwrap();
    assert_eq!(records.len(), 1);
    assert_eq!(records[0].flags, RibbitFlags::Unknown);
    assert_eq!(records[0].seqn, 7);
}

#[test]
fn header_only_table_is_empty() {
    let (seqn, records) = parser::<SummaryObject>("Product!STRING|Seqn!DEC|Flags!STRING").unwrap();
    assert_eq!(seqn, 0);
    assert!(records.is_empty());
    let (seqn, records) =
        parser::<VersionObject>("Region!STRING:0|BuildId!DEC:4\r\n").unwrap();
    assert_eq!(seqn, 0);
    assert!(records.is_empty());
}

#[test]
fn short_row_is_rejected() {
    let text = "Product!STRING|Seqn!DEC|Flags!STRING\nwow|100\n";
    assert_eq!(parser::<SummaryObject>(text).unwrap_err(), ParseError::RowTooShort);
    let text = "Product!STRING|Seqn!DEC|Flags!STRING\nwow|100|cdn\nagent\n";
    assert_eq!(parser::<SummaryObject>(text).unwrap_err(), ParseError::RowTooShort);
}

#[test]
fn unparsable_number_counts_as_zero() {
    let text = "Product!STRING|Seqn!DEC|Flags!STRING\nwow|N/A|cdn\nagent||bgdl\nbna|12x|\n";
    let (_, records) = parser::<SummaryObject>(text).unwrap();
    assert_eq!(records.len(), 3);
    assert_eq!(records[0].seqn, 0);
    assert_eq!(records[0].flags, RibbitFlags::CDNS);
    assert_eq!(records[1].seqn, 0);
    assert_eq!(records[1].flags, RibbitFlags::BGDL);
    assert_eq!(records[2].seqn, 0);
    assert_eq!(records[2].flags, RibbitFlags::Unknown);
}

#[test]
fn records_keep_file_order() {
    let text = "Product!STRING|Seqn!DEC|Flags!STRING\n\
                zeta|3|cdn\n\
                # Seqn = 41\n\
                alpha|1|bgdl\n\
                \n\
                mid|2|versions\n\
                # Seqn = 42\n";
    let (seqn, records) = parser::<SummaryObject>(text).unwrap();
    assert_eq!(seqn, 42);
    let products: Vec<&str> = records.iter().map(|r| r.product.as_str()).collect();
    assert_eq!(products, vec!["zeta", "alpha", "mid"]);
    let numbers: Vec<i32> = records.iter().map(|r| r.seqn).collect();
    assert_eq!(numbers, vec![3, 1, 2]);
}

#[test]
fn parsing_twice_gives_equal_results() {
    let text = "Region!STRING:0|BuildConfig!HEX:16|BuildId!DEC:4|VersionsName!String:0\n\
                # Seqn = 2241282\n\
                us|be2bb98dc28aee05bbee519393696cdb|52237|10.2.5.52237\n\
                eu|be2bb98dc28aee05bbee519393696cdb|52237|10.2.5.52237\n";
    let first = parser::<VersionObject>(text);
    let second = parser::<VersionObject>(text);
    assert_eq!(first, second);
    let (seqn, records) = first.unwrap();
    assert_eq!(seqn, 2241282);
    assert_eq!(records.len(), 2);
    assert_eq!(records[1].region, "eu");
    assert_eq!(records[1].build_id, 52237);
    assert_eq!(records[1].version_name, "10.2.5.52237");
    assert_eq!(records[1].build_config, "be2bb98dc28aee05bbee519393696cdb");
    assert_eq!(records[1].cdn_config, "");
}

#[test]
fn version_and_bgdl_rows_map_every_known_column() {
    let text = "Region!STRING:0|BuildConfig!HEX:16|CDNConfig!HEX:16|KeyRing!HEX:16|\
                BuildId!DEC:4|VersionsName!String:0|ProductConfig!HEX:16\n\
                kr|aa|bb|cc|-17|1.2.3|dd\n";
    let (_, versions) = parser::<VersionObject>(text).unwrap();
    assert_eq!(
        versions,
        vec![VersionObject {
            region: "kr".to_string(),
            build_config: "aa".to_string(),
            cdn_config: "bb".to_string(),
            key_ring: "cc".to_string(),
            build_id: -17,
            version_name: "1.2.3".to_string(),
            product_config: "dd".to_string(),
        }]
    );
    let (_, bgdl) = parser::<BgdlObject>(text).unwrap();
    assert_eq!(
        bgdl,
        vec![BgdlObject {
            region: "kr".to_string(),
            build_config: "aa".to_string(),
            cdn_config: "bb".to_string(),
            key_ring: "cc".to_string(),
            build_id: -17,
            version_name: "1.2.3".to_string(),
            product_config: "dd".to_string(),
        }]
    );
}

#[test]
fn unknown_columns_are_skipped_and_missing_ones_default() {
    let text = "Extra!STRING|Product!STRING|Later!DEC\nx|wow|9\n";
    let (_, records) = parser::<SummaryObject>(text).unwrap();
    assert_eq!(
        records,
        vec![SummaryObject { product: "wow".to_string(), seqn: 0, flags: RibbitFlags::Unknown }]
    );
    assert_eq!(records[0], {
        let mut expected = SummaryObject::default();
        expected.product = "wow".to_string();
        expected
    });
}

#[test]
fn extra_cells_are_dropped() {
    let text = "Product!STRING|Seqn!DEC\nwow|5|surplus|more\n";
    let table = Table::parse(text).unwrap();
    assert_eq!(table.rows(), &vec![strings(&["wow", "5"])]);
    let records: Vec<SummaryObject> = table.records();
    assert_eq!(records[0].product, "wow");
    assert_eq!(records[0].seqn, 5);
}

#[test]
fn empty_text_has_no_header() {
    assert_eq!(parser::<SummaryObject>("").unwrap_err(), ParseError::HeaderMalformed);
    assert_eq!(parser::<SummaryObject>("\n").unwrap_err(), ParseError::HeaderMalformed);
}

#[test]
fn header_cell_without_type_tag_is_malformed() {
    assert_eq!(
        parser::<SummaryObject>("Product!STRING|Seqn\nwow|1\n").unwrap_err(),
        ParseError::HeaderMalformed
    );
    assert_eq!(parse_header("Product").unwrap_err(), ParseError::HeaderMalformed);
    assert_eq!(parse_header("A!B|").unwrap_err(), ParseError::HeaderMalformed);
}

#[test]
fn header_keeps_order_names_and_tags() {
    let fields = parse_header("F1!T1|F2!T2").unwrap();
    assert_eq!(
        fields,
        vec![
            FieldSpec { name: "F1".to_string(), type_tag: "T1".to_string() },
            FieldSpec { name: "F2".to_string(), type_tag: "T2".to_string() },
        ]
    );
    let fields = parse_header("Region!STRING:0|BuildId!DEC:4!rest|!").unwrap();
    assert_eq!(
        fields,
        vec![
            FieldSpec { name: "Region".to_string(), type_tag: "STRING:0".to_string() },
            FieldSpec { name: "BuildId".to_string(), type_tag: "DEC:4".to_string() },
            FieldSpec { name: "".to_string(), type_tag: "".to_string() },
        ]
    );
}

#[test]
fn malformed_sequence_number_is_fatal() {
    let header = "Product!STRING|Seqn!DEC|Flags!STRING\n";
    for comment in [
        "# Seqn = abc",
        "# Seqn =",
        "# Seqn = 12 34",
        "# Seqn = -5",
        "# Seqn = 2147483648",
        "# Seqn = N/A",
        "#Seqn==1",
    ] {
        let text = format!("{}{}\nwow|1|cdn\n", header, comment);
        assert_eq!(parser::<SummaryObject>(&text).unwrap_err(), ParseError::SeqnMalformed);
    }
}

#[test]
fn sequence_number_forms() {
    let header = "Product!STRING\n";
    for (comment, expected) in [
        ("# Seqn = 100", 100),
        ("#Seqn=7", 7),
        ("#\tSeqn  =\t +15 \r", 15),
        ("# Seqn = 2147483647", 2147483647),
        ("# Seqn = 3 = 4", 3),
        ("# Seqn = 0012", 12),
        ("# Seqn = -0", 0),
    ] {
        let text = format!("{}{}\n", header, comment);
        let (seqn, records) = parser::<SummaryObject>(&text).unwrap();
        assert_eq!(seqn, expected);
        assert!(records.is_empty());
    }
}

#[test]
fn other_comments_are_ignored() {
    let text = "Product!STRING\n# generated for testing\nwow\n#\n# Build = 12\n# Note = none\n\
                #=\n## Seqn = 8\n# seqn = 9\n# Seqn\n# Seqn 5\n";
    let (seqn, records) = parser::<SummaryObject>(text).unwrap();
    assert_eq!(seqn, 0);
    assert_eq!(records.len(), 1);
    assert_eq!(records[0].product, "wow");
}

#[test]
fn last_sequence_number_counts() {
    let text = "Product!STRING\n# Seqn = 1\nwow\n# Seqn = 2\n# Other = 3\n";
    let (seqn, _) = parser::<SummaryObject>(text).unwrap();
    assert_eq!(seqn, 2);
}

#[test]
fn first_malformed_line_decides_the_error() {
    let text = "Product!STRING|Seqn!DEC\nwow\n# Seqn = x\n";
    assert_eq!(parser::<SummaryObject>(text).unwrap_err(), ParseError::RowTooShort);
    let text = "Product!STRING|Seqn!DEC\n# Seqn = x\nwow\n";
    assert_eq!(parser::<SummaryObject>(text).unwrap_err(), ParseError::SeqnMalformed);
}

#[test]
fn header_line_may_start_with_hash() {
    let table = Table::parse("#Name!STRING\nvalue\n").unwrap();
    assert_eq!(table.fields().len(), 1);
    assert_eq!(table.fields()[0].name, "#Name");
    assert_eq!(table.rows().len(), 1);
}

#[test]
fn table_exposes_fields_rows_and_triples() {
    let table = Table::parse("A!X|B!Y\r\n# Seqn = 9\r\n1|2\r\n3|4|5\r\n").unwrap();
    assert_eq!(table.seqn(), 9);
    assert_eq!(table.fields().len(), 2);
    assert_eq!(table.rows(), &vec![strings(&["1", "2"]), strings(&["3", "4"])]);
    assert_eq!(
        table.row_values(1),
        Some(vec![
            ("A".to_string(), "X".to_string(), "3".to_string()),
            ("B".to_string(), "Y".to_string(), "4".to_string()),
        ])
    );
    assert_eq!(table.row_values(2), None);
}

#[test]
fn from_lines_matches_parse() {
    let lines = strings(&["A!X", "# Seqn = 4", "one", "", "two"]);
    let table = Table::from_lines(&lines).unwrap();
    assert_eq!(table.seqn(), 4);
    assert_eq!(table.rows(), &vec![strings(&["one"]), strings(&["two"])]);
    assert!(Table::from_lines(&Vec::new()).is_err());
}

#[test]
fn parse_line_classifies() {
    assert!(matches!(parse_line(2, ""), Line::Ignored));
    assert!(matches!(parse_line(2, "# note"), Line::Ignored));
    assert!(matches!(parse_line(2, "# note = 5"), Line::Ignored));
    assert!(matches!(parse_line(2, "# Seqn = 5"), Line::Seqn(5)));
    assert!(matches!(parse_line(2, "# Seqn = ?"), Line::Fault(ParseError::SeqnMalformed)));
    assert!(matches!(parse_line(2, "a"), Line::Fault(ParseError::RowTooShort)));
    match parse_line(2, "a|b|c") {
        Line::Row(cells) => assert_eq!(cells, strings(&["a", "b"])),
        _ => panic!("expected a row"),
    }
}

#[test]
fn distinct_names_can_be_asked_for() {
    assert!(Table::parse("A!X|B!Y|C!Z\n1|2|3\n").unwrap().has_distinct_names());
    assert!(Table::parse("A!X\n").unwrap().has_distinct_names());
    assert!(!Table::parse("A!X|B!Y|A!Z\n1|2|3\n").unwrap().has_distinct_names());
    assert!(!Table::parse("A!X|A!X\n").unwrap().has_distinct_names());
    assert!(Table::parse("A!X|a!X\n").unwrap().has_distinct_names());
}

#[test]
fn repeated_column_name_gives_the_last_cell() {
    let (_, records) = parser::<SummaryObject>("Product!STRING|Product!STRING\nold|new\n").unwrap();
    assert_eq!(records[0].product, "new");
}
