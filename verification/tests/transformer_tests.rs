use queryer::transformer::detect_content;
use queryer::Filetype;

#[test]
fn detect_content_should_work() {
    let json_data = r#"
    [
        {"a":1, "b":2.0, "c":false, "d":"4"},
        {"a":-10, "b":-3.5, "c":true, "d":"4"},
        {"a":2, "b":0.6, "c":false, "d":"text"},
        {"a":1, "b":2.0, "c":false, "d":"4"},
        {"a":7, "b":-3.5, "c":true, "d":"4"},
        {"a":1, "b":0.6, "c":false, "d":"text"}
    ]
    "#;

    let transform = detect_content((Filetype::Json, json_data.to_string())).unwrap();
    assert!(transform.transform().is_ok());
}

#[test]
fn unknown_content_is_refused_at_detection() {
    assert!(detect_content((Filetype::Unknown, "x".to_string())).is_err());
}

#[test]
fn quoted_csv_fields_keep_commas_and_quotes() {
    let csv_data = "name,note\n\"a,b\",\"say \"\"hi\"\"\"\nplain,\"\"\n";
    let t = detect_content((Filetype::Csv, csv_data.to_string())).unwrap();
    let ds = t.transform().unwrap();
    assert_eq!(
        "[{\"name\":\"a,b\",\"note\":\"say \\\"hi\\\"\"},{\"name\":\"plain\",\"note\":null}]",
        ds.to_json()
    );
    // serializing re-quotes what needs quoting, and decoding reads it back
    let csv_text = ds.to_csv();
    let t2 = detect_content((Filetype::Csv, csv_text)).unwrap();
    let ds2 = t2.transform().unwrap();
    assert_eq!(ds.to_json(), ds2.to_json());
}

#[test]
fn unterminated_csv_quote_is_a_content_error() {
    let t = detect_content((Filetype::Csv, "a\n\"oops\n".to_string())).unwrap();
    assert!(t.transform().is_err());
}

#[test]
fn csv_types_are_inferred_from_the_sample() {
    let csv_data = "n,flag,label\n1,true,abc\n2.5,false,def\n,,\n";
    let t = detect_content((Filetype::Csv, csv_data.to_string())).unwrap();
    let ds = t.transform().unwrap();
    assert_eq!(
        "[{\"n\":1,\"flag\":true,\"label\":\"abc\"},{\"n\":2.5,\"flag\":false,\"label\":\"def\"},{\"n\":null,\"flag\":null,\"label\":null}]",
        ds.to_json()
    );
}
