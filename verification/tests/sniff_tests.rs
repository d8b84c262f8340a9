use queryer::{get_data_filetype, sniff, Filetype};

#[test]
fn test_get_header_content_type() {
    let mut headers = reqwest::header::HeaderMap::new();
    headers.insert("Content-Type", "application/json".parse().unwrap());

    let content_type = headers
        .get("Content-Type")
        .and_then(|x| x.to_str().ok().map(|s| s.split('/').last()))
        .flatten();
    assert_eq!(Some("json"), content_type);
}

#[test]
fn fetcher_test_get_header_content_type() {
    let mut headers = reqwest::header::HeaderMap::new();
    headers.insert("Content-Type", "application/json".parse().unwrap());

    let content_type = headers
        .get("Content-Type")
        .and_then(|x| x.to_str().ok().map(|s| s.split('/').last()))
        .flatten();
    println!("{:?}", content_type);
    assert_eq!(
        Filetype::Json,
        get_data_filetype(content_type)
    );
}

#[test]
fn filetype_matching_is_case_insensitive() {
    assert_eq!(Filetype::Csv, get_data_filetype(Some("CSV")));
    assert_eq!(Filetype::Json, get_data_filetype(Some("Json")));
    assert_eq!(Filetype::Unknown, get_data_filetype(Some("yaml")));
    assert_eq!(Filetype::Unknown, get_data_filetype(None));
}

#[test]
fn hint_wins_and_is_reduced_to_its_last_segment() {
    assert_eq!(
        Filetype::Json,
        sniff(Some("application/json"), "file://x.bin")
    );
    assert_eq!(Filetype::Csv, sniff(Some("text/csv"), "file://x.json"));
}

#[test]
fn extension_decides_without_a_hint() {
    assert_eq!(Filetype::Csv, sniff(None, "https://host/dir/data.csv"));
    assert_eq!(Filetype::Json, sniff(None, "file://./examples/data.json"));
    assert_eq!(Filetype::Unknown, sniff(None, "file://./examples/data.bin"));
    assert_eq!(Filetype::Unknown, sniff(None, "file://no-extension"));
}
