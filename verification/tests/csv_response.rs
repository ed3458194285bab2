use strecklistan::csv_response::CsvResponse;

#[test]
fn new_keeps_data_and_filename() {
    let res = CsvResponse::new(b"a,b\n".to_vec(), "inventory.csv");
    assert_eq!(res.data, b"a,b\n".to_vec());
    assert_eq!(res.filename, "inventory.csv");
}

#[test]
fn content_disposition_names_the_file() {
    let res = CsvResponse::new(Vec::new(), "inventory.csv");
    assert_eq!(res.content_disposition(), "attachment; filename=\"inventory.csv\"");
}
