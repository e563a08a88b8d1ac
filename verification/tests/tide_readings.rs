use harborfeed::error::HarborError;
use harborfeed::tide_csv::parse_tide_csv;

#[test]
fn columns_found_by_name_and_quotes_handled() {
    let text = "Station, Time, Water_Level, Predicted, Quality\n\
                9414290,2024-01-01 00:00,\"1,234\",1.100,v\n\
                \n\
                \"94\"\"14\",2024-01-01 00:06,1.250,,\n\
                short\n";
    let r = parse_tide_csv(text).unwrap();
    assert_eq!(r.len(), 2);
    assert_eq!(r[0].station, "9414290");
    assert_eq!(r[0].timestamp, "2024-01-01 00:00");
    assert_eq!(r[0].observed_m.as_deref(), Some("1,234"));
    assert_eq!(r[0].predicted_m.as_deref(), Some("1.100"));
    assert_eq!(r[0].quality.as_deref(), Some("v"));
    assert_eq!(r[0].residual_bits, None);
    assert_eq!(r[1].station, "94\"14");
    assert_eq!(r[1].predicted_m.as_deref(), Some(""));
    assert_eq!(r[1].quality, None);
}

#[test]
fn default_columns_without_names() {
    let text = "a,b,c\nS1,T1,3.0\n";
    let r = parse_tide_csv(text).unwrap();
    assert_eq!(r.len(), 1);
    assert_eq!(r[0].station, "S1");
    assert_eq!(r[0].timestamp, "T1");
    assert_eq!(r[0].observed_m, None);
}

#[test]
fn empty_export_has_no_header() {
    assert_eq!(parse_tide_csv(" \n\n").unwrap_err(), HarborError::CsvSyntax("header"));
}

#[test]
fn at_most_4096_rows() {
    let mut text = String::from("station,time\n");
    for i in 0..5000 {
        text.push_str(&format!("S,{}\n", i));
    }
    assert_eq!(parse_tide_csv(&text).unwrap().len(), 4096);
}
