use std::io::Write;
use rust_quant::bar::SCALE;
use rust_quant::decimal::{parse_decimal_ticks, parse_digits};
use rust_quant::error::RustQuantError;
use rust_quant::loader::CsvLoader;

#[test]
fn decimals_become_ticks() {
    assert_eq!(parse_decimal_ticks("67321.12000000"), Some(6_732_112_000_000));
    assert_eq!(parse_decimal_ticks("1"), Some(SCALE));
    assert_eq!(parse_decimal_ticks("0.5"), Some(50_000_000));
    assert_eq!(parse_decimal_ticks("0.00000001"), Some(1));
    assert_eq!(parse_decimal_ticks("184467440737.09551615"), Some(u64::MAX));
}

#[test]
fn malformed_decimals_are_rejected() {
    assert_eq!(parse_decimal_ticks(""), None);
    assert_eq!(parse_decimal_ticks(".5"), None);
    assert_eq!(parse_decimal_ticks("5."), None);
    assert_eq!(parse_decimal_ticks("1..2"), None);
    assert_eq!(parse_decimal_ticks("1.2.3"), None);
    assert_eq!(parse_decimal_ticks("-1"), None);
    assert_eq!(parse_decimal_ticks("1.123456789"), None);
    assert_eq!(parse_decimal_ticks("184467440737.09551616"), None);
    assert_eq!(parse_decimal_ticks("99999999999999999999999"), None);
}

#[test]
fn digit_runs_become_integers() {
    assert_eq!(parse_digits("1729036800000000"), Some(1_729_036_800_000_000));
    assert_eq!(parse_digits("0"), Some(0));
    assert_eq!(parse_digits("9223372036854775807"), Some(i64::MAX));
    assert_eq!(parse_digits("9223372036854775808"), None);
    assert_eq!(parse_digits("12a"), None);
    assert_eq!(parse_digits("1.0"), None);
    assert_eq!(parse_digits(""), None);
}

#[test]
fn csv_bytes_become_bars() {
    let data = b"1729036800000000,67321.12,67400.5,67200,67350.75,12.5\n1729040400000000,67350.75,67500,67300,67480,8.25\n";
    let bars = CsvLoader::bars_from_bytes(data).unwrap();
    assert_eq!(bars.len(), 2);
    assert_eq!(bars[0].timestamp, "2024-10-16T00:00:00+00:00");
    assert_eq!(bars[0].open, 6_732_112_000_000);
    assert_eq!(bars[0].high, 6_740_050_000_000);
    assert_eq!(bars[0].low, 6_720_000_000_000);
    assert_eq!(bars[0].close, 6_735_075_000_000);
    assert_eq!(bars[0].volume, 1_250_000_000);
    assert_eq!(bars[1].timestamp, "2024-10-16T01:00:00+00:00");
    assert_eq!(bars[1].close, 6_748_000_000_000);
}

#[test]
fn bad_csv_is_invalid_format() {
    let short = b"1729036800000000,1,2,3,4\n";
    assert_eq!(CsvLoader::bars_from_bytes(short).err(), Some(RustQuantError::InvalidFormat));
    let text_time = b"noon,1,2,3,4,5\n";
    assert_eq!(CsvLoader::bars_from_bytes(text_time).err(), Some(RustQuantError::InvalidFormat));
    let ragged = b"1729036800000000,1,2,3,4,5\n1729036800000000,1,2\n";
    assert_eq!(CsvLoader::bars_from_bytes(ragged).err(), Some(RustQuantError::InvalidFormat));
    assert_eq!(CsvLoader::bars_from_bytes(b"").unwrap().len(), 0);
}

#[test]
fn record_helpers() {
    let rec: Vec<String> = ["1729036800999999", "1", "2", "0.5", "1.5", "140"].iter().map(|s| s.to_string()).collect();
    assert_eq!(CsvLoader::record_seconds(&rec), Some(1_729_036_800));
    let bar = CsvLoader::bar_from_record(&rec, "T".to_string()).unwrap();
    assert_eq!(bar.close, 150_000_000);
    assert_eq!(bar.volume, 140 * SCALE);
    assert_eq!(bar.timestamp, "T");
}

fn archive_of(name: &str, text: &[u8]) -> Vec<u8> {
    let mut writer = zip::ZipWriter::new(std::io::Cursor::new(Vec::new()));
    writer.start_file(name, zip::write::SimpleFileOptions::default()).unwrap();
    writer.write_all(text).unwrap();
    writer.finish().unwrap().into_inner()
}

#[test]
fn archive_bytes_become_bars() {
    let text = b"1729036800000000,67321.12,67400.5,67200,67350.75,12.5\n";
    let archive = archive_of("BTCUSDT-1h-2024-10-16.csv", text);
    let bars = CsvLoader::bars_from_archive(&archive).unwrap();
    assert_eq!(bars.len(), 1);
    assert_eq!(bars[0].close, 6_735_075_000_000);
    assert_eq!(bars[0].timestamp, "2024-10-16T00:00:00+00:00");
    // The archive's own bytes are not CSV text.
    assert_eq!(CsvLoader::bars_from_bytes(&archive).err(), Some(RustQuantError::InvalidFormat));
    assert_eq!(CsvLoader::bars_from_archive(text).err(), Some(RustQuantError::InvalidFormat));
}
