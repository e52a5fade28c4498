use vstd::prelude::*;
use crate::bar::Bar;
use crate::decimal::{decimal_ticks, digits_integer, parse_decimal_ticks, parse_digits};
use crate::error::RustQuantError;

verus! {

/// Records of header-less CSV text, each as the characters of its fields;
/// `None` when the text is malformed.
pub uninterp spec fn csv_records_of(data: Seq<u8>) -> Option<Seq<Seq<Seq<char>>>>;

/// RFC 3339 text of a UTC instant given in whole seconds since the Unix epoch;
/// `None` outside the representable range.
pub uninterp spec fn rfc3339_of(secs: i64) -> Option<Seq<char>>;

/// Bytes of the first entry of a zip archive, decompressed; `None` when the
/// archive or that entry cannot be read.
pub uninterp spec fn zip_first_entry_of(data: Seq<u8>) -> Option<Seq<u8>>;

/// The characters of each field of each record.
pub open spec fn records_view(rows: Seq<Vec<String>>) -> Seq<Seq<Seq<char>>> {
    rows.map_values(|row: Vec<String>| row@.map_values(|f: String| f@))
}

/// Relies on csv's `ReaderBuilder` (no header row, records of equal length)
/// and `StringRecord`: the records of `data`, or `None` on the first error.
/// The result depends on the bytes alone.
#[verifier::external_body]
fn csv_records(data: &[u8]) -> (r: Option<Vec<Vec<String>>>)
    ensures
        r is Some <==> csv_records_of(data@) is Some,
        r matches Some(rows) ==> records_view(rows@) == csv_records_of(data@)->0,
{
    let mut reader = csv::ReaderBuilder::new().has_headers(false).from_reader(data);
    let mut rows = Vec::new();
    for record in reader.records() {
        match record {
            Ok(rec) => rows.push(rec.iter().map(|f| f.to_string()).collect()),
            Err(_) => return None,
        }
    }
    Some(rows)
}

/// Relies on zip's `ZipArchive::new`, `ZipArchive::by_index` and the `Read`
/// impl of `ZipFile`: the decompressed first entry, which depends on the
/// archive's bytes alone.
#[verifier::external_body]
fn first_archive_entry(data: &[u8]) -> (r: Option<Vec<u8>>)
    ensures
        r is Some <==> zip_first_entry_of(data@) is Some,
        r matches Some(bytes) ==> bytes@ == zip_first_entry_of(data@)->0,
{
    let mut archive = match zip::ZipArchive::new(std::io::Cursor::new(data)) {
        Ok(a) => a,
        Err(_) => return None,
    };
    let mut entry = match archive.by_index(0) {
        Ok(f) => f,
        Err(_) => return None,
    };
    let mut out = Vec::new();
    match std::io::Read::read_to_end(&mut entry, &mut out) {
        Ok(_) => Some(out),
        Err(_) => None,
    }
}

/// Relies on chrono's `DateTime::from_timestamp` (`None` for seconds out of
/// its range) and `DateTime::to_rfc3339`: the text depends on the seconds alone.
#[verifier::external_body]
fn rfc3339_utc(secs: i64) -> (r: Option<String>)
    ensures
        r is Some <==> rfc3339_of(secs) is Some,
        r matches Some(t) ==> t@ == rfc3339_of(secs)->0,
{
    match chrono::DateTime::from_timestamp(secs, 0) {
        Some(d) => Some(d.to_rfc3339()),
        None => None,
    }
}

/// Whole seconds of a record whose first field is the open time in
/// microseconds.
pub open spec fn record_secs(row: Seq<Seq<char>>) -> Option<i64> {
    if row.len() >= 1 && digits_integer(row[0]) is Some {
        Some((digits_integer(row[0])->0 / 1_000_000) as i64)
    } else {
        None
    }
}

/// Whether the price and volume fields of a record are decimals in range.
pub open spec fn record_prices_ok(row: Seq<Seq<char>>) -> bool {
    &&& row.len() >= 6
    &&& decimal_ticks(row[1]) is Some
    &&& decimal_ticks(row[2]) is Some
    &&& decimal_ticks(row[3]) is Some
    &&& decimal_ticks(row[4]) is Some
    &&& decimal_ticks(row[5]) is Some
}

/// Whether a bar holds the prices and volume of a record and the given
/// timestamp text.
pub open spec fn bar_of_record(b: Bar, row: Seq<Seq<char>>, timestamp: Seq<char>) -> bool {
    &&& b.timestamp@ == timestamp
    &&& b.open == decimal_ticks(row[1])->0
    &&& b.high == decimal_ticks(row[2])->0
    &&& b.low == decimal_ticks(row[3])->0
    &&& b.close == decimal_ticks(row[4])->0
    &&& b.volume == decimal_ticks(row[5])->0
}

/// Whether CSV text converts to bars.
pub open spec fn csv_ok(data: Seq<u8>) -> bool {
    csv_records_of(data) matches Some(rows) && forall|i: int| 0 <= i < rows.len() ==> #[trigger] record_ok(rows[i])
}

/// Whether `bars` are the bars of the records of CSV text, in order.
pub open spec fn bars_of_csv(bars: Seq<Bar>, data: Seq<u8>) -> bool {
    let rows = csv_records_of(data)->0;
    &&& bars.len() == rows.len()
    &&& forall|i: int|
        0 <= i < bars.len() ==> #[trigger] bar_of_record(bars[i], rows[i], rfc3339_of(record_secs(rows[i])->0)->0)
}

/// Whether a record converts to a bar.
pub open spec fn record_ok(row: Seq<Seq<char>>) -> bool {
    &&& record_secs(row) is Some
    &&& rfc3339_of(record_secs(row)->0) is Some
    &&& record_prices_ok(row)
}

/// Location of a header-less kline file: open time in microseconds, then
/// open, high, low, close and volume.
pub struct CsvLoader {
    pub path: String,
}

impl CsvLoader {
    pub fn new(path: &str) -> (r: Self)
        ensures
            r.path@ == path@,
    {
        CsvLoader { path: path.to_owned() }
    }

    /// Seconds of the open time in a record's first field.
    pub fn record_seconds(record: &Vec<String>) -> (r: Option<i64>)
        ensures
            r == record_secs(record@.map_values(|f: String| f@)),
    {
        let ghost row = record@.map_values(|f: String| f@);
        if record.len() < 1 {
            return None;
        }
        proof {
            assert(row[0] == record@[0]@);
        }
        match parse_digits(record[0].as_str()) {
            Some(micros) => Some(micros / 1_000_000),
            None => None,
        }
    }

    /// A bar from a record's price and volume fields and the given timestamp.
    pub fn bar_from_record(record: &Vec<String>, timestamp: String) -> (r: Result<Bar, RustQuantError>)
        ensures
            r is Ok <==> record_prices_ok(record@.map_values(|f: String| f@)),
            r is Err ==> r == Err::<Bar, RustQuantError>(RustQuantError::InvalidFormat),
            r matches Ok(b) ==> bar_of_record(b, record@.map_values(|f: String| f@), timestamp@),
    {
        let ghost row = record@.map_values(|f: String| f@);
        if record.len() < 6 {
            return Err(RustQuantError::InvalidFormat);
        }
        proof {
            assert(row[1] == record@[1]@ && row[2] == record@[2]@ && row[3] == record@[3]@);
            assert(row[4] == record@[4]@ && row[5] == record@[5]@);
        }
        let open = parse_decimal_ticks(record[1].as_str());
        let high = parse_decimal_ticks(record[2].as_str());
        let low = parse_decimal_ticks(record[3].as_str());
        let close = parse_decimal_ticks(record[4].as_str());
        let volume = parse_decimal_ticks(record[5].as_str());
        match (open, high, low, close, volume) {
            (Some(open), Some(high), Some(low), Some(close), Some(volume)) => {
                Ok(Bar { timestamp, open, high, low, close, volume })
            },
            _ => Err(RustQuantError::InvalidFormat),
        }
    }

    /// Bars of the records in order; `InvalidFormat` if any record does not
    /// convert.
    pub fn bars_from_records(records: &Vec<Vec<String>>) -> (r: Result<Vec<Bar>, RustQuantError>)
        ensures
            r is Ok <==> forall|i: int| 0 <= i < records@.len() ==> #[trigger] record_ok(records_view(records@)[i]),
            r is Err ==> r == Err::<Vec<Bar>, RustQuantError>(RustQuantError::InvalidFormat),
            r matches Ok(bars) ==> {
                &&& bars@.len() == records@.len()
                &&& forall|i: int|
                    0 <= i < bars@.len() ==> #[trigger] bar_of_record(
                        bars@[i],
                        records_view(records@)[i],
                        rfc3339_of(record_secs(records_view(records@)[i])->0)->0,
                    )
            },
    {
        let mut bars: Vec<Bar> = Vec::new();
        let mut i: usize = 0;
        while i < records.len()
            invariant
                0 <= i <= records@.len(),
                bars@.len() == i,
                forall|k: int| 0 <= k < i ==> #[trigger] record_ok(records_view(records@)[k]),
                forall|k: int|
                    0 <= k < i ==> #[trigger] bar_of_record(
                        bars@[k],
                        records_view(records@)[k],
                        rfc3339_of(record_secs(records_view(records@)[k])->0)->0,
                    ),
            decreases records@.len() - i,
        {
            let record = &records[i];
            proof {
                assert(records_view(records@)[i as int] == record@.map_values(|f: String| f@));
            }
            let secs = match Self::record_seconds(record) {
                Some(s) => s,
                None => {
                    proof {
                        assert(!record_ok(records_view(records@)[i as int]));
                    }
                    return Err(RustQuantError::InvalidFormat);
                },
            };
            let timestamp = match rfc3339_utc(secs) {
                Some(t) => t,
                None => {
                    proof {
                        assert(!record_ok(records_view(records@)[i as int]));
                    }
                    return Err(RustQuantError::InvalidFormat);
                },
            };
            match Self::bar_from_record(record, timestamp) {
                Ok(b) => {
                    bars.push(b);
                },
                Err(e) => {
                    proof {
                        assert(!record_ok(records_view(records@)[i as int]));
                    }
                    return Err(e);
                },
            }
            i = i + 1;
        }
        Ok(bars)
    }

    /// Bars of header-less CSV text.
    pub fn bars_from_bytes(data: &[u8]) -> (r: Result<Vec<Bar>, RustQuantError>)
        ensures
            r is Ok <==> csv_ok(data@),
            r is Err ==> r == Err::<Vec<Bar>, RustQuantError>(RustQuantError::InvalidFormat),
            r matches Ok(bars) ==> bars_of_csv(bars@, data@),
    {
        match csv_records(data) {
            Some(records) => Self::bars_from_records(&records),
            None => Err(RustQuantError::InvalidFormat),
        }
    }

    /// Bars of the CSV text held as the first entry of a zip archive.
    pub fn bars_from_archive(data: &[u8]) -> (r: Result<Vec<Bar>, RustQuantError>)
        ensures
            r is Ok <==> (zip_first_entry_of(data@) matches Some(text) && csv_ok(text)),
            r is Err ==> r == Err::<Vec<Bar>, RustQuantError>(RustQuantError::InvalidFormat),
            r matches Ok(bars) ==> bars_of_csv(bars@, zip_first_entry_of(data@)->0),
    {
        match first_archive_entry(data) {
            Some(text) => Self::bars_from_bytes(text.as_slice()),
            None => Err(RustQuantError::InvalidFormat),
        }
    }
}

} // verus!
