//! Output formatting of resolved records.

use vstd::prelude::*;
use crate::dns_records::DnsRecord;
use crate::record_values::value_text;

verus! {

/// The output format of the record stream.
pub enum OutputFormat {
    /// `<domain> [<value>]` per record.
    Plain,
    /// One JSON object per record.
    Json,
    /// The record value alone.
    ResponseOnly,
}

/// Formats one record for output: the plain line body, the JSON object, or
/// the bare value text.
pub fn format_record(record: &DnsRecord, format: &OutputFormat) -> (r: String)
    ensures
        format is Plain ==> r@ == record.domain@ + " ["@ + value_text(record.value) + "]"@,
        format is ResponseOnly ==> r@ == value_text(record.value),
        format is Json ==> exists|ts: Seq<char>|
            {
                &&& r@ == #[trigger] crate::codec::enc_record_with(
                    crate::codec::record_data(*record),
                    ts,
                )
                &&& crate::time::spec_parse_timestamp(ts) == Some(record.timestamp_ms)
            },
{
    match format {
        OutputFormat::Plain => record.display_text(),
        OutputFormat::Json => crate::codec::encode_record(record),
        OutputFormat::ResponseOnly => record.value.to_string(),
    }
}

} // verus!
