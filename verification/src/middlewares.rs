//! How request latency is reported in the access log.

use vstd::prelude::*;
use crate::text::{chars_of, string_from_chars, u64_to_decimal, decimal, append_str};

verus! {

broadcast use vstd::string::group_string_axioms;

/// `status latency`, the latency in whole milliseconds from one
/// millisecond on, else in microseconds.
pub open spec fn spec_format_latency(micros: nat, status: Seq<char>) -> Seq<char> {
    if micros >= 1000 {
        status + seq![' '] + decimal(micros / 1000) + "ms"@
    } else {
        status + seq![' '] + decimal(micros) + "μs"@
    }
}

/// Formats a latency given in microseconds after the response status.
pub fn format_latency(micros: u64, status: &str) -> (r: String)
    ensures
        r@ == spec_format_latency(micros as nat, status@),
{
    let mut out: Vec<char> = Vec::new();
    append_str(&mut out, status);
    out.push(' ');
    if micros >= 1000 {
        let n = u64_to_decimal(micros / 1000);
        append_str(&mut out, n.as_str());
        append_str(&mut out, "ms");
    } else {
        let n = u64_to_decimal(micros);
        append_str(&mut out, n.as_str());
        append_str(&mut out, "μs");
    }
    assert(out@ =~= spec_format_latency(micros as nat, status@));
    string_from_chars(&out)
}

} // verus!
