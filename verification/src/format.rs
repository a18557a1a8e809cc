//! Pure rendering of state into display text.  Every function's output is
//! pinned to a spec-level function of its input, so rendering the same data
//! twice yields identical text.

use vstd::prelude::*;

use crate::entry::ServiceEntry;
use crate::order::{SortField, SortDirection, primary_addr, primary_addr_exec};
use crate::text::{dec_spec, join_ch, replace_spec, trim_end_spec, trim_start_spec};
use crate::text::{
    chars_of_str, chars_to_string, join_with, push_all, push_dec_u64, push_str_chars,
    replace_pat, trim_end_pat, trim_start_char,
};
use crate::time::format_timestamp_micros;

verus! {

/// The short label of a sort field.
pub fn format_sort_field_for_display(field: SortField) -> (r: &'static str)
    ensures
        r@ == match field {
            SortField::Host => "Host"@,
            SortField::ServiceType => "Type"@,
            SortField::Fullname => "Name"@,
            SortField::Port => "Port"@,
            SortField::Address => "Addr"@,
            SortField::Timestamp => "Time"@,
        },
{
    match field {
        SortField::Host => "Host",
        SortField::ServiceType => "Type",
        SortField::Fullname => "Name",
        SortField::Port => "Port",
        SortField::Address => "Addr",
        SortField::Timestamp => "Time",
    }
}

/// The arrow glyph of a sort direction.
pub fn format_sort_direction_for_display(direction: SortDirection) -> (r: &'static str)
    ensures
        r@ == match direction {
            SortDirection::Ascending => "↑"@,
            SortDirection::Descending => "↓"@,
        },
{
    match direction {
        SortDirection::Ascending => "↑",
        SortDirection::Descending => "↓",
    }
}

/// A service type condensed for the category pane: leading underscores and
/// the trailing local-domain suffix dropped, protocol markers shortened.
pub open spec fn display_type_spec(s: Seq<char>) -> Seq<char> {
    replace_spec(
        replace_spec(
            trim_end_spec(trim_end_spec(trim_start_spec(s, '_'), ".local."@), "."@),
            "._tcp"@,
            ".tcp"@,
        ),
        "._udp"@,
        ".udp"@,
    )
}

/// Renders a service type for the category pane.
pub fn format_service_type_for_display(service_type: &str) -> (r: String)
    ensures
        r@ == display_type_spec(service_type@),
{
    proof {
        reveal_strlit("._tcp");
        reveal_strlit("._udp");
    }
    let sc = chars_of_str(service_type);
    let t1 = trim_start_char(&sc, '_');
    let p_local = chars_of_str(".local.");
    let t2 = trim_end_pat(&t1, &p_local);
    let p_dot = chars_of_str(".");
    let t3 = trim_end_pat(&t2, &p_dot);
    let p_tcp = chars_of_str("._tcp");
    let r_tcp = chars_of_str(".tcp");
    let t4 = replace_pat(&t3, &p_tcp, &r_tcp);
    let p_udp = chars_of_str("._udp");
    let r_udp = chars_of_str(".udp");
    let t5 = replace_pat(&t4, &p_udp, &r_udp);
    chars_to_string(&t5)
}

/// One projection row: display name, host, primary address and port.
pub open spec fn display_row_spec(e: ServiceEntry) -> Seq<char> {
    trim_end_spec(trim_end_spec(e.fullname@, e.service_type@), "."@) + " - "@ + trim_end_spec(
        trim_end_spec(e.host@, ".local."@),
        "."@,
    ) + " - "@ + primary_addr(e) + ":"@ + dec_spec(e.port as nat)
}

/// Renders one projection row.
pub fn format_service_for_display(service: &ServiceEntry) -> (r: String)
    ensures
        r@ == display_row_spec(*service),
{
    let fc = chars_of_str(service.fullname.as_str());
    let tc = chars_of_str(service.service_type.as_str());
    let n1 = trim_end_pat(&fc, &tc);
    let p_dot = chars_of_str(".");
    let name = trim_end_pat(&n1, &p_dot);
    let hc = chars_of_str(service.host.as_str());
    let p_local = chars_of_str(".local.");
    let h1 = trim_end_pat(&hc, &p_local);
    let host = trim_end_pat(&h1, &p_dot);
    let addr = primary_addr_exec(service);
    let mut out: Vec<char> = Vec::new();
    push_all(&mut out, &name);
    push_str_chars(&mut out, " - ");
    push_all(&mut out, &host);
    push_str_chars(&mut out, " - ");
    push_all(&mut out, &addr);
    push_str_chars(&mut out, ":");
    push_dec_u64(&mut out, service.port as u64);
    assert(out@ =~= display_row_spec(*service));
    chars_to_string(&out)
}

/// The details pane text for one entry, given the rendered transition time.
pub open spec fn details_spec(e: ServiceEntry, ts: Seq<char>) -> Seq<char> {
    (if e.online {
        "Online since: "@
    } else {
        "Offline since: "@
    }) + ts + "\n\nFullname: "@ + e.fullname@ + "\nHostname: "@ + e.host@ + "\nType: "@
        + e.service_type@ + (match e.subtype {
        Some(s) => "\nSubtype: "@ + s@,
        None => Seq::empty(),
    }) + "\nPort: "@ + dec_spec(e.port as nat) + "\n\nAddresses:\n"@ + (if e.addrs@.len() == 0 {
        "None"@
    } else {
        join_ch(e.addrs.deep_view(), '\n')
    }) + "\n\nTXT Records:\n"@ + (if e.txt@.len() == 0 {
        "None"@
    } else {
        join_ch(e.txt.deep_view(), '\n')
    })
}

/// Renders the details pane from an entry and an already rendered timestamp.
pub fn details_text_with_timestamp(service: &ServiceEntry, ts: &str) -> (r: String)
    ensures
        r@ == details_spec(*service, ts@),
{
    let mut out: Vec<char> = Vec::new();
    if service.online {
        push_str_chars(&mut out, "Online since: ");
    } else {
        push_str_chars(&mut out, "Offline since: ");
    }
    push_str_chars(&mut out, ts);
    push_str_chars(&mut out, "\n\nFullname: ");
    push_str_chars(&mut out, service.fullname.as_str());
    push_str_chars(&mut out, "\nHostname: ");
    push_str_chars(&mut out, service.host.as_str());
    push_str_chars(&mut out, "\nType: ");
    push_str_chars(&mut out, service.service_type.as_str());
    match &service.subtype {
        Some(s) => {
            push_str_chars(&mut out, "\nSubtype: ");
            push_str_chars(&mut out, s.as_str());
        },
        None => {},
    }
    push_str_chars(&mut out, "\nPort: ");
    push_dec_u64(&mut out, service.port as u64);
    push_str_chars(&mut out, "\n\nAddresses:\n");
    if service.addrs.len() == 0 {
        push_str_chars(&mut out, "None");
    } else {
        let joined = join_with(&service.addrs, '\n');
        push_all(&mut out, &joined);
    }
    push_str_chars(&mut out, "\n\nTXT Records:\n");
    if service.txt.len() == 0 {
        push_str_chars(&mut out, "None");
    } else {
        let joined = join_with(&service.txt, '\n');
        push_all(&mut out, &joined);
    }
    assert(out@ =~= details_spec(*service, ts@));
    chars_to_string(&out)
}

/// Renders the details pane for one entry; the transition time comes from the
/// machine's local time zone, so only the text around it is pinned.
pub fn create_service_details_text(service: &ServiceEntry) -> (r: String)
    ensures
        exists|ts: Seq<char>| r@ == details_spec(*service, ts),
{
    let rendered = format_timestamp_micros(service.timestamp_micros);
    let r = details_text_with_timestamp(service, rendered.as_str());
    assert(r@ == details_spec(*service, rendered@));
    r
}

} // verus!
