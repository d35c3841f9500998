//! Host snapshot composition. Every field of a snapshot is best-effort: a
//! source that could not deliver degrades that one field to the sentinel
//! `Unknown` and never fails the containing call. Also holds the parser for
//! the hardware-inventory utility's output, from which the memory module
//! type is read.
use vstd::prelude::*;

use crate::models::SystemInfo;
use crate::text::{
    contains_seq, contains_text, lines_of, remove_all, remove_all_text, split_lines,
    starts_with_seq, starts_with_text, str_views, trim_text, trimmed,
};

verus! {

/// The text of a resolved field, or the sentinel when its source failed.
pub open spec fn or_unknown(o: Option<String>) -> Seq<char> {
    match o {
        Some(s) => s@,
        None => "Unknown"@,
    }
}

/// Substitutes the sentinel for a field whose source failed.
pub fn field_or_unknown(o: Option<String>) -> (r: String)
    ensures
        r@ == or_unknown(o),
{
    match o {
        Some(s) => s,
        None => String::from_str("Unknown"),
    }
}

/// Builds the full host snapshot from the individually resolved (or failed)
/// sources. No combination of failed sources fails the snapshot itself.
pub fn compose_system_info(
    os: Option<String>,
    version: Option<String>,
    hostname: Option<String>,
    internal_ip: Option<String>,
    external_ip: Option<String>,
    total_memory: u64,
    used_memory: u64,
    memory_type: Option<String>,
) -> (r: SystemInfo)
    ensures
        r.os@ == or_unknown(os),
        r.version@ == or_unknown(version),
        r.hostname@ == or_unknown(hostname),
        r.internal_ip@ == or_unknown(internal_ip),
        r.external_ip@ == or_unknown(external_ip),
        r.total_memory == total_memory,
        r.used_memory == used_memory,
        r.memory_type@ == or_unknown(memory_type),
{
    SystemInfo {
        os: field_or_unknown(os),
        version: field_or_unknown(version),
        hostname: field_or_unknown(hostname),
        internal_ip: field_or_unknown(internal_ip),
        external_ip: field_or_unknown(external_ip),
        total_memory,
        used_memory,
        memory_type: field_or_unknown(memory_type),
    }
}

/// A line of inventory output that names the module type: it starts (after
/// trimming) with the type label and is not the detail variant of the field.
pub open spec fn is_type_line(line: Seq<char>) -> bool {
    starts_with_seq(trimmed(line), "Type:"@) && !contains_seq(line, "Detail"@)
}

/// The first line of the output naming the module type, if any.
pub open spec fn first_type_line(ls: Seq<Seq<char>>) -> Option<Seq<char>>
    decreases ls.len(),
{
    if ls.len() == 0 {
        None
    } else if is_type_line(ls[0]) {
        Some(ls[0])
    } else {
        first_type_line(ls.drop_first())
    }
}

/// The memory module type read from inventory output: the first type line
/// with its label removed and whitespace trimmed, or the sentinel when no
/// line names a type.
pub open spec fn memory_type_of(out: Seq<char>) -> Seq<char> {
    match first_type_line(lines_of(out)) {
        Some(l) => trimmed(remove_all(l, "Type:"@)),
        None => "Unknown"@,
    }
}

/// Reads the memory module type out of hardware-inventory output.
pub fn memory_type_from_inventory(out: &str) -> (r: String)
    ensures
        r@ == memory_type_of(out@),
{
    let type_label = "Type:";
    proof {
        reveal_strlit("Type:");
        assert(type_label@.len() == 5);
    }
    let lines = split_lines(out);
    let ghost lv = str_views(lines@);
    let mut i: usize = 0;
    proof {
        assert(lv.skip(0) =~= lv);
    }
    while i < lines.len()
        invariant
            type_label@ == "Type:"@,
            type_label@.len() == 5,
            lv == str_views(lines@),
            lv == lines_of(out@),
            i <= lines@.len(),
            first_type_line(lv) == first_type_line(lv.skip(i as int)),
        decreases lines@.len() - i,
    {
        proof {
            assert(lines@[i as int]@ == lv[i as int]);
            assert(lv.skip(i as int)[0] == lv[i as int]);
            assert(lv.skip(i as int).drop_first() =~= lv.skip(i as int + 1));
        }
        let tline = trim_text(lines[i].as_str());
        let labelled = starts_with_text(tline.as_str(), type_label);
        let detail = contains_text(lines[i].as_str(), "Detail");
        if labelled && !detail {
            let cleaned = remove_all_text(lines[i].as_str(), type_label);
            let r = trim_text(cleaned.as_str());
            proof {
                assert(is_type_line(lv[i as int]));
                assert(first_type_line(lv.skip(i as int)) == Some(lv[i as int]));
            }
            return r;
        }
        i = i + 1;
    }
    proof {
        assert(lv.skip(i as int) =~= Seq::<Seq<char>>::empty());
    }
    String::from_str("Unknown")
}

} // verus!
