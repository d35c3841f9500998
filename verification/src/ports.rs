//! Port-listener scanning: parses the tabular text a socket-listing utility
//! prints (one header line, then one line per listening TCP socket) into
//! `PortInfo` records, keeping only the development port range and ordering
//! the result ascending by port. Malformed lines are skipped, never fatal.
use vstd::multiset::Multiset;
use vstd::prelude::*;

use crate::models::{PortInfo, PortRec, port_views};
use crate::num::{all_digits, dec_val, parse_decimal_capped};
use crate::text::{lines_of, split_lines, str_views, tokens, tokens_of};

verus! {

/// Lower bound of the development port range kept by the scan.
pub const DEV_PORT_MIN: u16 = 3000;

/// Upper bound of the development port range kept by the scan.
pub const DEV_PORT_MAX: u16 = 9999;

/// A data line must have at least this many whitespace-separated columns to
/// be read at all.
pub const MIN_COLUMNS: usize = 9;

/// Column holding the process name.
pub const NAME_COLUMN: usize = 0;

/// Column holding the owning pid.
pub const PID_COLUMN: usize = 1;

/// Column holding the listening address in `host:port` form.
pub const ADDRESS_COLUMN: usize = 8;

/// The suffix of `a` after its last colon; all of `a` when it has no colon.
pub open spec fn after_last_colon(a: Seq<char>) -> Seq<char>
    decreases a.len(),
{
    if a.len() == 0 {
        a
    } else if a.last() == ':' {
        Seq::empty()
    } else {
        after_last_colon(a.drop_last()).push(a.last())
    }
}

/// If every character from `j` on is not a colon and `j` is either the start
/// or just after a colon, the suffix after the last colon starts at `j`.
pub proof fn lemma_after_last_colon_at(a: Seq<char>, j: int)
    requires
        0 <= j <= a.len(),
        forall|m: int| j <= m < a.len() ==> a[m] != ':',
        j == 0 || a[j - 1] == ':',
    ensures
        after_last_colon(a) == a.skip(j),
    decreases a.len(),
{
    if a.len() == 0 {
        assert(a.skip(0) =~= a);
    } else if j == a.len() {
        assert(a.last() == ':');
        assert(a.skip(j) =~= Seq::<char>::empty());
    } else {
        assert(a.last() != ':');
        lemma_after_last_colon_at(a.drop_last(), j);
        assert(a.drop_last().skip(j).push(a.last()) =~= a.skip(j));
    }
}

/// Extracts the text after the last colon of an address field.
pub fn port_text(addr: &str) -> (r: String)
    ensures
        r@ == after_last_colon(addr@),
{
    let n = addr.unicode_len();
    let mut j = n;
    while j > 0 && addr.get_char(j - 1) != ':'
        invariant
            n == addr@.len(),
            j <= n,
            forall|m: int| j <= m < n ==> addr@[m] != ':',
        decreases j,
    {
        j = j - 1;
    }
    proof {
        lemma_after_last_colon_at(addr@, j as int);
    }
    String::from_str(addr.substring_char(j, n))
}

/// A port field parses exactly when it is a non-empty digit string whose
/// value fits a 16-bit port.
pub open spec fn parsed_port(t: Seq<char>) -> Option<u16> {
    if all_digits(t) && dec_val(t) <= 65535 {
        Some(dec_val(t) as u16)
    } else {
        None
    }
}

/// A pid field parses exactly when it is a non-empty digit string whose
/// value fits 32 bits.
pub open spec fn parsed_pid(t: Seq<char>) -> Option<u32> {
    if all_digits(t) && dec_val(t) <= 0xFFFF_FFFF {
        Some(dec_val(t) as u32)
    } else {
        None
    }
}

/// The record one data line contributes: `None` when the line is too short,
/// its pid field is not a well-formed 32-bit numeral, its port text is not a
/// well-formed port number, or the port lies outside the development range.
/// Any such parse failure drops only this line.
pub open spec fn record_of_line(line: Seq<char>) -> Option<PortRec> {
    let toks = tokens_of(line);
    if toks.len() < MIN_COLUMNS as int {
        None
    } else {
        match parsed_pid(toks[PID_COLUMN as int]) {
            Some(pid) => match parsed_port(after_last_colon(toks[ADDRESS_COLUMN as int])) {
                Some(p) => if DEV_PORT_MIN <= p && p <= DEV_PORT_MAX {
                    Some(
                        PortRec {
                            port: p,
                            pid,
                            process_name: toks[NAME_COLUMN as int],
                            protocol: "TCP"@,
                        },
                    )
                } else {
                    None
                },
                None => None,
            },
            None => None,
        }
    }
}

/// Parses one data line of listing output.
pub fn parse_line(line: &str) -> (r: Option<PortInfo>)
    ensures
        match r {
            Some(p) => record_of_line(line@) == Some(p@),
            None => record_of_line(line@) is None,
        },
{
    let toks = tokens(line);
    if toks.len() < MIN_COLUMNS {
        return None;
    }
    let pid = match parse_decimal_capped(toks[PID_COLUMN].as_str(), 0xFFFF_FFFF) {
        Some(v) => v as u32,
        None => {
            return None;
        },
    };
    let addr_txt = port_text(toks[ADDRESS_COLUMN].as_str());
    let port = match parse_decimal_capped(addr_txt.as_str(), 65535) {
        Some(v) => v as u16,
        None => {
            return None;
        },
    };
    if port < DEV_PORT_MIN || port > DEV_PORT_MAX {
        return None;
    }
    let p = PortInfo {
        port,
        pid,
        process_name: toks[NAME_COLUMN].clone(),
        protocol: String::from_str("TCP"),
    };
    Some(p)
}

/// The records contributed by a sequence of data lines, in line order.
pub open spec fn records_of_lines(ls: Seq<Seq<char>>) -> Seq<PortRec>
    decreases ls.len(),
{
    if ls.len() == 0 {
        Seq::empty()
    } else {
        (match record_of_line(ls[0]) {
            Some(r) => seq![r],
            None => Seq::empty(),
        }) + records_of_lines(ls.drop_first())
    }
}

/// The records of a whole listing output: all lines after the header.
pub open spec fn listing_records(out: Seq<char>) -> Seq<PortRec> {
    records_of_lines(lines_of(out).skip(1))
}

pub open spec fn in_dev_range(p: u16) -> bool {
    DEV_PORT_MIN <= p <= DEV_PORT_MAX
}

/// Every record a listing contributes lies in the development port range.
pub proof fn lemma_records_in_range(ls: Seq<Seq<char>>)
    ensures
        forall|k: int|
            0 <= k < records_of_lines(ls).len() ==> in_dev_range(
                #[trigger] records_of_lines(ls)[k].port,
            ),
    decreases ls.len(),
{
    if ls.len() > 0 {
        lemma_records_in_range(ls.drop_first());
        let head: Seq<PortRec> = match record_of_line(ls[0]) {
            Some(r) => seq![r],
            None => Seq::empty(),
        };
        let tail = records_of_lines(ls.drop_first());
        assert(records_of_lines(ls) == head + tail);
        assert forall|k: int| 0 <= k < records_of_lines(ls).len() implies in_dev_range(
            records_of_lines(ls)[k].port,
        ) by {
            if k < head.len() {
                assert(records_of_lines(ls)[k] == head[0]);
            } else {
                assert(records_of_lines(ls)[k] == tail[k - head.len()]);
            }
        }
    }
}

/// Reorders port records ascending by port, keeping exactly the same
/// records (as a multiset of their views).
pub fn sort_ports(v: Vec<PortInfo>) -> (r: Vec<PortInfo>)
    ensures
        port_views(r@).to_multiset() == port_views(v@).to_multiset(),
        forall|i: int, j: int| 0 <= i < j < r@.len() ==> r@[i].port <= r@[j].port,
{
    broadcast use vstd::seq_lib::group_to_multiset_ensures;

    let mut src = v;
    let mut r: Vec<PortInfo> = Vec::new();
    proof {
        assert(port_views(r@) =~= Seq::<PortRec>::empty());
        assert(port_views(r@).to_multiset() =~= Multiset::<PortRec>::empty());
        assert(port_views(r@).to_multiset().add(port_views(src@).to_multiset()) =~= port_views(
            src@,
        ).to_multiset());
    }
    while src.len() > 0
        invariant
            port_views(r@).to_multiset().add(port_views(src@).to_multiset()) == port_views(
                v@,
            ).to_multiset(),
            forall|i: int, j: int| 0 <= i < j < r@.len() ==> r@[i].port <= r@[j].port,
            forall|i: int, j: int|
                0 <= i < r@.len() && 0 <= j < src@.len() ==> r@[i].port <= src@[j].port,
        decreases src.len(),
    {
        let mut m: usize = 0;
        let mut k: usize = 1;
        while k < src.len()
            invariant
                m < k <= src.len(),
                src.len() > 0,
                forall|t: int| 0 <= t < k ==> src@[m as int].port <= src@[t].port,
            decreases src.len() - k,
        {
            if src[k].port < src[m].port {
                m = k;
            }
            k = k + 1;
        }
        let ghost pre_src = src@;
        let ghost pre_r = r@;
        let x = src.remove(m);
        r.push(x);
        proof {
            let pv_pre = port_views(pre_src);
            let rv_pre = port_views(pre_r);
            pv_pre.to_multiset_ensures();
            rv_pre.to_multiset_ensures();
            assert(port_views(src@) =~= pv_pre.remove(m as int));
            assert(pv_pre[m as int] == x@);
            assert(pv_pre.remove(m as int).to_multiset() =~= pv_pre.to_multiset().remove(x@));
            assert(port_views(src@).to_multiset() == pv_pre.to_multiset().remove(x@));
            assert(port_views(r@) =~= rv_pre.push(x@));
            assert(rv_pre.push(x@).to_multiset() =~= rv_pre.to_multiset().insert(x@));
            assert(port_views(r@).to_multiset() == rv_pre.to_multiset().insert(x@));
            assert(pv_pre.contains(x@));
            assert(pv_pre.to_multiset().count(x@) > 0);
            assert(port_views(r@).to_multiset().add(port_views(src@).to_multiset())
                =~= rv_pre.to_multiset().add(pv_pre.to_multiset()));
            assert forall|i: int, j: int|
                0 <= i < r@.len() && 0 <= j < src@.len() implies r@[i].port <= src@[j].port by {
                if j < m {
                    assert(src@[j] == pre_src[j]);
                } else {
                    assert(src@[j] == pre_src[j + 1]);
                }
            }
        }
    }
    proof {
        assert(port_views(src@) =~= Seq::<PortRec>::empty());
        assert(port_views(src@).to_multiset() =~= Multiset::<PortRec>::empty());
        assert(port_views(r@).to_multiset().add(Multiset::<PortRec>::empty()) =~= port_views(
            r@,
        ).to_multiset());
    }
    r
}

/// Parses whole listing output: skips the header line, reads every data
/// line, drops malformed lines and out-of-range ports, and returns the kept
/// records sorted ascending by port.
pub fn parse_port_listing(out: &str) -> (r: Vec<PortInfo>)
    ensures
        port_views(r@).to_multiset() == listing_records(out@).to_multiset(),
        forall|i: int, j: int| 0 <= i < j < r@.len() ==> r@[i].port <= r@[j].port,
        forall|i: int| 0 <= i < r@.len() ==> in_dev_range(#[trigger] r@[i].port),
{
    broadcast use vstd::seq_lib::group_to_multiset_ensures;

    let lines = split_lines(out);
    let ghost lv = str_views(lines@);
    let mut acc: Vec<PortInfo> = Vec::new();
    let mut i: usize = 1;
    proof {
        assert(lv.len() == lines@.len());
        assert(port_views(acc@) =~= Seq::<PortRec>::empty());
        assert(Seq::<PortRec>::empty() + records_of_lines(lv.skip(1)) =~= records_of_lines(
            lv.skip(1),
        ));
        if lines@.len() < 1 {
            assert(lines_of(out@).len() >= 1);
        }
    }
    while i < lines.len()
        invariant
            lv == str_views(lines@),
            lv == lines_of(out@),
            1 <= i <= lines@.len(),
            records_of_lines(lv.skip(1)) == port_views(acc@) + records_of_lines(
                lv.skip(i as int),
            ),
        decreases lines@.len() - i,
    {
        let parsed = parse_line(lines[i].as_str());
        proof {
            assert(lines@[i as int]@ == lv[i as int]);
            assert(lv.skip(i as int)[0] == lv[i as int]);
            assert(lv.skip(i as int).drop_first() =~= lv.skip(i as int + 1));
        }
        let ghost pre = acc@;
        match parsed {
            Some(p) => {
                acc.push(p);
                proof {
                    assert(port_views(acc@) =~= port_views(pre).push(p@));
                    assert(records_of_lines(lv.skip(i as int)) == seq![p@] + records_of_lines(
                        lv.skip(i as int + 1),
                    ));
                    assert(port_views(pre) + (seq![p@] + records_of_lines(lv.skip(i as int + 1)))
                        =~= port_views(acc@) + records_of_lines(lv.skip(i as int + 1)));
                }
            },
            None => {
                proof {
                    assert(records_of_lines(lv.skip(i as int)) == Seq::<PortRec>::empty()
                        + records_of_lines(lv.skip(i as int + 1)));
                    assert(Seq::<PortRec>::empty() + records_of_lines(lv.skip(i as int + 1))
                        =~= records_of_lines(lv.skip(i as int + 1)));
                }
            },
        }
        i = i + 1;
    }
    proof {
        assert(lv.skip(i as int) =~= Seq::<Seq<char>>::empty());
        assert(port_views(acc@) + records_of_lines(Seq::<Seq<char>>::empty()) =~= port_views(
            acc@,
        ));
    }
    let r = sort_ports(acc);
    proof {
        lemma_records_in_range(lv.skip(1));
        assert forall|t: int| 0 <= t < r@.len() implies in_dev_range(r@[t].port) by {
            assert(port_views(r@)[t] == r@[t]@);
            assert(port_views(r@).contains(r@[t]@));
            assert(port_views(r@).to_multiset().count(r@[t]@) > 0);
            assert(listing_records(out@).to_multiset().count(r@[t]@) > 0);
            assert(listing_records(out@).contains(r@[t]@));
            let w = choose|w: int|
                0 <= w < listing_records(out@).len() && listing_records(out@)[w] == r@[t]@;
            assert(in_dev_range(listing_records(out@)[w].port));
        }
    }
    r
}

/// What became of the socket-listing utility's invocation.
pub enum ListingOutcome {
    /// The utility ran to completion; `success` is its reported exit status,
    /// `stdout` its captured output.
    Completed { success: bool, stdout: String },
    /// The utility could not be invoked at all; `error` describes why.
    NotRun { error: String },
}

/// The whole scan operation: the utility failing to run, or exiting
/// non-zero, fails the operation with the corresponding error; a successful
/// run yields exactly the parsed, filtered, sorted records of its output.
pub fn scan_from_outcome(outcome: &ListingOutcome) -> (r: Result<Vec<PortInfo>, String>)
    ensures
        match *outcome {
            ListingOutcome::Completed { success, stdout } => if success {
                r matches Ok(v) && port_views(v@).to_multiset() == listing_records(
                    stdout@,
                ).to_multiset() && (forall|i: int, j: int|
                    0 <= i < j < v@.len() ==> v@[i].port <= v@[j].port) && (forall|i: int|
                    0 <= i < v@.len() ==> in_dev_range(#[trigger] v@[i].port))
            } else {
                r matches Err(m) && m@ == "Failed to execute lsof command"@
            },
            ListingOutcome::NotRun { error } => r matches Err(m) && m@
                == "Error executing lsof: "@ + error@,
        },
{
    match outcome {
        ListingOutcome::Completed { success, stdout } => {
            if *success {
                Ok(parse_port_listing(stdout.as_str()))
            } else {
                Err(String::from_str("Failed to execute lsof command"))
            }
        },
        ListingOutcome::NotRun { error } => {
            Err(String::from_str("Error executing lsof: ").concat(error.as_str()))
        },
    }
}

/// A line with fewer than the minimum number of columns contributes no
/// record: the records of the listing are exactly those of the other lines.
pub proof fn lemma_short_line_skipped(ls: Seq<Seq<char>>, j: int)
    requires
        0 <= j < ls.len(),
        tokens_of(ls[j]).len() < MIN_COLUMNS as int,
    ensures
        records_of_lines(ls) == records_of_lines(ls.remove(j)),
    decreases ls.len(),
{
    if j == 0 {
        assert(ls.remove(0) =~= ls.drop_first());
        assert(record_of_line(ls[0]) is None);
        assert(Seq::<PortRec>::empty() + records_of_lines(ls.drop_first()) =~= records_of_lines(
            ls.drop_first(),
        ));
    } else {
        lemma_short_line_skipped(ls.drop_first(), j - 1);
        assert(ls.remove(j).drop_first() =~= ls.drop_first().remove(j - 1));
        assert(ls.remove(j)[0] == ls[0]);
    }
}

} // verus!
