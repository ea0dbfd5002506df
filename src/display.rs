//! The table of codes, laid out frame by frame for a terminal that is
//! redrawn in place.

use vstd::prelude::*;
use crate::clock::{remaining_spec, seconds_remaining_at};
use crate::code::{code_at, code_spec, computable};
use crate::descriptor::{parse, parse_spec, DescriptorView};
use crate::store::texts;

verus! {

/// Lines above the rows: the header and the rule under it.
pub open spec fn header_height() -> nat {
    2
}

/// One line of the table.
pub struct Row {
    pub account: String,
    pub issuer: String,
    pub code: String,
}

/// One frame: how many lines to move the cursor up before drawing, the
/// seconds left in the current window, and the rows in store order.
pub struct Frame {
    pub cursor_up: usize,
    pub remaining: u64,
    pub rows: Vec<Row>,
}

/// The descriptors of the stored lines that parse, in order.
pub open spec fn parsed_lines(lines: Seq<Seq<char>>) -> Seq<DescriptorView>
    decreases lines.len(),
{
    if lines.len() == 0 {
        Seq::empty()
    } else {
        let prev = parsed_lines(lines.drop_last());
        match parse_spec(lines.last()) {
            Some(d) => prev.push(d),
            None => prev,
        }
    }
}

/// The code shown for `d` at `time`: empty where none can be computed.
pub open spec fn shown_code(d: DescriptorView, time: u64) -> Seq<char> {
    if computable(d) {
        code_spec(d, time)
    } else {
        Seq::empty()
    }
}

/// `row` shows `d` at `time`.
pub open spec fn shows(row: Row, d: DescriptorView, time: u64) -> bool {
    &&& row.account@ == d.account
    &&& row.issuer@ == d.issuer
    &&& row.code@ == shown_code(d, time)
}

/// How far a redraw moves the cursor up: the header and one line per stored
/// entry, whether or not it parsed.
pub open spec fn redraw_height(stored: nat) -> nat {
    header_height() + stored
}

/// The frame for the stored `secrets` at `time`: the first frame draws where
/// the cursor stands, each later one first moves up over the previous one.
pub fn frame(secrets: &Vec<String>, first: bool, time: u64) -> (f: Frame)
    requires
        secrets@.len() + 2 <= usize::MAX,
    ensures
        f.cursor_up == if first {
            0
        } else {
            redraw_height(secrets@.len())
        },
        f.remaining as int == remaining_spec(time as int),
        f.rows@.len() == parsed_lines(texts(secrets@)).len(),
        forall|i: int|
            0 <= i < f.rows@.len() ==> shows(#[trigger] f.rows@[i], parsed_lines(texts(secrets@))[i], time),
{
    let mut rows: Vec<Row> = Vec::new();
    let mut i: usize = 0;
    while i < secrets.len()
        invariant
            i <= secrets@.len(),
            rows@.len() == parsed_lines(texts(secrets@.take(i as int))).len(),
            forall|j: int|
                0 <= j < rows@.len() ==> shows(#[trigger] rows@[j], parsed_lines(texts(secrets@.take(i as int)))[j], time),
        decreases secrets.len() - i,
    {
        assert(texts(secrets@.take(i + 1)).drop_last() =~= texts(secrets@.take(i as int)));
        assert(texts(secrets@.take(i + 1)).last() == secrets@[i as int]@);
        if let Some(d) = parse(secrets[i].as_str()) {
            let code = match code_at(&d, time) {
                Some(c) => c,
                None => String::new(),
            };
            rows.push(Row { account: d.account, issuer: d.issuer, code });
        }
        i = i + 1;
    }
    assert(secrets@.take(secrets@.len() as int) =~= secrets@);
    let cursor_up = if first {
        0
    } else {
        secrets.len() + 2
    };
    Frame { cursor_up, remaining: seconds_remaining_at(time), rows }
}

} // verus!
