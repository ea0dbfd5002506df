//! The secrets store: an ordered list of raw credential URIs, read from and
//! written to a flat text source, and merged on import.

use vstd::prelude::*;
use vstd::string::*;
use crate::text::{occurs_at, occurs_at_exec, owned};

verus! {

/// The scheme prefix that every stored line starts with.
pub open spec fn scheme_prefix() -> Seq<char> {
    "otpauth://"@
}

/// `l` starts with the scheme prefix.
pub open spec fn is_entry(l: Seq<char>) -> bool {
    occurs_at(l, scheme_prefix(), 0)
}

/// The characters of each string.
pub open spec fn texts(v: Seq<String>) -> Seq<Seq<char>> {
    v.map_values(|s: String| s@)
}

/// `l` without one trailing carriage return.
pub open spec fn strip_cr(l: Seq<char>) -> Seq<char> {
    if l.len() > 0 && l.last() == '\r' {
        l.drop_last()
    } else {
        l
    }
}

/// Reading `s` from the left: the lines ended by a newline so far (without
/// their line ending), and the characters after the last newline.
pub open spec fn split_state(s: Seq<char>) -> (Seq<Seq<char>>, Seq<char>)
    decreases s.len(),
{
    if s.len() == 0 {
        (Seq::empty(), Seq::empty())
    } else {
        let (done, cur) = split_state(s.drop_last());
        if s.last() == '\n' {
            (done.push(strip_cr(cur)), Seq::empty())
        } else {
            (done, cur.push(s.last()))
        }
    }
}

/// The lines of `s`: split at each newline, a carriage return before the
/// newline dropped, and no empty line after a final newline.
pub open spec fn text_lines(s: Seq<char>) -> Seq<Seq<char>> {
    let (done, cur) = split_state(s);
    if cur.len() == 0 {
        done
    } else {
        done.push(cur)
    }
}

/// The lines among `ls` that start with the scheme prefix, in order.
pub open spec fn entries(ls: Seq<Seq<char>>) -> Seq<Seq<char>>
    decreases ls.len(),
{
    if ls.len() == 0 {
        Seq::empty()
    } else if is_entry(ls.last()) {
        entries(ls.drop_last()).push(ls.last())
    } else {
        entries(ls.drop_last())
    }
}

/// What loading the text `s` gives: its lines that start with the scheme prefix.
pub open spec fn load_spec(s: Seq<char>) -> Seq<Seq<char>> {
    entries(text_lines(s))
}

/// The lines joined with a newline between each two.
pub open spec fn join_spec(ls: Seq<Seq<char>>) -> Seq<char>
    decreases ls.len(),
{
    if ls.len() == 0 {
        Seq::empty()
    } else if ls.len() == 1 {
        ls[0]
    } else {
        join_spec(ls.drop_last()) + seq!['\n'] + ls.last()
    }
}

/// `cur` followed by each line of `inc` that is not already there when its
/// turn comes.
pub open spec fn merge_spec(cur: Seq<Seq<char>>, inc: Seq<Seq<char>>) -> Seq<Seq<char>>
    decreases inc.len(),
{
    if inc.len() == 0 {
        cur
    } else {
        let m = merge_spec(cur, inc.drop_last());
        if m.contains(inc.last()) {
            m
        } else {
            m.push(inc.last())
        }
    }
}

/// Adds the line running from `start` to `end` of `text` to `out` when it
/// starts with the scheme prefix; `ended` tells whether a newline follows it.
fn keep_line(text: &str, start: usize, end: usize, ended: bool, out: &mut Vec<String>)
    requires
        start <= end <= text@.len(),
    ensures
        ({
            let piece = text@.subrange(start as int, end as int);
            let l = if ended { strip_cr(piece) } else { piece };
            texts(final(out)@) == if is_entry(l) {
                texts(old(out)@).push(l)
            } else {
                texts(old(out)@)
            }
        }),
{
    let mut stop = end;
    if ended && end > start && text.get_char(end - 1) == '\r' {
        stop = end - 1;
    }
    let line = text.substring_char(start, stop);
    proof {
        let piece = text@.subrange(start as int, end as int);
        if ended && piece.len() > 0 && piece.last() == '\r' {
            assert(line@ =~= piece.drop_last());
        } else {
            assert(line@ =~= piece);
        }
    }
    if occurs_at_exec(line, "otpauth://", 0) {
        out.push(owned(line));
        assert(texts(out@) =~= texts(old(out)@).push(line@));
    }
}

/// The lines of `text` that start with the scheme prefix, in order.
pub fn load_lines(text: &str) -> (r: Vec<String>)
    ensures
        texts(r@) == load_spec(text@),
{
    let n = text.unicode_len();
    let mut out: Vec<String> = Vec::new();
    let mut start: usize = 0;
    let mut i: usize = 0;
    while i < n
        invariant
            n == text@.len(),
            start <= i <= n,
            split_state(text@.take(i as int)).1 == text@.subrange(start as int, i as int),
            texts(out@) == entries(split_state(text@.take(i as int)).0),
        decreases n - i,
    {
        let ghost before = text@.take(i as int);
        assert(text@.take(i + 1).drop_last() =~= before);
        if text.get_char(i) == '\n' {
            proof {
                let (d, c) = split_state(before);
                assert(d.push(strip_cr(c)).drop_last() =~= d);
            }
            keep_line(text, start, i, true, &mut out);
            start = i + 1;
            assert(text@.subrange(start as int, i + 1) =~= Seq::<char>::empty());
        } else {
            assert(text@.subrange(start as int, i + 1) =~= text@.subrange(start as int, i as int).push(text@[i as int]));
        }
        i = i + 1;
    }
    assert(text@.take(n as int) =~= text@);
    let ghost done = split_state(text@).0;
    keep_line(text, start, n, false, &mut out);
    proof {
        let cur = split_state(text@).1;
        if cur.len() == 0 {
            reveal_strlit("otpauth://");
            assert(!is_entry(cur));
        } else {
            assert(text_lines(text@) == done.push(cur));
            assert(text_lines(text@).drop_last() =~= done);
        }
    }
    out
}

/// The lines joined with a newline between each two, as they are written out.
pub fn join_lines(lines: &Vec<String>) -> (r: String)
    ensures
        r@ == join_spec(texts(lines@)),
{
    let mut r = String::new();
    let mut i: usize = 0;
    while i < lines.len()
        invariant
            i <= lines@.len(),
            r@ == join_spec(texts(lines@.take(i as int))),
        decreases lines.len() - i,
    {
        let ghost prev = texts(lines@.take(i as int));
        assert(texts(lines@.take(i + 1)).drop_last() =~= prev);
        if i > 0 {
            r.append("\n");
        }
        r.append(lines[i].as_str());
        proof {
            let cur = texts(lines@.take(i + 1));
            reveal_strlit("\n");
            if i == 0 {
                assert(r@ =~= cur[0]);
            } else {
                assert(r@ =~= join_spec(prev) + seq!['\n'] + cur.last());
            }
        }
        i = i + 1;
    }
    assert(lines@.take(lines.len() as int) =~= lines@);
    r
}

/// Whether `v` holds a string equal to `s`.
fn holds(v: &Vec<String>, s: &String) -> (r: bool)
    ensures
        r == texts(v@).contains(s@),
{
    let mut i: usize = 0;
    while i < v.len()
        invariant
            i <= v@.len(),
            forall|j: int| 0 <= j < i ==> v@[j]@ != s@,
        decreases v.len() - i,
    {
        if v[i] == *s {
            assert(texts(v@)[i as int] == s@);
            return true;
        }
        i = i + 1;
    }
    proof {
        if texts(v@).contains(s@) {
            let j = choose|j: int| 0 <= j < texts(v@).len() && texts(v@)[j] == s@;
            assert(v@[j]@ == s@);
        }
    }
    false
}

/// Appends to `existing` each line of `incoming` that it does not hold yet,
/// in order, and returns how many lines were offered, duplicates included.
pub fn import_lines(existing: &mut Vec<String>, incoming: Vec<String>) -> (count: usize)
    ensures
        count == incoming@.len(),
        texts(final(existing)@) == merge_spec(texts(old(existing)@), texts(incoming@)),
{
    let mut i: usize = 0;
    while i < incoming.len()
        invariant
            i <= incoming@.len(),
            texts(existing@) == merge_spec(texts(old(existing)@), texts(incoming@.take(i as int))),
        decreases incoming.len() - i,
    {
        assert(texts(incoming@.take(i + 1)).drop_last() =~= texts(incoming@.take(i as int)));
        let s = &incoming[i];
        if !holds(existing, s) {
            existing.push(s.clone());
            assert(texts(existing@) =~= merge_spec(texts(old(existing)@), texts(incoming@.take(i as int))).push(s@));
        }
        i = i + 1;
    }
    assert(incoming@.take(incoming.len() as int) =~= incoming@);
    incoming.len()
}

/// A piece of text with no newline does not end a line.
proof fn lemma_split_plain(a: Seq<char>, t: Seq<char>)
    requires
        forall|k: int| 0 <= k < t.len() ==> t[k] != '\n',
    ensures
        split_state(a + t) == (split_state(a).0, split_state(a).1 + t),
    decreases t.len(),
{
    if t.len() == 0 {
        assert(a + t =~= a);
        assert(split_state(a).1 + t =~= split_state(a).1);
    } else {
        lemma_split_plain(a, t.drop_last());
        assert((a + t).drop_last() =~= a + t.drop_last());
        assert((split_state(a).1 + t.drop_last()).push(t.last()) =~= split_state(a).1 + t);
    }
}

/// A stored line: it starts with the scheme prefix, holds no newline and
/// does not end in a carriage return.
pub open spec fn is_plain_entry(l: Seq<char>) -> bool {
    &&& is_entry(l)
    &&& forall|k: int| 0 <= k < l.len() ==> l[k] != '\n'
    &&& l.last() != '\r'
}

/// Reading the joined lines leaves all but the last ended, the last pending.
proof fn lemma_split_join(ls: Seq<Seq<char>>)
    requires
        ls.len() >= 1,
        forall|i: int| 0 <= i < ls.len() ==> is_plain_entry(#[trigger] ls[i]),
    ensures
        split_state(join_spec(ls)) == (ls.drop_last(), ls.last()),
    decreases ls.len(),
{
    reveal_strlit("otpauth://");
    if ls.len() == 1 {
        lemma_split_plain(Seq::empty(), ls[0]);
        assert(Seq::<char>::empty() + ls[0] =~= ls[0]);
        assert(Seq::<char>::empty() + ls[0] =~= ls[0]);
        assert(ls.drop_last() =~= Seq::<Seq<char>>::empty());
    } else {
        let prev = ls.drop_last();
        assert(forall|i: int| 0 <= i < prev.len() ==> prev[i] == ls[i]);
        lemma_split_join(prev);
        let head = join_spec(prev) + seq!['\n'];
        assert(head.drop_last() =~= join_spec(prev));
        let last_prev = prev.last();
        assert(is_plain_entry(prev[prev.len() - 1]));
        assert(last_prev.len() > 0);
        assert(strip_cr(last_prev) == last_prev);
        assert(prev.drop_last().push(last_prev) =~= prev);
        assert(split_state(head) == (prev, Seq::<char>::empty()));
        assert(is_plain_entry(ls[ls.len() - 1]));
        lemma_split_plain(head, ls.last());
        assert(Seq::<char>::empty() + ls.last() =~= ls.last());
    }
}

/// Lines that all start with the scheme prefix are all kept.
proof fn lemma_entries_keep_all(ls: Seq<Seq<char>>)
    requires
        forall|i: int| 0 <= i < ls.len() ==> is_entry(#[trigger] ls[i]),
    ensures
        entries(ls) == ls,
    decreases ls.len(),
{
    if ls.len() > 0 {
        let prev = ls.drop_last();
        assert(forall|i: int| 0 <= i < prev.len() ==> prev[i] == ls[i]);
        lemma_entries_keep_all(prev);
        assert(is_entry(ls[ls.len() - 1]));
        assert(prev.push(ls.last()) =~= ls);
    }
}

/// Every line that is kept starts with the scheme prefix.
proof fn lemma_entries_are_entries(ls: Seq<Seq<char>>)
    ensures
        forall|i: int| 0 <= i < entries(ls).len() ==> is_entry(#[trigger] entries(ls)[i]),
    decreases ls.len(),
{
    if ls.len() > 0 {
        let prev = entries(ls.drop_last());
        lemma_entries_are_entries(ls.drop_last());
        if is_entry(ls.last()) {
            assert forall|i: int| 0 <= i < entries(ls).len() implies is_entry(#[trigger] entries(ls)[i]) by {
                if i < prev.len() {
                    assert(entries(ls)[i] == prev[i]);
                }
            }
        }
    }
}

/// Text written from stored lines (each starting with the scheme prefix,
/// holding no newline and not ending in a carriage return) loads back as
/// those lines, in order, so writing them out again gives the same text.
pub proof fn lemma_load_save_round_trip(ls: Seq<Seq<char>>)
    requires
        forall|i: int| 0 <= i < ls.len() ==> is_plain_entry(#[trigger] ls[i]),
    ensures
        load_spec(join_spec(ls)) == ls,
        join_spec(load_spec(join_spec(ls))) == join_spec(ls),
{
    reveal_strlit("otpauth://");
    if ls.len() == 0 {
        assert(split_state(Seq::<char>::empty()) == (Seq::<Seq<char>>::empty(), Seq::<char>::empty()));
    } else {
        lemma_split_join(ls);
        assert(is_plain_entry(ls[ls.len() - 1]));
        assert(ls.drop_last().push(ls.last()) =~= ls);
    }
    lemma_entries_keep_all(ls);
}

/// After loading, no line remains that does not start with the scheme prefix.
pub proof fn lemma_load_keeps_entries_only(text: Seq<char>)
    ensures
        forall|i: int| 0 <= i < load_spec(text).len() ==> is_entry(#[trigger] load_spec(text)[i]),
{
    lemma_entries_are_entries(text_lines(text));
}

} // verus!
