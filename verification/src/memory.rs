//! The resident set size out of the text of a process status file.

use crate::ratio::{Fraction, Ratio};
use crate::text::{parse_number, parse_unsigned};
use vstd::prelude::*;

verus! {

/// How many kilobytes a megabyte has.
pub const KB_PER_MB: u64 = 1024;

/// The line feed that ends a line.
pub const LINE_END: u8 = 0x0A;

/// `VmRSS:`, the start of the line that holds the resident set size.
pub open spec fn rss_label() -> Seq<u8> {
    seq![0x56u8, 0x6Du8, 0x52u8, 0x53u8, 0x53u8, 0x3Au8]
}

/// Whether a byte is white space: a blank or one of tab, line feed,
/// vertical tab, form feed and carriage return.
pub open spec fn is_space(b: u8) -> bool {
    b == 0x20 || (0x09 <= b <= 0x0D)
}

/// The first index from `i` on that holds a line feed, or the length.
pub open spec fn line_stop(s: Seq<u8>, i: int) -> int
    decreases s.len() - i,
{
    if 0 <= i < s.len() && s[i] != LINE_END {
        line_stop(s, i + 1)
    } else {
        i
    }
}

/// The first index from `i` on that holds no white space, or the length.
pub open spec fn spaces_stop(s: Seq<u8>, i: int) -> int
    decreases s.len() - i,
{
    if 0 <= i < s.len() && is_space(s[i]) {
        spaces_stop(s, i + 1)
    } else {
        i
    }
}

/// The first index from `i` on that holds white space, or the length.
pub open spec fn word_stop(s: Seq<u8>, i: int) -> int
    decreases s.len() - i,
{
    if 0 <= i < s.len() && !is_space(s[i]) {
        word_stop(s, i + 1)
    } else {
        i
    }
}

/// Where the second word of a line starts.
pub open spec fn second_word_start(line: Seq<u8>) -> int {
    spaces_stop(line, word_stop(line, spaces_stop(line, 0)))
}

/// The second of the words that white space parts a line into; empty where
/// the line has fewer.
pub open spec fn second_word(line: Seq<u8>) -> Seq<u8> {
    let start = second_word_start(line);
    line.subrange(start, word_stop(line, start))
}

/// Whether `s` starts with `prefix`.
pub open spec fn starts_with(s: Seq<u8>, prefix: Seq<u8>) -> bool {
    s.len() >= prefix.len() && s.take(prefix.len() as int) == prefix
}

/// The number of kilobytes that a line reports: its second word read as a
/// number, where the line starts with the label.
pub open spec fn line_rss(line: Seq<u8>) -> Option<nat> {
    if starts_with(line, rss_label()) {
        parse_unsigned(second_word(line), u64::MAX as nat)
    } else {
        None
    }
}

/// The resident set size in kilobytes that a status text reports: what the
/// first line reports that reports any.
pub open spec fn status_rss(status: Seq<u8>) -> Option<nat>
    decreases status.len(),
{
    let stop = line_stop(status, 0);
    if status.len() == 0 {
        None
    } else if line_rss(status.take(stop)) is Some {
        line_rss(status.take(stop))
    } else if 0 <= stop < status.len() {
        status_rss(status.skip(stop + 1))
    } else {
        None
    }
}

/// The end of the line that starts at `from`.
fn find_line_stop(s: &[u8], from: usize) -> (stop: usize)
    requires
        from <= s.len(),
    ensures
        stop == line_stop(s@, from as int),
        from <= stop <= s.len(),
{
    let mut i: usize = from;
    while i < s.len() && s[i] != LINE_END
        invariant
            from <= i <= s@.len(),
            line_stop(s@, from as int) == line_stop(s@, i as int),
        decreases s@.len() - i,
    {
        i = i + 1;
    }
    i
}

/// The end of the white space that starts at `from`, before `end`.
fn find_spaces_stop(s: &[u8], from: usize, end: usize) -> (stop: usize)
    requires
        from <= end <= s.len(),
    ensures
        stop == spaces_stop(s@.take(end as int), from as int),
        from <= stop <= end,
{
    let ghost line = s@.take(end as int);
    let mut i: usize = from;
    while i < end && (s[i] == 0x20 || (s[i] >= 0x09 && s[i] <= 0x0D))
        invariant
            from <= i <= end <= s@.len(),
            line == s@.take(end as int),
            spaces_stop(line, from as int) == spaces_stop(line, i as int),
        decreases end - i,
    {
        assert(line[i as int] == s@[i as int]);
        i = i + 1;
    }
    proof {
        if i < end {
            assert(line[i as int] == s@[i as int]);
        }
    }
    i
}

/// The end of the word that starts at `from`, before `end`.
fn find_word_stop(s: &[u8], from: usize, end: usize) -> (stop: usize)
    requires
        from <= end <= s.len(),
    ensures
        stop == word_stop(s@.take(end as int), from as int),
        from <= stop <= end,
{
    let ghost line = s@.take(end as int);
    let mut i: usize = from;
    while i < end && !(s[i] == 0x20 || (s[i] >= 0x09 && s[i] <= 0x0D))
        invariant
            from <= i <= end <= s@.len(),
            line == s@.take(end as int),
            word_stop(line, from as int) == word_stop(line, i as int),
        decreases end - i,
    {
        assert(line[i as int] == s@[i as int]);
        i = i + 1;
    }
    proof {
        if i < end {
            assert(line[i as int] == s@[i as int]);
        }
    }
    i
}

/// What one line reports.
fn parse_rss_line(line: &[u8]) -> (kb: Option<u64>)
    ensures
        match kb {
            Some(value) => line_rss(line@) == Some(value as nat),
            None => line_rss(line@) is None,
        },
{
    let label: [u8; 6] = [0x56, 0x6D, 0x52, 0x53, 0x53, 0x3A];
    assert(label@ =~= rss_label());
    if line.len() < 6 {
        return None;
    }
    let mut i: usize = 0;
    while i < 6
        invariant
            i <= 6 <= line@.len(),
            label@ == rss_label(),
            forall|j: int| 0 <= j < i ==> line@[j] == rss_label()[j],
        decreases 6 - i,
    {
        if line[i] != label[i] {
            assert(line@.take(6)[i as int] != rss_label()[i as int]);
            return None;
        }
        i = i + 1;
    }
    assert(line@.take(6) =~= rss_label());
    let end: usize = line.len();
    assert(line@.take(end as int) =~= line@);
    let a = find_spaces_stop(line, 0, end);
    let b = find_word_stop(line, a, end);
    let c = find_spaces_stop(line, b, end);
    let d = find_word_stop(line, c, end);
    let word = vstd::slice::slice_subrange(line, c, d);
    parse_number(word, u64::MAX)
}

/// The resident set size in kilobytes that the text of a status file
/// reports, or `None` where no line reports one.
pub fn parse_vm_rss_kb(status: &[u8]) -> (kb: Option<u64>)
    ensures
        match kb {
            Some(value) => status_rss(status@) == Some(value as nat),
            None => status_rss(status@) is None,
        },
{
    let mut from: usize = 0;
    assert(status@.skip(0) =~= status@);
    while from < status.len()
        invariant
            from <= status@.len(),
            status_rss(status@) == status_rss(status@.skip(from as int)),
        decreases status@.len() - from,
    {
        let ghost rest = status@.skip(from as int);
        let stop = find_line_stop(status, from);
        let line = vstd::slice::slice_subrange(status, from, stop);
        proof {
            lemma_line_stop_skip(status@, from as int, from as int);
            assert(line@ =~= rest.take(stop - from));
        }
        let found = parse_rss_line(line);
        if found.is_some() {
            return found;
        }
        if stop == status.len() {
            return None;
        }
        assert(rest.skip(stop - from + 1) =~= status@.skip(stop + 1));
        from = stop + 1;
    }
    assert(status@.skip(from as int).len() == 0);
    None
}

/// The end of a line is the same seen from the start of the text or from
/// a later start within it.
pub proof fn lemma_line_stop_skip(s: Seq<u8>, from: int, i: int)
    requires
        0 <= from <= i <= s.len(),
    ensures
        line_stop(s.skip(from), i - from) == line_stop(s, i) - from,
    decreases s.len() - i,
{
    let rest = s.skip(from);
    if i < s.len() {
        assert(rest[i - from] == s[i]);
        if s[i] != LINE_END {
            lemma_line_stop_skip(s, from, i + 1);
        }
    }
}

/// The resident set size in megabytes: the kilobytes over 1024, or zero
/// where the text reports none.
pub open spec fn status_rss_mb(status: Seq<u8>) -> Fraction {
    match status_rss(status) {
        Some(kb) => Fraction { num: kb, den: KB_PER_MB as nat },
        None => Fraction::zero(),
    }
}

/// The resident set size in megabytes that the text of a status file
/// reports, or zero where it reports none.
pub fn memory_mb_from_status(status: &[u8]) -> (mb: Ratio)
    ensures
        mb@ == status_rss_mb(status@),
{
    match parse_vm_rss_kb(status) {
        Some(kb) => Ratio::new(kb as u128, KB_PER_MB as u128),
        None => Ratio::zero(),
    }
}

} // verus!
