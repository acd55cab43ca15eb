//! Reading the mount table: which mount points belong to a device.

use crate::text::char_vec;
use vstd::prelude::*;

verus! {

broadcast use vstd::string::group_string_axioms;

/// One mount point of a device.
#[derive(Debug, Clone)]
pub struct MountConfig {
    pub mount_point: String,
}

/// The mount points held by `configs`, in order.
pub open spec fn mount_points_of(configs: Seq<MountConfig>) -> Seq<Seq<char>> {
    configs.map_values(|m: MountConfig| m.mount_point@)
}

/// The index of the first newline at or after `from`, or the length of `t`.
pub open spec fn newline_index(t: Seq<char>, from: int) -> int
    decreases t.len() - from,
{
    if from >= t.len() || t[from] == '\n' {
        from
    } else {
        newline_index(t, from + 1)
    }
}

/// A line as read: a carriage return before its newline is dropped.
pub open spec fn strip_cr(line: Seq<char>, terminated: bool) -> Seq<char> {
    if terminated && line.len() > 0 && line.last() == '\r' {
        line.drop_last()
    } else {
        line
    }
}

/// The lines of `t` from index `start`; a newline ends a line, and the text
/// after the last newline is a line only where it is not empty.
pub open spec fn lines_from(t: Seq<char>, start: int) -> Seq<Seq<char>>
    decreases t.len() - start,
{
    let e = newline_index(t, start);
    if start < 0 || start >= t.len() || e < start || e > t.len() {
        Seq::empty()
    } else if e == t.len() {
        seq![t.subrange(start, e)]
    } else {
        seq![strip_cr(t.subrange(start, e), true)] + lines_from(t, e + 1)
    }
}

/// ASCII white space, which separates the fields of a mount-table line.
pub open spec fn is_ascii_white(c: char) -> bool {
    c == ' ' || c == '\t' || c == '\n' || c == '\x0C' || c == '\r'
}

/// The first index at or after `i` that is not white space, or the length.
pub open spec fn skip_white(s: Seq<char>, i: int) -> int
    decreases s.len() - i,
{
    if i < 0 || i >= s.len() || !is_ascii_white(s[i]) {
        i
    } else {
        skip_white(s, i + 1)
    }
}

/// The first index at or after `i` that is white space, or the length.
pub open spec fn skip_word(s: Seq<char>, i: int) -> int
    decreases s.len() - i,
{
    if i < 0 || i >= s.len() || is_ascii_white(s[i]) {
        i
    } else {
        skip_word(s, i + 1)
    }
}

/// The second white-space separated field of `line`: the mount point.
pub open spec fn second_field(line: Seq<char>) -> Option<Seq<char>> {
    let c = skip_white(line, skip_word(line, skip_white(line, 0)));
    if c < line.len() {
        Some(line.subrange(c, skip_word(line, c)))
    } else {
        None
    }
}

/// Whether `line` starts with `prefix`.
pub open spec fn starts_with(line: Seq<char>, prefix: Seq<char>) -> bool {
    prefix.len() <= line.len() && line.subrange(0, prefix.len() as int) == prefix
}

/// The mount point that `line` gives for `device`, if any.
pub open spec fn mount_of_line(device: Seq<char>, line: Seq<char>) -> Seq<Seq<char>> {
    if starts_with(line, device) && second_field(line) is Some {
        seq![second_field(line)->0]
    } else {
        Seq::empty()
    }
}

/// The mount points that `lines` give for `device`, in order.
pub open spec fn mounts_in_lines(device: Seq<char>, lines: Seq<Seq<char>>) -> Seq<Seq<char>>
    decreases lines.len(),
{
    if lines.len() == 0 {
        Seq::empty()
    } else {
        mount_of_line(device, lines[0]) + mounts_in_lines(device, lines.drop_first())
    }
}

/// The mount points that the mount table `table` gives for `device`: the
/// second field of every line whose source field starts with `device`.
pub open spec fn mounts_in_table(device: Seq<char>, table: Seq<char>) -> Seq<Seq<char>> {
    mounts_in_lines(device, lines_from(table, 0))
}

fn newline_after(cs: &Vec<char>, from: usize) -> (e: usize)
    requires
        from <= cs@.len(),
    ensures
        e == newline_index(cs@, from as int),
        from <= e <= cs@.len(),
{
    let mut e = from;
    while e < cs.len() && cs[e] != '\n'
        invariant
            from <= e <= cs@.len(),
            newline_index(cs@, from as int) == newline_index(cs@, e as int),
        decreases cs.len() - e,
    {
        e = e + 1;
    }
    e
}

fn is_ascii_white_char(c: char) -> (r: bool)
    ensures
        r == is_ascii_white(c),
{
    c == ' ' || c == '\t' || c == '\n' || c == '\x0C' || c == '\r'
}

fn white_end(s: &Vec<char>, from: usize) -> (i: usize)
    requires
        from <= s@.len(),
    ensures
        i == skip_white(s@, from as int),
        from <= i <= s@.len(),
{
    let mut i = from;
    while i < s.len() && is_ascii_white_char(s[i])
        invariant
            from <= i <= s@.len(),
            skip_white(s@, from as int) == skip_white(s@, i as int),
        decreases s.len() - i,
    {
        i = i + 1;
    }
    i
}

fn word_end(s: &Vec<char>, from: usize) -> (i: usize)
    requires
        from <= s@.len(),
    ensures
        i == skip_word(s@, from as int),
        from <= i <= s@.len(),
{
    let mut i = from;
    while i < s.len() && !is_ascii_white_char(s[i])
        invariant
            from <= i <= s@.len(),
            skip_word(s@, from as int) == skip_word(s@, i as int),
        decreases s.len() - i,
    {
        i = i + 1;
    }
    i
}

/// The characters `cs[from..to]` as a `Vec`.
fn slice_chars(cs: &Vec<char>, from: usize, to: usize) -> (r: Vec<char>)
    requires
        from <= to <= cs@.len(),
    ensures
        r@ == cs@.subrange(from as int, to as int),
{
    let mut r: Vec<char> = Vec::new();
    let mut i = from;
    while i < to
        invariant
            from <= i <= to <= cs@.len(),
            r@ == cs@.subrange(from as int, i as int),
        decreases to - i,
    {
        r.push(cs[i]);
        i = i + 1;
        assert(r@ =~= cs@.subrange(from as int, i as int));
    }
    r
}

/// Whether the characters `line` start with `prefix`.
fn starts_with_chars(line: &Vec<char>, prefix: &Vec<char>) -> (r: bool)
    ensures
        r == starts_with(line@, prefix@),
{
    if prefix.len() > line.len() {
        return false;
    }
    let mut i: usize = 0;
    while i < prefix.len()
        invariant
            i <= prefix@.len() <= line@.len(),
            forall|k: int| 0 <= k < i ==> line@[k] == prefix@[k],
        decreases prefix.len() - i,
    {
        if line[i] != prefix[i] {
            assert(line@.subrange(0, prefix@.len() as int)[i as int] != prefix@[i as int]);
            return false;
        }
        i = i + 1;
    }
    assert(line@.subrange(0, prefix@.len() as int) =~= prefix@);
    true
}

/// Where in `line` the mount point for `device` stands, if it gives one.
fn mount_range(device: &Vec<char>, line: &Vec<char>) -> (r: Option<(usize, usize)>)
    ensures
        r is Some <==> mount_of_line(device@, line@).len() == 1,
        r is None ==> mount_of_line(device@, line@) == Seq::<Seq<char>>::empty(),
        r matches Some((a, b)) ==> a <= b <= line@.len() && mount_of_line(device@, line@) == seq![
            line@.subrange(a as int, b as int),
        ],
{
    if !starts_with_chars(line, device) {
        return None;
    }
    let a = white_end(line, 0);
    let b = word_end(line, a);
    let c = white_end(line, b);
    if c < line.len() {
        let d = word_end(line, c);
        Some((c, d))
    } else {
        None
    }
}

/// The mount points that the mount table `table` gives for `device`: the
/// second field of each line whose source field starts with `device`.
pub fn mounts_for(device: &str, table: &str) -> (r: Vec<MountConfig>)
    ensures
        mount_points_of(r@) == mounts_in_table(device@, table@),
{
    let dev = char_vec(device);
    let cs = char_vec(table);
    let mut r: Vec<MountConfig> = Vec::new();
    let mut start: usize = 0;
    while start < cs.len()
        invariant
            start <= cs@.len(),
            cs@ == table@,
            dev@ == device@,
            mount_points_of(r@) + mounts_in_lines(device@, lines_from(table@, start as int))
                == mounts_in_table(device@, table@),
        decreases cs.len() - start,
    {
        let e = newline_after(&cs, start);
        let mut end = e;
        if e < cs.len() && e > start && cs[e - 1] == '\r' {
            end = e - 1;
        }
        let line = slice_chars(&cs, start, end);
        assert(line@ == strip_cr(table@.subrange(start as int, e as int), e < cs@.len()));
        let ghost rest = if e < cs@.len() { lines_from(table@, e + 1) } else { Seq::empty() };
        let ghost ls = lines_from(table@, start as int);
        assert(ls == seq![line@] + rest);
        assert(ls[0] == line@);
        assert(ls.drop_first() =~= rest);
        let ghost before = mount_points_of(r@);
        match mount_range(&dev, &line) {
            Some((a, b)) => {
                assert(table@.subrange(start + a, start + b) =~= line@.subrange(a as int, b as int));
                let m = String::from_str(table.substring_char(start + a, start + b));
                r.push(MountConfig { mount_point: m });
                assert(mount_points_of(r@) =~= before + seq![m@]);
            },
            None => {},
        }
        assert(mount_points_of(r@) + mounts_in_lines(device@, rest) =~= before + mounts_in_lines(device@, ls));
        if e < cs.len() {
            start = e + 1;
        } else {
            start = e;
        }
    }
    assert(mount_points_of(r@) + mounts_in_lines(device@, lines_from(table@, start as int)) =~= mount_points_of(r@));
    r
}

}
