//! The memory mappings of a process, as `/proc/<pid>/maps` lists them.
//!
//! A line reads `start-end perms offset dev_major:dev_minor inode name`, the
//! two bounds in hexadecimal. The parser takes the fields in that order, each
//! up to its delimiter, and keeps only the range and the name.

use vstd::prelude::*;
use crate::utils::text::{
    chars_of, contains_chars, contains_seq, copy_range, find_from, find_in,
    find_other_from, find_other_in, hex_lower, lemma_parse_hex_lower, parse_hex_in,
    parse_hex_usize, string_from_chars,
};

verus! {

/// One mapped region: `size` bytes from `start` on.
#[derive(Debug, Clone, Copy)]
pub struct MemoryMap {
    pub start: usize,
    pub size: usize,
}

/// Why a line of the maps file could not be read: a delimiter that was not
/// found, a line with nothing after the inode, or a bound that is not a
/// hexadecimal `usize`.
#[derive(Debug, Clone, Copy, PartialEq, Eq)]
pub enum MapsError {
    /// No `-` after the start address.
    FindBase,
    /// No space after the end address.
    FindCeiling,
    /// No space after the permissions.
    FindPermissions,
    /// No space after the offset.
    FindOffset,
    /// No `:` after the device major number.
    FindDevMajor,
    /// No space after the device minor number.
    FindDevMinor,
    /// No space after the inode.
    FindInode,
    /// Only spaces, or nothing, after the inode.
    NoName,
    /// The start address is not a hexadecimal `usize`.
    ParseBase,
    /// The end address is not a hexadecimal `usize`.
    ParseCeiling,
}

impl MemoryMap {
    /// The first address past the region.
    pub fn end(&self) -> (e: usize)
        requires
            self.start + self.size <= usize::MAX,
        ensures
            e == self.start + self.size,
    {
        self.start + self.size
    }
}

/// Where the fields of a line end: the `-` after the start address, the
/// space after the end address, and the first character of the name.
pub open spec fn field_bounds(s: Seq<char>) -> Result<(int, int, int), MapsError> {
    match find_from(s, 0, '-') {
        None => Err(MapsError::FindBase),
        Some(p1) => match find_from(s, p1 + 1, ' ') {
            None => Err(MapsError::FindCeiling),
            Some(p2) => match find_from(s, p2 + 1, ' ') {
                None => Err(MapsError::FindPermissions),
                Some(p3) => match find_from(s, p3 + 1, ' ') {
                    None => Err(MapsError::FindOffset),
                    Some(p4) => match find_from(s, p4 + 1, ':') {
                        None => Err(MapsError::FindDevMajor),
                        Some(p5) => match find_from(s, p5 + 1, ' ') {
                            None => Err(MapsError::FindDevMinor),
                            Some(p6) => match find_from(s, p6 + 1, ' ') {
                                None => Err(MapsError::FindInode),
                                Some(p7) => match find_other_from(s, p7 + 1, ' ') {
                                    None => Err(MapsError::NoName),
                                    Some(n) => Ok((p1, p2, n)),
                                },
                            },
                        },
                    },
                },
            },
        },
    }
}

/// The start address, the end address and the name that a line holds.
pub open spec fn line_fields(s: Seq<char>) -> Result<(usize, usize, Seq<char>), MapsError> {
    match field_bounds(s) {
        Err(e) => Err(e),
        Ok((p1, p2, n)) => match parse_hex_usize(s.subrange(0, p1)) {
            None => Err(MapsError::ParseBase),
            Some(start) => match parse_hex_usize(s.subrange(p1 + 1, p2)) {
                None => Err(MapsError::ParseCeiling),
                Some(ceiling) => Ok((start, ceiling, s.subrange(n, s.len() as int))),
            },
        },
    }
}

/// The end address of a line that reads is not below its start address
/// (a region of negative size cannot be formed).
pub open spec fn line_in_order(s: Seq<char>) -> bool {
    line_fields(s) matches Ok((start, ceiling, _)) ==> start <= ceiling
}

/// The region and the name that a line describes.
pub open spec fn spec_from_line(s: Seq<char>) -> Result<(MemoryMap, Seq<char>), MapsError> {
    match line_fields(s) {
        Err(e) => Err(e),
        Ok((start, ceiling, name)) => Ok(
            (MemoryMap { start, size: (ceiling - start) as usize }, name),
        ),
    }
}

/// The lines of `s` that end in a newline, in order; text after the last
/// newline is not a line.
pub open spec fn proc_lines(s: Seq<char>) -> Seq<Seq<char>>
    decreases s.len(),
{
    match find_from(s, 0, '\n') {
        None => seq![],
        Some(j) => {
            proof {
                lemma_find_from_bounds(s, 0, '\n');
            }
            seq![s.take(j)] + proc_lines(s.skip(j + 1))
        },
    }
}

/// Adds one more region under `name`, after those that it already has.
pub open spec fn add_to(
    m: Map<Seq<char>, Seq<MemoryMap>>,
    name: Seq<char>,
    region: MemoryMap,
) -> Map<Seq<char>, Seq<MemoryMap>> {
    if m.contains_key(name) {
        m.insert(name, m[name].push(region))
    } else {
        m.insert(name, seq![region])
    }
}

/// Adds what one line describes; a line that does not read adds nothing.
pub open spec fn add_line(m: Map<Seq<char>, Seq<MemoryMap>>, line: Seq<char>) -> Map<
    Seq<char>,
    Seq<MemoryMap>,
> {
    match spec_from_line(line) {
        Ok((region, name)) => add_to(m, name, region),
        Err(_) => m,
    }
}

/// The regions of the given lines, grouped by name, in the order of the lines.
pub open spec fn group_lines(lines: Seq<Seq<char>>) -> Map<Seq<char>, Seq<MemoryMap>>
    decreases lines.len(),
{
    if lines.len() == 0 {
        Map::empty()
    } else {
        add_line(group_lines(lines.drop_last()), lines.last())
    }
}

/// What a whole maps file describes.
pub open spec fn spec_parse_proc_maps(buffer: Seq<char>) -> Map<Seq<char>, Seq<MemoryMap>> {
    group_lines(proc_lines(buffer))
}

/// Every line of the file that reads has its end address not below its start.
pub open spec fn lines_in_order(buffer: Seq<char>) -> bool {
    forall|k: int|
        0 <= k < proc_lines(buffer).len() ==> #[trigger] line_in_order(proc_lines(buffer)[k])
}


/// The regions of the readable lines named `name`, in the order of the lines.
pub open spec fn regions_named(lines: Seq<Seq<char>>, name: Seq<char>) -> Seq<MemoryMap>
    decreases lines.len(),
{
    if lines.len() == 0 {
        seq![]
    } else {
        let before = regions_named(lines.drop_last(), name);
        match spec_from_line(lines.last()) {
            Ok((region, n)) => if n == name {
                before.push(region)
            } else {
                before
            },
            Err(_) => before,
        }
    }
}

proof fn lemma_group_lines(lines: Seq<Seq<char>>, name: Seq<char>)
    ensures
        group_lines(lines).contains_key(name) <==> regions_named(lines, name).len() > 0,
        group_lines(lines).contains_key(name) ==> group_lines(lines)[name] == regions_named(
            lines,
            name,
        ),
    decreases lines.len(),
{
    if lines.len() > 0 {
        lemma_group_lines(lines.drop_last(), name);
    }
}

/// A maps file holds a name exactly when one of its readable lines carries
/// it, and then the name's regions are those of its lines, in file order.
pub proof fn law_parse_groups_by_name(buffer: Seq<char>, name: Seq<char>)
    ensures
        spec_parse_proc_maps(buffer).contains_key(name) <==> regions_named(
            proc_lines(buffer),
            name,
        ).len() > 0,
        spec_parse_proc_maps(buffer).contains_key(name) ==> spec_parse_proc_maps(buffer)[name]
            == regions_named(proc_lines(buffer), name),
{
    lemma_group_lines(proc_lines(buffer), name);
}

/// The region that a line describes runs from its start address up to, not
/// including, its end address.
pub proof fn law_region_spans_line(s: Seq<char>)
    requires
        line_in_order(s),
    ensures
        spec_from_line(s) matches Ok((region, _)) ==> (line_fields(s) matches Ok(
            (start, ceiling, _),
        ) && region.start == start && region.start + region.size == ceiling),
{
}


/// `find_from` skips characters other than `c` up to one that is `c`.
proof fn lemma_find_from_skips(s: Seq<char>, from: int, j: int, c: char)
    requires
        0 <= from <= j < s.len(),
        s[j] == c,
        forall|k: int| from <= k < j ==> s[k] != c,
    ensures
        find_from(s, from, c) == Some(j),
    decreases j - from,
{
    if from < j {
        lemma_find_from_skips(s, from + 1, j, c);
    }
}

/// A file of one line reads as that line does on its own.
pub proof fn law_single_line_file(line: Seq<char>)
    requires
        !line.contains('\n'),
    ensures
        spec_parse_proc_maps(line.push('\n')) == add_line(Map::empty(), line),
{
    lemma_single_line_lines(line);
    let lines = proc_lines(line.push('\n'));
    assert(lines.drop_last() =~= Seq::<Seq<char>>::empty());
    assert(group_lines(lines.drop_last()) == Map::<Seq<char>, Seq<MemoryMap>>::empty());
}


/// `x`, then the delimiter `c`, then `rest`.
#[verifier::opaque]
pub open spec fn field_then(x: Seq<char>, c: char, rest: Seq<char>) -> Seq<char> {
    x + seq![c] + rest
}

/// A maps line made of its fields: `start-end perms offset major:minor inode name`,
/// one delimiter between fields.
pub open spec fn maps_line(
    start: Seq<char>,
    end: Seq<char>,
    perms: Seq<char>,
    offset: Seq<char>,
    major: Seq<char>,
    minor: Seq<char>,
    inode: Seq<char>,
    name: Seq<char>,
) -> Seq<char> {
    field_then(
        start,
        '-',
        field_then(
            end,
            ' ',
            field_then(
                perms,
                ' ',
                field_then(
                    offset,
                    ' ',
                    field_then(major, ':', field_then(minor, ' ', field_then(inode, ' ', name))),
                ),
            ),
        ),
    )
}

/// What a line reads as, given its start field, its end field and what
/// follows its inode: the name is checked first, then the start, then the end.
pub open spec fn fields_read(start: Seq<char>, end: Seq<char>, name: Seq<char>) -> Result<
    (usize, usize, Seq<char>),
    MapsError,
> {
    match find_other_from(name, 0, ' ') {
        None => Err(MapsError::NoName),
        Some(k) => match parse_hex_usize(start) {
            None => Err(MapsError::ParseBase),
            Some(a) => match parse_hex_usize(end) {
                None => Err(MapsError::ParseCeiling),
                Some(b) => Ok((a, b, name.skip(k))),
            },
        },
    }
}

proof fn lemma_segment(s: Seq<char>, off: int, x: Seq<char>, c: char, t: Seq<char>)
    requires
        0 <= off <= s.len(),
        s.subrange(off, s.len() as int) == field_then(x, c, t),
    ensures
        off + x.len() < s.len(),
        s.subrange(off, off + x.len()) == x,
        s[off + x.len()] == c,
        s.subrange(off + x.len() + 1, s.len() as int) == t,
{
    reveal(field_then);
    let f = field_then(x, c, t);
    assert(f.len() == x.len() + 1 + t.len());
    assert forall|k: int| 0 <= k < f.len() implies s[off + k] == f[k] by {
        assert(s.subrange(off, s.len() as int)[k] == s[off + k]);
    }
    assert(s[off + x.len()] == f[x.len() as int]);
    assert(s.subrange(off, off + x.len()) =~= x) by {
        assert forall|k: int| 0 <= k < x.len() implies s.subrange(off, off + x.len())[k] == x[k] by {
            assert(s[off + k] == f[k]);
        }
    }
    assert(s.subrange(off + x.len() + 1, s.len() as int) =~= t) by {
        assert forall|k: int| 0 <= k < t.len() implies s.subrange(
            off + x.len() + 1,
            s.len() as int,
        )[k] == t[k] by {
            assert(s[off + x.len() + 1 + k] == f[x.len() + 1 + k]);
        }
    }
}

proof fn lemma_find_at(s: Seq<char>, from: int, x: Seq<char>, c: char)
    requires
        0 <= from,
        from + x.len() < s.len(),
        s.subrange(from, from + x.len()) == x,
        s[from + x.len()] == c,
        !x.contains(c),
    ensures
        find_from(s, from, c) == Some(from + x.len()),
{
    assert forall|k: int| from <= k < from + x.len() implies s[k] != c by {
        assert(s[k] == s.subrange(from, from + x.len())[k - from]);
        assert(x.contains(x[k - from]));
    }
    lemma_find_from_skips(s, from, from + x.len(), c);
}

proof fn lemma_find_other_tail(s: Seq<char>, from: int, n: Seq<char>, k: int, c: char)
    requires
        0 <= from <= s.len(),
        s.subrange(from, s.len() as int) == n,
        0 <= k,
    ensures
        find_other_from(s, from + k, c) == (match find_other_from(n, k, c) {
            Some(j) => Some(j + from),
            None => None,
        }),
    decreases n.len() - k,
{
    if k < n.len() {
        assert(s[from + k] == s.subrange(from, s.len() as int)[k]);
        if n[k] == c {
            lemma_find_other_tail(s, from, n, k + 1, c);
        }
    }
}

/// A line laid out field by field reads as its start field, its end field and
/// what follows its inode say, whatever its permission, offset, device and
/// inode fields hold (those contain no delimiter of their own).
pub proof fn law_line_layout(
    start: Seq<char>,
    end: Seq<char>,
    perms: Seq<char>,
    offset: Seq<char>,
    major: Seq<char>,
    minor: Seq<char>,
    inode: Seq<char>,
    name: Seq<char>,
)
    requires
        !start.contains('-'),
        !end.contains(' '),
        !perms.contains(' '),
        !offset.contains(' '),
        !major.contains(':'),
        !minor.contains(' '),
        !inode.contains(' '),
    ensures
        line_fields(maps_line(start, end, perms, offset, major, minor, inode, name))
            == fields_read(start, end, name),
{
    let t6 = field_then(inode, ' ', name);
    let t5 = field_then(minor, ' ', t6);
    let t4 = field_then(major, ':', t5);
    let t3 = field_then(offset, ' ', t4);
    let t2 = field_then(perms, ' ', t3);
    let t1 = field_then(end, ' ', t2);
    let s = maps_line(start, end, perms, offset, major, minor, inode, name);
    assert(s == field_then(start, '-', t1));
    assert(s.subrange(0, s.len() as int) =~= s);
    lemma_segment(s, 0, start, '-', t1);
    lemma_find_at(s, 0, start, '-');
    let p1 = start.len() as int;
    lemma_segment(s, p1 + 1, end, ' ', t2);
    lemma_find_at(s, p1 + 1, end, ' ');
    let p2 = p1 + 1 + end.len();
    lemma_segment(s, p2 + 1, perms, ' ', t3);
    lemma_find_at(s, p2 + 1, perms, ' ');
    let p3 = p2 + 1 + perms.len();
    lemma_segment(s, p3 + 1, offset, ' ', t4);
    lemma_find_at(s, p3 + 1, offset, ' ');
    let p4 = p3 + 1 + offset.len();
    lemma_segment(s, p4 + 1, major, ':', t5);
    lemma_find_at(s, p4 + 1, major, ':');
    let p5 = p4 + 1 + major.len();
    lemma_segment(s, p5 + 1, minor, ' ', t6);
    lemma_find_at(s, p5 + 1, minor, ' ');
    let p6 = p5 + 1 + minor.len();
    lemma_segment(s, p6 + 1, inode, ' ', name);
    lemma_find_at(s, p6 + 1, inode, ' ');
    let p7 = p6 + 1 + inode.len();
    lemma_find_other_tail(s, p7 + 1, name, 0, ' ');
    lemma_find_other_bounds(name, 0, ' ');
    assert(s.len() == p7 + 1 + name.len());
    if let Some(k) = find_other_from(name, 0, ' ') {
        assert(field_bounds(s) == Ok::<(int, int, int), MapsError>((p1, p2, p7 + 1 + k)));
        assert(s.subrange(p7 + 1 + k, s.len() as int) =~= name.skip(k)) by {
            assert forall|q: int| 0 <= q < name.len() - k implies s.subrange(
                p7 + 1 + k,
                s.len() as int,
            )[q] == name.skip(k)[q] by {
                assert(s[p7 + 1 + k + q] == s.subrange(p7 + 1, s.len() as int)[k + q]);
            }
        }
    } else {
        assert(field_bounds(s) == Err::<(int, int, int), MapsError>(MapsError::NoName));
    }
}

/// The permission, offset, device and inode fields are neither checked nor
/// returned: two lines that differ only there read alike.
pub proof fn law_middle_fields_ignored(
    start: Seq<char>,
    end: Seq<char>,
    name: Seq<char>,
    perms1: Seq<char>,
    offset1: Seq<char>,
    major1: Seq<char>,
    minor1: Seq<char>,
    inode1: Seq<char>,
    perms2: Seq<char>,
    offset2: Seq<char>,
    major2: Seq<char>,
    minor2: Seq<char>,
    inode2: Seq<char>,
)
    requires
        !start.contains('-'),
        !end.contains(' '),
        !perms1.contains(' '),
        !offset1.contains(' '),
        !major1.contains(':'),
        !minor1.contains(' '),
        !inode1.contains(' '),
        !perms2.contains(' '),
        !offset2.contains(' '),
        !major2.contains(':'),
        !minor2.contains(' '),
        !inode2.contains(' '),
    ensures
        spec_from_line(maps_line(start, end, perms1, offset1, major1, minor1, inode1, name))
            == spec_from_line(maps_line(start, end, perms2, offset2, major2, minor2, inode2, name)),
{
    law_line_layout(start, end, perms1, offset1, major1, minor1, inode1, name);
    law_line_layout(start, end, perms2, offset2, major2, minor2, inode2, name);
}

/// A line written out with lower-case hexadecimal bounds `a <= b` (as
/// `format!("{:x}-{:x} ...")` writes them) and a name that does not start
/// with a space reads back as the region from `a` to `b` and that name.
pub proof fn law_formatted_line_reads_back(
    a: usize,
    b: usize,
    perms: Seq<char>,
    offset: Seq<char>,
    major: Seq<char>,
    minor: Seq<char>,
    inode: Seq<char>,
    name: Seq<char>,
)
    requires
        a <= b,
        !perms.contains(' '),
        !offset.contains(' '),
        !major.contains(':'),
        !minor.contains(' '),
        !inode.contains(' '),
        name.len() > 0,
        name[0] != ' ',
    ensures
        ({
            let line = maps_line(
                hex_lower(a as nat),
                hex_lower(b as nat),
                perms,
                offset,
                major,
                minor,
                inode,
                name,
            );
            &&& line_in_order(line)
            &&& spec_from_line(line) == Ok::<(MemoryMap, Seq<char>), MapsError>(
                (MemoryMap { start: a, size: (b - a) as usize }, name),
            )
        }),
{
    crate::utils::text::lemma_hex_lower(a as nat);
    crate::utils::text::lemma_hex_lower(b as nat);
    lemma_parse_hex_lower(a);
    lemma_parse_hex_lower(b);
    law_line_layout(hex_lower(a as nat), hex_lower(b as nat), perms, offset, major, minor, inode, name);
    assert(find_other_from(name, 0, ' ') == Some(0int));
    assert(name.skip(0) =~= name);
}

/// `find_other_from` gives an index at or after `from`, inside the sequence.
proof fn lemma_find_other_bounds(s: Seq<char>, from: int, c: char)
    ensures
        find_other_from(s, from, c) matches Some(j) ==> 0 <= from <= j < s.len(),
    decreases s.len() - from,
{
    if 0 <= from < s.len() && s[from] == c {
        lemma_find_other_bounds(s, from + 1, c);
    }
}


/// The number of regions over all names of `m`.
pub open spec fn total_regions(m: Map<Seq<char>, Seq<MemoryMap>>) -> nat
    decreases m.dom().len(),
    when m.dom().finite()
{
    if m.dom().len() == 0 {
        0
    } else {
        let k = m.dom().choose();
        proof {
            vstd::set::axiom_set_choose_len(m.dom());
            vstd::set::axiom_set_remove_len(m.dom(), k);
            assert(m.remove(k).dom() =~= m.dom().remove(k));
        }
        m[k].len() + total_regions(m.remove(k))
    }
}

/// The number of lines that read.
pub open spec fn readable_count(lines: Seq<Seq<char>>) -> nat
    decreases lines.len(),
{
    if lines.len() == 0 {
        0
    } else {
        readable_count(lines.drop_last()) + if spec_from_line(lines.last()) is Ok {
            1nat
        } else {
            0nat
        }
    }
}

proof fn lemma_total_remove(m: Map<Seq<char>, Seq<MemoryMap>>, k: Seq<char>)
    requires
        m.dom().finite(),
        m.contains_key(k),
    ensures
        total_regions(m) == m[k].len() + total_regions(m.remove(k)),
    decreases m.dom().len(),
{
    vstd::set::axiom_set_remove_len(m.dom(), k);
    assert(m.remove(k).dom() =~= m.dom().remove(k));
    assert(m.dom().len() != 0);
    let k0 = m.dom().choose();
    vstd::set::axiom_set_choose_len(m.dom());
    if k0 != k {
        let m0 = m.remove(k0);
        vstd::set::axiom_set_remove_len(m.dom(), k0);
        assert(m0.dom() =~= m.dom().remove(k0));
        lemma_total_remove(m0, k);
        let mk = m.remove(k);
        assert(mk.contains_key(k0));
        lemma_total_remove(mk, k0);
        assert(m0.remove(k) =~= mk.remove(k0));
    }
}

proof fn lemma_total_add_to(m: Map<Seq<char>, Seq<MemoryMap>>, name: Seq<char>, region: MemoryMap)
    requires
        m.dom().finite(),
    ensures
        add_to(m, name, region).dom().finite(),
        total_regions(add_to(m, name, region)) == total_regions(m) + 1,
{
    let m2 = add_to(m, name, region);
    assert(m2.dom() =~= m.dom().insert(name));
    lemma_total_remove(m2, name);
    if m.contains_key(name) {
        lemma_total_remove(m, name);
        assert(m2.remove(name) =~= m.remove(name));
    } else {
        assert(m2.remove(name) =~= m);
    }
}

proof fn lemma_group_counts(lines: Seq<Seq<char>>)
    ensures
        group_lines(lines).dom().finite(),
        forall|k: Seq<char>| #[trigger]
            group_lines(lines).contains_key(k) ==> group_lines(lines)[k].len() > 0,
        total_regions(group_lines(lines)) == readable_count(lines),
    decreases lines.len(),
{
    if lines.len() == 0 {
        assert(group_lines(lines).dom() =~= Set::<Seq<char>>::empty());
    } else {
        let p = lines.drop_last();
        lemma_group_counts(p);
        let m = group_lines(p);
        match spec_from_line(lines.last()) {
            Ok((region, name)) => {
                lemma_total_add_to(m, name, region);
            },
            Err(_) => {},
        }
    }
}

/// Every line of a maps file that reads lands in exactly one name's regions:
/// the names are finitely many, none has an empty list, and the regions of
/// all names together are as many as the lines that read.
pub proof fn law_each_line_in_one_vector(buffer: Seq<char>)
    ensures
        spec_parse_proc_maps(buffer).dom().finite(),
        forall|k: Seq<char>| #[trigger]
            spec_parse_proc_maps(buffer).contains_key(k) ==> spec_parse_proc_maps(buffer)[k].len()
                > 0,
        total_regions(spec_parse_proc_maps(buffer)) == readable_count(proc_lines(buffer)),
{
    lemma_group_counts(proc_lines(buffer));
}


/// `find_from` finds a `c` that is there, no later than it.
proof fn lemma_find_from_some(s: Seq<char>, from: int, m: int, c: char)
    requires
        0 <= from <= m < s.len(),
        s[m] == c,
    ensures
        find_from(s, from, c) matches Some(j) && j <= m,
    decreases m - from,
{
    if s[from] != c {
        lemma_find_from_some(s, from + 1, m, c);
    }
}

/// `find_from` skips only characters other than `c`.
proof fn lemma_find_from_first(s: Seq<char>, from: int, c: char)
    ensures
        find_from(s, from, c) matches Some(j) ==> forall|k: int| from <= k < j ==> s[k] != c,
    decreases s.len() - from,
{
    if 0 <= from < s.len() && s[from] != c {
        lemma_find_from_first(s, from + 1, c);
    }
}

/// Text that is empty or ends in a newline: whole lines only.
pub open spec fn whole_lines(x: Seq<char>) -> bool {
    x.len() == 0 || x.last() == '\n'
}

proof fn lemma_proc_lines_concat(x: Seq<char>, y: Seq<char>)
    requires
        whole_lines(x),
    ensures
        proc_lines(x + y) == proc_lines(x) + proc_lines(y),
    decreases x.len(),
{
    if x.len() == 0 {
        assert(x + y =~= y);
        assert(proc_lines(x) =~= Seq::<Seq<char>>::empty());
        assert(proc_lines(x) + proc_lines(y) =~= proc_lines(y));
    } else {
        let m = x.len() - 1;
        lemma_find_from_some(x, 0, m, '\n');
        lemma_find_from_bounds(x, 0, '\n');
        lemma_find_from_first(x, 0, '\n');
        let j = find_from(x, 0, '\n')->0;
        let s = x + y;
        assert forall|k: int| 0 <= k < j implies s[k] != '\n' by {
            assert(s[k] == x[k]);
        }
        assert(s[j] == x[j]);
        lemma_find_from_skips(s, 0, j, '\n');
        let x2 = x.skip(j + 1);
        assert(s.take(j) =~= x.take(j));
        assert(s.skip(j + 1) =~= x2 + y);
        if x2.len() > 0 {
            assert(x2.last() == x.last());
        }
        lemma_proc_lines_concat(x2, y);
        assert(proc_lines(s) == seq![s.take(j)] + proc_lines(s.skip(j + 1)));
        assert(proc_lines(x) == seq![x.take(j)] + proc_lines(x2));
        assert(proc_lines(s) =~= proc_lines(x) + proc_lines(y));
    }
}

proof fn lemma_regions_named_concat(l1: Seq<Seq<char>>, l2: Seq<Seq<char>>, n: Seq<char>)
    ensures
        regions_named(l1 + l2, n) == regions_named(l1, n) + regions_named(l2, n),
    decreases l2.len(),
{
    if l2.len() == 0 {
        assert(l1 + l2 =~= l1);
        assert(regions_named(l1, n) + regions_named(l2, n) =~= regions_named(l1, n));
    } else {
        lemma_regions_named_concat(l1, l2.drop_last(), n);
        assert((l1 + l2).drop_last() =~= l1 + l2.drop_last());
        assert((l1 + l2).last() == l2.last());
        assert(regions_named(l1 + l2, n) =~= regions_named(l1, n) + regions_named(l2, n));
    }
}

/// The regions that `m` files under `n`, none if it does not hold `n`.
pub open spec fn regions_of(m: Map<Seq<char>, Seq<MemoryMap>>, n: Seq<char>) -> Seq<MemoryMap> {
    if m.contains_key(n) {
        m[n]
    } else {
        seq![]
    }
}

proof fn lemma_regions_of_parse(buffer: Seq<char>, n: Seq<char>)
    ensures
        regions_of(spec_parse_proc_maps(buffer), n) == regions_named(proc_lines(buffer), n),
{
    law_parse_groups_by_name(buffer, n);
    if !spec_parse_proc_maps(buffer).contains_key(n) {
        assert(regions_named(proc_lines(buffer), n) =~= Seq::<MemoryMap>::empty());
    }
}

/// Reading two maps files one after the other merges them: each name holds
/// its regions from the first file, then those from the second.
pub proof fn law_concat_merges(x: Seq<char>, y: Seq<char>)
    requires
        whole_lines(x),
    ensures
        forall|n: Seq<char>| #[trigger]
            regions_of(spec_parse_proc_maps(x + y), n) == regions_of(spec_parse_proc_maps(x), n)
                + regions_of(spec_parse_proc_maps(y), n),
{
    lemma_proc_lines_concat(x, y);
    assert forall|n: Seq<char>| #[trigger]
        regions_of(spec_parse_proc_maps(x + y), n) == regions_of(spec_parse_proc_maps(x), n)
            + regions_of(spec_parse_proc_maps(y), n) by {
        lemma_regions_of_parse(x + y, n);
        lemma_regions_of_parse(x, n);
        lemma_regions_of_parse(y, n);
        lemma_regions_named_concat(proc_lines(x), proc_lines(y), n);
    }
}

proof fn lemma_single_line_lines(line: Seq<char>)
    requires
        !line.contains('\n'),
    ensures
        proc_lines(line.push('\n')) == seq![line],
{
    let s = line.push('\n');
    assert forall|k: int| 0 <= k < line.len() implies s[k] != '\n' by {
        assert(s[k] == line[k]);
    }
    lemma_find_from_skips(s, 0, line.len() as int, '\n');
    assert(s.take(line.len() as int) =~= line);
    assert(s.skip(line.len() as int + 1) =~= Seq::<char>::empty());
    assert(proc_lines(Seq::<char>::empty()) =~= Seq::<Seq<char>>::empty());
    assert(proc_lines(s) == seq![s.take(line.len() as int)] + proc_lines(
        s.skip(line.len() as int + 1),
    ));
    assert(proc_lines(s) =~= seq![line]);
}

proof fn lemma_group_skip(a: Seq<Seq<char>>, line: Seq<char>, l2: Seq<Seq<char>>)
    requires
        spec_from_line(line) is Err,
    ensures
        group_lines(a.push(line) + l2) == group_lines(a + l2),
    decreases l2.len(),
{
    if l2.len() == 0 {
        assert(a.push(line) + l2 =~= a.push(line));
        assert(a + l2 =~= a);
        assert(a.push(line).drop_last() =~= a);
    } else {
        lemma_group_skip(a, line, l2.drop_last());
        assert((a.push(line) + l2).drop_last() =~= a.push(line) + l2.drop_last());
        assert((a + l2).drop_last() =~= a + l2.drop_last());
        assert((a.push(line) + l2).last() == l2.last());
        assert((a + l2).last() == l2.last());
    }
}

/// A line that does not read adds nothing: taking it out of a file does not
/// change what the file reads as.
pub proof fn law_unreadable_line_skipped(x: Seq<char>, line: Seq<char>, y: Seq<char>)
    requires
        whole_lines(x),
        !line.contains('\n'),
        spec_from_line(line) is Err,
    ensures
        spec_parse_proc_maps(x + line.push('\n') + y) == spec_parse_proc_maps(x + y),
{
    let lp = line.push('\n');
    assert(x + lp + y =~= x + (lp + y));
    lemma_proc_lines_concat(x, lp + y);
    lemma_proc_lines_concat(lp, y);
    lemma_single_line_lines(line);
    lemma_proc_lines_concat(x, y);
    let a = proc_lines(x);
    let b = proc_lines(y);
    assert(proc_lines(x + lp + y) =~= a.push(line) + b);
    lemma_group_skip(a, line, b);
}


/// A line whose bounds are written with a leading zero reads as the same
/// region and name as without it.
pub proof fn law_zero_padded_bounds(
    start: Seq<char>,
    end: Seq<char>,
    perms: Seq<char>,
    offset: Seq<char>,
    major: Seq<char>,
    minor: Seq<char>,
    inode: Seq<char>,
    name: Seq<char>,
)
    requires
        start.len() > 0,
        start[0] != '+',
        end.len() > 0,
        end[0] != '+',
        !start.contains('-'),
        !end.contains(' '),
        !perms.contains(' '),
        !offset.contains(' '),
        !major.contains(':'),
        !minor.contains(' '),
        !inode.contains(' '),
    ensures
        spec_from_line(
            maps_line(seq!['0'] + start, seq!['0'] + end, perms, offset, major, minor, inode, name),
        ) == spec_from_line(maps_line(start, end, perms, offset, major, minor, inode, name)),
{
    let zs = seq!['0'] + start;
    let ze = seq!['0'] + end;
    assert(!zs.contains('-')) by {
        assert forall|k: int| 0 <= k < zs.len() implies zs[k] != '-' by {
            if k > 0 {
                assert(zs[k] == start[k - 1]);
                assert(start.contains(start[k - 1]));
            }
        }
    }
    assert(!ze.contains(' ')) by {
        assert forall|k: int| 0 <= k < ze.len() implies ze[k] != ' ' by {
            if k > 0 {
                assert(ze[k] == end[k - 1]);
                assert(end.contains(end[k - 1]));
            }
        }
    }
    crate::utils::text::law_hex_zero_padding(start);
    crate::utils::text::law_hex_zero_padding(end);
    law_line_layout(zs, ze, perms, offset, major, minor, inode, name);
    law_line_layout(start, end, perms, offset, major, minor, inode, name);
}

/// `find_from` gives the first occurrence at or after `from`.
pub proof fn lemma_find_from_bounds(s: Seq<char>, from: int, c: char)
    ensures
        find_from(s, from, c) matches Some(j) ==> {
            &&& 0 <= from <= j < s.len()
            &&& s[j] == c
        },
    decreases s.len() - from,
{
    if 0 <= from < s.len() && s[from] != c {
        lemma_find_from_bounds(s, from + 1, c);
    }
}

/// One name of the maps file and its regions.
#[derive(Debug)]
pub struct MapsEntry {
    pub name: String,
    pub maps: Vec<MemoryMap>,
}

/// The regions of a maps file, grouped by name; each name is there once.
#[derive(Debug)]
pub struct Maps {
    entries: Vec<MapsEntry>,
}

/// The names of the entries are pairwise different.
pub open spec fn names_distinct(s: Seq<MapsEntry>) -> bool {
    forall|i: int, j: int| 0 <= i < j < s.len() ==> s[i].name@ != s[j].name@
}

/// The entries seen as a map from name to regions.
pub open spec fn entries_view(s: Seq<MapsEntry>) -> Map<Seq<char>, Seq<MemoryMap>>
    decreases s.len(),
{
    if s.len() == 0 {
        Map::empty()
    } else {
        entries_view(s.drop_last()).insert(s.last().name@, s.last().maps@)
    }
}

impl View for Maps {
    type V = Map<Seq<char>, Seq<MemoryMap>>;

    closed spec fn view(&self) -> Map<Seq<char>, Seq<MemoryMap>> {
        entries_view(self.entries@)
    }
}

/// The keys of the view are the names of the entries, and each key maps to
/// the regions of its entry.
proof fn lemma_view_entries(s: Seq<MapsEntry>)
    requires
        names_distinct(s),
    ensures
        forall|k: Seq<char>|
            #[trigger] entries_view(s).contains_key(k) <==> exists|i: int|
                0 <= i < s.len() && s[i].name@ == k,
        forall|i: int|
            0 <= i < s.len() ==> entries_view(s).contains_key(#[trigger] s[i].name@)
                && entries_view(s)[s[i].name@] == s[i].maps@,
    decreases s.len(),
{
    if s.len() > 0 {
        let p = s.drop_last();
        lemma_view_entries(p);
        assert forall|k: Seq<char>| #[trigger]
            entries_view(s).contains_key(k) <==> exists|i: int|
                0 <= i < s.len() && s[i].name@ == k by {
            if entries_view(s).contains_key(k) {
                if k != s.last().name@ {
                    assert(entries_view(p).contains_key(k));
                    let i = choose|i: int| 0 <= i < p.len() && p[i].name@ == k;
                    assert(s[i] == p[i]);
                } else {
                    assert(s[s.len() - 1].name@ == k);
                }
            }
            if exists|i: int| 0 <= i < s.len() && s[i].name@ == k {
                let i = choose|i: int| 0 <= i < s.len() && s[i].name@ == k;
                if i < s.len() - 1 {
                    assert(s[i] == p[i]);
                    assert(entries_view(p).contains_key(p[i].name@));
                }
            }
        }
        assert forall|i: int| 0 <= i < s.len() implies entries_view(s).contains_key(
            #[trigger] s[i].name@,
        ) && entries_view(s)[s[i].name@] == s[i].maps@ by {
            if i < s.len() - 1 {
                assert(s[i] == p[i]);
                assert(entries_view(p).contains_key(p[i].name@));
                assert(s[i].name@ != s.last().name@);
            }
        }
    }
}

/// Replacing an entry by one of the same name replaces its regions.
proof fn lemma_view_update(s: Seq<MapsEntry>, j: int, e: MapsEntry)
    requires
        names_distinct(s),
        0 <= j < s.len(),
        e.name@ == s[j].name@,
    ensures
        names_distinct(s.update(j, e)),
        entries_view(s.update(j, e)) == entries_view(s).insert(e.name@, e.maps@),
    decreases s.len(),
{
    let t = s.update(j, e);
    if j == s.len() - 1 {
        assert(t.drop_last() =~= s.drop_last());
        assert(entries_view(t) =~= entries_view(s).insert(e.name@, e.maps@));
    } else {
        lemma_view_update(s.drop_last(), j, e);
        assert(t.drop_last() =~= s.drop_last().update(j, e));
        assert(entries_view(t) =~= entries_view(s).insert(e.name@, e.maps@));
    }
}

/// Removing an entry removes its name.
proof fn lemma_view_remove(s: Seq<MapsEntry>, j: int)
    requires
        names_distinct(s),
        0 <= j < s.len(),
    ensures
        names_distinct(s.remove(j)),
        entries_view(s.remove(j)) == entries_view(s).remove(s[j].name@),
    decreases s.len(),
{
    let t = s.remove(j);
    let p = s.drop_last();
    lemma_view_entries(p);
    if j == s.len() - 1 {
        assert(t =~= p);
        assert(!entries_view(p).contains_key(s[j].name@)) by {
            if entries_view(p).contains_key(s[j].name@) {
                let i = choose|i: int| 0 <= i < p.len() && p[i].name@ == s[j].name@;
                assert(s[i] == p[i]);
            }
        }
        assert(entries_view(t) =~= entries_view(s).remove(s[j].name@));
    } else {
        lemma_view_remove(p, j);
        assert(t.drop_last() =~= p.remove(j));
        assert(t.last() == s.last());
        assert(entries_view(t) =~= entries_view(s).remove(s[j].name@));
    }
}


/// The view has one key per entry.
proof fn lemma_view_len(s: Seq<MapsEntry>)
    requires
        names_distinct(s),
    ensures
        entries_view(s).dom().finite(),
        entries_view(s).len() == s.len(),
    decreases s.len(),
{
    if s.len() > 0 {
        let p = s.drop_last();
        lemma_view_len(p);
        lemma_view_entries(p);
        assert(!entries_view(p).contains_key(s.last().name@)) by {
            if entries_view(p).contains_key(s.last().name@) {
                let i = choose|i: int| 0 <= i < p.len() && p[i].name@ == s.last().name@;
                assert(s[i] == p[i]);
            }
        }
    }
}

/// Whether two character sequences are equal.
fn chars_equal(a: &Vec<char>, b: &Vec<char>) -> (r: bool)
    ensures
        r == (a@ == b@),
{
    if a.len() != b.len() {
        return false;
    }
    let mut i: usize = 0;
    while i < a.len()
        invariant
            a.len() == b.len(),
            i <= a.len(),
            forall|k: int| 0 <= k < i ==> a@[k] == b@[k],
        decreases a.len() - i,
    {
        if a[i] != b[i] {
            return false;
        }
        i = i + 1;
    }
    assert(a@ =~= b@);
    true
}

impl Maps {
    /// The names are pairwise different.
    pub closed spec fn wf(&self) -> bool {
        names_distinct(self.entries@)
    }

    /// No regions at all.
    pub fn new() -> (r: Maps)
        ensures
            r.wf(),
            r@ == Map::<Seq<char>, Seq<MemoryMap>>::empty(),
    {
        Maps { entries: Vec::new() }
    }


    /// The number of names.
    pub fn len(&self) -> (n: usize)
        requires
            self.wf(),
        ensures
            n == self@.len(),
    {
        proof {
            lemma_view_entries(self.entries@);
            lemma_view_len(self.entries@);
        }
        self.entries.len()
    }

    /// The regions filed under `name`, if any.
    pub fn get(&self, name: &str) -> (r: Option<&Vec<MemoryMap>>)
        requires
            self.wf(),
        ensures
            match r {
                Some(regions) => self@.contains_key(name@) && regions@ == self@[name@],
                None => !self@.contains_key(name@),
            },
    {
        proof {
            lemma_view_entries(self.entries@);
        }
        let wanted = chars_of(name);
        let len = self.entries.len();
        let mut i: usize = 0;
        while i < len
            invariant
                len == self.entries.len(),
                names_distinct(self.entries@),
                wanted@ == name@,
                forall|p: int| 0 <= p < i ==> #[trigger] self.entries@[p].name@ != name@,
            decreases len - i,
        {
            let have = chars_of(self.entries[i].name.as_str());
            if chars_equal(&have, &wanted) {
                proof {
                    lemma_view_entries(self.entries@);
                }
                return Some(&self.entries[i].maps);
            }
            i = i + 1;
        }
        proof {
            if self@.contains_key(name@) {
                let p = choose|p: int| 0 <= p < self.entries@.len() && self.entries@[p].name@ == name@;
            }
        }
        None
    }

    /// Files `region` under `name`, after the regions already there.
    fn add(&mut self, name: String, region: MemoryMap)
        requires
            old(self).wf(),
        ensures
            final(self).wf(),
            final(self)@ == add_to(old(self)@, name@, region),
    {
        proof {
            lemma_view_entries(self.entries@);
        }
        let len = self.entries.len();
        let mut i: usize = 0;
        while i < len
            invariant
                len == self.entries.len(),
                names_distinct(self.entries@),
                self.entries@ == old(self).entries@,
                forall|p: int| 0 <= p < i ==> self.entries@[p].name@ != name@,
            decreases len - i,
        {
            if self.entries[i].name == name {
                let mut entry = self.entries.remove(i);
                let ghost old_entries = self.entries@;
                entry.maps.push(region);
                self.entries.insert(i, entry);
                proof {
                    let s = old(self).entries@;
                    assert(self.entries@ =~= s.update(i as int, entry));
                    assert(s[i as int].name@ == name@);
                    lemma_view_entries(s);
                    lemma_view_update(s, i as int, entry);
                    assert(old(self)@[name@] == s[i as int].maps@);
                    assert(entry.maps@ == s[i as int].maps@.push(region));
                    assert(self@ =~= add_to(old(self)@, name@, region));
                }
                return;
            }
            i = i + 1;
        }
        let ghost s = self.entries@;
        let entry = MapsEntry { name, maps: vec![region] };
        assert(entry.maps@ =~= seq![region]);
        self.entries.push(entry);
        proof {
            assert(self.entries@.drop_last() =~= s);
            assert(!entries_view(s).contains_key(name@)) by {
                if entries_view(s).contains_key(name@) {
                    let p = choose|p: int| 0 <= p < s.len() && s[p].name@ == name@;
                }
            }
        }
    }
}

/// Finds the `-` and space delimiters of a line `buf[lo..hi)` and the start
/// of its name.
fn scan_fields(buf: &Vec<char>, lo: usize, hi: usize) -> (r: Result<(usize, usize, usize), MapsError>)
    requires
        lo <= hi <= buf.len(),
    ensures
        match r {
            Ok((p1, p2, n)) => {
                &&& field_bounds(buf@.subrange(lo as int, hi as int)) == Ok::<(int, int, int), MapsError>((p1 as int, p2 as int, n as int))
                &&& p1 < p2 < n < hi - lo
            },
            Err(e) => field_bounds(buf@.subrange(lo as int, hi as int)) == Err::<(int, int, int), MapsError>(e),
        },
{
    let p1 = match find_in(buf, lo, hi, 0, '-') {
        None => return Err(MapsError::FindBase),
        Some(p) => p,
    };
    let p2 = match find_in(buf, lo, hi, p1 + 1, ' ') {
        None => return Err(MapsError::FindCeiling),
        Some(p) => p,
    };
    let p3 = match find_in(buf, lo, hi, p2 + 1, ' ') {
        None => return Err(MapsError::FindPermissions),
        Some(p) => p,
    };
    let p4 = match find_in(buf, lo, hi, p3 + 1, ' ') {
        None => return Err(MapsError::FindOffset),
        Some(p) => p,
    };
    let p5 = match find_in(buf, lo, hi, p4 + 1, ':') {
        None => return Err(MapsError::FindDevMajor),
        Some(p) => p,
    };
    let p6 = match find_in(buf, lo, hi, p5 + 1, ' ') {
        None => return Err(MapsError::FindDevMinor),
        Some(p) => p,
    };
    let p7 = match find_in(buf, lo, hi, p6 + 1, ' ') {
        None => return Err(MapsError::FindInode),
        Some(p) => p,
    };
    let n = match find_other_in(buf, lo, hi, p7 + 1, ' ') {
        None => return Err(MapsError::NoName),
        Some(p) => p,
    };
    Ok((p1, p2, n))
}

/// Reads the line `buf[lo..hi)`: its region, and its name.
fn from_line_in(buf: &Vec<char>, lo: usize, hi: usize) -> (r: Result<(MemoryMap, String), MapsError>)
    requires
        lo <= hi <= buf.len(),
        line_in_order(buf@.subrange(lo as int, hi as int)),
    ensures
        match r {
            Ok((region, name)) => spec_from_line(buf@.subrange(lo as int, hi as int)) == Ok::<(MemoryMap, Seq<char>), MapsError>((region, name@)),
            Err(e) => spec_from_line(buf@.subrange(lo as int, hi as int)) == Err::<(MemoryMap, Seq<char>), MapsError>(e),
        },
{
    let ghost line = buf@.subrange(lo as int, hi as int);
    let (p1, p2, n) = match scan_fields(buf, lo, hi) {
        Err(e) => return Err(e),
        Ok(b) => b,
    };
    assert(line.subrange(0, p1 as int) =~= buf@.subrange(lo as int, lo + p1));
    assert(line.subrange(p1 + 1, p2 as int) =~= buf@.subrange(lo + p1 + 1, lo + p2));
    assert(line.subrange(n as int, line.len() as int) =~= buf@.subrange(lo + n, hi as int));
    let start = match parse_hex_in(buf, lo, lo + p1) {
        None => return Err(MapsError::ParseBase),
        Some(v) => v,
    };
    let ceiling = match parse_hex_in(buf, lo + p1 + 1, lo + p2) {
        None => return Err(MapsError::ParseCeiling),
        Some(v) => v,
    };
    let name = string_from_chars(copy_range(buf, lo + n, hi));
    let size = ceiling - start;
    Ok((MemoryMap { start, size }, name))
}

impl MemoryMap {
    /// Reads one line of a maps file: the region it describes and the name
    /// after its inode (the rest of the line, from its first non-space
    /// character on). A line whose end address is below its start address is
    /// outside what this function takes.
    pub fn from_line(s: &str) -> (r: Result<(MemoryMap, String), MapsError>)
        requires
            line_in_order(s@),
        ensures
            match r {
                Ok((region, name)) => spec_from_line(s@) == Ok::<(MemoryMap, Seq<char>), MapsError>((region, name@)),
                Err(e) => spec_from_line(s@) == Err::<(MemoryMap, Seq<char>), MapsError>(e),
            },
    {
        let buf = chars_of(s);
        assert(buf@.subrange(0, buf.len() as int) =~= s@);
        from_line_in(&buf, 0, buf.len())
    }
}

/// Reads a whole maps file: every line that ends in a newline is read as
/// `MemoryMap::from_line` reads it, lines that do not read are skipped, and the
/// regions are grouped by name, each name's regions in the order of their
/// lines. A file with a line whose end address is below its start address is
/// outside what this function takes (`maps_in_order` tells).
pub fn parse_proc_maps(buffer: &str) -> (r: Maps)
    requires
        lines_in_order(buffer@),
    ensures
        r.wf(),
        r@ == spec_parse_proc_maps(buffer@),
{
    let buf = chars_of(buffer);
    let len = buf.len();
    let mut result = Maps::new();
    let mut i: usize = 0;
    let ghost mut done: Seq<Seq<char>> = seq![];
    assert(buf@.skip(0) =~= buf@);
    assert(done + proc_lines(buf@.skip(0)) =~= proc_lines(buf@));
    loop
        invariant
            i <= len == buf.len(),
            buf@ == buffer@,
            lines_in_order(buffer@),
            result.wf(),
            done + proc_lines(buf@.skip(i as int)) == proc_lines(buf@),
            result@ == group_lines(done),
            forall|k: int|
                0 <= k < proc_lines(buf@.skip(i as int)).len() ==> #[trigger] line_in_order(
                    proc_lines(buf@.skip(i as int))[k],
                ),
        ensures
            result.wf(),
            result@ == group_lines(proc_lines(buf@)),
        decreases len - i,
    {
        let ghost rest = buf@.skip(i as int);
        assert(buf@.subrange(i as int, len as int) =~= rest);
        match find_in(&buf, i, len, 0, '\n') {
            None => {
                assert(proc_lines(rest) =~= Seq::<Seq<char>>::empty());
                assert(done =~= proc_lines(buf@));
                break ;
            },
            Some(j) => {
                let ghost line = rest.take(j as int);
                let ghost rest2 = rest.skip(j + 1);
                assert(line =~= buf@.subrange(i as int, i + j));
                assert(rest2 =~= buf@.skip(i + j + 1));
                assert(proc_lines(rest) == seq![line] + proc_lines(rest2));
                assert(proc_lines(rest)[0] == line);
                assert(line_in_order(proc_lines(rest)[0]));
                match from_line_in(&buf, i, i + j) {
                    Ok((region, name)) => {
                        result.add(name, region);
                    },
                    Err(_) => {},
                }
                proof {
                    assert(done.push(line).drop_last() =~= done);
                    assert(done.push(line) + proc_lines(rest2) =~= done + proc_lines(rest));
                    assert forall|k: int| 0 <= k < proc_lines(rest2).len() implies #[trigger] line_in_order(
                        proc_lines(rest2)[k],
                    ) by {
                        assert(proc_lines(rest2)[k] == proc_lines(rest)[k + 1]);
                    }
                    done = done.push(line);
                }
                i = i + j + 1;
            },
        }
    }
    result
}

/// Whether every line of a maps file that reads has its end address not below
/// its start address, so that `parse_proc_maps` takes the file.
pub fn maps_in_order(buffer: &str) -> (r: bool)
    ensures
        r == lines_in_order(buffer@),
{
    let buf = chars_of(buffer);
    let len = buf.len();
    let mut i: usize = 0;
    let ghost mut done: Seq<Seq<char>> = seq![];
    assert(buf@.skip(0) =~= buf@);
    assert(done + proc_lines(buf@.skip(0)) =~= proc_lines(buf@));
    loop
        invariant
            i <= len == buf.len(),
            buf@ == buffer@,
            done + proc_lines(buf@.skip(i as int)) == proc_lines(buf@),
            forall|k: int| 0 <= k < done.len() ==> #[trigger] line_in_order(done[k]),
        ensures
            lines_in_order(buffer@),
        decreases len - i,
    {
        let ghost rest = buf@.skip(i as int);
        assert(buf@.subrange(i as int, len as int) =~= rest);
        match find_in(&buf, i, len, 0, '\n') {
            None => {
                assert(proc_lines(rest) =~= Seq::<Seq<char>>::empty());
                assert(done =~= proc_lines(buf@));
                break ;
            },
            Some(j) => {
                let ghost line = rest.take(j as int);
                let ghost rest2 = rest.skip(j + 1);
                assert(line =~= buf@.subrange(i as int, i + j));
                assert(rest2 =~= buf@.skip(i + j + 1));
                assert(proc_lines(rest) == seq![line] + proc_lines(rest2));
                assert(proc_lines(buf@)[done.len() as int] == line);
                match scan_fields(&buf, i, i + j) {
                    Ok((p1, p2, _)) => {
                        assert(line.subrange(0, p1 as int) =~= buf@.subrange(i as int, i + p1));
                        assert(line.subrange(p1 + 1, p2 as int) =~= buf@.subrange(
                            i + p1 + 1,
                            i + p2,
                        ));
                        let start = parse_hex_in(&buf, i, i + p1);
                        let ceiling = parse_hex_in(&buf, i + p1 + 1, i + p2);
                        match (start, ceiling) {
                            (Some(s), Some(c)) => {
                                if s > c {
                                    assert(!line_in_order(proc_lines(buf@)[done.len() as int]));
                                    return false;
                                }
                            },
                            _ => {},
                        }
                    },
                    Err(_) => {},
                }
                proof {
                    assert(done.push(line) + proc_lines(rest2) =~= done + proc_lines(rest));
                    done = done.push(line);
                }
                i = i + j + 1;
            },
        }
    }
    true
}

/// Takes out of `maps` a name that holds `name_part`, with its regions; which
/// one, where several do, is left open. `None`, and `maps` unchanged, where no
/// name holds it.
pub fn find_closest_map(maps: &mut Maps, name_part: &str) -> (r: Option<(String, Vec<MemoryMap>)>)
    requires
        old(maps).wf(),
    ensures
        final(maps).wf(),
        match r {
            None => {
                &&& final(maps)@ == old(maps)@
                &&& forall|k: Seq<char>| #[trigger]
                    old(maps)@.contains_key(k) ==> !contains_seq(k, name_part@)
            },
            Some((name, regions)) => {
                &&& old(maps)@.contains_key(name@)
                &&& contains_seq(name@, name_part@)
                &&& regions@ == old(maps)@[name@]
                &&& final(maps)@ == old(maps)@.remove(name@)
            },
        },
{
    proof {
        lemma_view_entries(maps.entries@);
    }
    let needle = chars_of(name_part);
    let len = maps.entries.len();
    let mut i: usize = 0;
    while i < len
        invariant
            len == maps.entries.len(),
            maps.entries@ == old(maps).entries@,
            names_distinct(maps.entries@),
            needle@ == name_part@,
            forall|p: int|
                0 <= p < i ==> !contains_seq(#[trigger] maps.entries@[p].name@, name_part@),
        decreases len - i,
    {
        let hay = chars_of(maps.entries[i].name.as_str());
        if contains_chars(&hay, &needle) {
            let ghost s = maps.entries@;
            let entry = maps.entries.remove(i);
            proof {
                lemma_view_entries(s);
                lemma_view_remove(s, i as int);
            }
            return Some((entry.name, entry.maps));
        }
        i = i + 1;
    }
    proof {
        let s = maps.entries@;
        assert forall|k: Seq<char>| #[trigger]
            old(maps)@.contains_key(k) implies !contains_seq(k, name_part@) by {
            let p = choose|p: int| 0 <= p < s.len() && s[p].name@ == k;
        }
    }
    None
}

} // verus!
