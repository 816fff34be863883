use vstd::prelude::*;
use vstd::string::*;
use crate::text::{colon_fields, is_content_line, number_or_zero, split_on, strings_view, split_char, trim_str, starts_with_hash, field_number};

verus! {

/// One group of a group file.
#[derive(Debug, Clone)]
pub struct GroupEntry {
    pub name: String,
    pub gid: u32,
    pub members: Vec<String>,
    pub source: String,
}

/// The groups of `entries` whose name is exactly `name`, in file order.
pub open spec fn groups_named(entries: Seq<GroupEntry>, name: Seq<char>) -> Seq<GroupEntry>
    decreases entries.len(),
{
    if entries.len() == 0 {
        seq![]
    } else {
        let rest = groups_named(entries.drop_last(), name);
        if entries.last().name@ == name {
            rest.push(entries.last())
        } else {
            rest
        }
    }
}

/// All groups named `name`, in file order.
pub fn resolve_group_from_group<'a>(name: &str, entries: &'a [GroupEntry]) -> (r: Vec<&'a GroupEntry>)
    ensures
        r@.map_values(|e: &GroupEntry| *e) == groups_named(entries@, name@),
{
    let key = String::from_str(name);
    let mut r: Vec<&'a GroupEntry> = Vec::new();
    let mut i: usize = 0;
    while i < entries.len()
        invariant
            i <= entries@.len(),
            key@ == name@,
            r@.map_values(|e: &GroupEntry| *e) == groups_named(entries@.take(i as int), name@),
        decreases entries@.len() - i,
    {
        let e = &entries[i];
        let ghost prev = r@;
        assert(entries@.take(i + 1).drop_last() == entries@.take(i as int));
        if e.name == key {
            r.push(e);
            assert(r@ == prev.push(e));
        }
        assert(r@.map_values(|e: &GroupEntry| *e) =~= groups_named(entries@.take(i + 1), name@));
        i = i + 1;
    }
    assert(entries@.take(entries@.len() as int) == entries@);
    r
}


/// Whether a line of a group file holds a group: not blank, not a comment,
/// and at least four fields.
pub open spec fn is_group_line(line: Seq<char>) -> bool {
    is_content_line(line) && colon_fields(line).len() >= 4
}

/// The fields of each group line of `lines`, in order.
pub open spec fn group_lines(lines: Seq<Seq<char>>) -> Seq<Seq<Seq<char>>>
    decreases lines.len(),
{
    if lines.len() == 0 {
        seq![]
    } else {
        let r = group_lines(lines.drop_last());
        if is_group_line(lines.last()) {
            r.push(colon_fields(lines.last()))
        } else {
            r
        }
    }
}

/// The members that a member field lists: none where it is empty, else its
/// comma-separated pieces.
pub open spec fn members_of(field: Seq<char>) -> Seq<Seq<char>> {
    if field.len() == 0 {
        seq![]
    } else {
        split_on(field, ',')
    }
}

/// Whether `e` is the group of a line with fields `f`.
pub open spec fn is_group_of(e: GroupEntry, f: Seq<Seq<char>>) -> bool {
    &&& e.name@ == f[0]
    &&& e.gid == number_or_zero(f[2])
    &&& strings_view(e.members@) == members_of(f[3])
    &&& e.source@ == "/etc/group"@
}

/// Whether `r` holds, in order, the groups of the lines `lines`.
pub open spec fn groups_of(r: Seq<GroupEntry>, lines: Seq<Seq<char>>) -> bool {
    &&& r.len() == group_lines(lines).len()
    &&& forall|i: int| 0 <= i < r.len() ==> is_group_of(#[trigger] r[i], group_lines(lines)[i])
}

/// Parses the text of a group file: one group per line with at least four
/// colon-separated fields; blank lines and comments are skipped, and a gid
/// that is not a number reads as 0.
pub fn parse_group_file(content: &str) -> (r: Vec<GroupEntry>)
    ensures
        groups_of(r@, split_on(content@, '\n')),
{
    let lines = split_char(content, '\n');
    let ghost lv = strings_view(lines@);
    let mut r: Vec<GroupEntry> = Vec::new();
    let mut i: usize = 0;
    while i < lines.len()
        invariant
            i <= lines@.len(),
            lv == strings_view(lines@),
            groups_of(r@, lv.take(i as int)),
        decreases lines@.len() - i,
    {
        assert(lv.take(i + 1).drop_last() == lv.take(i as int));
        assert(lv.take(i + 1).last() == lines@[i as int]@);
        let line = trim_str(lines[i].as_str());
        if line.unicode_len() > 0 && !starts_with_hash(line) {
            let f = split_char(line, ':');
            if f.len() >= 4 {
                let members = if f[3].as_str().unicode_len() == 0 {
                    let empty: Vec<String> = Vec::new();
                    assert(strings_view(empty@) =~= seq![]);
                    empty
                } else {
                    split_char(f[3].as_str(), ',')
                };
                let e = GroupEntry {
                    name: f[0].clone(),
                    gid: field_number(f[2].as_str()),
                    members,
                    source: String::from_str("/etc/group"),
                };
                r.push(e);
            }
        }
        i = i + 1;
    }
    assert(lv.take(lines@.len() as int) == lv);
    r
}

} // verus!
