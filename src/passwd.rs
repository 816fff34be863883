use vstd::prelude::*;
use vstd::string::*;
use crate::text::{colon_fields, is_content_line, number_or_zero, split_on, strings_view, split_char, trim_str, starts_with_hash, field_number};

verus! {

/// One account of a passwd file.
#[derive(Debug, Clone)]
pub struct UserEntry {
    pub name: String,
    pub uid: u32,
    pub gid: u32,
    pub gecos: String,
    pub home: String,
    pub shell: String,
    pub source: String,
}

/// The accounts of `entries` whose name is exactly `name`, in file order.
pub open spec fn users_named(entries: Seq<UserEntry>, name: Seq<char>) -> Seq<UserEntry>
    decreases entries.len(),
{
    if entries.len() == 0 {
        seq![]
    } else {
        let rest = users_named(entries.drop_last(), name);
        if entries.last().name@ == name {
            rest.push(entries.last())
        } else {
            rest
        }
    }
}

/// All accounts named `name`, in file order.
pub fn resolve_user_from_passwd<'a>(name: &str, entries: &'a [UserEntry]) -> (r: Vec<&'a UserEntry>)
    ensures
        r@.map_values(|e: &UserEntry| *e) == users_named(entries@, name@),
{
    let key = String::from_str(name);
    let mut r: Vec<&'a UserEntry> = Vec::new();
    let mut i: usize = 0;
    while i < entries.len()
        invariant
            i <= entries@.len(),
            key@ == name@,
            r@.map_values(|e: &UserEntry| *e) == users_named(entries@.take(i as int), name@),
        decreases entries@.len() - i,
    {
        let e = &entries[i];
        let ghost prev = r@;
        assert(entries@.take(i + 1).drop_last() == entries@.take(i as int));
        if e.name == key {
            r.push(e);
            assert(r@ == prev.push(e));
        }
        assert(r@.map_values(|e: &UserEntry| *e) =~= users_named(entries@.take(i + 1), name@));
        i = i + 1;
    }
    assert(entries@.take(entries@.len() as int) == entries@);
    r
}


/// Whether a line of a passwd file holds an account: not blank, not a comment,
/// and at least seven fields.
pub open spec fn is_passwd_line(line: Seq<char>) -> bool {
    is_content_line(line) && colon_fields(line).len() >= 7
}

/// The fields of each account line of `lines`, in order.
pub open spec fn passwd_lines(lines: Seq<Seq<char>>) -> Seq<Seq<Seq<char>>>
    decreases lines.len(),
{
    if lines.len() == 0 {
        seq![]
    } else {
        let r = passwd_lines(lines.drop_last());
        if is_passwd_line(lines.last()) {
            r.push(colon_fields(lines.last()))
        } else {
            r
        }
    }
}

/// Whether `e` is the account of a line with fields `f`.
pub open spec fn is_user_of(e: UserEntry, f: Seq<Seq<char>>) -> bool {
    &&& e.name@ == f[0]
    &&& e.uid == number_or_zero(f[2])
    &&& e.gid == number_or_zero(f[3])
    &&& e.gecos@ == f[4]
    &&& e.home@ == f[5]
    &&& e.shell@ == f[6]
    &&& e.source@ == "/etc/passwd"@
}

/// Whether `r` holds, in order, the accounts of the lines `lines`.
pub open spec fn users_of(r: Seq<UserEntry>, lines: Seq<Seq<char>>) -> bool {
    &&& r.len() == passwd_lines(lines).len()
    &&& forall|i: int| 0 <= i < r.len() ==> is_user_of(#[trigger] r[i], passwd_lines(lines)[i])
}

/// Parses the text of a passwd file: one account per line with at least seven
/// colon-separated fields; blank lines and comments are skipped, and a uid or
/// gid that is not a number reads as 0.
pub fn parse_passwd_file(content: &str) -> (r: Vec<UserEntry>)
    ensures
        users_of(r@, split_on(content@, '\n')),
{
    let lines = split_char(content, '\n');
    let ghost lv = strings_view(lines@);
    let mut r: Vec<UserEntry> = Vec::new();
    let mut i: usize = 0;
    while i < lines.len()
        invariant
            i <= lines@.len(),
            lv == strings_view(lines@),
            users_of(r@, lv.take(i as int)),
        decreases lines@.len() - i,
    {
        assert(lv.take(i + 1).drop_last() == lv.take(i as int));
        assert(lv.take(i + 1).last() == lines@[i as int]@);
        let line = trim_str(lines[i].as_str());
        if line.unicode_len() > 0 && !starts_with_hash(line) {
            let f = split_char(line, ':');
            if f.len() >= 7 {
                let e = UserEntry {
                    name: f[0].clone(),
                    uid: field_number(f[2].as_str()),
                    gid: field_number(f[3].as_str()),
                    gecos: f[4].clone(),
                    home: f[5].clone(),
                    shell: f[6].clone(),
                    source: String::from_str("/etc/passwd"),
                };
                r.push(e);
            }
        }
        i = i + 1;
    }
    assert(lv.take(lines@.len() as int) == lv);
    r
}

} // verus!
