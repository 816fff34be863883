use vstd::prelude::*;
use vstd::string::*;
use crate::text::{words, is_comment, split_on, strings_view, split_char, split_words, starts_with_hash, strings_from};

verus! {

/// One line of a hosts file: an address and the names that map to it.
#[derive(Debug, Clone)]
pub struct HostEntry {
    pub ip: String,
    pub names: Vec<String>,
    pub source: String,
}

/// Whether `e` lists `name` among its names (exact, case-sensitive).
pub open spec fn host_has_name(e: HostEntry, name: Seq<char>) -> bool {
    exists|j: int| 0 <= j < e.names@.len() && #[trigger] e.names@[j]@ == name
}

/// The entries of `entries` that list `name`, in file order.
pub open spec fn hosts_named(entries: Seq<HostEntry>, name: Seq<char>) -> Seq<HostEntry>
    decreases entries.len(),
{
    if entries.len() == 0 {
        seq![]
    } else {
        let rest = hosts_named(entries.drop_last(), name);
        if host_has_name(entries.last(), name) {
            rest.push(entries.last())
        } else {
            rest
        }
    }
}

fn names_contain(names: &Vec<String>, key: &String) -> (r: bool)
    ensures
        r == exists|j: int| 0 <= j < names@.len() && #[trigger] names@[j]@ == key@,
{
    let mut i: usize = 0;
    while i < names.len()
        invariant
            i <= names@.len(),
            forall|j: int| 0 <= j < i ==> names@[j]@ != key@,
        decreases names@.len() - i,
    {
        if names[i] == *key {
            return true;
        }
        i = i + 1;
    }
    false
}

/// All entries that list `name`, in file order.
pub fn resolve_host_from_hosts<'a>(name: &str, entries: &'a [HostEntry]) -> (r: Vec<&'a HostEntry>)
    ensures
        r@.map_values(|e: &HostEntry| *e) == hosts_named(entries@, name@),
{
    let key = String::from_str(name);
    let mut r: Vec<&'a HostEntry> = Vec::new();
    let mut i: usize = 0;
    while i < entries.len()
        invariant
            i <= entries@.len(),
            key@ == name@,
            r@.map_values(|e: &HostEntry| *e) == hosts_named(entries@.take(i as int), name@),
        decreases entries@.len() - i,
    {
        let e = &entries[i];
        let ghost prev = r@;
        assert(entries@.take(i + 1) == entries@.take(i as int).push(entries@[i as int]));
        assert(entries@.take(i + 1).drop_last() == entries@.take(i as int));
        let found = names_contain(&e.names, &key);
        assert(found == host_has_name(*e, name@));
        if found {
            r.push(e);
            assert(r@ == prev.push(e));
        }
        assert(r@.map_values(|e: &HostEntry| *e) =~= hosts_named(entries@.take(i + 1), name@));
        i = i + 1;
    }
    assert(entries@.take(entries@.len() as int) == entries@);
    r
}


/// Whether a line of a hosts file holds an entry: an address and at least one
/// name, and not a comment.
pub open spec fn is_host_line(line: Seq<char>) -> bool {
    words(line).len() >= 2 && !is_comment(words(line)[0])
}

/// The words of each entry line of `lines`, in order.
pub open spec fn host_lines(lines: Seq<Seq<char>>) -> Seq<Seq<Seq<char>>>
    decreases lines.len(),
{
    if lines.len() == 0 {
        seq![]
    } else {
        let r = host_lines(lines.drop_last());
        if is_host_line(lines.last()) {
            r.push(words(lines.last()))
        } else {
            r
        }
    }
}

/// Whether `e` is the entry of an entry line with words `w`.
pub open spec fn is_entry_of(e: HostEntry, w: Seq<Seq<char>>) -> bool {
    &&& e.ip@ == w[0]
    &&& strings_view(e.names@) == w.drop_first()
    &&& e.source@ == "/etc/hosts"@
}

/// Whether `r` holds, in order, the entries of the lines `lines`.
pub open spec fn entries_of(r: Seq<HostEntry>, lines: Seq<Seq<char>>) -> bool {
    &&& r.len() == host_lines(lines).len()
    &&& forall|i: int| 0 <= i < r.len() ==> is_entry_of(#[trigger] r[i], host_lines(lines)[i])
}

/// Parses the text of a hosts file: one entry per line that has an address and
/// at least one name; blank lines and comments are skipped.
pub fn parse_hosts_file(content: &str) -> (r: Vec<HostEntry>)
    ensures
        entries_of(r@, split_on(content@, '\n')),
{
    let lines = split_char(content, '\n');
    let ghost lv = strings_view(lines@);
    let mut r: Vec<HostEntry> = Vec::new();
    let mut i: usize = 0;
    while i < lines.len()
        invariant
            i <= lines@.len(),
            lv == strings_view(lines@),
            entries_of(r@, lv.take(i as int)),
        decreases lines@.len() - i,
    {
        assert(lv.take(i + 1).drop_last() == lv.take(i as int));
        assert(lv.take(i + 1).last() == lines@[i as int]@);
        let w = split_words(lines[i].as_str());
        if w.len() >= 2 && !starts_with_hash(w[0].as_str()) {
            let names = strings_from(&w, 1);
            let e = HostEntry { ip: w[0].clone(), names, source: String::from_str("/etc/hosts") };
            assert(strings_view(w@).drop_first() == strings_view(w@).subrange(1, w@.len() as int));
            r.push(e);
        }
        i = i + 1;
    }
    assert(lv.take(lines@.len() as int) == lv);
    r
}

} // verus!
