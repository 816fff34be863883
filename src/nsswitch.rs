use vstd::prelude::*;
use vstd::string::*;
use crate::text::{
    trim,
    words,
    is_comment,
    has_char,
    first_index_of,
    split_on,
    strings_view,
    split_char,
    split_words,
    split_once_char,
    trim_str,
    starts_with_hash,
};

verus! {

/// The source order of each database of an nsswitch configuration; a database
/// that the file does not mention has an empty order.
#[derive(Debug, Clone)]
pub struct NssOrder {
    pub hosts: Vec<String>,
    pub passwd: Vec<String>,
    pub group: Vec<String>,
}

/// The database name and the sources that a configuration line gives, if it is
/// a `database: sources` line.
pub open spec fn nss_entry(line: Seq<char>) -> Option<(Seq<char>, Seq<Seq<char>>)> {
    let t = trim(line);
    if t.len() == 0 || is_comment(t) || !has_char(t, ':') {
        None
    } else {
        let k = first_index_of(t, ':');
        Some((trim(t.take(k)), words(trim(t.skip(k + 1)))))
    }
}

/// The sources of database `key`: those of the last line that names it, or none.
pub open spec fn nss_sources(lines: Seq<Seq<char>>, key: Seq<char>) -> Seq<Seq<char>>
    decreases lines.len(),
{
    if lines.len() == 0 {
        seq![]
    } else {
        let e = nss_entry(lines.last());
        if e is Some && e->Some_0.0 == key {
            e->Some_0.1
        } else {
            nss_sources(lines.drop_last(), key)
        }
    }
}

/// Reads one configuration line.
pub fn nss_line(line: &str) -> (r: Option<(String, Vec<String>)>)
    ensures
        r is Some <==> nss_entry(line@) is Some,
        r is Some ==> nss_entry(line@) == Some((r->Some_0.0@, strings_view(r->Some_0.1@))),
{
    let t = trim_str(line);
    if t.unicode_len() == 0 || starts_with_hash(t) {
        return None;
    }
    match split_once_char(t, ':') {
        Some((k, v)) => {
            let key = String::from_str(trim_str(k.as_str()));
            let sources = split_words(trim_str(v.as_str()));
            Some((key, sources))
        },
        None => None,
    }
}

impl NssOrder {
    /// No database configured.
    pub fn empty() -> (r: NssOrder)
        ensures
            r.hosts@.len() == 0,
            r.passwd@.len() == 0,
            r.group@.len() == 0,
    {
        NssOrder { hosts: Vec::new(), passwd: Vec::new(), group: Vec::new() }
    }
}

/// Parses the text of an nsswitch configuration. A later line for a database
/// replaces an earlier one; a database that no line names gets no sources.
pub fn parse_nsswitch_file(content: &str) -> (r: NssOrder)
    ensures
        strings_view(r.hosts@) == nss_sources(split_on(content@, '\n'), "hosts"@),
        strings_view(r.passwd@) == nss_sources(split_on(content@, '\n'), "passwd"@),
        strings_view(r.group@) == nss_sources(split_on(content@, '\n'), "group"@),
{
    let lines = split_char(content, '\n');
    let ghost lv = strings_view(lines@);
    let hosts_key = String::from_str("hosts");
    let passwd_key = String::from_str("passwd");
    let group_key = String::from_str("group");
    let mut r = NssOrder::empty();
    proof {
        reveal_strlit("hosts");
        reveal_strlit("passwd");
        reveal_strlit("group");
    }
    assert("hosts"@ != "passwd"@ && "hosts"@ != "group"@) by {
        assert("hosts"@[0] != "passwd"@[0] && "hosts"@[0] != "group"@[0]);
    }
    assert("passwd"@ != "group"@) by {
        assert("passwd"@[0] != "group"@[0]);
    }
    assert(strings_view(r.hosts@) =~= seq![]);
    assert(strings_view(r.passwd@) =~= seq![]);
    assert(strings_view(r.group@) =~= seq![]);
    let mut i: usize = 0;
    while i < lines.len()
        invariant
            i <= lines@.len(),
            lv == strings_view(lines@),
            hosts_key@ == "hosts"@,
            passwd_key@ == "passwd"@,
            group_key@ == "group"@,
            "hosts"@ != "passwd"@ && "hosts"@ != "group"@ && "passwd"@ != "group"@,
            strings_view(r.hosts@) == nss_sources(lv.take(i as int), "hosts"@),
            strings_view(r.passwd@) == nss_sources(lv.take(i as int), "passwd"@),
            strings_view(r.group@) == nss_sources(lv.take(i as int), "group"@),
        decreases lines@.len() - i,
    {
        assert(lv.take(i + 1).drop_last() == lv.take(i as int));
        assert(lv.take(i + 1).last() == lines@[i as int]@);
        match nss_line(lines[i].as_str()) {
            Some((k, v)) => {
                if k == hosts_key {
                    r.hosts = v;
                } else if k == passwd_key {
                    r.passwd = v;
                } else if k == group_key {
                    r.group = v;
                }
            },
            None => {},
        }
        i = i + 1;
    }
    assert(lv.take(lines@.len() as int) == lv);
    r
}

} // verus!
