use vstd::prelude::*;
use vstd::string::*;
use crate::text::{words, split_on, strings_view, split_char, split_words, push_strings_from};

verus! {

/// The settings of a resolver configuration file.
#[derive(Debug, Clone)]
pub struct ResolvConf {
    pub nameservers: Vec<String>,
    pub search_domains: Vec<String>,
    pub domain: Option<String>,
    pub options: Vec<String>,
}

/// Whether the words of a line start with `keyword` and hold at least `n` words.
pub open spec fn keyword_line(line: Seq<char>, keyword: Seq<char>, n: nat) -> bool {
    words(line).len() >= n && words(line).len() > 0 && words(line)[0] == keyword
}

/// The address of each `nameserver` line that gives one, in order.
pub open spec fn conf_nameservers(lines: Seq<Seq<char>>) -> Seq<Seq<char>>
    decreases lines.len(),
{
    if lines.len() == 0 {
        seq![]
    } else {
        let r = conf_nameservers(lines.drop_last());
        if keyword_line(lines.last(), "nameserver"@, 2) {
            r.push(words(lines.last())[1])
        } else {
            r
        }
    }
}

/// The words after `keyword` of every line that starts with it, in order.
pub open spec fn conf_list(lines: Seq<Seq<char>>, keyword: Seq<char>) -> Seq<Seq<char>>
    decreases lines.len(),
{
    if lines.len() == 0 {
        seq![]
    } else {
        let r = conf_list(lines.drop_last(), keyword);
        if keyword_line(lines.last(), keyword, 1) {
            r + words(lines.last()).drop_first()
        } else {
            r
        }
    }
}

/// The domain of the last `domain` line that gives one.
pub open spec fn conf_domain(lines: Seq<Seq<char>>) -> Option<Seq<char>>
    decreases lines.len(),
{
    if lines.len() == 0 {
        None
    } else if keyword_line(lines.last(), "domain"@, 2) {
        Some(words(lines.last())[1])
    } else {
        conf_domain(lines.drop_last())
    }
}

/// The four keywords differ from one another.
pub open spec fn keywords_distinct() -> bool {
    &&& "nameserver"@ != "search"@
    &&& "nameserver"@ != "domain"@
    &&& "nameserver"@ != "options"@
    &&& "search"@ != "domain"@
    &&& "search"@ != "options"@
    &&& "domain"@ != "options"@
}

/// The value of an optional string.
pub open spec fn opt_view(o: Option<String>) -> Option<Seq<char>> {
    match o {
        Some(s) => Some(s@),
        None => None,
    }
}

/// Parses the text of a resolver configuration: `nameserver`, `search`,
/// `domain` and `options` lines; other lines are ignored.
pub fn parse_resolv_conf(content: &str) -> (r: ResolvConf)
    ensures
        strings_view(r.nameservers@) == conf_nameservers(split_on(content@, '\n')),
        strings_view(r.search_domains@) == conf_list(split_on(content@, '\n'), "search"@),
        opt_view(r.domain) == conf_domain(split_on(content@, '\n')),
        strings_view(r.options@) == conf_list(split_on(content@, '\n'), "options"@),
{
    let lines = split_char(content, '\n');
    let ghost lv = strings_view(lines@);
    let k_nameserver = String::from_str("nameserver");
    let k_search = String::from_str("search");
    let k_domain = String::from_str("domain");
    let k_options = String::from_str("options");
    let mut r = ResolvConf {
        nameservers: Vec::new(),
        search_domains: Vec::new(),
        domain: None,
        options: Vec::new(),
    };
    assert(strings_view(r.nameservers@) =~= seq![]);
    assert(strings_view(r.search_domains@) =~= seq![]);
    assert(strings_view(r.options@) =~= seq![]);
    proof {
        reveal_strlit("nameserver");
        reveal_strlit("search");
        reveal_strlit("domain");
        reveal_strlit("options");
    }
    assert(keywords_distinct()) by {
        assert("nameserver"@[0] == 'n' && "search"@[0] == 's');
        assert("domain"@[0] == 'd' && "options"@[0] == 'o');
    }
    let mut i: usize = 0;
    while i < lines.len()
        invariant
            i <= lines@.len(),
            lv == strings_view(lines@),
            k_nameserver@ == "nameserver"@,
            k_search@ == "search"@,
            k_domain@ == "domain"@,
            k_options@ == "options"@,
            keywords_distinct(),
            strings_view(r.nameservers@) == conf_nameservers(lv.take(i as int)),
            strings_view(r.search_domains@) == conf_list(lv.take(i as int), "search"@),
            opt_view(r.domain) == conf_domain(lv.take(i as int)),
            strings_view(r.options@) == conf_list(lv.take(i as int), "options"@),
        decreases lines@.len() - i,
    {
        assert(lv.take(i + 1).drop_last() == lv.take(i as int));
        assert(lv.take(i + 1).last() == lines@[i as int]@);
        let w = split_words(lines[i].as_str());
        if w.len() > 0 {
            assert(strings_view(w@).drop_first() == strings_view(w@).subrange(1, w@.len() as int));
            assert(strings_view(w@)[0] == w@[0]@);
            if w[0] == k_nameserver {
                if w.len() > 1 {
                    let ghost prev = r.nameservers@;
                    let s = w[1].clone();
                    r.nameservers.push(s);
                    assert(r.nameservers@ == prev.push(s));
                    assert(strings_view(r.nameservers@) =~= strings_view(prev).push(s@));
                }
            } else if w[0] == k_search {
                push_strings_from(&mut r.search_domains, &w, 1);
            } else if w[0] == k_domain {
                if w.len() > 1 {
                    r.domain = Some(w[1].clone());
                }
            } else if w[0] == k_options {
                push_strings_from(&mut r.options, &w, 1);
            }
        }
        i = i + 1;
    }
    assert(lv.take(lines@.len() as int) == lv);
    r
}

} // verus!
