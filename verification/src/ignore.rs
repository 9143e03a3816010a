use vstd::prelude::*;
use vstd::string::StrSliceExecFns;
use crate::strs::is_prefix;
use crate::strs::is_suffix;
use crate::strs::str_starts_with;
use crate::strs::str_ends_with;

verus! {

/// The set of ignore rules of a tracked root, read fresh before every scan.
pub struct IgnoreSet {
    patterns: Vec<String>,
}

impl View for IgnoreSet {
    type V = Seq<Seq<char>>;

    closed spec fn view(&self) -> Seq<Seq<char>> {
        self.patterns.deep_view()
    }
}

/// Whether one ignore rule matches a relative path:
/// - a rule ending in `/` matches every path that starts with it;
/// - a rule starting with `*.` matches every path that ends with the part
///   after the `*.`;
/// - any other rule matches every path that ends with it verbatim.
pub open spec fn rule_matches(path: Seq<char>, rule: Seq<char>) -> bool {
    if rule.len() > 0 && rule.last() == '/' {
        is_prefix(path, rule)
    } else if rule.len() >= 2 && rule[0] == '*' && rule[1] == '.' {
        is_suffix(path, rule.skip(2))
    } else {
        is_suffix(path, rule)
    }
}

/// A path is ignored when any rule matches it.
pub open spec fn spec_should_ignore(path: Seq<char>, rules: Seq<Seq<char>>) -> bool {
    exists|i: int| 0 <= i < rules.len() && rule_matches(path, rules[i])
}

/// Whether one ignore rule matches a relative path (see `rule_matches`).
pub fn rule_match(path: &str, rule: &str) -> (r: bool)
    ensures
        r == rule_matches(path@, rule@),
{
    let rlen = rule.unicode_len();
    if rlen > 0 && rule.get_char(rlen - 1) == '/' {
        str_starts_with(path, rule)
    } else if rlen >= 2 && rule.get_char(0) == '*' && rule.get_char(1) == '.' {
        let ext = rule.substring_char(2, rlen);
        proof {
            assert(rule@.subrange(2, rule@.len() as int) =~= rule@.skip(2));
        }
        str_ends_with(path, ext)
    } else {
        str_ends_with(path, rule)
    }
}

impl IgnoreSet {
    pub fn new() -> (r: Self)
        ensures
            r@ == Seq::<Seq<char>>::empty(),
    {
        let r = IgnoreSet { patterns: Vec::new() };
        proof {
            assert(r@ =~= Seq::<Seq<char>>::empty());
        }
        r
    }

    pub fn add(&mut self, pattern: String)
        ensures
            final(self)@ == old(self)@.push(pattern@),
    {
        let ghost pre = self@;
        self.patterns.push(pattern);
        proof {
            assert(self@ =~= pre.push(pattern@));
        }
    }

    /// Whether any rule of the set matches the path.
    pub fn matches(&self, rel_path: &str) -> (r: bool)
        ensures
            r == spec_should_ignore(rel_path@, self@),
    {
        should_ignore(rel_path, self)
    }
}

/// Whitespace that trimming a rule line removes.
pub open spec fn is_line_space(c: char) -> bool {
    c == ' ' || c == '\t' || c == '\r'
}

pub open spec fn trim_front(s: Seq<char>) -> Seq<char>
    decreases s.len(),
{
    if s.len() > 0 && is_line_space(s[0]) {
        trim_front(s.skip(1))
    } else {
        s
    }
}

pub open spec fn trim_back(s: Seq<char>) -> Seq<char>
    decreases s.len(),
{
    if s.len() > 0 && is_line_space(s.last()) {
        trim_back(s.drop_last())
    } else {
        s
    }
}

/// A rule line with its surrounding whitespace removed.
pub open spec fn spec_trim(s: Seq<char>) -> Seq<char> {
    trim_front(trim_back(s))
}

/// A trimmed line enters the rule set: not blank, not a comment.
pub open spec fn keep_line(tr: Seq<char>) -> bool {
    tr.len() > 0 && tr[0] != '#'
}

/// Close one line of the ignore file: keep its trimmed form, or drop it.
pub open spec fn close_line(acc: Seq<Seq<char>>, cur: Seq<char>) -> Seq<Seq<char>> {
    if keep_line(spec_trim(cur)) {
        acc.push(spec_trim(cur))
    } else {
        acc
    }
}

/// Parse the remaining ignore-file text, given the characters of the
/// current unfinished line and the rules gathered so far: one rule per
/// line, trimmed, with blank lines and `#` comments skipped.
pub open spec fn parse_rules(s: Seq<char>, cur: Seq<char>, acc: Seq<Seq<char>>) -> Seq<Seq<char>>
    decreases s.len(),
{
    if s.len() == 0 {
        close_line(acc, cur)
    } else if s[0] == '\n' {
        parse_rules(s.skip(1), Seq::<char>::empty(), close_line(acc, cur))
    } else {
        parse_rules(s.skip(1), cur.push(s[0]), acc)
    }
}

/// The rules an ignore file's text yields.
pub open spec fn spec_parse_ignore(s: Seq<char>) -> Seq<Seq<char>> {
    parse_rules(s, Seq::<char>::empty(), Seq::<Seq<char>>::empty())
}

fn is_space_char(c: char) -> (r: bool)
    ensures
        r == is_line_space(c),
{
    c == ' ' || c == '\t' || c == '\r'
}

/// Remove leading and trailing whitespace from one line.
fn trim_line(s: &str) -> (r: String)
    ensures
        r@ == spec_trim(s@),
{
    let n = s.unicode_len();
    proof {
        assert(s@.subrange(0, n as int) =~= s@);
    }
    let mut b: usize = n;
    let mut stop: bool = false;
    while !stop && b > 0
        invariant
            b <= n,
            n == s@.len(),
            trim_back(s@) == trim_back(s@.subrange(0, b as int)),
            stop ==> b > 0 && !is_line_space(s@[b as int - 1]),
        decreases b + (if stop { 0int } else { 1int }),
    {
        if is_space_char(s.get_char(b - 1)) {
            proof {
                let cur = s@.subrange(0, b as int);
                assert(cur.last() == s@[b as int - 1]);
                assert(cur.drop_last() =~= s@.subrange(0, b as int - 1));
            }
            b -= 1;
        } else {
            stop = true;
        }
    }
    proof {
        assert(trim_back(s@) == s@.subrange(0, b as int));
    }
    let mut a: usize = 0;
    let mut stop2: bool = false;
    while !stop2 && a < b
        invariant
            a <= b <= n,
            n == s@.len(),
            trim_front(s@.subrange(0, b as int)) == trim_front(s@.subrange(a as int, b as int)),
            stop2 ==> a < b && !is_line_space(s@[a as int]),
        decreases (b - a) + (if stop2 { 0int } else { 1int }),
    {
        if is_space_char(s.get_char(a)) {
            proof {
                let cur = s@.subrange(a as int, b as int);
                assert(cur[0] == s@[a as int]);
                assert(cur.skip(1) =~= s@.subrange(a as int + 1, b as int));
            }
            a += 1;
        } else {
            stop2 = true;
        }
    }
    proof {
        assert(trim_front(s@.subrange(a as int, b as int)) == s@.subrange(a as int, b as int));
    }
    s.substring_char(a, b).to_owned()
}

fn line_kept(t: &str) -> (r: bool)
    ensures
        r == keep_line(t@),
{
    t.unicode_len() > 0 && t.get_char(0) != '#'
}

/// Parse the raw text of a per-root ignore file: one rule per line,
/// trimmed, with blank lines and lines starting with `#` skipped.
pub fn parse_ignore_patterns(contents: &str) -> (r: IgnoreSet)
    ensures
        r@ == spec_parse_ignore(contents@),
{
    let n = contents.unicode_len();
    let mut set = IgnoreSet::new();
    let mut line_start: usize = 0;
    let mut i: usize = 0;
    proof {
        assert(contents@.skip(0) =~= contents@);
        assert(contents@.subrange(0, 0) =~= Seq::<char>::empty());
    }
    while i < n
        invariant
            line_start <= i <= n,
            n == contents@.len(),
            spec_parse_ignore(contents@) == parse_rules(
                contents@.skip(i as int),
                contents@.subrange(line_start as int, i as int),
                set@,
            ),
        decreases n - i,
    {
        let ch = contents.get_char(i);
        proof {
            let rest = contents@.skip(i as int);
            assert(rest[0] == contents@[i as int]);
            assert(rest.skip(1) =~= contents@.skip(i as int + 1));
        }
        if ch == '\n' {
            let line = contents.substring_char(line_start, i);
            let t = trim_line(line);
            let ghost pre = set@;
            if line_kept(t.as_str()) {
                set.add(t);
            }
            proof {
                assert(set@ == close_line(pre, contents@.subrange(line_start as int, i as int)));
                assert(contents@.subrange(i as int + 1, i as int + 1) =~= Seq::<char>::empty());
            }
            line_start = i + 1;
        } else {
            proof {
                let cur = contents@.subrange(line_start as int, i as int);
                assert(cur.push(contents@[i as int]) =~= contents@.subrange(
                    line_start as int,
                    i as int + 1,
                ));
            }
        }
        i += 1;
    }
    let line = contents.substring_char(line_start, n);
    let t = trim_line(line);
    if line_kept(t.as_str()) {
        set.add(t);
    }
    set
}

/// Whether a relative path is excluded from tracking by the ignore rules.
pub fn should_ignore(rel_path: &str, ignored: &IgnoreSet) -> (r: bool)
    ensures
        r == spec_should_ignore(rel_path@, ignored@),
{
    let n = ignored.patterns.len();
    let mut i: usize = 0;
    while i < n
        invariant
            n == ignored@.len(),
            ignored@ == ignored.patterns.deep_view(),
            i <= n,
            forall|j: int| 0 <= j < i ==> !rule_matches(rel_path@, ignored@[j]),
        decreases n - i,
    {
        proof {
            assert(ignored@[i as int] == ignored.patterns@[i as int]@);
        }
        if rule_match(rel_path, ignored.patterns[i].as_str()) {
            return true;
        }
        i += 1;
    }
    false
}

} // verus!
