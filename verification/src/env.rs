//! Settings out of the environment and the env file.

use crate::text::{characters, trimmed};
use vstd::hash_set::StringHashSet;
use vstd::prelude::*;
use vstd::string::{StrSliceExecFns, StringExecFns};
use vstd::utf8::encode_utf8;

verus! {

/// The place of the first `c`, or the end.
pub open spec fn first_of(s: Seq<char>, c: char) -> int
    decreases s.len(),
{
    if s.len() == 0 || s[0] == c {
        0
    } else {
        1 + first_of(s.drop_first(), c)
    }
}

/// An ASCII letter, an ASCII digit or an underscore.
pub open spec fn is_key_char(c: char) -> bool {
    ||| c == '_'
    ||| 'a' <= c <= 'z'
    ||| 'A' <= c <= 'Z'
    ||| '0' <= c <= '9'
}

/// The name of a variable: letters, digits and underscores, and no digit in front.
pub open spec fn is_key(s: Seq<char>) -> bool {
    &&& s.len() > 0
    &&& !('0' <= s[0] <= '9')
    &&& forall|i: int| 0 <= i < s.len() ==> is_key_char(#[trigger] s[i])
}

/// The text without the pair of quotes around it, if there is one.
pub open spec fn unquoted(s: Seq<char>) -> Seq<char> {
    if s.len() >= 2 && s[0] == s.last() && (s[0] == '"' || s[0] == '\'') {
        s.subrange(1, s.len() - 1)
    } else {
        s
    }
}

/// The text without a leading `export`.
pub open spec fn without_export(s: Seq<char>) -> Seq<char> {
    if "export "@.is_prefix_of(s) {
        s.skip(7)
    } else {
        s
    }
}

/// The variable and the value that a line assigns, if it assigns one.
pub open spec fn assignment(line: Seq<char>) -> Option<(Seq<char>, Seq<char>)> {
    let text = trimmed(line);
    let body = without_export(text);
    let equals = first_of(body, '=');
    let key = trimmed(body.take(equals));
    if text.len() == 0 || text[0] == '#' || equals == body.len() || !is_key(key) {
        None
    } else {
        Some((key, unquoted(trimmed(body.skip(equals + 1)))))
    }
}

/// The lines of a text, without their ends.
pub open spec fn lines_of(s: Seq<char>) -> Seq<Seq<char>>
    decreases s.len(),
{
    let end = first_of(s, '\n');
    if 0 <= end < s.len() {
        seq![s.take(end)] + lines_of(s.skip(end + 1))
    } else {
        seq![s]
    }
}

proof fn lemma_first_of(s: Seq<char>, c: char, at: int)
    requires
        0 <= at <= s.len(),
        at < s.len() ==> s[at] == c,
        forall|j: int| 0 <= j < at ==> #[trigger] s[j] != c,
    ensures
        first_of(s, c) == at,
    decreases s.len(),
{
    if s.len() > 0 && at > 0 {
        assert forall|j: int| 0 <= j < at - 1 implies #[trigger] s.drop_first()[j] != c by {
            assert(s.drop_first()[j] == s[j + 1]);
        }
        lemma_first_of(s.drop_first(), c, at - 1);
    }
}

/// The place of the first `c` at or after `from`, or the end.
fn find_from(text: &Vec<char>, c: char, from: usize) -> (at: usize)
    requires
        from <= text.len(),
    ensures
        from <= at <= text.len(),
        at - from == first_of(text@.skip(from as int), c),
{
    let mut at: usize = from;
    while at < text.len() && text[at] != c
        invariant
            from <= at <= text.len(),
            forall|j: int| from <= j < at ==> #[trigger] text@[j] != c,
        decreases text.len() - at,
    {
        at = at + 1;
    }
    proof {
        let rest = text@.skip(from as int);
        assert forall|j: int| 0 <= j < at - from implies #[trigger] rest[j] != c by {
            assert(rest[j] == text@[from + j]);
        }
        lemma_first_of(rest, c, at - from);
    }
    at
}

/// Whether the text can name a variable.
fn names_variable(key: &str) -> (res: bool)
    ensures
        res == is_key(key@),
{
    let chars = characters(key);
    if chars.len() == 0 {
        return false;
    }
    let first: char = chars[0];
    if '0' <= first && first <= '9' {
        return false;
    }
    let mut i: usize = 0;
    while i < chars.len()
        invariant
            chars@ == key@,
            i <= chars.len(),
            forall|j: int| 0 <= j < i ==> is_key_char(#[trigger] chars@[j]),
        decreases chars.len() - i,
    {
        let c: char = chars[i];
        if !(c == '_' || ('a' <= c && c <= 'z') || ('A' <= c && c <= 'Z') || ('0' <= c && c <= '9')) {
            assert(!is_key_char(key@[i as int]));
            return false;
        }
        i = i + 1;
    }
    true
}

/// The text without the pair of quotes around it, if there is one.
pub fn strip_env_quotes(value: &str) -> (res: &str)
    ensures
        res@ == unquoted(value@),
{
    let chars = characters(value);
    let n: usize = chars.len();
    if n >= 2 && chars[0] == chars[n - 1] && (chars[0] == '"' || chars[0] == '\'') {
        value.substring_char(1, n - 1)
    } else {
        value
    }
}

/// The variable and the value that a line of an env file assigns, if it assigns one.
pub fn parse_env_assignment(line: &str) -> (res: Option<(String, String)>)
    ensures
        match res {
            Some((key, value)) => assignment(line@) == Some((key@, value@)),
            None => assignment(line@) is None,
        },
{
    let text = line.trim();
    let chars = characters(text);
    let n: usize = chars.len();
    if n == 0 || chars[0] == '#' {
        return None;
    }
    proof {
        reveal_strlit("export ");
    }
    let exported = n >= 7 && chars[0] == 'e' && chars[1] == 'x' && chars[2] == 'p' && chars[3]
        == 'o' && chars[4] == 'r' && chars[5] == 't' && chars[6] == ' ';
    proof {
        let word = "export "@;
        assert(word.len() == 7);
        if exported {
            assert(word =~= text@.subrange(0, 7));
        }
        if word.is_prefix_of(text@) {
            assert(forall|i: int| 0 <= i < 7 ==> text@[i] == #[trigger] word[i]);
            assert(text@[0] == word[0] && text@[1] == word[1] && text@[2] == word[2] && text@[3]
                == word[3] && text@[4] == word[4] && text@[5] == word[5] && text@[6] == word[6]);
        }
    }
    let start: usize = if exported {
        7
    } else {
        0
    };
    let ghost body = without_export(text@);
    assert(body =~= text@.skip(start as int));
    let equals: usize = find_from(&chars, '=', start);
    if equals == n {
        return None;
    }
    let key = text.substring_char(start, equals).trim();
    proof {
        assert(body.take(equals - start) =~= text@.subrange(start as int, equals as int));
        assert(body.skip(equals - start + 1) =~= text@.subrange(equals + 1, n as int));
    }
    if !names_variable(key) {
        return None;
    }
    let value = strip_env_quotes(text.substring_char(equals + 1, n).trim());
    Some((key.to_owned(), value.to_owned()))
}

/// What an env file asks for: the variables to set, in order, and the line at which it goes wrong,
/// if it does.
#[derive(Debug)]
pub struct EnvPlan {
    pub assignments: Vec<(String, String)>,
    pub bad_line: Option<usize>,
}

/// What an env file asks for.
pub struct EnvOrder {
    pub assignments: Seq<(Seq<char>, Seq<char>)>,
    pub bad_line: Option<nat>,
}

/// The characters of several assignments.
pub open spec fn pairs(assignments: Seq<(String, String)>) -> Seq<(Seq<char>, Seq<char>)> {
    assignments.map_values(|pair: (String, String)| (pair.0@, pair.1@))
}

impl View for EnvPlan {
    type V = EnvOrder;

    open spec fn view(&self) -> EnvOrder {
        EnvOrder {
            assignments: pairs(self.assignments@),
            bad_line: match self.bad_line {
                Some(line) => Some(line as nat),
                None => None,
            },
        }
    }
}

/// One of the assignments is to this variable.
pub open spec fn assigns(assignments: Seq<(Seq<char>, Seq<char>)>, key: Seq<char>) -> bool {
    exists|i: int| 0 <= i < assignments.len() && (#[trigger] assignments[i]).0 == key
}

/// What the lines of an env file ask for where some variables are present: each variable that is
/// not present gets the first value that a line gives it; a NUL in a value ends it all.
pub open spec fn env_order(lines: Seq<Seq<char>>, present: Set<Seq<char>>) -> EnvOrder
    decreases lines.len(),
{
    if lines.len() == 0 {
        EnvOrder { assignments: Seq::empty(), bad_line: None }
    } else {
        let earlier = env_order(lines.drop_last(), present);
        if earlier.bad_line is Some {
            earlier
        } else {
            match assignment(lines.last()) {
                None => earlier,
                Some((key, value)) => if value.contains('\0') {
                    EnvOrder { bad_line: Some(lines.len()), ..earlier }
                } else if present.contains(key) || assigns(earlier.assignments, key) {
                    earlier
                } else {
                    EnvOrder { assignments: earlier.assignments.push((key, value)), ..earlier }
                },
            }
        }
    }
}

/// The lines of a text.
fn split_lines(contents: &str) -> (lines: Vec<String>)
    ensures
        lines@.map_values(|line: String| line@) == lines_of(contents@),
{
    let chars = characters(contents);
    let mut lines: Vec<String> = Vec::new();
    let mut start: usize = 0;
    proof {
        assert(contents@.skip(0) =~= contents@);
        assert(lines@.map_values(|line: String| line@) + lines_of(contents@.skip(0)) =~= lines_of(
            contents@,
        ));
    }
    loop
        invariant
            chars@ == contents@,
            start <= chars.len(),
            lines@.map_values(|line: String| line@) + lines_of(contents@.skip(start as int))
                == lines_of(contents@),
        decreases chars.len() - start,
    {
        let end: usize = find_from(&chars, '\n', start);
        let line = contents.substring_char(start, end).to_owned();
        let ghost before = lines@;
        lines.push(line);
        proof {
            let rest = contents@.skip(start as int);
            assert(before.push(line).map_values(|line: String| line@) =~= before.map_values(
                |line: String| line@,
            ).push(line@));
            assert(rest.take(end - start) =~= contents@.subrange(start as int, end as int));
            if end < chars.len() {
                assert(rest.skip(end - start + 1) =~= contents@.skip(end + 1));
                assert(before.map_values(|line: String| line@) + (seq![line@] + lines_of(
                    contents@.skip(end + 1),
                )) =~= lines@.map_values(|line: String| line@) + lines_of(contents@.skip(end + 1)));
            } else {
                assert(line@ =~= rest);
                assert(before.map_values(|line: String| line@) + seq![rest] =~= lines@.map_values(
                    |line: String| line@,
                ));
            }
        }
        if end == chars.len() {
            return lines;
        }
        start = end + 1;
    }
}

/// Whether the text holds a NUL.
fn has_nul(value: &str) -> (res: bool)
    ensures
        res == value@.contains('\0'),
{
    let chars = characters(value);
    let mut i: usize = 0;
    while i < chars.len()
        invariant
            i <= chars.len(),
            chars@ == value@,
            forall|j: int| 0 <= j < i ==> #[trigger] value@[j] != '\0',
        decreases chars.len() - i,
    {
        if chars[i] == '\0' {
            assert(value@[i as int] == '\0');
            return true;
        }
        i = i + 1;
    }
    false
}

/// The names as a set.
pub open spec fn name_set(names: Seq<String>) -> Set<Seq<char>> {
    names.map_values(|name: String| name@).to_set()
}

proof fn lemma_assigns_push(
    assignments: Seq<(Seq<char>, Seq<char>)>,
    pair: (Seq<char>, Seq<char>),
)
    ensures
        forall|key: Seq<char>| #[trigger]
            assigns(assignments.push(pair), key) == (assigns(assignments, key) || key == pair.0),
{
    let longer = assignments.push(pair);
    assert forall|key: Seq<char>| #[trigger]
        assigns(longer, key) == (assigns(assignments, key) || key == pair.0) by {
        if assigns(assignments, key) {
            let i = choose|i: int| 0 <= i < assignments.len() && (#[trigger] assignments[i]).0 == key;
            assert(longer[i].0 == key);
        }
        if key == pair.0 {
            assert(longer[assignments.len() as int].0 == key);
        }
        if assigns(longer, key) {
            let i = choose|i: int| 0 <= i < longer.len() && (#[trigger] longer[i]).0 == key;
            if i < assignments.len() {
                assert(assignments[i].0 == key);
            }
        }
    }
}

/// What an env file asks for, given the names of the variables that are already set.
pub fn plan_env(contents: &str, present: &Vec<String>) -> (plan: EnvPlan)
    ensures
        plan@ == env_order(lines_of(contents@), name_set(present@)),
{
    let ghost there = name_set(present@);
    let ghost names = present@.map_values(|name: String| name@);
    let mut taken = StringHashSet::new();
    let mut p: usize = 0;
    assert(names.take(0).to_set() =~= taken@);
    while p < present.len()
        invariant
            names == present@.map_values(|name: String| name@),
            p <= present.len(),
            taken@ =~= names.take(p as int).to_set(),
        decreases present.len() - p,
    {
        let ghost before = taken@;
        taken.insert(present[p].clone());
        p = p + 1;
        proof {
            let shorter = names.take(p - 1);
            let longer = names.take(p as int);
            assert(longer =~= shorter.push(names[p - 1]));
            assert forall|key: Seq<char>| taken@.contains(key) == longer.to_set().contains(
                key,
            ) by {
                if before.contains(key) {
                    let i = choose|i: int| 0 <= i < shorter.len() && #[trigger] shorter[i] == key;
                    assert(longer[i] == key);
                }
                if key == names[p - 1] {
                    assert(longer[p - 1] == key);
                }
                if longer.contains(key) && key != names[p - 1] {
                    let i = choose|i: int| 0 <= i < longer.len() && #[trigger] longer[i] == key;
                    assert(shorter[i] == key);
                    assert(before.contains(key));
                }
            }
        }
    }
    assert(names.take(p as int) =~= names);
    let lines = split_lines(contents);
    let ghost all = lines@.map_values(|line: String| line@);
    let mut plan = EnvPlan { assignments: Vec::new(), bad_line: None };
    let mut i: usize = 0;
    assert(pairs(plan.assignments@) =~= env_order(all.take(0), there).assignments);
    while i < lines.len()
        invariant
            all == lines@.map_values(|line: String| line@),
            i <= lines.len(),
            plan@ == env_order(all.take(i as int), there),
            plan.bad_line is None,
            forall|key: Seq<char>| #[trigger]
                taken@.contains(key) == (there.contains(key) || assigns(
                    pairs(plan.assignments@),
                    key,
                )),
            all == lines_of(contents@),
            there == name_set(present@),
        decreases lines.len() - i,
    {
        let ghost before = plan@;
        proof {
            assert(all[i as int] == lines@[i as int]@);
            assert(all.take(i + 1).drop_last() =~= all.take(i as int));
            assert(all.take(i + 1).last() == all[i as int]);
            lemma_bad_line_ends(all, there, i + 1);
        }
        if let Some((key, value)) = parse_env_assignment(lines[i].as_str()) {
            if has_nul(value.as_str()) {
                plan.bad_line = Some(i + 1);
                return plan;
            }
            if taken.insert(key.clone()) {
                proof {
                    lemma_assigns_push(before.assignments, (key@, value@));
                    assert(pairs(plan.assignments@.push((key, value))) =~= pairs(
                        plan.assignments@,
                    ).push((key@, value@)));
                }
                plan.assignments.push((key, value));
            }
        }
        i = i + 1;
    }
    assert(all.take(i as int) =~= all);
    plan
}

/// Nothing is read behind a bad line.
proof fn lemma_bad_line_ends(lines: Seq<Seq<char>>, present: Set<Seq<char>>, k: int)
    requires
        0 <= k <= lines.len(),
    ensures
        env_order(lines.take(k), present).bad_line is Some ==> env_order(lines, present)
            == env_order(lines.take(k), present),
    decreases lines.len(),
{
    if k < lines.len() {
        lemma_bad_line_ends(lines.drop_last(), present, k);
        assert(lines.drop_last().take(k) =~= lines.take(k));
    } else {
        assert(lines.take(k) =~= lines);
    }
}

/// An env file sets no variable that is already set, and none twice.
pub proof fn process_environment_wins(lines: Seq<Seq<char>>, present: Set<Seq<char>>, i: int, j: int)
    requires
        0 <= i < j < env_order(lines, present).assignments.len() || (0 <= i == j
            < env_order(lines, present).assignments.len()),
    ensures
        !present.contains(env_order(lines, present).assignments[i].0),
        i < j ==> env_order(lines, present).assignments[i].0 != env_order(
            lines,
            present,
        ).assignments[j].0,
    decreases lines.len(),
{
    if lines.len() > 0 {
        let earlier = env_order(lines.drop_last(), present);
        let after = env_order(lines, present);
        if j < earlier.assignments.len() {
            process_environment_wins(lines.drop_last(), present, i, j);
        } else if i < j {
            process_environment_wins(lines.drop_last(), present, i, i);
            assert(earlier.assignments[i] == after.assignments[i]);
        }
    }
}

/// An ASCII digit.
pub open spec fn is_digit(c: char) -> bool {
    '0' <= c <= '9'
}

/// The number that decimal digits stand for.
pub open spec fn digits_value(s: Seq<char>) -> nat
    decreases s.len(),
{
    if s.len() == 0 {
        0
    } else {
        digits_value(s.drop_last()) * 10 + (s.last() as nat - '0' as nat) as nat
    }
}

/// All of the characters are digits, and there is at least one.
pub open spec fn is_numeral(s: Seq<char>) -> bool {
    s.len() > 0 && forall|i: int| 0 <= i < s.len() ==> is_digit(#[trigger] s[i])
}

/// The text without a plus in front.
pub open spec fn without_plus(text: Seq<char>) -> Seq<char> {
    if text.len() > 0 && text[0] == '+' {
        text.skip(1)
    } else {
        text
    }
}

/// The number that a text stands for, as far as it goes up to `max`: digits, and maybe a plus in
/// front.
pub open spec fn number_upto(text: Seq<char>, max: u64) -> Option<u64> {
    let digits = without_plus(text);
    if is_numeral(digits) && digits_value(digits) <= max {
        Some(digits_value(digits) as u64)
    } else {
        None
    }
}

proof fn lemma_prefix_is_no_larger(s: Seq<char>, k: int)
    requires
        0 <= k <= s.len(),
    ensures
        digits_value(s.take(k)) <= digits_value(s),
    decreases s.len() - k,
{
    if k < s.len() {
        lemma_prefix_is_no_larger(s, k + 1);
        assert(s.take(k + 1).drop_last() =~= s.take(k));
    } else {
        assert(s.take(k) =~= s);
    }
}

/// The number that a text stands for, if it is one and no larger than `max`.
pub fn parse_number(text: &str, max: u64) -> (res: Option<u64>)
    ensures
        res == number_upto(text@, max),
{
    let chars = characters(text);
    let start: usize = if chars.len() > 0 && chars[0] == '+' {
        1
    } else {
        0
    };
    let ghost digits = chars@.skip(start as int);
    if start == chars.len() {
        return None;
    }
    let mut value: u64 = 0;
    let mut i: usize = start;
    proof {
        assert(text@ == chars@);
        assert(digits =~= without_plus(text@));
    }
    while i < chars.len()
        invariant
            start <= i <= chars.len(),
            start < chars.len(),
            digits == chars@.skip(start as int),
            digits == without_plus(text@),
            value <= max,
            value == digits_value(digits.take(i - start)),
            forall|j: int| 0 <= j < i - start ==> is_digit(#[trigger] digits[j]),
        decreases chars.len() - i,
    {
        let c: char = chars[i];
        assert(digits[i - start] == c);
        if !('0' <= c && c <= '9') {
            assert(!is_digit(digits[i - start]));
            return None;
        }
        let digit: u64 = (c as u32 - 48) as u64;
        proof {
            assert(digits.take(i - start + 1).drop_last() =~= digits.take(i - start));
            assert(digits_value(digits.take(i - start + 1)) == value * 10 + digit);
            lemma_prefix_is_no_larger(digits, i - start + 1);
        }
        let next: u128 = value as u128 * 10 + digit as u128;
        if next > max as u128 {
            return None;
        }
        value = next as u64;
        i = i + 1;
    }
    assert(digits.take(i - start) =~= digits);
    Some(value)
}

/// For how many seconds a lease is given: what the setting says, or 300.
pub fn node_timeout_secs(setting: Option<&str>) -> (secs: u64)
    ensures
        secs == (match setting {
            Some(text) => match number_upto(text@, u64::MAX) {
                Some(secs) => secs,
                None => 300u64,
            },
            None => 300u64,
        }),
{
    match setting {
        Some(text) => match parse_number(text, u64::MAX) {
            Some(secs) => secs,
            None => 300,
        },
        None => 300,
    }
}

/// How many journal entries go into a node's context: what the setting says, or 50.
pub fn context_event_limit(setting: Option<&str>) -> (limit: u32)
    ensures
        limit == (match setting {
            Some(text) => match number_upto(text@, u32::MAX as u64) {
                Some(limit) => limit as u32,
                None => 50u32,
            },
            None => 50u32,
        }),
{
    match setting {
        Some(text) => match parse_number(text, u32::MAX as u64) {
            Some(limit) => limit as u32,
            None => 50,
        },
        None => 50,
    }
}

/// A name below a directory, both as text.
pub open spec fn joined(directory: Seq<char>, name: Seq<char>) -> Seq<char> {
    if directory.len() == 0 || directory.last() == '/' {
        directory + name
    } else {
        directory + "/"@ + name
    }
}

/// The path of a name below a directory. A path is made of bytes, which need not be text.
pub open spec fn path_below(directory: Seq<u8>, name: Seq<char>) -> Seq<u8> {
    if directory.len() == 0 || directory.last() == 47 {
        directory + encode_utf8(name)
    } else {
        directory.push(47) + encode_utf8(name)
    }
}

fn path_join(directory: &Vec<u8>, name: &str) -> (path: Vec<u8>)
    ensures
        path@ == path_below(directory@, name@),
{
    let mut path: Vec<u8> = Vec::new();
    path.extend_from_slice(directory.as_slice());
    assert(path@ =~= directory@);
    if path.len() > 0 && path[path.len() - 1] != 47 {
        path.push(47);
    }
    let ghost start = path@;
    path.extend_from_slice(name.as_bytes());
    assert(path@ =~= start + encode_utf8(name@));
    path
}

/// The directory for state: the one that is set, else `.agentd` below the home directory; an
/// error in words if there is neither.
pub fn default_agentd_home(agentd_home: Option<Vec<u8>>, home: Option<Vec<u8>>) -> (res: Result<
    Vec<u8>,
    String,
>)
    ensures
        match (agentd_home, home) {
            (Some(path), _) => res == Ok::<Vec<u8>, String>(path),
            (None, Some(home)) => res matches Ok(path) && path@ == path_below(home@, ".agentd"@),
            (None, None) => res matches Err(words) && words@
                == "HOME is not set; set AGENTD_DATABASE_URL or AGENTD_HOME"@,
        },
{
    match agentd_home {
        Some(path) => Ok(path),
        None => match home {
            Some(home) => Ok(path_join(&home, ".agentd")),
            None => Err("HOME is not set; set AGENTD_DATABASE_URL or AGENTD_HOME".to_owned()),
        },
    }
}

/// Where the store is kept below the directory for state, whose path is shown as this text.
pub fn default_database_url(agentd_home: &str) -> (url: String)
    ensures
        url@ == "sqlite://"@ + joined(agentd_home@, "agent_state.db"@),
{
    let chars = characters(agentd_home);
    let path = if chars.len() == 0 || chars[chars.len() - 1] == '/' {
        agentd_home.to_owned().concat("agent_state.db")
    } else {
        agentd_home.to_owned().concat("/").concat("agent_state.db")
    };
    "sqlite://".to_owned().concat(path.as_str())
}

/// Where the socket stands below the directory for state.
pub fn default_socket_path(agentd_home: &Vec<u8>) -> (path: Vec<u8>)
    ensures
        path@ == path_below(agentd_home@, "agentd.sock"@),
{
    path_join(agentd_home, "agentd.sock")
}

/// Where an env file stands below the directory for state.
pub fn default_env_path(agentd_home: &Vec<u8>) -> (path: Vec<u8>)
    ensures
        path@ == path_below(agentd_home@, ".env"@),
{
    path_join(agentd_home, ".env")
}

/// The env file to load: the one that was asked for, which has to exist; else the one below the
/// directory for state; else the one in the working directory; else none. The path that was asked
/// for is shown as the text `shown`.
pub fn choose_env_file(
    explicit: Option<Vec<u8>>,
    shown: &str,
    explicit_exists: bool,
    default_path: Result<Vec<u8>, String>,
    default_exists: bool,
    project_exists: bool,
) -> (res: Result<Option<Vec<u8>>, String>)
    ensures
        match explicit {
            Some(path) => if explicit_exists {
                res == Ok::<Option<Vec<u8>>, String>(Some(path))
            } else {
                res matches Err(words) && words@ == "AGENTD_ENV_FILE does not exist: "@ + shown@
            },
            None => match default_path {
                Err(words) => res == Err::<Option<Vec<u8>>, String>(words),
                Ok(path) => if default_exists {
                    res == Ok::<Option<Vec<u8>>, String>(Some(path))
                } else if project_exists {
                    res matches Ok(Some(file)) && file@ == encode_utf8(".env"@)
                } else {
                    res == Ok::<Option<Vec<u8>>, String>(None)
                },
            },
        },
{
    match explicit {
        Some(path) => if explicit_exists {
            Ok(Some(path))
        } else {
            Err("AGENTD_ENV_FILE does not exist: ".to_owned().concat(shown))
        },
        None => match default_path {
            Err(words) => Err(words),
            Ok(path) => if default_exists {
                Ok(Some(path))
            } else if project_exists {
                Ok(Some(".env".as_bytes_vec()))
            } else {
                Ok(None)
            },
        },
    }
}

/// What stands at the path of the socket.
#[derive(Debug, Clone, Copy, PartialEq, Eq, Structural)]
pub enum SocketPath {
    Socket,
    Other,
    Nothing,
}

/// Whether to remove what stands at the path of the socket: a socket goes, nothing is left as it
/// is, and anything else is refused in words.
pub fn remove_stale_socket(found: SocketPath, path: &str) -> (res: Result<bool, String>)
    ensures
        match found {
            SocketPath::Socket => res == Ok::<bool, String>(true),
            SocketPath::Nothing => res == Ok::<bool, String>(false),
            SocketPath::Other => res matches Err(words) && words@
                == "refusing to remove non-socket path "@ + path@
                + "; choose another AGENTD_SOCKET_PATH"@,
        },
{
    match found {
        SocketPath::Socket => Ok(true),
        SocketPath::Nothing => Ok(false),
        SocketPath::Other => Err(
            "refusing to remove non-socket path ".to_owned().concat(path).concat(
                "; choose another AGENTD_SOCKET_PATH",
            ),
        ),
    }
}

} // verus!
