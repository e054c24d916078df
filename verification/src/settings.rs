//! What the env file and the settings mean, told by how they are written.

use crate::env::{
    assignment, assigns, digits_value, env_order, first_of, is_digit, is_key, is_key_char,
    is_numeral, joined, lines_of, number_upto, path_below, unquoted, without_export,
    without_plus,
};
use crate::reader::decimal;
use crate::text::{is_white_space, trimmed};
use vstd::prelude::*;
use vstd::utf8::encode_utf8;

verus! {

/// Nothing but white space.
pub open spec fn is_blank(s: Seq<char>) -> bool {
    forall|i: int| 0 <= i < s.len() ==> is_white_space(#[trigger] s[i])
}

/// No white space at either end.
pub open spec fn is_tight(s: Seq<char>) -> bool {
    s.len() > 0 ==> !is_white_space(s[0]) && !is_white_space(s.last())
}

/// Letters of the alphabet, digits and underscores, and no digit in front.
pub open spec fn is_name(s: Seq<char>) -> bool {
    &&& s.len() > 0
    &&& forall|i: int|
        0 <= i < s.len() ==> {
            let c = #[trigger] s[i];
            ||| c == '_'
            ||| 97 <= c as int <= 122
            ||| 65 <= c as int <= 90
            ||| i > 0 && 48 <= c as int <= 57
        }
}

/// A pair of quotes of one kind, with this between them.
pub open spec fn in_quotes(raw: Seq<char>, inner: Seq<char>) -> bool {
    ||| raw == seq!['"'] + inner + seq!['"']
    ||| raw == seq!['\''] + inner + seq!['\'']
}

/// The value is written between two quotes of a kind, or stands bare with no such pair around it.
pub open spec fn is_written_as(raw: Seq<char>, value: Seq<char>) -> bool {
    ||| in_quotes(raw, value)
    ||| raw == value && forall|inner: Seq<char>| !#[trigger] in_quotes(raw, inner)
}

/// The line is made of a name, an equals sign and a value, with white space around each, and
/// maybe the word `export` and a space in front.
pub open spec fn line_gives(
    line: Seq<char>,
    key: Seq<char>,
    value: Seq<char>,
    lead: Seq<char>,
    word: Seq<char>,
    before: Seq<char>,
    gap: Seq<char>,
    after: Seq<char>,
    raw: Seq<char>,
    tail: Seq<char>,
) -> bool {
    &&& line == lead + (word + ((before + key + gap) + seq!['='] + (after + raw + tail)))
    &&& is_blank(lead) && is_blank(before) && is_blank(gap) && is_blank(after) && is_blank(tail)
    &&& is_name(key)
    &&& is_tight(raw)
    &&& is_written_as(raw, value)
    &&& word == "export "@ || (word.len() == 0 && before.len() == 0 && !(key == "export"@
        && gap.len() > 0 && gap[0] == ' '))
}

proof fn lemma_trimmed(lead: Seq<char>, s: Seq<char>, tail: Seq<char>)
    requires
        is_blank(lead),
        is_blank(tail),
        is_tight(s),
    ensures
        trimmed(lead + s + tail) == s,
    decreases lead.len() + tail.len(),
{
    let all = lead + s + tail;
    if lead.len() > 0 {
        assert(is_white_space(all[0])) by {
            assert(all[0] == lead[0]);
        }
        assert(all.drop_first() =~= lead.drop_first() + s + tail);
        lemma_trimmed(lead.drop_first(), s, tail);
    } else if tail.len() > 0 {
        assert(all.last() == tail.last());
        assert(is_white_space(tail[tail.len() - 1]));
        assert(all.drop_last() =~= lead + s + tail.drop_last());
        lemma_trimmed(lead, s, tail.drop_last());
        if s.len() > 0 {
            assert(all[0] == s[0]);
        } else {
            assert(all =~= tail);
            assert(is_white_space(tail[0]));
            assert(all.drop_first() =~= lead + s + tail.drop_first());
            lemma_trimmed(lead, s, tail.drop_first());
        }
    } else {
        assert(all =~= s);
    }
}

/// Trimming takes white space off both ends, and all of it.
proof fn lemma_trimming(s: Seq<char>) -> (ends: (Seq<char>, Seq<char>))
    ensures
        s == ends.0 + trimmed(s) + ends.1,
        is_blank(ends.0),
        is_blank(ends.1),
        is_tight(trimmed(s)),
    decreases s.len(),
{
    let none = Seq::<char>::empty();
    if s.len() == 0 {
        assert(s =~= none + trimmed(s) + none);
        (none, none)
    } else if is_white_space(s[0]) {
        let (lead, tail) = lemma_trimming(s.drop_first());
        let longer = seq![s[0]] + lead;
        assert(longer + trimmed(s) + tail =~= seq![s[0]] + (lead + trimmed(s) + tail));
        assert(s =~= seq![s[0]] + s.drop_first());
        (longer, tail)
    } else if is_white_space(s.last()) {
        let (lead, tail) = lemma_trimming(s.drop_last());
        let longer = tail.push(s.last());
        assert(lead + trimmed(s) + longer =~= (lead + trimmed(s) + tail).push(s.last()));
        assert(s =~= s.drop_last().push(s.last()));
        (lead, longer)
    } else {
        assert(s =~= none + trimmed(s) + none);
        (none, none)
    }
}

/// A text without its surrounding white space: what is left begins and ends with something else,
/// and only white space went.
pub proof fn trimming_takes_white_space_alone(lead: Seq<char>, s: Seq<char>, tail: Seq<char>)
    ensures
        is_blank(lead) && is_blank(tail) && is_tight(s) ==> trimmed(lead + s + tail) == s,
        is_tight(trimmed(s)),
        exists|a: Seq<char>, b: Seq<char>|
            is_blank(a) && is_blank(b) && s == #[trigger] (a + trimmed(s) + b),
{
    if is_blank(lead) && is_blank(tail) && is_tight(s) {
        lemma_trimmed(lead, s, tail);
    }
    let (a, b) = lemma_trimming(s);
    assert(is_blank(a) && is_blank(b) && s == a + trimmed(s) + b);
}

/// The first place: `c` stands there, and nowhere before; the end if `c` is nowhere.
pub proof fn first_place_is_the_first(s: Seq<char>, c: char)
    ensures
        0 <= first_of(s, c) <= s.len(),
        first_of(s, c) < s.len() ==> s[first_of(s, c)] == c,
        forall|j: int| 0 <= j < first_of(s, c) ==> #[trigger] s[j] != c,
    decreases s.len(),
{
    if s.len() > 0 && s[0] != c {
        let rest = s.drop_first();
        first_place_is_the_first(rest, c);
        assert forall|j: int| 0 <= j < first_of(s, c) implies #[trigger] s[j] != c by {
            if j > 0 {
                assert(rest[j - 1] == s[j]);
            }
        }
    }
}

proof fn lemma_first(s: Seq<char>, c: char, at: int)
    requires
        0 <= at < s.len(),
        s[at] == c,
        forall|j: int| 0 <= j < at ==> #[trigger] s[j] != c,
    ensures
        first_of(s, c) == at,
{
    first_place_is_the_first(s, c);
    if first_of(s, c) < at {
        assert(s[first_of(s, c)] != c);
    }
}

proof fn lemma_quotes(raw: Seq<char>, value: Seq<char>)
    ensures
        is_written_as(raw, value) == (value == unquoted(raw)),
{
    assert forall|inner: Seq<char>| #[trigger] in_quotes(raw, inner) implies unquoted(raw) == inner
        && raw.len() >= 2 && raw[0] == raw.last() && (raw[0] == '"' || raw[0] == '\'') by {
        assert(raw.subrange(1, raw.len() - 1) =~= inner);
    }
    if raw.len() >= 2 && raw[0] == raw.last() && (raw[0] == '"' || raw[0] == '\'') {
        let inner = raw.subrange(1, raw.len() - 1);
        assert(raw =~= seq![raw[0]] + inner + seq![raw[0]]);
        assert(in_quotes(raw, inner));
    }
}

proof fn lemma_name(key: Seq<char>)
    ensures
        is_key(key) == is_name(key),
        is_name(key) ==> is_tight(key) && key[0] != '#' && !key.contains('='),
{
    if is_key(key) {
        assert forall|i: int| 0 <= i < key.len() implies {
            let c = #[trigger] key[i];
            ||| c == '_'
            ||| 97 <= c as int <= 122
            ||| 65 <= c as int <= 90
            ||| i > 0 && 48 <= c as int <= 57
        } by {
            assert(is_key_char(key[i]));
        }
    }
    if is_name(key) {
        assert forall|i: int| 0 <= i < key.len() implies is_key_char(#[trigger] key[i]) by {}
        assert(is_key_char(key[0]) && is_key_char(key[key.len() - 1]));
    }
}

/// The text that begins with a name does not begin with `export` and a space, unless the name is
/// that word and a space follows.
proof fn lemma_no_export(key: Seq<char>, gap: Seq<char>, rest: Seq<char>)
    requires
        is_name(key),
        is_blank(gap),
        !(key == "export"@ && gap.len() > 0 && gap[0] == ' '),
    ensures
        !"export "@.is_prefix_of(key + gap + seq!['='] + rest),
{
    reveal_strlit("export ");
    reveal_strlit("export");
    let text = key + gap + seq!['='] + rest;
    let export = "export "@;
    if export.is_prefix_of(text) {
        assert forall|i: int| 0 <= i < 7 implies text[i] == #[trigger] export[i] by {
            assert(text.subrange(0, 7)[i] == text[i]);
        }
        assert(forall|i: int| 0 <= i < key.len() ==> text[i] == #[trigger] key[i]);
        if key.len() > 6 {
            assert(key[6] == export[6]);
            assert(export[6] == ' ');
        } else {
            let at = key.len() as int;
            assert(text[at] == export[at]);
            if gap.len() > 0 {
                assert(text[at] == gap[0]);
                assert(is_white_space(gap[0]));
            } else {
                assert(text[at] == '=');
            }
            if at == 6 {
                assert(key =~= "export"@) by {
                    assert forall|i: int| 0 <= i < 6 implies key[i] == "export"@[i] by {
                        assert(text[i] == key[i]);
                        assert(text[i] == export[i]);
                    }
                }
            }
        }
        assert(false);
    }
}

/// What stands in front of the first equals sign, and behind it.
proof fn lemma_sides(
    before: Seq<char>,
    key: Seq<char>,
    gap: Seq<char>,
    right: Seq<char>,
)
    requires
        is_name(key),
        is_blank(before),
        is_blank(gap),
    ensures
        ({
            let body = (before + key + gap) + seq!['='] + right;
            let at = first_of(body, '=');
            &&& at < body.len()
            &&& trimmed(body.take(at)) == key
            &&& body.skip(at + 1) == right
        }),
{
    let left = before + key + gap;
    let body = left + seq!['='] + right;
    let at = left.len() as int;
    lemma_name(key);
    assert forall|j: int| 0 <= j < at implies #[trigger] body[j] != '=' by {
        assert(body[j] == left[j]);
        if j < before.len() {
            assert(left[j] == before[j]);
            assert(is_white_space(before[j]));
        } else if j < before.len() + key.len() {
            assert(left[j] == key[j - before.len()]);
        } else {
            assert(left[j] == gap[j - before.len() - key.len()]);
            assert(is_white_space(gap[j - before.len() - key.len()]));
        }
    }
    assert(body[at] == '=');
    lemma_first(body, '=', at);
    assert(body.take(at) =~= left);
    lemma_trimmed(before, key, gap);
    assert(body.skip(at + 1) =~= right);
}

#[verifier::rlimit(30)]
proof fn lemma_given(
    line: Seq<char>,
    key: Seq<char>,
    value: Seq<char>,
    lead: Seq<char>,
    word: Seq<char>,
    before: Seq<char>,
    gap: Seq<char>,
    after: Seq<char>,
    raw: Seq<char>,
    tail: Seq<char>,
)
    requires
        line_gives(line, key, value, lead, word, before, gap, after, raw, tail),
    ensures
        assignment(line) == Some((key, value)),
{
    reveal_strlit("export ");
    lemma_name(key);
    lemma_quotes(raw, value);
    let none = Seq::<char>::empty();
    let left = before + key + gap;
    let (kept, dropped) = if raw.len() > 0 {
        (after + raw, tail)
    } else {
        (none, after + tail)
    };
    let body = left + seq!['='] + kept;
    let text = word + body;
    assert(line =~= lead + text + dropped) by {
        assert(after + raw + tail =~= kept + dropped);
    }
    assert(is_blank(dropped)) by {
        if raw.len() == 0 {
            assert forall|i: int| 0 <= i < dropped.len() implies is_white_space(
                #[trigger] dropped[i],
            ) by {
                if i < after.len() {
                    assert(is_white_space(after[i]));
                } else {
                    assert(is_white_space(tail[i - after.len()]));
                }
            }
        }
    }
    if word.len() > 0 {
        assert(text[0] == 'e');
        assert(word =~= text.subrange(0, 7));
        assert(text.skip(7) =~= body);
    } else {
        assert(text =~= body);
        assert(text[0] == key[0]);
        assert(text =~= key + gap + seq!['='] + kept);
        lemma_no_export(key, gap, kept);
    }
    assert(without_export(text) == body);
    assert(text.last() == if raw.len() > 0 {
        raw.last()
    } else {
        '='
    });
    lemma_trimmed(lead, text, dropped);
    lemma_sides(before, key, gap, kept);
    if raw.len() > 0 {
        assert(kept =~= after + raw + none);
        lemma_trimmed(after, raw, none);
    } else {
        assert(raw =~= none);
    }
}

/// What stands around the key and the value of a line that assigns.
#[verifier::rlimit(30)]
proof fn lemma_found(line: Seq<char>, key: Seq<char>, value: Seq<char>) -> (parts: (
    Seq<char>,
    Seq<char>,
    Seq<char>,
    Seq<char>,
    Seq<char>,
    Seq<char>,
    Seq<char>,
))
    requires
        assignment(line) == Some((key, value)),
    ensures
        line_gives(
            line,
            key,
            value,
            parts.0,
            parts.1,
            parts.2,
            parts.3,
            parts.4,
            parts.5,
            parts.6,
        ),
{
    reveal_strlit("export ");
    reveal_strlit("export");
    let text = trimmed(line);
    let body = without_export(text);
    let at = first_of(body, '=');
    let right = body.skip(at + 1);
    let raw = trimmed(right);
    let word = if "export "@.is_prefix_of(text) {
        "export "@
    } else {
        Seq::<char>::empty()
    };
    let (lead, end) = lemma_trimming(line);
    first_place_is_the_first(body, '=');
    let (before, gap) = lemma_trimming(body.take(at));
    let (after, rest) = lemma_trimming(right);
    let tail = rest + end;
    lemma_name(key);
    lemma_quotes(raw, value);
    assert(text =~= word + body) by {
        if "export "@.is_prefix_of(text) {
            assert(text.subrange(0, 7) =~= "export "@);
        }
    }
    assert(line == lead + (word + ((before + key + gap) + seq!['='] + (after + raw + tail)))) by {
        assert(right + end =~= after + raw + tail);
        assert(body + end =~= body.take(at) + seq!['='] + (right + end));
        assert(lead + (word + body) + end =~= lead + (word + (body + end)));
    }
    assert(is_blank(tail)) by {
        assert forall|i: int| 0 <= i < tail.len() implies is_white_space(#[trigger] tail[i]) by {
            if i < rest.len() {
                assert(is_white_space(rest[i]));
            } else {
                assert(is_white_space(end[i - rest.len()]));
            }
        }
    }
    if word.len() == 0 {
        assert(text =~= body.take(at) + seq!['='] + right);
        lemma_bare(text, before, key, gap, right);
    }
    (lead, word, before, gap, after, raw, tail)
}

/// Without `export` in front, a trimmed text begins with the key; if that is `export`, no space
/// follows it.
proof fn lemma_bare(
    text: Seq<char>,
    before: Seq<char>,
    key: Seq<char>,
    gap: Seq<char>,
    right: Seq<char>,
)
    requires
        text == (before + key + gap) + seq!['='] + right,
        !"export "@.is_prefix_of(text),
        is_tight(text),
        is_blank(before),
        key.len() > 0,
    ensures
        before.len() == 0,
        !(key == "export"@ && gap.len() > 0 && gap[0] == ' '),
{
    reveal_strlit("export ");
    reveal_strlit("export");
    if before.len() > 0 {
        assert(text[0] == before[0]);
        assert(is_white_space(before[0]));
    }
    if key == "export"@ && gap.len() > 0 && gap[0] == ' ' {
        assert(text.subrange(0, 7) =~= "export "@);
    }
}

/// A line of an env file assigns the value to the name if and only if it is written so: the name,
/// an equals sign and the value, bare or in quotes, with white space around each, and maybe
/// `export` in front.
pub proof fn line_assigns_what_is_written(line: Seq<char>, key: Seq<char>, value: Seq<char>)
    ensures
        assignment(line) == Some((key, value)) <==> exists|
            lead: Seq<char>,
            word: Seq<char>,
            before: Seq<char>,
            gap: Seq<char>,
            after: Seq<char>,
            raw: Seq<char>,
            tail: Seq<char>,
        | #[trigger]
            line_gives(line, key, value, lead, word, before, gap, after, raw, tail),
{
    if assignment(line) == Some((key, value)) {
        let (lead, word, before, gap, after, raw, tail) = lemma_found(line, key, value);
        assert(line_gives(line, key, value, lead, word, before, gap, after, raw, tail));
    } else {
        assert forall|
            lead: Seq<char>,
            word: Seq<char>,
            before: Seq<char>,
            gap: Seq<char>,
            after: Seq<char>,
            raw: Seq<char>,
            tail: Seq<char>,
        | !#[trigger] line_gives(line, key, value, lead, word, before, gap, after, raw, tail) by {
            if line_gives(line, key, value, lead, word, before, gap, after, raw, tail) {
                lemma_given(line, key, value, lead, word, before, gap, after, raw, tail);
            }
        }
    }
}

/// The lines one after the other, with a line end between any two.
pub open spec fn with_line_ends(lines: Seq<Seq<char>>) -> Seq<char>
    decreases lines.len(),
{
    if lines.len() == 0 {
        Seq::empty()
    } else if lines.len() == 1 {
        lines[0]
    } else {
        lines[0] + seq!['\n'] + with_line_ends(lines.drop_first())
    }
}

/// The lines of a text: there is no line end in any of them, and with line ends between them they
/// are the text.
pub proof fn lines_make_up_the_text(s: Seq<char>)
    ensures
        lines_of(s).len() > 0,
        with_line_ends(lines_of(s)) == s,
        forall|i: int| 0 <= i < lines_of(s).len() ==> !(#[trigger] lines_of(s)[i]).contains('\n'),
    decreases s.len(),
{
    let end = first_of(s, '\n');
    first_place_is_the_first(s, '\n');
    let lines = lines_of(s);
    if end < s.len() {
        let rest = s.skip(end + 1);
        lines_make_up_the_text(rest);
        assert(lines.drop_first() =~= lines_of(rest));
        assert(s =~= s.take(end) + seq!['\n'] + rest);
        assert forall|i: int| 0 <= i < lines.len() implies !(#[trigger] lines[i]).contains(
            '\n',
        ) by {
            if i > 0 {
                assert(lines[i] == lines_of(rest)[i - 1]);
            } else {
                assert(lines[0] == s.take(end));
            }
        }
    } else {
        assert(!s.contains('\n'));
    }
}

/// The variable that a line assigns to.
pub open spec fn key_on(line: Seq<char>) -> Seq<char> {
    match assignment(line) {
        Some((key, _)) => key,
        None => Seq::empty(),
    }
}

/// The value that a line gives its variable.
pub open spec fn value_on(line: Seq<char>) -> Seq<char> {
    match assignment(line) {
        Some((_, value)) => value,
        None => Seq::empty(),
    }
}

/// The line gives a variable a value that no variable can have.
pub open spec fn is_bad(line: Seq<char>) -> bool {
    assignment(line) is Some && value_on(line).contains('\0')
}

/// The line is the first of all that assign to its variable.
pub open spec fn assigns_first(lines: Seq<Seq<char>>, i: int) -> bool {
    &&& assignment(lines[i]) is Some
    &&& forall|j: int|
        0 <= j < i ==> !(assignment(#[trigger] lines[j]) is Some && key_on(lines[j])
            == key_on(lines[i]))
}

/// These are, in order, the places before `stop` of the lines that count: each is the first to
/// assign to its variable, which was not present.
pub open spec fn count(
    places: Seq<int>,
    lines: Seq<Seq<char>>,
    present: Set<Seq<char>>,
    stop: int,
) -> bool {
    &&& forall|a: int, b: int| 0 <= a < b < places.len() ==> places[a] < places[b]
    &&& forall|i: int|
        #[trigger]
        places.contains(i) <==> 0 <= i < stop && assigns_first(lines, i) && !present.contains(
            key_on(lines[i]),
        )
}

/// Where the reading of an env file stops: at the first bad line, or at the end.
pub open spec fn stops_at(lines: Seq<Seq<char>>, stop: int) -> bool {
    &&& 0 <= stop <= lines.len()
    &&& stop < lines.len() ==> is_bad(lines[stop])
    &&& forall|i: int| 0 <= i < stop ==> !is_bad(#[trigger] lines[i])
}

/// An env file is read line by line up to the first whose value holds a NUL, which is named by
/// its number. Of the lines read, each that is the first to assign to its variable sets it, unless
/// it was set before; no other line sets anything.
pub proof fn env_file_sets_what_is_not_set(lines: Seq<Seq<char>>, present: Set<Seq<char>>) -> (res: (
    Seq<int>,
    int,
))
    ensures
        stops_at(lines, res.1),
        count(res.0, lines, present, res.1),
        env_order(lines, present).bad_line == if res.1 < lines.len() {
            Some((res.1 + 1) as nat)
        } else {
            None::<nat>
        },
        env_order(lines, present).assignments.len() == res.0.len(),
        forall|k: int|
            0 <= k < res.0.len() ==> assignment(lines[#[trigger] res.0[k]]) == Some(
                env_order(lines, present).assignments[k],
            ),
    decreases lines.len(),
{
    if lines.len() == 0 {
        (Seq::empty(), 0)
    } else {
        let fewer = lines.drop_last();
        let n = lines.len() - 1;
        let (places, stop) = env_file_sets_what_is_not_set(fewer, present);
        let earlier = env_order(fewer, present);
        assert(forall|i: int| 0 <= i < n ==> #[trigger] fewer[i] == lines[i]);
        assert forall|i: int| 0 <= i < n implies assigns_first(fewer, i) == #[trigger]
            assigns_first(lines, i) by {
            assert(fewer[i] == lines[i]);
            if assigns_first(lines, i) {
                assert forall|j: int| 0 <= j < i implies !(assignment(#[trigger] fewer[j]) is Some
                    && key_on(fewer[j]) == key_on(fewer[i])) by {
                    assert(fewer[j] == lines[j]);
                }
            }
            if assigns_first(fewer, i) {
                assert forall|j: int| 0 <= j < i implies !(assignment(#[trigger] lines[j]) is Some
                    && key_on(lines[j]) == key_on(lines[i])) by {
                    assert(fewer[j] == lines[j]);
                }
            }
        }
        assert forall|k: int| 0 <= k < places.len() implies 0 <= #[trigger] places[k] < stop
            && assignment(lines[places[k]]) == Some(earlier.assignments[k]) by {
            assert(places.contains(places[k]));
            assert(fewer[places[k]] == lines[places[k]]);
        }
        let last = lines.last();
        assert(stop < n ==> is_bad(fewer[stop]));
        if stop < n || assignment(last) is None || is_bad(last) {
            assert forall|i: int| #[trigger]
                places.contains(i) <==> 0 <= i < stop && assigns_first(lines, i)
                    && !present.contains(key_on(lines[i])) by {
                if 0 <= i < n {
                    assert(key_on(fewer[i]) == key_on(lines[i]));
                }
                if places.contains(i) {
                    let k = choose|k: int| 0 <= k < places.len() && places[k] == i;
                    assert(0 <= places[k] < stop);
                }
            }
            assert forall|i: int| 0 <= i < stop implies !is_bad(#[trigger] lines[i]) by {
                assert(fewer[i] == lines[i]);
            }
            if stop == n && assignment(last) is None {
                assert(lines[n] == last);
                assert(count(places, lines, present, n + 1)) by {
                    assert forall|i: int| #[trigger]
                        places.contains(i) <==> 0 <= i < n + 1 && assigns_first(lines, i)
                            && !present.contains(key_on(lines[i])) by {}
                }
                (places, n + 1)
            } else {
                (places, stop)
            }
        } else {
            let key = key_on(last);
            assert(lines[n] == last);
            assert(assigns_first(lines, n) && !present.contains(key) <==> !present.contains(key)
                && !assigns(earlier.assignments, key)) by {
                lemma_first_to_assign(lines, present, places, earlier.assignments);
            }
            let more = if present.contains(key) || assigns(earlier.assignments, key) {
                places
            } else {
                places.push(n)
            };
            assert forall|i: int| #[trigger]
                more.contains(i) <==> 0 <= i < n + 1 && assigns_first(lines, i)
                    && !present.contains(key_on(lines[i])) by {
                if 0 <= i < n {
                    assert(key_on(fewer[i]) == key_on(lines[i]));
                }
                if places.contains(i) {
                    let k = choose|k: int| 0 <= k < places.len() && places[k] == i;
                    assert(0 <= places[k] < stop);
                    assert(more[k] == i);
                }
                if more.contains(i) && i != n {
                    let k = choose|k: int| 0 <= k < more.len() && more[k] == i;
                    assert(places[k] == i);
                }
                if more.len() > places.len() {
                    assert(more[places.len() as int] == n);
                }
            }
            assert forall|i: int| 0 <= i < n + 1 implies !is_bad(#[trigger] lines[i]) by {
                if i < n {
                    assert(fewer[i] == lines[i]);
                }
            }
            assert forall|a: int, b: int| 0 <= a < b < more.len() implies more[a] < more[b] by {
                if b == places.len() {
                    assert(more[a] == places[a]);
                    assert(places[a] < stop);
                }
            }
            (more, n + 1)
        }
    }
}

/// A variable is among those set so far if and only if a line so far assigns to it, unless it was
/// present.
proof fn lemma_first_to_assign(
    lines: Seq<Seq<char>>,
    present: Set<Seq<char>>,
    places: Seq<int>,
    set: Seq<(Seq<char>, Seq<char>)>,
)
    requires
        lines.len() > 0,
        assignment(lines.last()) is Some,
        count(places, lines.drop_last(), present, lines.len() - 1),
        set.len() == places.len(),
        forall|k: int|
            0 <= k < places.len() ==> 0 <= #[trigger] places[k] < lines.len() - 1 && assignment(
                lines[places[k]],
            ) == Some(set[k]),
    ensures
        !present.contains(key_on(lines.last())) ==> assigns_first(lines, lines.len() - 1)
            == !assigns(set, key_on(lines.last())),
{
    let n = lines.len() - 1;
    let fewer = lines.drop_last();
    let key = key_on(lines.last());
    if !present.contains(key) {
        if assigns(set, key) {
            let k = choose|k: int| 0 <= k < set.len() && (#[trigger] set[k]).0 == key;
            assert(assignment(lines[places[k]]) == Some(set[k]));
        }
        if !assigns_first(lines, n) {
            let j = choose|j: int|
                0 <= j < n && assignment(#[trigger] lines[j]) is Some && key_on(lines[j])
                    == key;
            let first = lemma_earliest(fewer, key, j);
            assert(fewer[first] == lines[first]);
            assert(!present.contains(key_on(fewer[first])));
            assert(places.contains(first));
            let k = choose|k: int| 0 <= k < places.len() && places[k] == first;
            assert(set[k].0 == key);
        }
    }
}

/// If a line assigns to a variable, one is the first to do so.
proof fn lemma_earliest(lines: Seq<Seq<char>>, key: Seq<char>, at: int) -> (first: int)
    requires
        0 <= at < lines.len(),
        assignment(lines[at]) is Some,
        key_on(lines[at]) == key,
    ensures
        0 <= first <= at,
        assignment(lines[first]) is Some,
        key_on(lines[first]) == key,
        assigns_first(lines, first),
    decreases at,
{
    if assigns_first(lines, at) {
        at
    } else {
        let j = choose|j: int|
            0 <= j < at && assignment(#[trigger] lines[j]) is Some && key_on(lines[j])
                == key;
        lemma_earliest(lines, key, j)
    }
}

/// A number is read digit by digit, each worth ten times as much as the next; a plus may stand in
/// front, and nothing but digits behind it. What goes beyond the limit is not read.
pub proof fn number_is_read_by_its_digits(s: Seq<char>, d: char, max: u64)
    ensures
        number_upto(Seq::empty(), max) is None,
        number_upto(seq!['+'], max) is None,
        number_upto(seq![d], max) == if 48 <= d as int <= 57 && d as int - 48 <= max {
            Some((d as int - 48) as u64)
        } else {
            None::<u64>
        },
        s.len() > 0 && s != seq!['+'] ==> number_upto(s.push(d), max) == match number_upto(s, max) {
            Some(n) => if 48 <= d as int <= 57 && n * 10 + (d as int - 48) <= max {
                Some((n * 10 + (d as int - 48)) as u64)
            } else {
                None::<u64>
            },
            None => None::<u64>,
        },
        s.len() > 0 && s[0] != '+' ==> number_upto(seq!['+'] + s, max) == number_upto(s, max),
{
    let none = Seq::<char>::empty();
    let one = seq![d];
    assert(without_plus(none) =~= none);
    assert(without_plus(seq!['+']) =~= none);
    assert(one.drop_last() =~= none);
    reveal_with_fuel(digits_value, 2);
    assert(is_numeral(one) == is_digit(d)) by {
        assert(one[0] == d);
    }
    if d == '+' {
        assert(one =~= seq!['+']);
    } else {
        assert(without_plus(one) =~= one);
    }
    if s.len() > 0 && s != seq!['+'] {
        let digits = without_plus(s);
        if digits.len() == 0 {
            assert(s =~= seq!['+']);
        }
        assert(without_plus(s.push(d)) =~= digits.push(d));
        assert(digits.push(d).drop_last() =~= digits);
        assert(is_numeral(digits.push(d)) == (is_numeral(digits) && is_digit(d))) by {
            let longer = digits.push(d);
            assert(longer[digits.len() as int] == d);
            assert(forall|i: int| 0 <= i < digits.len() ==> longer[i] == #[trigger] digits[i]);
            if is_numeral(longer) {
                assert forall|i: int| 0 <= i < digits.len() implies is_digit(
                    #[trigger] digits[i],
                ) by {
                    assert(longer[i] == digits[i]);
                }
            }
        }
    }
    if s.len() > 0 && s[0] != '+' {
        assert((seq!['+'] + s).skip(1) =~= s);
    }
}

/// The digits of a number are read as the number, and begin with no nought, unless there is no
/// other digit.
pub proof fn number_reads_back(n: nat, max: u64)
    ensures
        is_numeral(decimal(n)),
        digits_value(decimal(n)) == n,
        number_upto(decimal(n), max) == if n <= max {
            Some(n as u64)
        } else {
            None::<u64>
        },
        n < 10 ==> decimal(n).len() == 1,
        n >= 10 ==> decimal(n).len() > 1 && decimal(n)[0] != '0',
    decreases n,
{
    let text = decimal(n);
    if n < 10 {
        assert(text.drop_last() =~= Seq::<char>::empty());
        reveal_with_fuel(digits_value, 2);
        assert(text[0] as int == 48 + n);
    } else {
        number_reads_back(n / 10, max);
        let front = decimal(n / 10);
        assert(text.drop_last() =~= front);
        assert(text.last() as int == 48 + n % 10);
        assert forall|i: int| 0 <= i < text.len() implies is_digit(#[trigger] text[i]) by {
            if i < front.len() {
                assert(text[i] == front[i]);
            }
        }
        if n / 10 < 10 {
            assert(front[0] as int == 48 + n / 10);
        }
        assert(text[0] == front[0]);
    }
    assert(without_plus(text) =~= text) by {
        assert(is_digit(text[0]));
    }
}

/// A path below a directory begins with the directory and ends with the name, and one slash
/// stands between them, whether or not the directory is written with one; below no directory it
/// is the name.
pub proof fn one_slash_stands_between(directory: Seq<u8>, shown: Seq<char>, name: Seq<char>)
    ensures
        path_below(Seq::empty(), name) == encode_utf8(name),
        path_below(directory.push(47), name) == directory + seq![47u8] + encode_utf8(name),
        directory.len() > 0 && directory.last() != 47 ==> path_below(directory, name) == path_below(
            directory.push(47),
            name,
        ),
        joined(Seq::empty(), name) == name,
        joined(shown.push('/'), name) == shown + seq!['/'] + name,
        shown.len() > 0 && shown.last() != '/' ==> joined(shown, name) == joined(
            shown.push('/'),
            name,
        ),
{
    reveal_strlit("/");
    assert("/"@ =~= seq!['/']);
    assert(directory.push(47) =~= directory + seq![47u8]);
    assert(shown.push('/') =~= shown + seq!['/']);
    assert(Seq::<u8>::empty() + encode_utf8(name) =~= encode_utf8(name));
    assert(Seq::<char>::empty() + name =~= name);
}

} // verus!
