//! JSON values: what they hold, how they are built, written and read.

use crate::ids::Uuid;
use crate::text::{characters, reads, unread};
use vstd::prelude::*;

verus! {

/// `serde_json::Value`, whose content is named by [`json_content`].
#[verifier::external_type_specification]
#[verifier::external_body]
pub struct ExValue(serde_json::Value);

/// `serde_json::Map`, whose content is named by [`fields_content`].
#[verifier::external_type_specification]
#[verifier::external_body]
#[verifier::reject_recursive_types(K)]
#[verifier::reject_recursive_types(V)]
pub struct ExJsonMap<K, V>(serde_json::Map<K, V>);

/// `serde_json::Error`, carried unopened.
#[verifier::external_type_specification]
#[verifier::external_body]
pub struct ExJsonError(serde_json::Error);

/// What a JSON value holds.
pub enum Json {
    Null,
    Bool(bool),
    Integer(int),
    /// A number that is not held as an integer, by its text.
    Real(Seq<char>),
    Text(Seq<char>),
    Array(Seq<Json>),
    Object(Map<Seq<char>, Json>),
}

/// What a `serde_json::Value` holds.
pub uninterp spec fn json_content(value: serde_json::Value) -> Json;

/// What a `serde_json::Map` holds, by key.
pub uninterp spec fn fields_content(fields: serde_json::Map<String, serde_json::Value>) -> Map<
    Seq<char>,
    Json,
>;

/// What `serde_json::to_string` writes for a value with this content.
pub uninterp spec fn json_text(content: Json) -> Seq<char>;

/// What `serde_json::from_str` reads out of a text: a value's content, or what its error prints
/// as.
pub uninterp spec fn json_parsed(text: Seq<char>) -> Result<Json, Seq<char>>;

/// What `serde_json::from_str` reads out of a text as a list of identifiers: the list, or what its
/// error prints as.
pub uninterp spec fn parsed_ids(text: Seq<char>) -> Result<Seq<Uuid>, Seq<char>>;

/// What `serde_json::Error` prints as.
pub uninterp spec fn json_error_text(err: serde_json::Error) -> Seq<char>;

impl Json {
    /// The content nests arrays and objects at most `depth` deep and holds no number but integers
    /// of 64 bits.
    pub open spec fn plain_within(self, depth: nat) -> bool
        decreases depth,
    {
        match self {
            Json::Null => true,
            Json::Bool(_) => true,
            Json::Integer(n) => -0x8000_0000_0000_0000 <= n < 0x1_0000_0000_0000_0000,
            Json::Real(_) => false,
            Json::Text(_) => true,
            Json::Array(items) => depth > 0 && forall|i: int|
                0 <= i < items.len() ==> (#[trigger] items[i]).plain_within((depth - 1) as nat),
            Json::Object(fields) => depth > 0 && forall|key: Seq<char>| #[trigger]
                fields.dom().contains(key) ==> fields[key].plain_within((depth - 1) as nat),
        }
    }

    /// Written and read again, a value with this content is the same.
    pub open spec fn reads_back(self) -> bool {
        self.plain_within(127)
    }

    /// The content nests arrays and objects at most `depth` deep.
    pub open spec fn nests_within(self, depth: nat) -> bool
        decreases depth,
    {
        match self {
            Json::Array(items) => depth > 0 && forall|i: int|
                0 <= i < items.len() ==> (#[trigger] items[i]).nests_within((depth - 1) as nat),
            Json::Object(fields) => depth > 0 && forall|key: Seq<char>| #[trigger]
                fields.dom().contains(key) ==> fields[key].nests_within((depth - 1) as nat),
            _ => true,
        }
    }

    /// The content nests at most `depth` deep and the other differs from it at most in numbers that
    /// are not held as integers.
    pub open spec fn alike(self, other: Json, depth: nat) -> bool
        decreases depth,
    {
        match (self, other) {
            (Json::Null, Json::Null) => true,
            (Json::Bool(a), Json::Bool(b)) => a == b,
            (Json::Integer(a), Json::Integer(b)) => a == b,
            (Json::Real(_), Json::Real(_)) => true,
            (Json::Text(a), Json::Text(b)) => a == b,
            (Json::Array(a), Json::Array(b)) => depth > 0 && a.len() == b.len() && forall|i: int|
                0 <= i < a.len() ==> (#[trigger] a[i]).alike(b[i], (depth - 1) as nat),
            (Json::Object(a), Json::Object(b)) => depth > 0 && a.dom() == b.dom() && forall|
                key: Seq<char>,
            | #[trigger] a.dom().contains(key) ==> a[key].alike(b[key], (depth - 1) as nat),
            _ => false,
        }
    }
}

/// The text was read as a content like this one, which nests at most 127 deep.
pub open spec fn reads_alike(content: Json, read: Result<Json, Seq<char>>) -> bool {
    read matches Ok(found) && content.alike(found, 127)
}

/// Plain content is like nothing but itself.
pub proof fn plain_content_is_like_itself_only(content: Json, other: Json, depth: nat)
    requires
        content.plain_within(depth),
        content.alike(other, depth),
    ensures
        other == content,
    decreases depth,
{
    match (content, other) {
        (Json::Array(a), Json::Array(b)) => {
            assert forall|i: int| 0 <= i < a.len() implies a[i] == b[i] by {
                assert(a[i].alike(b[i], (depth - 1) as nat));
                plain_content_is_like_itself_only(a[i], b[i], (depth - 1) as nat);
            }
            assert(a =~= b);
        },
        (Json::Object(a), Json::Object(b)) => {
            assert forall|key: Seq<char>| #[trigger] a.dom().contains(key) implies a[key]
                == b[key] by {
                plain_content_is_like_itself_only(a[key], b[key], (depth - 1) as nat);
            }
            assert(a =~= b);
        },
        _ => {},
    }
}

/// Plain content nests no deeper than it is plain.
pub proof fn plain_content_nests_within(content: Json, depth: nat)
    requires
        content.plain_within(depth),
    ensures
        content.nests_within(depth),
    decreases depth,
{
    match content {
        Json::Array(items) => {
            assert forall|i: int| 0 <= i < items.len() implies (#[trigger] items[i]).nests_within(
                (depth - 1) as nat,
            ) by {
                plain_content_nests_within(items[i], (depth - 1) as nat);
            }
        },
        Json::Object(fields) => {
            assert forall|key: Seq<char>| #[trigger]
                fields.dom().contains(key) implies fields[key].nests_within((depth - 1) as nat) by {
                plain_content_nests_within(fields[key], (depth - 1) as nat);
            }
        },
        _ => {},
    }
}

/// Content nested at most `depth` deep is nested at most `deeper` deep.
pub proof fn nesting_is_monotone(content: Json, depth: nat, deeper: nat)
    requires
        content.nests_within(depth),
        depth <= deeper,
    ensures
        content.nests_within(deeper),
    decreases depth,
{
    match content {
        Json::Array(items) => {
            assert forall|i: int| 0 <= i < items.len() implies (#[trigger] items[i]).nests_within(
                (deeper - 1) as nat,
            ) by {
                nesting_is_monotone(items[i], (depth - 1) as nat, (deeper - 1) as nat);
            }
        },
        Json::Object(fields) => {
            assert forall|key: Seq<char>| #[trigger]
                fields.dom().contains(key) implies fields[key].nests_within((deeper - 1) as nat) by {
                nesting_is_monotone(fields[key], (depth - 1) as nat, (deeper - 1) as nat);
            }
        },
        _ => {},
    }
}

/// How far a JSON text was looked through: how many brackets are open, how many were open at most,
/// and whether a string is open, or a backslash in it.
pub struct Scan {
    pub open: int,
    pub deepest: int,
    pub quoted: bool,
    pub escaped: bool,
}

/// What the next character makes of a scan.
pub open spec fn scan_step(scan: Scan, c: char) -> Scan {
    if scan.escaped {
        Scan { escaped: false, ..scan }
    } else if scan.quoted {
        Scan { escaped: c == '\\', quoted: c != '"', ..scan }
    } else if c == '"' {
        Scan { quoted: true, ..scan }
    } else if c == '[' || c == '{' {
        Scan {
            open: scan.open + 1,
            deepest: if scan.deepest <= scan.open {
                scan.open + 1
            } else {
                scan.deepest
            },
            ..scan
        }
    } else if c == ']' || c == '}' {
        Scan { open: scan.open - 1, ..scan }
    } else {
        scan
    }
}

/// The scan of a text.
pub open spec fn scanned(text: Seq<char>) -> Scan
    decreases text.len(),
{
    if text.len() == 0 {
        Scan { open: 0, deepest: 0, quoted: false, escaped: false }
    } else {
        scan_step(scanned(text.drop_last()), text.last())
    }
}

/// How many brackets of a JSON text are open at once at most, those in strings left out.
pub open spec fn nesting(text: Seq<char>) -> int {
    scanned(text).deepest
}

/// Whether a JSON text has at most `depth` brackets open at once.
pub fn nests_no_deeper(text: &str, depth: u32) -> (res: bool)
    ensures
        res == (nesting(text@) <= depth),
{
    let chars = characters(text);
    let mut open: i128 = 0;
    let mut deepest: i128 = 0;
    let mut quoted = false;
    let mut escaped = false;
    let mut i: usize = 0;
    assert(chars@.take(0) =~= Seq::<char>::empty());
    while i < chars.len()
        invariant
            chars@ == text@,
            i <= chars.len(),
            -i <= open <= i,
            0 <= deepest <= i,
            scanned(chars@.take(i as int)) == (Scan {
                open: open as int,
                deepest: deepest as int,
                quoted,
                escaped,
            }),
        decreases chars.len() - i,
    {
        let c = chars[i];
        proof {
            assert(chars@.take(i + 1).drop_last() =~= chars@.take(i as int));
            assert(chars@.take(i + 1).last() == c);
        }
        if escaped {
            escaped = false;
        } else if quoted {
            escaped = c == '\\';
            quoted = c != '"';
        } else if c == '"' {
            quoted = true;
        } else if c == '[' || c == '{' {
            if deepest <= open {
                deepest = open + 1;
            }
            open = open + 1;
        } else if c == ']' || c == '}' {
            open = open - 1;
        }
        i = i + 1;
    }
    assert(chars@.take(i as int) =~= text@);
    deepest <= depth as i128
}

/// The text that stands for a list of identifiers: each quoted, commas between, brackets around.
pub open spec fn ids_text(ids: Seq<Uuid>) -> Seq<char> {
    seq!['['] + quoted_ids(ids) + seq![']']
}

/// The identifiers of a list, each quoted, commas between.
pub open spec fn quoted_ids(ids: Seq<Uuid>) -> Seq<char>
    decreases ids.len(),
{
    if ids.len() == 0 {
        Seq::empty()
    } else if ids.len() == 1 {
        seq!['"'] + ids[0]@ + seq!['"']
    } else {
        quoted_ids(ids.drop_last()) + seq![',', '"'] + ids.last()@ + seq!['"']
    }
}

/// The JSON `null`, `serde_json::Value::Null`.
#[verifier::external_body]
pub(crate) fn null_value() -> (value: serde_json::Value)
    ensures
        json_content(value) == Json::Null,
{
    serde_json::Value::Null
}

/// A JSON boolean, `serde_json::Value::Bool`.
#[verifier::external_body]
pub(crate) fn bool_value(b: bool) -> (value: serde_json::Value)
    ensures
        json_content(value) == Json::Bool(b),
{
    serde_json::Value::Bool(b)
}

/// A JSON number, `serde_json::Value::from` of an `i64`.
#[verifier::external_body]
pub(crate) fn signed_value(n: i64) -> (value: serde_json::Value)
    ensures
        json_content(value) == Json::Integer(n as int),
{
    serde_json::Value::from(n)
}

/// A JSON number, `serde_json::Value::from` of a `u64`.
#[verifier::external_body]
pub(crate) fn unsigned_value(n: u64) -> (value: serde_json::Value)
    ensures
        json_content(value) == Json::Integer(n as int),
{
    serde_json::Value::from(n)
}

/// A JSON string, `serde_json::Value::String`.
#[verifier::external_body]
pub(crate) fn text_value(text: &str) -> (value: serde_json::Value)
    ensures
        json_content(value) == Json::Text(text@),
{
    serde_json::Value::String(text.to_string())
}

/// A JSON array, `serde_json::Value::Array`, of the values given.
#[verifier::external_body]
pub(crate) fn array_value(items: Vec<serde_json::Value>) -> (value: serde_json::Value)
    ensures
        json_content(value) == Json::Array(contents(items@)),
{
    serde_json::Value::Array(items)
}

/// A JSON object, `serde_json::Value::Object`, with the fields given.
#[verifier::external_body]
pub(crate) fn object_value(fields: serde_json::Map<String, serde_json::Value>) -> (value:
    serde_json::Value)
    ensures
        json_content(value) == Json::Object(fields_content(fields)),
{
    serde_json::Value::Object(fields)
}

/// No fields yet, `serde_json::Map::new`.
#[verifier::external_body]
pub(crate) fn no_fields() -> (fields: serde_json::Map<String, serde_json::Value>)
    ensures
        fields_content(fields) == no_content(),
{
    serde_json::Map::new()
}

/// Sets one field, `serde_json::Map::insert`.
#[verifier::external_body]
pub(crate) fn put(
    fields: &mut serde_json::Map<String, serde_json::Value>,
    key: &str,
    value: serde_json::Value,
)
    ensures
        fields_content(*final(fields)) == fields_content(*old(fields)).insert(
            key@,
            json_content(value),
        ),
{
    fields.insert(key.to_string(), value);
}

/// Writes a value with `serde_json::to_string`, which cannot fail on one.
///
/// The text has as many brackets open at once as the content is nested deep. Where that is at most
/// 127, `serde_json::from_str` reads the text, and as the same content but for numbers that are not
/// held as integers, which may come back with another last digit. Of contents nested deeper nothing
/// is said of reading.
#[verifier::external_body]
pub(crate) fn write_value(value: &serde_json::Value) -> (res: Result<String, serde_json::Error>)
    ensures
        res is Ok,
        res->Ok_0@ == json_text(json_content(*value)),
        forall|depth: nat| #[trigger]
            json_content(*value).nests_within(depth) <==> nesting(res->Ok_0@) <= depth,
        json_content(*value).nests_within(127) ==> reads_alike(
            json_content(*value),
            json_parsed(res->Ok_0@),
        ),
{
    serde_json::to_string(value)
}

/// Reads a value with `serde_json::from_str`.
#[verifier::external_body]
pub(crate) fn read_value(text: &str) -> (res: Result<serde_json::Value, serde_json::Error>)
    ensures
        match res {
            Ok(value) => json_parsed(text@) == reads(json_content(value)),
            Err(err) => json_parsed(text@) == unread::<Json>(json_error_text(err)),
        },
{
    serde_json::from_str(text)
}

/// Writes a list of identifiers with `serde_json::to_string`, which cannot fail on one; reading
/// the text gives the list back.
#[verifier::external_body]
pub(crate) fn write_ids(ids: &Vec<Uuid>) -> (res: Result<String, serde_json::Error>)
    ensures
        res is Ok,
        res->Ok_0@ == ids_text(ids@),
        parsed_ids(res->Ok_0@) == reads(ids@),
{
    let plain: Vec<uuid::Uuid> = ids.iter().map(|id| uuid::Uuid::from_u128(id.bits)).collect();
    serde_json::to_string(&plain)
}

/// Reads a list of identifiers with `serde_json::from_str`.
#[verifier::external_body]
pub(crate) fn read_ids(text: &str) -> (res: Result<Vec<Uuid>, serde_json::Error>)
    ensures
        match res {
            Ok(ids) => parsed_ids(text@) == reads(ids@),
            Err(err) => parsed_ids(text@) == unread::<Seq<Uuid>>(json_error_text(err)),
        },
{
    let plain: Vec<uuid::Uuid> = serde_json::from_str(text)?;
    Ok(plain.iter().map(|id| Uuid { bits: id.as_u128() }).collect())
}

/// The text of a `serde_json::Error`, from its `Display`.
#[verifier::external_body]
pub(crate) fn json_error_message(err: &serde_json::Error) -> (text: String)
    ensures
        text@ == json_error_text(*err),
{
    err.to_string()
}

/// The content of an object without fields.
pub open spec fn no_content() -> Map<Seq<char>, Json> {
    Map::empty()
}

/// What each of several values holds.
pub open spec fn contents(values: Seq<serde_json::Value>) -> Seq<Json> {
    values.map_values(|value: serde_json::Value| json_content(value))
}

/// What an optional value holds.
pub open spec fn opt_content(value: Option<serde_json::Value>) -> Option<Json> {
    match value {
        Some(value) => Some(json_content(value)),
        None => None,
    }
}

/// An object without fields.
pub fn empty_object() -> (value: serde_json::Value)
    ensures
        json_content(value) == Json::Object(Map::empty()),
{
    object_value(no_fields())
}

/// How many of the first `upto` characters open a bracket, less those that close one.
pub open spec fn balance(text: Seq<char>, upto: int) -> int
    decreases upto,
{
    if upto <= 0 {
        0
    } else {
        let c = text[upto - 1];
        balance(text, upto - 1) + if c == '[' || c == '{' {
            1int
        } else if c == ']' || c == '}' {
            -1int
        } else {
            0int
        }
    }
}

proof fn lemma_balance(text: Seq<char>, longer: Seq<char>, upto: int)
    requires
        0 <= upto <= text.len(),
        text.is_prefix_of(longer),
    ensures
        balance(text, upto) == balance(longer, upto),
    decreases upto,
{
    if upto > 0 {
        lemma_balance(text, longer, upto - 1);
        assert(longer.subrange(0, text.len() as int)[upto - 1] == longer[upto - 1]);
    }
}

/// A text without strings nests as deep as its brackets are open at most: at no place are there more
/// open, and at one there are as many.
pub proof fn open_brackets_make_the_nesting(text: Seq<char>)
    requires
        !text.contains('"'),
    ensures
        exists|k: int| 0 <= k <= text.len() && #[trigger] balance(text, k) == nesting(text),
        forall|k: int| 0 <= k <= text.len() ==> #[trigger] balance(text, k) <= nesting(text),
        scanned(text).open == balance(text, text.len() as int),
        !scanned(text).quoted && !scanned(text).escaped,
    decreases text.len(),
{
    if text.len() == 0 {
        assert(balance(text, 0) == nesting(text));
    } else {
        let fewer = text.drop_last();
        assert(!fewer.contains('"')) by {
            if fewer.contains('"') {
                let i = choose|i: int| 0 <= i < fewer.len() && fewer[i] == '"';
                assert(text[i] == '"');
            }
        }
        assert(text[text.len() - 1] != '"') by {
            if text.last() == '"' {
                assert(text[text.len() - 1] == '"');
            }
        }
        open_brackets_make_the_nesting(fewer);
        assert forall|k: int| 0 <= k <= fewer.len() implies #[trigger] balance(text, k) == balance(
            fewer,
            k,
        ) by {
            assert(fewer =~= text.subrange(0, fewer.len() as int));
            lemma_balance(fewer, text, k);
        }
        let n = text.len() as int;
        assert(balance(text, n - 1) == balance(fewer, n - 1));
        assert(balance(fewer, n - 1) <= nesting(fewer));
        assert(scanned(text) == scan_step(scanned(fewer), text[n - 1]));
        if nesting(text) == nesting(fewer) {
            let k = choose|k: int|
                0 <= k <= fewer.len() && #[trigger] balance(fewer, k) == nesting(fewer);
            assert(balance(text, k) == nesting(text));
        } else {
            assert(balance(text, n) == nesting(text));
        }
    }
}

/// What stands between the quotes of a string: no quote, and no backslash but in front of another
/// character.
pub open spec fn is_quotable(s: Seq<char>) -> bool
    decreases s.len(),
{
    if s.len() == 0 {
        true
    } else if s[0] == '\\' {
        s.len() >= 2 && is_quotable(s.skip(2))
    } else {
        s[0] != '"' && is_quotable(s.skip(1))
    }
}

proof fn lemma_scan_on(a: Seq<char>, b: Seq<char>, rest: Seq<char>)
    requires
        scanned(a) == scanned(b),
    ensures
        scanned(a + rest) == scanned(b + rest),
    decreases rest.len(),
{
    if rest.len() == 0 {
        assert(a + rest =~= a);
        assert(b + rest =~= b);
    } else {
        lemma_scan_on(a, b, rest.drop_last());
        assert((a + rest).drop_last() =~= a + rest.drop_last());
        assert((b + rest).drop_last() =~= b + rest.drop_last());
    }
}

proof fn lemma_scan_string(a: Seq<char>, s: Seq<char>)
    requires
        is_quotable(s),
        scanned(a).quoted,
        !scanned(a).escaped,
    ensures
        scanned(a + s) == scanned(a),
    decreases s.len(),
{
    if s.len() == 0 {
        assert(a + s =~= a);
    } else if s[0] == '\\' {
        let one = a.push(s[0]);
        let two = one.push(s[1]);
        assert(one.drop_last() =~= a);
        assert(two.drop_last() =~= one);
        assert(scanned(one) == scan_step(scanned(a), s[0]));
        assert(scanned(two) == scan_step(scanned(one), s[1]));
        lemma_scan_string(two, s.skip(2));
        assert(a + s =~= two + s.skip(2));
    } else {
        let one = a.push(s[0]);
        assert(one.drop_last() =~= a);
        lemma_scan_string(one, s.skip(1));
        assert(a + s =~= one + s.skip(1));
    }
}

/// Brackets in a string do not count: with or without the string a text nests as deep.
pub proof fn strings_do_not_nest(before: Seq<char>, s: Seq<char>, after: Seq<char>)
    requires
        is_quotable(s),
        !scanned(before).quoted,
        !scanned(before).escaped,
    ensures
        nesting(before + (seq!['"'] + s + seq!['"']) + after) == nesting(before + after),
{
    let opened = before.push('"');
    let inside = opened + s;
    let closed = inside.push('"');
    assert(opened.drop_last() =~= before);
    lemma_scan_string(opened, s);
    assert(closed.drop_last() =~= inside);
    lemma_scan_on(closed, before, after);
    assert(before + (seq!['"'] + s + seq!['"']) =~= closed);
}

} // verus!
