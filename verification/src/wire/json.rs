//! JSON text: quoted strings, and objects kept in one canonical spelling.

use crate::text::views;
use vstd::prelude::*;

verus! {

/// `serde_json`'s reading of a text as an object, printed again with its keys
/// in order: the canonical spelling, or what the parser says against the text.
pub uninterp spec fn canonical_object(text: Seq<char>) -> Result<Seq<char>, Seq<char>>;

/// `serde_json::from_str` into a `serde_json::Map`, then `Value`'s `to_string`.
/// Both depend on the text alone; the spelling is compact, and a `Map` keeps
/// its keys in order.
#[verifier::external_body]
fn parse_object(text: &str) -> (r: Result<String, String>)
    ensures
        match (r, canonical_object(text@)) {
            (Ok(spelled), Ok(expected)) => spelled@ == expected,
            (Err(said), Err(expected)) => said@ == expected,
            _ => false,
        },
{
    match serde_json::from_str::<serde_json::Map<String, serde_json::Value>>(text) {
        Ok(map) => Ok(serde_json::Value::Object(map).to_string()),
        Err(e) => Err(e.to_string()),
    }
}

/// A JSON object in its canonical spelling.
#[derive(Debug)]
pub struct JsonObject {
    text: String,
}

impl View for JsonObject {
    type V = Seq<char>;

    closed spec fn view(&self) -> Seq<char> {
        self.text@
    }
}

impl Clone for JsonObject {
    fn clone(&self) -> (r: Self)
        ensures
            r == *self,
    {
        JsonObject { text: self.text.clone() }
    }
}

impl JsonObject {
    /// The object without members.
    pub fn empty() -> (r: JsonObject)
        ensures
            r@ == "{}"@,
    {
        JsonObject { text: "{}".to_owned() }
    }

    /// Reads a text as an object. The error is what the parser said.
    pub fn parse(text: &str) -> (r: Result<JsonObject, String>)
        ensures
            match (r, canonical_object(text@)) {
                (Ok(object), Ok(expected)) => object@ == expected,
                (Err(said), Err(expected)) => said@ == expected,
                _ => false,
            },
    {
        match parse_object(text) {
            Ok(text) => Ok(JsonObject { text }),
            Err(said) => Err(said),
        }
    }

    /// The canonical spelling.
    pub fn as_str(&self) -> (r: &str)
        ensures
            r@ == self@,
    {
        self.text.as_str()
    }
}

/// The lowercase hexadecimal digit of `n`.
pub open spec fn hex_digit(n: nat) -> char {
    if n < 10 {
        (48 + n) as char
    } else {
        (87 + n) as char
    }
}

/// How one character stands inside a JSON string.
pub open spec fn escaped(c: char) -> Seq<char> {
    if c == '"' {
        seq!['\\', '"']
    } else if c == '\\' {
        seq!['\\', '\\']
    } else if c == '\u{8}' {
        seq!['\\', 'b']
    } else if c == '\u{c}' {
        seq!['\\', 'f']
    } else if c == '\n' {
        seq!['\\', 'n']
    } else if c == '\r' {
        seq!['\\', 'r']
    } else if c == '\t' {
        seq!['\\', 't']
    } else if ' ' > c {
        seq!['\\', 'u', '0', '0', hex_digit(c as nat / 16), hex_digit(c as nat % 16)]
    } else {
        seq![c]
    }
}

/// The characters of `s`, each as it stands inside a JSON string.
pub open spec fn escaped_all(s: Seq<char>) -> Seq<char>
    decreases s.len(),
{
    if s.len() == 0 {
        Seq::empty()
    } else {
        escaped_all(s.drop_last()) + escaped(s.last())
    }
}

/// `s` as a JSON string.
pub open spec fn quoted(s: Seq<char>) -> Seq<char> {
    seq!['"'] + escaped_all(s) + seq!['"']
}

/// The escapes of a text, read from the front.
proof fn lemma_escaped_front(s: Seq<char>)
    requires
        s.len() > 0,
    ensures
        escaped_all(s) == escaped(s[0]) + escaped_all(s.skip(1)),
    decreases s.len(),
{
    if s.len() == 1 {
        assert(s.drop_last() =~= Seq::<char>::empty());
        assert(s.skip(1) =~= Seq::<char>::empty());
        assert(escaped_all(s) =~= escaped(s[0]) + escaped_all(s.skip(1)));
    } else {
        let t = s.drop_last();
        lemma_escaped_front(t);
        assert(s.skip(1).drop_last() =~= t.skip(1));
        assert(escaped_all(s) =~= escaped(s[0]) + escaped_all(s.skip(1)));
    }
}

/// What an escaped character leaves behind it tells which character it was.
proof fn lemma_escaped_unique(c: char, d: char, x: Seq<char>, y: Seq<char>)
    requires
        escaped(c) + x == escaped(d) + y,
    ensures
        c == d,
        x == y,
{
    let (p, q) = (escaped(c) + x, escaped(d) + y);
    assert(p[0] == escaped(c)[0] && q[0] == escaped(d)[0]);
    if p[0] == '\\' {
        assert(p[1] == escaped(c)[1] && q[1] == escaped(d)[1]);
        if escaped(c).len() == 6 && escaped(d).len() == 6 {
            assert(p[4] == escaped(c)[4] && q[4] == escaped(d)[4]);
            assert(p[5] == escaped(c)[5] && q[5] == escaped(d)[5]);
        }
    }
    assert(c == d);
    assert(x =~= p.skip(escaped(c).len() as int));
    assert(y =~= q.skip(escaped(d).len() as int));
}

proof fn lemma_escaped_all_unique(s: Seq<char>, t: Seq<char>, x: Seq<char>, y: Seq<char>)
    requires
        escaped_all(s) + seq!['"'] + x == escaped_all(t) + seq!['"'] + y,
    ensures
        s == t,
        x == y,
    decreases s.len(),
{
    let (p, q) = (escaped_all(s) + seq!['"'] + x, escaped_all(t) + seq!['"'] + y);
    if s.len() > 0 {
        lemma_escaped_front(s);
        assert(p[0] == escaped(s[0])[0]);
    } else {
        assert(p[0] == '"');
    }
    if t.len() > 0 {
        lemma_escaped_front(t);
        assert(q[0] == escaped(t[0])[0]);
    } else {
        assert(q[0] == '"');
    }
    if s.len() == 0 {
        assert(x =~= p.skip(1));
        assert(y =~= q.skip(1));
        assert(s =~= t);
    } else {
        let (s1, t1) = (s.skip(1), t.skip(1));
        let (x1, y1) = (escaped_all(s1) + seq!['"'] + x, escaped_all(t1) + seq!['"'] + y);
        assert(p =~= escaped(s[0]) + x1);
        assert(q =~= escaped(t[0]) + y1);
        lemma_escaped_unique(s[0], t[0], x1, y1);
        lemma_escaped_all_unique(s1, t1, x, y);
        assert(s =~= seq![s[0]] + s1);
        assert(t =~= seq![t[0]] + t1);
    }
}

/// A quoted text delimits itself: what it says, and where it ends, are read off
/// its characters.
pub proof fn law_quoted_text_delimits_itself(
    s: Seq<char>,
    t: Seq<char>,
    x: Seq<char>,
    y: Seq<char>,
)
    requires
        quoted(s) + x == quoted(t) + y,
    ensures
        s == t,
        x == y,
{
    let (p, q) = (quoted(s) + x, quoted(t) + y);
    assert(p.skip(1) =~= escaped_all(s) + seq!['"'] + x);
    assert(q.skip(1) =~= escaped_all(t) + seq!['"'] + y);
    lemma_escaped_all_unique(s, t, x, y);
}

proof fn lemma_hex_is_no_quote(n: nat)
    requires
        n < 16,
    ensures
        hex_digit(n) != '"',
{
    if n < 10 {
        assert(hex_digit(n) as u32 == 48 + n);
    } else {
        assert(hex_digit(n) as u32 == 87 + n);
    }
}

proof fn lemma_quote_in_escape(c: char, k: int)
    requires
        0 <= k < escaped(c).len(),
        escaped(c)[k] == '"',
    ensures
        k == 1,
        escaped(c)[0] == '\\',
{
    if escaped(c).len() == 6 {
        assert(' ' > c);
        lemma_hex_is_no_quote(c as nat / 16);
        lemma_hex_is_no_quote(c as nat % 16);
    }
}

/// A quote among escaped characters has a backslash before it.
proof fn lemma_quotes_are_escaped(s: Seq<char>)
    ensures
        forall|i: int|
            0 <= i < escaped_all(s).len() && #[trigger] escaped_all(s)[i] == '"' ==> i > 0
                && escaped_all(s)[i - 1] == '\\',
    decreases s.len(),
{
    if s.len() > 0 {
        let front = escaped_all(s.drop_last());
        lemma_quotes_are_escaped(s.drop_last());
        let e = escaped(s.last());
        assert forall|i: int|
            0 <= i < escaped_all(s).len() && #[trigger] escaped_all(s)[i] == '"' implies i > 0
            && escaped_all(s)[i - 1] == '\\' by {
            if i < front.len() {
                assert(front[i] == '"');
            } else {
                let k = i - front.len();
                assert(e[k] == '"');
                lemma_quote_in_escape(s.last(), k);
                assert(escaped_all(s)[i - 1] == e[0]);
            }
        }
    }
}

/// The longer of two quoted texts at the end of one text would hold the other's
/// first quote.
proof fn lemma_quoted_at_the_end(x: Seq<char>, y: Seq<char>, s: Seq<char>, t: Seq<char>)
    requires
        x + quoted(s) == y + quoted(t),
        x.len() > 0 && x.last() != '\\',
    ensures
        quoted(s).len() >= quoted(t).len(),
{
    let (p, q) = (x + quoted(s), y + quoted(t));
    if quoted(s).len() < quoted(t).len() {
        lemma_quotes_are_escaped(t);
        let at = x.len() as int;
        assert(p.len() == q.len());
        assert(quoted(s).len() >= 2 && quoted(t).len() == escaped_all(t).len() + 2);
        assert(p[at] == quoted(s)[0]);
        assert(p[at - 1] == x.last());
        let k = at - y.len() - 1;
        assert(0 <= k < escaped_all(t).len());
        assert(q[at] == quoted(t)[k + 1]);
        assert(escaped_all(t)[k] == q[at]);
        assert(k > 0);
        assert(q[at - 1] == quoted(t)[k]);
        assert(escaped_all(t)[k - 1] == q[at - 1]);
    }
}

/// A quoted text delimits itself from behind as well, where no backslash stands
/// before it.
pub proof fn law_quoted_text_is_read_from_behind(
    x: Seq<char>,
    y: Seq<char>,
    s: Seq<char>,
    t: Seq<char>,
)
    requires
        x + quoted(s) == y + quoted(t),
        x.len() > 0 && x.last() != '\\',
        y.len() > 0 && y.last() != '\\',
    ensures
        s == t,
        x == y,
{
    lemma_quoted_at_the_end(x, y, s, t);
    lemma_quoted_at_the_end(y, x, t, s);
    let n = x.len() as int;
    assert((x + quoted(s)).len() == (y + quoted(t)).len());
    assert(x =~= (x + quoted(s)).take(n));
    assert(y =~= (y + quoted(t)).take(n));
    assert(quoted(s) =~= (x + quoted(s)).skip(n));
    assert(quoted(t) =~= (y + quoted(t)).skip(n));
    let none = Seq::<char>::empty();
    assert(quoted(s) + none =~= quoted(t) + none);
    law_quoted_text_delimits_itself(s, t, none, none);
}

/// The lowercase hexadecimal digit of `n`.
pub fn hex_char(n: u8) -> (c: char)
    requires
        n < 16,
    ensures
        c == hex_digit(n as nat),
{
    if n < 10 {
        (48 + n) as char
    } else {
        (87 + n) as char
    }
}

/// `serde_json`'s text of a string value: its characters between quotes, with a
/// quote, a backslash and the control characters escaped, and every other
/// character as it is.
#[verifier::external_body]
fn string_text(s: &str) -> (r: String)
    ensures
        r@ == quoted(s@),
{
    serde_json::Value::String(s.to_owned()).to_string()
}

/// Appends a text as a JSON string.
pub fn push_quoted(out: &mut String, s: &str)
    ensures
        final(out)@ == old(out)@ + quoted(s@),
{
    out.append(string_text(s).as_str());
}

/// The items of an array of strings, as JSON separates them.
pub open spec fn array_items(texts: Seq<Seq<char>>) -> Seq<char>
    decreases texts.len(),
{
    if texts.len() == 0 {
        Seq::empty()
    } else if texts.len() == 1 {
        quoted(texts[0])
    } else {
        array_items(texts.drop_last()) + ","@ + quoted(texts.last())
    }
}

/// An array of strings, as JSON spells it.
pub open spec fn array_text(texts: Seq<Seq<char>>) -> Seq<char> {
    "["@ + array_items(texts) + "]"@
}

/// `serde_json`'s text of an array of strings: compact, each string as
/// [`string_text`] has it.
#[verifier::external_body]
pub(crate) fn strings_text(texts: &Vec<String>) -> (r: String)
    ensures
        r@ == array_text(views(texts@)),
{
    serde_json::Value::from(texts.clone()).to_string()
}

/// `serde_json`'s reading of a text as an array of strings: the strings, or what
/// the parser says against the text.
pub uninterp spec fn string_array(text: Seq<char>) -> Result<Seq<Seq<char>>, Seq<char>>;

/// What a reading of an array of strings came to.
pub open spec fn array_view(r: Result<Vec<String>, String>) -> Result<Seq<Seq<char>>, Seq<char>> {
    match r {
        Ok(texts) => Ok(views(texts@)),
        Err(said) => Err(said@),
    }
}

/// Whether what a text was read as is what it was written from, if an array of
/// strings was written so.
pub open spec fn gives_back(text: Seq<char>, read: Result<Seq<Seq<char>>, Seq<char>>) -> bool {
    forall|texts: Seq<Seq<char>>|
        text == #[trigger] array_text(texts) ==> (read matches Ok(list) && list == texts)
}

/// `serde_json::from_str` into a `Vec<String>`. The result depends on the text
/// alone. An array that `serde_json` wrote is read back as the strings that it was
/// written from: the parser undoes every escape that the writer makes.
#[verifier::external_body]
pub(crate) fn parse_strings(text: &str) -> (r: Result<Vec<String>, String>)
    ensures
        array_view(r) == string_array(text@),
        gives_back(text@, array_view(r)),
{
    serde_json::from_str::<Vec<String>>(text).map_err(|e| e.to_string())
}

} // verus!
