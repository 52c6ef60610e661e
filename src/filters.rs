use vstd::prelude::*;

use std::borrow::Cow;

use crate::common::texts;
use crate::engine::spaced;
use crate::text::text_eq;
use crate::value::{
    json_entries_view, json_seq_view, lemma_json_entries_view, lemma_json_seq_view, JsonValue,
    JsonView,
};

verus! {

/// A character that POSIX quoting leaves as it is.
pub open spec fn unix_plain_char(c: char) -> bool {
    ('a' <= c && c <= 'z') || ('A' <= c && c <= 'Z') || ('0' <= c && c <= '9') || c == '-' || c == '_'
        || c == '=' || c == '/' || c == ',' || c == '.' || c == '+'
}

/// The inside of a single-quoted POSIX word: `'` and `!` leave the quotes.
pub open spec fn unix_quoted_body(s: Seq<char>) -> Seq<char>
    decreases s.len(),
{
    if s.len() == 0 {
        Seq::empty()
    } else {
        unix_quoted_body(s.drop_last()) + if s.last() == '\'' || s.last() == '!' {
            seq!['\'', '\\', s.last(), '\'']
        } else {
            seq![s.last()]
        }
    }
}

/// A string quoted for a POSIX shell: unchanged when it is not empty and
/// every character is plain, else single-quoted.
pub open spec fn unix_escaped(s: Seq<char>) -> Seq<char> {
    if s.len() > 0 && forall|i: int| 0 <= i < s.len() ==> unix_plain_char(#[trigger] s[i]) {
        s
    } else {
        seq!['\''] + unix_quoted_body(s) + seq!['\'']
    }
}

/// What `shell_escape::windows::escape` makes of a string.
pub uninterp spec fn windows_escaped(s: Seq<char>) -> Seq<char>;

/// What HTML escaping makes of one character.
pub open spec fn html_char(c: char) -> Seq<char> {
    if c == '&' {
        "&amp;"@
    } else if c == '<' {
        "&lt;"@
    } else if c == '>' {
        "&gt;"@
    } else if c == '"' {
        "&quot;"@
    } else if c == '\'' {
        "&#x27;"@
    } else if c == '/' {
        "&#x2F;"@
    } else {
        seq![c]
    }
}

/// A string with `&`, `<`, `>`, `"`, `'` and `/` replaced by entities.
pub open spec fn html_escaped(s: Seq<char>) -> Seq<char>
    decreases s.len(),
{
    if s.len() == 0 {
        Seq::empty()
    } else {
        html_escaped(s.drop_last()) + html_char(s.last())
    }
}

/// Relies on `shell_escape::unix::escape`: quotes `s` for a POSIX shell as
/// `unix_escaped` states.
#[verifier::external_body]
fn unix_escape(s: &str) -> (r: String)
    ensures
        r@ == unix_escaped(s@),
{
    shell_escape::unix::escape(Cow::Borrowed(s)).into_owned()
}

/// Relies on `shell_escape::windows::escape`: quotes `s` for the Windows
/// command line.
#[verifier::external_body]
fn windows_escape(s: &str) -> (r: String)
    ensures
        r@ == windows_escaped(s@),
{
    shell_escape::windows::escape(Cow::Borrowed(s)).into_owned()
}

/// Relies on `shell_escape::escape`: Unix quoting on Unix targets or where
/// `MSYSTEM` is set, Windows quoting elsewhere.
#[verifier::external_body]
fn platform_escape(s: &str) -> (r: String)
    ensures
        r@ == unix_escaped(s@) || r@ == windows_escaped(s@),
{
    shell_escape::escape(Cow::Borrowed(s)).into_owned()
}

/// Relies on `tera::escape_html`: replaces the six characters of `html_char`.
#[verifier::external_body]
fn html_escape(s: &str) -> (r: String)
    ensures
        r@ == html_escaped(s@),
{
    tera::escape_html(s)
}

/// Command components quoted for a POSIX shell and joined with spaces,
/// skipping any that quote to nothing.
pub open spec fn joined_commands(items: Seq<Seq<char>>) -> Seq<char>
    decreases items.len(),
{
    if items.len() == 0 {
        Seq::empty()
    } else {
        let prev = joined_commands(items.drop_last());
        let e = unix_escaped(items.last());
        if e.len() == 0 {
            prev
        } else if prev.len() == 0 {
            e
        } else {
            prev + " "@ + e
        }
    }
}

/// Joins command components into one command line, quoting each as needed.
pub fn join_commands(commands: &Vec<String>) -> (r: String)
    ensures
        r@ == joined_commands(texts(commands@)),
{
    let ghost v = texts(commands@);
    let mut result = String::new();
    let mut i: usize = 0;
    while i < commands.len()
        invariant
            v == texts(commands@),
            i <= commands@.len(),
            result@ == joined_commands(v.subrange(0, i as int)),
        decreases commands@.len() - i,
    {
        proof {
            assert(v.subrange(0, i + 1).drop_last() =~= v.subrange(0, i as int));
        }
        let escaped = unix_escape(commands[i].as_str());
        if escaped.unicode_len() > 0 {
            if result.unicode_len() > 0 {
                result.append(" ");
            }
            result.append(escaped.as_str());
        }
        i = i + 1;
    }
    proof {
        assert(v.subrange(0, commands@.len() as int) =~= v);
    }
    result
}

/// Every item is a string.
pub open spec fn all_strings(items: Seq<JsonView>) -> bool {
    forall|i: int| 0 <= i < items.len() ==> (#[trigger] items[i]) is Str
}

/// The strings of a list of string items.
pub open spec fn item_strings(items: Seq<JsonView>) -> Seq<Seq<char>> {
    items.map_values(|x: JsonView| x->Str_0)
}

pub open spec fn escape_filter_error() -> Seq<char> {
    "escape_shell filter requires a string or array of strings"@
}

pub open spec fn quote_filter_error() -> Seq<char> {
    "quote filter requires a string or array of strings"@
}

/// The strings of the items of `a`, if all are strings.
fn strings_of(a: &Vec<JsonValue>) -> (r: Option<Vec<String>>)
    ensures
        r is Some <==> all_strings(json_seq_view(a@)),
        r matches Some(v) ==> texts(v@) == item_strings(json_seq_view(a@)),
{
    proof {
        lemma_json_seq_view(a@);
    }
    let ghost items = json_seq_view(a@);
    let mut v: Vec<String> = Vec::new();
    let mut i: usize = 0;
    while i < a.len()
        invariant
            items == json_seq_view(a@),
            items.len() == a@.len(),
            forall|j: int| 0 <= j < a@.len() ==> #[trigger] items[j] == a@[j]@,
            i <= a@.len(),
            forall|j: int| 0 <= j < i ==> (#[trigger] items[j]) is Str,
            v@.len() == i,
            texts(v@) == item_strings(items.subrange(0, i as int)),
        decreases a@.len() - i,
    {
        match &a[i] {
            JsonValue::Str(s) => {
                let ghost pre = v@;
                v.push(s.clone());
                proof {
                    assert(items[i as int] == a@[i as int]@);
                    assert(a@[i as int]@ == JsonView::Str(s@));
                    let x = texts(v@);
                    let y = item_strings(items.subrange(0, i + 1));
                    assert(x.len() == y.len());
                    assert forall|j: int| 0 <= j < x.len() implies x[j] == y[j] by {
                        if j < i {
                            assert(x[j] == texts(pre)[j]);
                            assert(y[j] == item_strings(items.subrange(0, i as int))[j]);
                        }
                    }
                    assert(x =~= y);
                }
            },
            _ => {
                assert(!(items[i as int] is Str));
                return None;
            },
        }
        i = i + 1;
    }
    proof {
        assert(items.subrange(0, a@.len() as int) =~= items);
    }
    Some(v)
}

/// Filter quoting a string, or each string of a list joined with spaces,
/// for the shell of the platform.
pub fn shell_escape(val: &JsonValue) -> (r: Result<JsonValue, String>)
    ensures
        val@ matches JsonView::Str(s) ==> (r matches Ok(JsonValue::Str(t)) && (t@ == unix_escaped(s)
            || t@ == windows_escaped(s))),
        val@ is Array && all_strings(val@->Array_0) ==> (r matches Ok(JsonValue::Str(t))
            && exists|es: Seq<Seq<char>>| es.len() == val@->Array_0.len() && t@ == spaced(es) && forall|i: int|
                0 <= i < es.len() ==> (#[trigger] es[i] == unix_escaped(val@->Array_0[i]->Str_0) || es[i]
                    == windows_escaped(val@->Array_0[i]->Str_0))),
        !(val@ is Str) && !(val@ is Array && all_strings(val@->Array_0)) ==> (r matches Err(
            m,
        ) && m@ == escape_filter_error()),
{
    match val {
        JsonValue::Str(s) => Ok(JsonValue::Str(platform_escape(s.as_str()))),
        JsonValue::Array(a) => {
            match strings_of(a) {
                Some(v) => {
                    let ghost items = json_seq_view(a@);
                    assert(texts(v@).len() == v@.len());
                    assert(item_strings(items).len() == items.len());
                    let mut es: Vec<String> = Vec::new();
                    let mut i: usize = 0;
                    while i < v.len()
                        invariant
                            i <= v@.len(),
                            es@.len() == i,
                            texts(v@) == item_strings(items),
                            items.len() == v@.len(),
                            forall|j: int| 0 <= j < i ==> (#[trigger] es@[j])@ == unix_escaped(items[j]->Str_0)
                                || es@[j]@ == windows_escaped(items[j]->Str_0),
                        decreases v@.len() - i,
                    {
                        assert(v@[i as int]@ == item_strings(items)[i as int]);
                        es.push(platform_escape(v[i].as_str()));
                        i = i + 1;
                    }
                    let line = crate::engine::echo_line(&es);
                    proof {
                        let w = texts(es@);
                        assert forall|j: int| 0 <= j < w.len() implies (#[trigger] w[j] == unix_escaped(items[j]->Str_0)
                            || w[j] == windows_escaped(items[j]->Str_0)) by {
                            assert(w[j] == es@[j]@);
                        }
                    }
                    Ok(JsonValue::Str(line))
                },
                None => Err(String::from_str("escape_shell filter requires a string or array of strings")),
            }
        },
        _ => Err(String::from_str("escape_shell filter requires a string or array of strings")),
    }
}

/// Filter quoting a string, or each string of a list joined with spaces,
/// for the Windows command line.
pub fn escape_windows(val: &JsonValue) -> (r: Result<JsonValue, String>)
    ensures
        val@ matches JsonView::Str(s) ==> (r matches Ok(JsonValue::Str(t)) && t@ == windows_escaped(s)),
        val@ is Array && all_strings(val@->Array_0) ==> (r matches Ok(JsonValue::Str(t))
            && t@ == spaced(item_strings(val@->Array_0).map_values(|x: Seq<char>| windows_escaped(x)))),
        !(val@ is Str) && !(val@ is Array && all_strings(val@->Array_0)) ==> (r matches Err(
            m,
        ) && m@ == escape_filter_error()),
{
    match val {
        JsonValue::Str(s) => Ok(JsonValue::Str(windows_escape(s.as_str()))),
        JsonValue::Array(a) => {
            match strings_of(a) {
                Some(v) => {
                    let ghost items = json_seq_view(a@);
                    let ghost want = item_strings(items).map_values(|x: Seq<char>| windows_escaped(x));
                    let mut es: Vec<String> = Vec::new();
                    let mut i: usize = 0;
                    while i < v.len()
                        invariant
                            i <= v@.len(),
                            texts(v@) == item_strings(items),
                            want == item_strings(items).map_values(|x: Seq<char>| windows_escaped(x)),
                            es@.len() == i,
                            texts(es@) == want.subrange(0, i as int),
                        decreases v@.len() - i,
                    {
                        assert(v@[i as int]@ == item_strings(items)[i as int]);
                        let ghost pre = es@;
                        es.push(windows_escape(v[i].as_str()));
                        proof {
                            let x = texts(es@);
                            let y = want.subrange(0, i + 1);
                            assert(x.len() == y.len());
                            assert forall|j: int| 0 <= j < x.len() implies x[j] == y[j] by {
                                if j < i {
                                    assert(x[j] == texts(pre)[j]);
                                    assert(y[j] == want.subrange(0, i as int)[j]);
                                }
                            }
                            assert(x =~= y);
                        }
                        i = i + 1;
                    }
                    proof {
                        assert(want.subrange(0, v@.len() as int) =~= want);
                    }
                    Ok(JsonValue::Str(crate::engine::echo_line(&es)))
                },
                None => Err(String::from_str("escape_shell filter requires a string or array of strings")),
            }
        },
        _ => Err(String::from_str("escape_shell filter requires a string or array of strings")),
    }
}

/// Filter quoting a string, or a list of strings, into one POSIX command
/// line; see `join_commands`.
pub fn escape(val: &JsonValue) -> (r: Result<JsonValue, String>)
    ensures
        val@ matches JsonView::Str(s) ==> (r matches Ok(JsonValue::Str(t)) && t@ == joined_commands(seq![s])),
        val@ is Array && all_strings(val@->Array_0) ==> (r matches Ok(JsonValue::Str(t))
            && t@ == joined_commands(item_strings(val@->Array_0))),
        !(val@ is Str) && !(val@ is Array && all_strings(val@->Array_0)) ==> (r matches Err(
            m,
        ) && m@ == quote_filter_error()),
{
    match val {
        JsonValue::Str(s) => {
            let mut v: Vec<String> = Vec::new();
            v.push(s.clone());
            proof {
                assert(texts(v@) =~= seq![s@]);
            }
            Ok(JsonValue::Str(join_commands(&v)))
        },
        JsonValue::Array(a) => {
            match strings_of(a) {
                Some(v) => Ok(JsonValue::Str(join_commands(&v))),
                None => Err(String::from_str("quote filter requires a string or array of strings")),
            }
        },
        _ => Err(String::from_str("quote filter requires a string or array of strings")),
    }
}

/// Filter replacing the characters HTML treats specially in a string.
pub fn escape_html(val: &JsonValue) -> (r: Result<JsonValue, String>)
    ensures
        val@ matches JsonView::Str(s) ==> (r matches Ok(JsonValue::Str(t)) && t@ == html_escaped(s)),
        !(val@ is Str) ==> (r matches Err(m) && m@ == "escape_html filter requires a string"@),
{
    match val {
        JsonValue::Str(s) => Ok(JsonValue::Str(html_escape(s.as_str()))),
        _ => Err(String::from_str("escape_html filter requires a string")),
    }
}


/// The value given for parameter `key`; a later entry wins.
pub open spec fn param_value(params: Seq<(Seq<char>, JsonView)>, key: Seq<char>) -> Option<JsonView>
    decreases params.len(),
{
    if params.len() == 0 {
        None
    } else if params.last().0 == key {
        Some(params.last().1)
    } else {
        param_value(params.drop_last(), key)
    }
}

/// The items not equal to `v`, in order.
pub open spec fn kept_items(items: Seq<JsonView>, v: JsonView) -> Seq<JsonView>
    decreases items.len(),
{
    if items.len() == 0 {
        Seq::empty()
    } else if items.last() == v {
        kept_items(items.drop_last(), v)
    } else {
        kept_items(items.drop_last(), v).push(items.last())
    }
}

/// The entries whose key is not the string `v`, in order.
pub open spec fn kept_entries(entries: Seq<(Seq<char>, JsonView)>, v: JsonView) -> Seq<(Seq<char>, JsonView)>
    decreases entries.len(),
{
    if entries.len() == 0 {
        Seq::empty()
    } else if v == JsonView::Str(entries.last().0) {
        kept_entries(entries.drop_last(), v)
    } else {
        kept_entries(entries.drop_last(), v).push(entries.last())
    }
}

/// The value given for parameter `key`; see `param_value`.
fn find_param<'a>(params: &'a Vec<(String, JsonValue)>, key: &str) -> (r: Option<&'a JsonValue>)
    ensures
        r is None <==> param_value(json_entries_view(params@), key@) is None,
        r matches Some(v) ==> param_value(json_entries_view(params@), key@) == Some(v@),
{
    let ghost pv = json_entries_view(params@);
    let mut i = params.len();
    proof {
        assert(params@.subrange(0, params@.len() as int) =~= params@);
    }
    while i > 0
        invariant
            i <= params@.len(),
            pv == json_entries_view(params@),
            param_value(pv, key@) == param_value(json_entries_view(params@.subrange(0, i as int)), key@),
        decreases i,
    {
        let ghost sub = params@.subrange(0, i as int);
        proof {
            assert(sub.drop_last() =~= params@.subrange(0, i - 1));
            assert(sub.last() == params@[i - 1]);
            let vs = json_entries_view(sub);
            assert(vs == json_entries_view(sub.drop_last()).push((sub.last().0@, sub.last().1@)));
            assert(vs.drop_last() =~= json_entries_view(sub.drop_last()));
            assert(vs.last() == (sub.last().0@, sub.last().1@));
        }
        if text_eq(params[i - 1].0.as_str(), key) {
            return Some(&params[i - 1].1);
        }
        i = i - 1;
    }
    proof {
        assert(params@.subrange(0, 0) =~= Seq::<(String, JsonValue)>::empty());
    }
    None
}

/// Filter removing from a list the items equal to parameter `val`, or from
/// an object the entry whose key is `val`.
pub fn exclude(val: &JsonValue, params: &Vec<(String, JsonValue)>) -> (r: Result<JsonValue, String>)
    ensures
        param_value(json_entries_view(params@), "val"@) is None ==> (r matches Err(m) && m@
            == "val parameter is required"@),
        param_value(json_entries_view(params@), "val"@) matches Some(v) ==> {
            &&& val@ is Array ==> (r matches Ok(x) && x@ == JsonView::Array(kept_items(val@->Array_0, v)))
            &&& val@ is Object ==> (r matches Ok(x) && x@ == JsonView::Object(kept_entries(val@->Object_0, v)))
            &&& !(val@ is Array) && !(val@ is Object) ==> (r matches Err(m) && m@
                == "exclude filter can only be used on arrays and objects"@)
        },
{
    let target = match find_param(params, "val") {
        Some(t) => t,
        None => {
            return Err(String::from_str("val parameter is required"));
        },
    };
    match val {
        JsonValue::Array(a) => {
            let ghost items = json_seq_view(a@);
            proof {
                lemma_json_seq_view(a@);
            }
            let mut kept: Vec<JsonValue> = Vec::new();
            let mut i: usize = 0;
            while i < a.len()
                invariant
                    items == json_seq_view(a@),
                    items.len() == a@.len(),
                    forall|j: int| 0 <= j < a@.len() ==> #[trigger] items[j] == a@[j]@,
                    i <= a@.len(),
                    json_seq_view(kept@) == kept_items(items.subrange(0, i as int), target@),
                decreases a@.len() - i,
            {
                proof {
                    assert(items.subrange(0, i + 1).drop_last() =~= items.subrange(0, i as int));
                    assert(items.subrange(0, i + 1).last() == a@[i as int]@);
                }
                if !a[i].equals(target) {
                    let c = a[i].duplicate();
                    let ghost pre = kept@;
                    kept.push(c);
                    proof {
                        assert(kept@.drop_last() =~= pre);
                    }
                }
                i = i + 1;
            }
            proof {
                assert(items.subrange(0, a@.len() as int) =~= items);
            }
            Ok(JsonValue::Array(kept))
        },
        JsonValue::Object(o) => {
            let ghost entries = json_entries_view(o@);
            proof {
                lemma_json_entries_view(o@);
            }
            let mut kept: Vec<(String, JsonValue)> = Vec::new();
            let mut i: usize = 0;
            while i < o.len()
                invariant
                    entries == json_entries_view(o@),
                    entries.len() == o@.len(),
                    forall|j: int| 0 <= j < o@.len() ==> #[trigger] entries[j] == (o@[j].0@, o@[j].1@),
                    i <= o@.len(),
                    json_entries_view(kept@) == kept_entries(entries.subrange(0, i as int), target@),
                decreases o@.len() - i,
            {
                proof {
                    assert(entries.subrange(0, i + 1).drop_last() =~= entries.subrange(0, i as int));
                    assert(entries.subrange(0, i + 1).last() == entries[i as int]);
                }
                let same = match target {
                    JsonValue::Str(t) => text_eq(t.as_str(), o[i].0.as_str()),
                    _ => false,
                };
                if !same {
                    let k = o[i].0.clone();
                    let c = o[i].1.duplicate();
                    let ghost pre = kept@;
                    kept.push((k, c));
                    proof {
                        assert(kept@.drop_last() =~= pre);
                    }
                }
                i = i + 1;
            }
            proof {
                assert(entries.subrange(0, o@.len() as int) =~= entries);
            }
            Ok(JsonValue::Object(kept))
        },
        _ => Err(String::from_str("exclude filter can only be used on arrays and objects")),
    }
}

} // verus!
