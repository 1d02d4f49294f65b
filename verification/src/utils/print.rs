//! Coloured messages for the terminal, and lists written as `{:?}` writes
//! them.
use vstd::prelude::*;
use vstd::string::*;

use crate::text::{debug_form, debug_text, decimal, decimal_text, decimal_usize};

verus! {

/// Terminal code that starts a bold blue label.
pub const INFO_COLOR: &'static str = "\u{1b}[1;34m";

/// Terminal code that starts a bold yellow label.
pub const WARNING_COLOR: &'static str = "\u{1b}[1;33m";

/// Terminal code that starts a bold red label.
pub const ERROR_COLOR: &'static str = "\u{1b}[1;31m";

/// Terminal code that ends a label and resets the colour.
pub const RESET: &'static str = " \u{1b}[0;00m";

/// All of `parts`, one after the other.
pub open spec fn concat_all(parts: Seq<Seq<char>>) -> Seq<char>
    decreases parts.len(),
{
    if parts.len() == 0 {
        Seq::empty()
    } else {
        concat_all(parts.drop_last()) + parts.last()
    }
}

/// The views of a list of strings.
pub open spec fn texts(v: Seq<String>) -> Seq<Seq<char>> {
    v.map_values(|s: String| s@)
}

/// A message line: the label in `color`, then every part of the message.
pub open spec fn styled(color: Seq<char>, label: Seq<char>, message: Seq<Seq<char>>) -> Seq<char> {
    color + label + RESET@ + concat_all(message)
}

fn styled_text(color: &str, label: &str, message: &Vec<String>) -> (r: String)
    ensures
        r@ == styled(color@, label@, texts(message@)),
{
    let mut result = String::new();
    result.append(color);
    result.append(label);
    result.append(RESET);
    let mut i: usize = 0;
    while i < message.len()
        invariant
            i <= message@.len(),
            result@ == color@ + label@ + RESET@ + concat_all(texts(message@.take(i as int))),
        decreases message@.len() - i,
    {
        assert(texts(message@.take(i + 1)).drop_last() =~= texts(message@.take(i as int)));
        result.append(message[i].as_str());
        i += 1;
    }
    assert(message@.take(i as int) =~= message@);
    result
}

/// An information line: `label` in blue, then the parts of `message`.
pub fn info(label: &str, message: &Vec<String>) -> (r: String)
    ensures
        r@ == styled(INFO_COLOR@, label@, texts(message@)),
{
    styled_text(INFO_COLOR, label, message)
}

/// A warning line: `label` in yellow, then the parts of `message`.
pub fn warning(label: &str, message: &Vec<String>) -> (r: String)
    ensures
        r@ == styled(WARNING_COLOR@, label@, texts(message@)),
{
    styled_text(WARNING_COLOR, label, message)
}

/// An error line: `label` in red, then the parts of `message`.
pub fn error(label: &str, message: &Vec<String>) -> (r: String)
    ensures
        r@ == styled(ERROR_COLOR@, label@, texts(message@)),
{
    styled_text(ERROR_COLOR, label, message)
}

// ---------------------------------------------------------------------------
// Lists
// ---------------------------------------------------------------------------

/// `items` one after the other, with `, ` between two of them.
pub open spec fn joined(items: Seq<Seq<char>>) -> Seq<char>
    decreases items.len(),
{
    if items.len() == 0 {
        Seq::empty()
    } else if items.len() == 1 {
        items[0]
    } else {
        joined(items.drop_last()) + ", "@ + items.last()
    }
}

/// The list of `items`, as `{:?}` writes a list: in square brackets, with
/// `, ` between two items.
pub open spec fn list_text(items: Seq<Seq<char>>) -> Seq<char> {
    "["@ + joined(items) + "]"@
}

/// The decimal forms of `v`.
pub open spec fn usize_items(v: Seq<usize>) -> Seq<Seq<char>> {
    v.map_values(|x: usize| decimal(x as int))
}

/// The decimal forms of `v`.
pub open spec fn i32_items(v: Seq<i32>) -> Seq<Seq<char>> {
    v.map_values(|x: i32| decimal(x as int))
}

/// The debug forms of `v`.
pub open spec fn debug_items(v: Seq<Seq<char>>) -> Seq<Seq<char>> {
    v.map_values(|x: Seq<char>| debug_form(x))
}

/// The list of `items`, in square brackets and separated by `, `.
pub fn list_string(items: &Vec<String>) -> (r: String)
    ensures
        r@ == list_text(texts(items@)),
{
    let mut r = "[".to_owned();
    let mut i: usize = 0;
    while i < items.len()
        invariant
            i <= items@.len(),
            r@ == "["@ + joined(texts(items@.take(i as int))),
        decreases items@.len() - i,
    {
        assert(texts(items@.take(i + 1)).drop_last() =~= texts(items@.take(i as int)));
        if i > 0 {
            r.append(", ");
        } else {
            assert(texts(items@.take(1)) =~= seq![items@[0]@]);
        }
        r.append(items[i].as_str());
        i += 1;
    }
    assert(items@.take(i as int) =~= items@);
    r.append("]");
    r
}

/// `v` as `{:?}` writes it.
pub fn usize_list(v: &Vec<usize>) -> (r: String)
    ensures
        r@ == list_text(usize_items(v@)),
{
    let mut items: Vec<String> = Vec::new();
    let mut i: usize = 0;
    while i < v.len()
        invariant
            i <= v@.len(),
            texts(items@) == usize_items(v@.take(i as int)),
        decreases v@.len() - i,
    {
        let ghost before = texts(items@);
        let t = decimal_usize(v[i]);
        items.push(t);
        assert(v@.take(i + 1) =~= v@.take(i as int).push(v@[i as int]));
        assert(texts(items@) =~= before.push(t@));
        assert(usize_items(v@.take(i + 1)) =~= usize_items(v@.take(i as int)).push(decimal(v@[i as int] as int)));
        i += 1;
    }
    assert(v@.take(i as int) =~= v@);
    list_string(&items)
}

/// `v` as `{:?}` writes it.
pub fn i32_list(v: &Vec<i32>) -> (r: String)
    ensures
        r@ == list_text(i32_items(v@)),
{
    let mut items: Vec<String> = Vec::new();
    let mut i: usize = 0;
    while i < v.len()
        invariant
            i <= v@.len(),
            texts(items@) == i32_items(v@.take(i as int)),
        decreases v@.len() - i,
    {
        let ghost before = texts(items@);
        let t = decimal_text(v[i]);
        items.push(t);
        assert(v@.take(i + 1) =~= v@.take(i as int).push(v@[i as int]));
        assert(texts(items@) =~= before.push(t@));
        assert(i32_items(v@.take(i + 1)) =~= i32_items(v@.take(i as int)).push(decimal(v@[i as int] as int)));
        i += 1;
    }
    assert(v@.take(i as int) =~= v@);
    list_string(&items)
}

/// `v` as `{:?}` writes it.
pub fn string_list(v: &Vec<String>) -> (r: String)
    ensures
        r@ == list_text(debug_items(texts(v@))),
{
    let mut items: Vec<String> = Vec::new();
    let mut i: usize = 0;
    while i < v.len()
        invariant
            i <= v@.len(),
            texts(items@) == debug_items(texts(v@.take(i as int))),
        decreases v@.len() - i,
    {
        let ghost before = texts(items@);
        let t = debug_text(v[i].as_str());
        items.push(t);
        assert(v@.take(i + 1) =~= v@.take(i as int).push(v@[i as int]));
        assert(texts(items@) =~= before.push(t@));
        assert(debug_items(texts(v@.take(i + 1))) =~= debug_items(texts(v@.take(i as int))).push(debug_form(v@[i as int]@)));
        i += 1;
    }
    assert(v@.take(i as int) =~= v@);
    list_string(&items)
}

} // verus!
