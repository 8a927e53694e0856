//! Text for the user.

use crate::names::names_of;
use vstd::prelude::*;

verus! {

/// The first `count` items, each on a line of its own, indented by four
/// spaces, with a comma behind every item but the last.
pub open spec fn item_lines(items: Seq<Seq<char>>, count: int) -> Seq<char>
    decreases count,
{
    if count <= 0 {
        Seq::empty()
    } else if count == 1 {
        "    "@ + items[0]
    } else {
        item_lines(items, count - 1) + ",\n    "@ + items[count - 1]
    }
}

/// A list as it is shown: a line with `[`, the items, and a line with `]`.
pub open spec fn list_text(items: Seq<Seq<char>>) -> Seq<char> {
    "[\n"@ + item_lines(items, items.len() as int) + "\n]\n"@
}

/// The text that shows a list of items.
pub fn print_iter(items: &Vec<String>) -> (text: String)
    ensures
        text@ == list_text(names_of(items@)),
{
    let ghost all = names_of(items@);
    let mut text = String::from_str("[\n");
    let mut i: usize = 0;
    while i < items.len()
        invariant
            i <= items.len(),
            all == names_of(items@),
            text@ == "[\n"@ + item_lines(all, i as int),
        decreases items.len() - i,
    {
        assert(all[i as int] == items@[i as int]@);
        if i == 0 {
            text.append("    ");
        } else {
            text.append(",\n    ");
        }
        text.append(items[i].as_str());
        assert(text@ =~= "[\n"@ + item_lines(all, i + 1));
        i += 1;
    }
    text.append("\n]\n");
    text
}

} // verus!
